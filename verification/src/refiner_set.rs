//! The set of all refiners: bonding, unbonding, activation, slashing and the
//! bookkeeping (active set, changed refiners, unbonding queue) around them.
use crate::account::dec_str;
use crate::constants::{EPOCH, FLAKES_PER_OPL};
use crate::emission::{floor_sqrt, integer_sqrt_floor, lemma_floor_sqrt};
use crate::keyed::{
    find_key, keys_unique, lemma_push_unique, lemma_to_map_contains, lemma_to_map_index,
    lemma_to_map_push, lemma_to_map_update, to_map,
};
use crate::refiner::{
    active_limit_spec, added_entries, fifo_remove, lemma_issued_sqrt_bound, minimum_bond_spec,
    saturate, stake_sum, BondEntry, PendingUnbond, RefinerInfo,
};
use crate::text::decimal_string;
use crate::types::{id_eq, FlakeAmount, ObjectId, RefinerStatus};
use vstd::prelude::*;

verus! {

/// The sequence without the elements equal to `id`.
pub open spec fn without_id(s: Seq<ObjectId>, id: ObjectId) -> Seq<ObjectId>
    decreases s.len(),
{
    if s.len() == 0 {
        s
    } else if s.last() == id {
        without_id(s.drop_last(), id)
    } else {
        without_id(s.drop_last(), id).push(s.last())
    }
}

/// Removing `id` twice removes nothing more.
pub proof fn lemma_without_id_twice(s: Seq<ObjectId>, id: ObjectId)
    ensures
        without_id(without_id(s, id), id) == without_id(s, id),
    decreases s.len(),
{
    if s.len() > 0 {
        lemma_without_id_twice(s.drop_last(), id);
        let t = without_id(s.drop_last(), id);
        if s.last() != id {
            assert(t.push(s.last()).drop_last() =~= t);
        }
    }
}

/// Removes every occurrence of `id`.
fn remove_id(v: &mut Vec<ObjectId>, id: &ObjectId)
    ensures
        final(v)@ == without_id(old(v)@, *id),
{
    let ghost s = v@;
    let mut out: Vec<ObjectId> = Vec::new();
    let mut i: usize = 0;
    while i < v.len()
        invariant
            i <= s.len(),
            s == v@,
            out@ == without_id(s.take(i as int), *id),
        decreases s.len() - i,
    {
        proof {
            assert(s.take(i as int + 1).drop_last() =~= s.take(i as int));
        }
        if !id_eq(&v[i], id) {
            out.push(v[i]);
        }
        i = i + 1;
    }
    assert(s.take(i as int) =~= s);
    *v = out;
}

/// Whether `v` contains `id`.
fn contains_id(v: &Vec<ObjectId>, id: &ObjectId) -> (b: bool)
    ensures
        b == v@.contains(*id),
{
    let mut i: usize = 0;
    while i < v.len()
        invariant
            i <= v@.len(),
            forall|j: int| 0 <= j < i ==> v@[j] != *id,
        decreases v@.len() - i,
    {
        if id_eq(&v[i], id) {
            assert(v@[i as int] == *id);
            return true;
        }
        i = i + 1;
    }
    false
}

/// The set of all bonded refiners.
#[derive(Debug)]
pub struct RefinerSet {
    refiners: Vec<(ObjectId, RefinerInfo)>,
    active_set: Vec<ObjectId>,
    /// Refiners changed since the state root was last committed (no repeats).
    pub dirty_refiners: Vec<ObjectId>,
    /// Withdrawals waiting for maturity, oldest first.
    pub unbonding_queue: Vec<PendingUnbond>,
}

impl View for RefinerSet {
    type V = Map<ObjectId, RefinerInfo>;

    closed spec fn view(&self) -> Map<ObjectId, RefinerInfo> {
        to_map(self.refiners@)
    }
}

/// `info` with another status.
pub open spec fn with_status(info: RefinerInfo, status: RefinerStatus) -> RefinerInfo {
    RefinerInfo { status, ..info }
}

impl RefinerSet {
    /// The invariant: no refiner is stored twice, no changed refiner is
    /// listed twice.
    pub closed spec fn wf(&self) -> bool {
        &&& keys_unique(self.refiners@)
        &&& self.dirty_refiners@.no_duplicates()
    }

    /// The identifiers in the active set, in the order they were activated.
    pub closed spec fn active_ids(&self) -> Seq<ObjectId> {
        self.active_set@
    }

    /// The refiners changed since the last commit.
    pub closed spec fn dirty(&self) -> Set<ObjectId> {
        self.dirty_refiners@.to_set()
    }

    /// The pending withdrawals, oldest first.
    pub closed spec fn queue(&self) -> Seq<PendingUnbond> {
        self.unbonding_queue@
    }

    /// An empty set.
    pub fn new() -> (s: RefinerSet)
        ensures
            s.wf(),
            s@ == Map::<ObjectId, RefinerInfo>::empty(),
            s.active_ids() == Seq::<ObjectId>::empty(),
            s.dirty() == Set::<ObjectId>::empty(),
            s.queue() == Seq::<PendingUnbond>::empty(),
    {
        let s = RefinerSet {
            refiners: Vec::new(),
            active_set: Vec::new(),
            dirty_refiners: Vec::new(),
            unbonding_queue: Vec::new(),
        };
        assert(s.dirty() =~= Set::<ObjectId>::empty());
        s
    }

    /// Forgets which refiners changed (after the state root was committed).
    pub fn clear_dirty(&mut self)
        requires
            old(self).wf(),
        ensures
            final(self).wf(),
            final(self)@ == old(self)@,
            final(self).active_ids() == old(self).active_ids(),
            final(self).dirty() == Set::<ObjectId>::empty(),
            final(self).queue() == old(self).queue(),
    {
        self.dirty_refiners = Vec::new();
        assert(self.dirty() =~= Set::<ObjectId>::empty());
    }

    /// Records that `id` changed.
    fn mark_dirty(&mut self, id: ObjectId)
        requires
            old(self).wf(),
        ensures
            final(self).wf(),
            final(self).refiners@ == old(self).refiners@,
            final(self).active_set@ == old(self).active_set@,
            final(self).dirty() == old(self).dirty().insert(id),
            final(self).unbonding_queue@ == old(self).unbonding_queue@,
    {
        if !contains_id(&self.dirty_refiners, &id) {
            self.dirty_refiners.push(id);
            proof {
                let d = self.dirty_refiners@;
                assert forall|i: int, j: int|
                    0 <= i < d.len() && 0 <= j < d.len() && i != j implies d[i] != d[j] by {
                    if i == d.len() - 1 {
                        assert(!old(self).dirty_refiners@.contains(d[j]) || d[j] != id);
                    }
                    if j == d.len() - 1 {
                        assert(old(self).dirty_refiners@.contains(d[i]));
                    }
                }
            }
        }
        proof {
            assert forall|x: ObjectId| self.dirty_refiners@.contains(x) <==> (old(
                self,
            ).dirty_refiners@.contains(x) || x == id) by {
                if self.dirty_refiners@.contains(x) && self.dirty_refiners@ != old(self).dirty_refiners@ {
                    let k = choose|k: int| 0 <= k < self.dirty_refiners@.len() && self.dirty_refiners@[k] == x;
                    if k < old(self).dirty_refiners@.len() {
                        assert(old(self).dirty_refiners@[k] == x);
                    }
                }
                if old(self).dirty_refiners@.contains(x) {
                    let k = choose|k: int| 0 <= k < old(self).dirty_refiners@.len() && old(self).dirty_refiners@[k] == x;
                    assert(self.dirty_refiners@[k] == x);
                }
                if x == id && self.dirty_refiners@ != old(self).dirty_refiners@ {
                    assert(self.dirty_refiners@[self.dirty_refiners@.len() - 1] == x);
                }
            }
            assert(self.dirty() =~= old(self).dirty().insert(id));
        }
    }

    /// The smallest stake of a new bond entry:
    /// `max(1, ⌊√(issued OPL)⌋)` OPL.
    pub fn minimum_bond_stake(total_issued_flakes: FlakeAmount) -> (m: FlakeAmount)
        ensures
            m == minimum_bond_spec(total_issued_flakes),
    {
        let total_issued_opl = total_issued_flakes / FLAKES_PER_OPL;
        let root = integer_sqrt_floor(total_issued_opl as u128);
        proof {
            lemma_issued_sqrt_bound(total_issued_flakes);
        }
        let min_opl: u64 = if root < 1 {
            1
        } else {
            root as u64
        };
        min_opl * FLAKES_PER_OPL
    }

    /// The number of active-refiner slots: `EPOCH + ⌊√(issued OPL)⌋`.
    pub fn active_refiner_limit(total_issued_flakes: FlakeAmount) -> (n: usize)
        ensures
            n == active_limit_spec(total_issued_flakes),
    {
        let total_issued_opl = total_issued_flakes / FLAKES_PER_OPL;
        let root = integer_sqrt_floor(total_issued_opl as u128);
        proof {
            lemma_issued_sqrt_bound(total_issued_flakes);
        }
        (EPOCH as usize) + (root as usize)
    }

    /// The refiner stored under `object_id`, if any.
    pub fn get_refiner(&self, object_id: &ObjectId) -> (r: Option<&RefinerInfo>)
        requires
            self.wf(),
        ensures
            r is Some <==> self@.contains_key(*object_id),
            r matches Some(v) ==> *v == self@[*object_id],
    {
        match find_key(&self.refiners, object_id) {
            Some(i) => {
                proof {
                    lemma_to_map_index(self.refiners@, i as int);
                }
                Some(&self.refiners[i].1)
            },
            None => {
                proof {
                    lemma_to_map_contains(self.refiners@, *object_id);
                }
                None
            },
        }
    }

    /// The identifiers of the active set.
    pub fn active_set_ids(&self) -> (r: &Vec<ObjectId>)
        ensures
            r@ == self.active_ids(),
    {
        &self.active_set
    }

    /// Number of identifiers in the active set.
    pub fn total_active_refiners(&self) -> (n: usize)
        ensures
            n == self.active_ids().len(),
    {
        self.active_set.len()
    }

    /// Number of stored refiners.
    pub fn refiner_count(&self) -> (n: usize)
        requires
            self.wf(),
        ensures
            n == self@.len(),
    {
        proof {
            crate::account::lemma_map_len(self.refiners@);
        }
        self.refiners.len()
    }
}


/// The message refusing a bond entry below the minimum.
pub open spec fn insufficient_stake_msg(need: u64, have: u64) -> Seq<char> {
    "Insufficient stake per entry: need "@ + dec_str(need) + ", have "@ + dec_str(have)
}

/// The message refusing to unbond more than the stake.
pub open spec fn unbond_too_much_msg(requested: u64, available: u64) -> Seq<char> {
    "Cannot unbond more than total stake: requested "@ + dec_str(requested) + ", available "@
        + dec_str(available)
}

/// Whether `new` is `old` after a successful bond of `stake` by `id`.
pub open spec fn bond_applied(old: &RefinerSet, new: &RefinerSet, id: ObjectId, stake: u64, height: u64, timestamp: u64) -> bool {
    let w = new@[id];
    &&& new@ == old@.insert(id, w)
    &&& new.dirty() == old.dirty().insert(id)
    &&& new.active_ids() == old.active_ids()
    &&& new.queue() == old.queue()
    &&& if old@.contains_key(id) {
        let v = old@[id];
        &&& w.entries@ == added_entries(v.entries@, stake, height, timestamp)->0
        &&& w.status == (if v.status == RefinerStatus::Unbonding { RefinerStatus::Bonding } else { v.status })
        &&& w.object_id == v.object_id
        &&& w.last_signed_height == v.last_signed_height
        &&& w.consecutive_correct_attestations == v.consecutive_correct_attestations
    } else {
        &&& w.object_id == id
        &&& w.entries@ == seq![BondEntry { stake, bonded_at_height: height, bonded_at_timestamp: timestamp }]
        &&& w.status == RefinerStatus::Bonding
        &&& w.last_signed_height == 0
        &&& w.consecutive_correct_attestations == 0
    }
}

/// Whether a bond of `stake` by `id` succeeds.
pub open spec fn bond_succeeds(m: Map<ObjectId, RefinerInfo>, id: ObjectId, stake: u64, height: u64, timestamp: u64, total_issued: u64) -> bool {
    &&& stake >= minimum_bond_spec(total_issued)
    &&& m.contains_key(id) ==> m[id].status != RefinerStatus::Slashed && added_entries(m[id].entries@, stake, height, timestamp) is Some
}

/// Whether `new` is `old` after `id` successfully unbonded `amount`.
pub open spec fn unbond_applied(old: &RefinerSet, new: &RefinerSet, id: ObjectId, amount: u64, height: u64) -> bool {
    let v = old@[id];
    let w = new@[id];
    &&& new@ == old@.insert(id, w)
    &&& w.entries@ == fifo_remove(v.entries@, amount as nat)
    &&& w.status == (if w.entries@.len() == 0 { RefinerStatus::Unbonding } else { v.status })
    &&& w.object_id == v.object_id
    &&& w.last_signed_height == v.last_signed_height
    &&& w.consecutive_correct_attestations == v.consecutive_correct_attestations
    &&& new.queue() == old.queue().push(PendingUnbond { account: id, amount, matures_at: saturate(height + EPOCH) as u64 })
    &&& new.active_ids() == (if w.entries@.len() == 0 { without_id(old.active_ids(), id) } else { old.active_ids() })
    &&& new.dirty() == old.dirty().insert(id)
}

/// Whether an unbond of `amount` by `id` succeeds.
pub open spec fn unbond_succeeds(m: Map<ObjectId, RefinerInfo>, id: ObjectId, amount: u64) -> bool {
    m.contains_key(id) && 0 < amount <= saturate(m[id].stake())
}

impl RefinerSet {
    /// Whether two sets agree on everything but the refiners.
    pub open spec fn same_books(&self, other: &RefinerSet) -> bool {
        &&& self.active_ids() == other.active_ids()
        &&& self.dirty() == other.dirty()
        &&& self.queue() == other.queue()
    }

    /// Sets the status of the refiner at position `i`.
    fn set_status_at(&mut self, i: usize, status: RefinerStatus)
        requires
            old(self).wf(),
            i < old(self).refiners@.len(),
        ensures
            final(self).wf(),
            final(self).refiners@.len() == old(self).refiners@.len(),
            final(self).refiners@[i as int].0 == old(self).refiners@[i as int].0,
            final(self)@ == old(self)@.insert(
                old(self).refiners@[i as int].0,
                with_status(old(self).refiners@[i as int].1, status),
            ),
            final(self).same_books(old(self)),
            final(self).active_set@ == old(self).active_set@,
            final(self).dirty_refiners@ == old(self).dirty_refiners@,
    {
        proof {
            lemma_to_map_update(self.refiners@, i as int, with_status(self.refiners@[i as int].1, status));
        }
        self.refiners[i].1.status = status;
        proof {
            assert(self.refiners@ =~= old(self).refiners@.update(
                i as int,
                (old(self).refiners@[i as int].0, with_status(old(self).refiners@[i as int].1, status)),
            ));
        }
    }

    /// Bonds `stake` for `object_id`: a new refiner (status `Bonding`) with
    /// one entry, or a top-up of an existing one (merged into an entry with
    /// the same timestamp, else a new entry in timestamp order), which returns
    /// an `Unbonding` refiner to `Bonding`. Each bond must reach the dynamic
    /// minimum; slashed refiners cannot bond again. Refusals change nothing.
    pub fn bond(
        &mut self,
        object_id: ObjectId,
        stake: FlakeAmount,
        height: u64,
        timestamp: u64,
        total_issued_flakes: FlakeAmount,
    ) -> (r: Result<(), String>)
        requires
            old(self).wf(),
        ensures
            final(self).wf(),
            r is Err ==> final(self)@ == old(self)@ && final(self).same_books(old(self)),
            stake < minimum_bond_spec(total_issued_flakes) ==> (r matches Err(m) && m@
                == insufficient_stake_msg(minimum_bond_spec(total_issued_flakes) as u64, stake)),
            stake >= minimum_bond_spec(total_issued_flakes) && old(self)@.contains_key(object_id)
                && old(self)@[object_id].status == RefinerStatus::Slashed ==> (r matches Err(m)
                && m@ == "Slashed refiners cannot re-bond"@),
            stake >= minimum_bond_spec(total_issued_flakes) && old(self)@.contains_key(object_id)
                && old(self)@[object_id].status != RefinerStatus::Slashed && added_entries(
                old(self)@[object_id].entries@,
                stake,
                height,
                timestamp,
            ) is None ==> (r matches Err(m) && m@ == crate::refiner::bond_overflow_msg(
                old(self)@[object_id].entries@[crate::refiner::first_index_with_ts(
                    old(self)@[object_id].entries@,
                    timestamp,
                )].stake,
                stake,
            )),
            stake >= minimum_bond_spec(total_issued_flakes) && old(self)@.contains_key(object_id)
                && old(self)@[object_id].status != RefinerStatus::Slashed && added_entries(
                old(self)@[object_id].entries@,
                stake,
                height,
                timestamp,
            ) is Some ==> {
                let v = old(self)@[object_id];
                let w = final(self)@[object_id];
                &&& r is Ok
                &&& final(self)@ == old(self)@.insert(object_id, w)
                &&& w.entries@ == added_entries(v.entries@, stake, height, timestamp)->0
                &&& w.status == (if v.status == RefinerStatus::Unbonding {
                    RefinerStatus::Bonding
                } else {
                    v.status
                })
                &&& w.object_id == v.object_id
                &&& w.last_signed_height == v.last_signed_height
                &&& w.consecutive_correct_attestations == v.consecutive_correct_attestations
                &&& w.stake() == v.stake() + stake
            },
            stake >= minimum_bond_spec(total_issued_flakes) && !old(self)@.contains_key(object_id)
                ==> {
                let w = final(self)@[object_id];
                &&& r is Ok
                &&& final(self)@ == old(self)@.insert(object_id, w)
                &&& w.object_id == object_id
                &&& w.entries@ == seq![
                    BondEntry { stake, bonded_at_height: height, bonded_at_timestamp: timestamp },
                ]
                &&& w.status == RefinerStatus::Bonding
                &&& w.last_signed_height == 0
                &&& w.consecutive_correct_attestations == 0
            },
            r is Ok ==> final(self).dirty() == old(self).dirty().insert(object_id)
                && final(self).active_ids() == old(self).active_ids() && final(self).queue()
                == old(self).queue(),
            r is Ok <==> bond_succeeds(old(self)@, object_id, stake, height, timestamp, total_issued_flakes),
            r is Ok ==> bond_applied(old(self), final(self), object_id, stake, height, timestamp),
    {
        let minimum_bond = Self::minimum_bond_stake(total_issued_flakes);
        if stake < minimum_bond {
            let mut m = String::from_str("Insufficient stake per entry: need ");
            m.append(decimal_string(minimum_bond).as_str());
            m.append(", have ");
            m.append(decimal_string(stake).as_str());
            return Err(m);
        }
        match find_key(&self.refiners, &object_id) {
            Some(i) => {
                proof {
                    lemma_to_map_index(self.refiners@, i as int);
                }
                if self.refiners[i].1.status == RefinerStatus::Slashed {
                    return Err(String::from_str("Slashed refiners cannot re-bond"));
                }
                let ghost v = self.refiners@[i as int].1;
                let res = self.refiners[i].1.add_entry(stake, height, timestamp);
                match res {
                    Err(m) => {
                        proof {
                            assert(self.refiners@ =~= old(self).refiners@.update(
                                i as int,
                                (object_id, self.refiners@[i as int].1),
                            ));
                            assert(self.refiners@[i as int].1 == v);
                            assert(self.refiners@ =~= old(self).refiners@);
                        }
                        return Err(m);
                    },
                    Ok(()) => {},
                }
                let ghost w0 = self.refiners@[i as int].1;
                proof {
                    lemma_to_map_update(old(self).refiners@, i as int, w0);
                    assert(self.refiners@ =~= old(self).refiners@.update(i as int, (object_id, w0)));
                }
                if self.refiners[i].1.status == RefinerStatus::Unbonding {
                    self.set_status_at(i, RefinerStatus::Bonding);
                }
                proof {
                    lemma_to_map_index(self.refiners@, i as int);
                }
                self.mark_dirty(object_id);
            },
            None => {
                proof {
                    lemma_to_map_contains(self.refiners@, object_id);
                }
                let info = RefinerInfo::new_refiner(object_id, stake, height, timestamp);
                proof {
                    lemma_push_unique(self.refiners@, object_id, info);
                    lemma_to_map_push(self.refiners@, object_id, info);
                }
                self.refiners.push((object_id, info));
                self.mark_dirty(object_id);
            },
        }
        Ok(())
    }
}


/// The total amount queued for `id`.
pub open spec fn pending_for(q: Seq<PendingUnbond>, id: ObjectId) -> int
    decreases q.len(),
{
    if q.len() == 0 {
        0
    } else {
        pending_for(q.drop_last(), id) + if q.last().account == id {
            q.last().amount as int
        } else {
            0
        }
    }
}

/// The queue without the entries for `id`, in order.
pub open spec fn queue_without(q: Seq<PendingUnbond>, id: ObjectId) -> Seq<PendingUnbond>
    decreases q.len(),
{
    if q.len() == 0 {
        q
    } else if q.last().account == id {
        queue_without(q.drop_last(), id)
    } else {
        queue_without(q.drop_last(), id).push(q.last())
    }
}

/// The entries with all stake removed.
pub open spec fn zero_stakes(s: Seq<BondEntry>) -> Seq<BondEntry> {
    s.map_values(|e: BondEntry| BondEntry { stake: 0, ..e })
}

impl RefinerSet {
    /// The stored refiner at position `i`, after a change made through a
    /// mutable borrow of it, stands for the map with that refiner replaced.
    proof fn lemma_replaced(old_s: Seq<(ObjectId, RefinerInfo)>, new_s: Seq<(ObjectId, RefinerInfo)>, i: int)
        requires
            keys_unique(old_s),
            0 <= i < old_s.len(),
            new_s == old_s.update(i, (old_s[i].0, new_s[i].1)),
        ensures
            keys_unique(new_s),
            to_map(new_s) == to_map(old_s).insert(old_s[i].0, new_s[i].1),
    {
        lemma_to_map_update(old_s, i, new_s[i].1);
    }

    /// Unbonds `amount` Flakes of a refiner's stake, oldest entries first, and
    /// queues them for withdrawal one epoch later. A refiner left without
    /// entries becomes `Unbonding` and leaves the active set. Refused for an
    /// unknown refiner, a refiner without stake, a zero amount, or more than
    /// the stake; refusals change nothing.
    #[verifier::spinoff_prover]
    pub fn unbond_amount(&mut self, object_id: &ObjectId, amount: FlakeAmount, current_height: u64) -> (r:
        Result<FlakeAmount, String>)
        requires
            old(self).wf(),
        ensures
            final(self).wf(),
            r is Err ==> final(self)@ == old(self)@ && final(self).same_books(old(self)),
            !old(self)@.contains_key(*object_id) ==> (r matches Err(m) && m@ == "Refiner not bonded"@),
            old(self)@.contains_key(*object_id) && saturate(old(self)@[*object_id].stake()) == 0 ==> (
            r matches Err(m) && m@ == "Refiner has no stake"@),
            old(self)@.contains_key(*object_id) && saturate(old(self)@[*object_id].stake()) > 0 && amount
                == 0 ==> (r matches Err(m) && m@ == "Unbond amount must be greater than zero"@),
            old(self)@.contains_key(*object_id) && saturate(old(self)@[*object_id].stake()) > 0 && amount
                > saturate(old(self)@[*object_id].stake()) ==> (r matches Err(m) && m@
                == unbond_too_much_msg(amount, saturate(old(self)@[*object_id].stake()) as u64)),
            old(self)@.contains_key(*object_id) && 0 < amount <= saturate(
                old(self)@[*object_id].stake(),
            ) ==> {
                let v = old(self)@[*object_id];
                let w = final(self)@[*object_id];
                &&& r == Ok::<u64, String>(amount)
                &&& final(self)@ == old(self)@.insert(*object_id, w)
                &&& w.entries@ == fifo_remove(v.entries@, amount as nat)
                &&& w.stake() == v.stake() - amount
                &&& w.status == (if w.entries@.len() == 0 {
                    RefinerStatus::Unbonding
                } else {
                    v.status
                })
                &&& w.object_id == v.object_id
                &&& w.last_signed_height == v.last_signed_height
                &&& w.consecutive_correct_attestations == v.consecutive_correct_attestations
                &&& final(self).queue() == old(self).queue().push(
                    PendingUnbond {
                        account: *object_id,
                        amount,
                        matures_at: saturate(current_height + EPOCH) as u64,
                    },
                )
                &&& final(self).active_ids() == (if w.entries@.len() == 0 {
                    without_id(old(self).active_ids(), *object_id)
                } else {
                    old(self).active_ids()
                })
                &&& final(self).dirty() == old(self).dirty().insert(*object_id)
            },
            r is Ok <==> unbond_succeeds(old(self)@, *object_id, amount),
            r is Ok ==> r == Ok::<u64, String>(amount) && unbond_applied(old(self), final(self), *object_id, amount, current_height),
    {
        let i = match find_key(&self.refiners, object_id) {
            Some(i) => i,
            None => {
                proof {
                    lemma_to_map_contains(self.refiners@, *object_id);
                }
                return Err(String::from_str("Refiner not bonded"));
            },
        };
        proof {
            lemma_to_map_index(self.refiners@, i as int);
        }
        let total_stake = self.refiners[i].1.total_stake();
        if total_stake == 0 {
            return Err(String::from_str("Refiner has no stake"));
        }
        if amount == 0 {
            return Err(String::from_str("Unbond amount must be greater than zero"));
        }
        if amount > total_stake {
            let mut m = String::from_str("Cannot unbond more than total stake: requested ");
            m.append(decimal_string(amount).as_str());
            m.append(", available ");
            m.append(decimal_string(total_stake).as_str());
            return Err(m);
        }
        let unbonded = self.refiners[i].1.unbond_fifo(amount);
        proof {
            Self::lemma_replaced(old(self).refiners@, self.refiners@, i as int);
        }
        let matures_at = current_height.saturating_add(EPOCH);
        self.unbonding_queue.push(PendingUnbond { account: *object_id, amount: unbonded, matures_at });
        if self.refiners[i].1.entries.len() == 0 {
            self.set_status_at(i, RefinerStatus::Unbonding);
            remove_id(&mut self.active_set, object_id);
        }
        proof {
            lemma_to_map_index(self.refiners@, i as int);
        }
        self.mark_dirty(*object_id);
        Ok(unbonded)
    }

    /// Moves a `Bonding` refiner directly to `Active` (and into the active
    /// set), recording `height` as its last signed height.
    pub fn activate(&mut self, object_id: &ObjectId, height: u64) -> (r: Result<(), String>)
        requires
            old(self).wf(),
        ensures
            final(self).wf(),
            r is Err ==> final(self)@ == old(self)@ && final(self).same_books(old(self)),
            !old(self)@.contains_key(*object_id) ==> (r matches Err(m) && m@ == "Refiner not found"@),
            old(self)@.contains_key(*object_id) && old(self)@[*object_id].status
                != RefinerStatus::Bonding ==> (r matches Err(m) && m@
                == "Refiner not in bonding state"@),
            old(self)@.contains_key(*object_id) && old(self)@[*object_id].status
                == RefinerStatus::Bonding ==> {
                let v = old(self)@[*object_id];
                &&& r is Ok
                &&& final(self)@ == old(self)@.insert(
                    *object_id,
                    RefinerInfo { status: RefinerStatus::Active, last_signed_height: height, ..v },
                )
                &&& final(self).active_ids() == (if old(self).active_ids().contains(*object_id) {
                    old(self).active_ids()
                } else {
                    old(self).active_ids().push(*object_id)
                })
                &&& final(self).dirty() == old(self).dirty().insert(*object_id)
                &&& final(self).queue() == old(self).queue()
            },
    {
        let i = match find_key(&self.refiners, object_id) {
            Some(i) => i,
            None => {
                proof {
                    lemma_to_map_contains(self.refiners@, *object_id);
                }
                return Err(String::from_str("Refiner not found"));
            },
        };
        proof {
            lemma_to_map_index(self.refiners@, i as int);
        }
        if self.refiners[i].1.status != RefinerStatus::Bonding {
            return Err(String::from_str("Refiner not in bonding state"));
        }
        let ghost v = self.refiners@[i as int].1;
        self.refiners[i].1.status = RefinerStatus::Active;
        self.refiners[i].1.last_signed_height = height;
        proof {
            assert(self.refiners@ =~= old(self).refiners@.update(i as int, (*object_id, self.refiners@[i as int].1)));
            Self::lemma_replaced(old(self).refiners@, self.refiners@, i as int);
        }
        if !contains_id(&self.active_set, object_id) {
            self.active_set.push(*object_id);
        }
        self.mark_dirty(*object_id);
        Ok(())
    }

    /// Counts one verified attestation of an `Active` refiner and returns its
    /// new count (saturating).
    pub fn record_correct_attestation(&mut self, object_id: &ObjectId) -> (r: Result<u64, String>)
        requires
            old(self).wf(),
        ensures
            final(self).wf(),
            r is Err ==> final(self)@ == old(self)@ && final(self).same_books(old(self)),
            !old(self)@.contains_key(*object_id) ==> (r matches Err(m) && m@
                == "Attestation refiner not found"@),
            old(self)@.contains_key(*object_id) && old(self)@[*object_id].status
                != RefinerStatus::Active ==> (r matches Err(m) && m@
                == "Attestation refiner is not active"@),
            old(self)@.contains_key(*object_id) && old(self)@[*object_id].status
                == RefinerStatus::Active ==> {
                let v = old(self)@[*object_id];
                let c = saturate(v.consecutive_correct_attestations + 1) as u64;
                &&& r == Ok::<u64, String>(c)
                &&& final(self)@ == old(self)@.insert(
                    *object_id,
                    RefinerInfo { consecutive_correct_attestations: c, ..v },
                )
                &&& final(self).active_ids() == old(self).active_ids()
                &&& final(self).dirty() == old(self).dirty().insert(*object_id)
                &&& final(self).queue() == old(self).queue()
            },
    {
        let i = match find_key(&self.refiners, object_id) {
            Some(i) => i,
            None => {
                proof {
                    lemma_to_map_contains(self.refiners@, *object_id);
                }
                return Err(String::from_str("Attestation refiner not found"));
            },
        };
        proof {
            lemma_to_map_index(self.refiners@, i as int);
        }
        if self.refiners[i].1.status != RefinerStatus::Active {
            return Err(String::from_str("Attestation refiner is not active"));
        }
        let c = self.refiners[i].1.consecutive_correct_attestations.saturating_add(1);
        self.refiners[i].1.consecutive_correct_attestations = c;
        proof {
            assert(self.refiners@ =~= old(self).refiners@.update(i as int, (*object_id, self.refiners@[i as int].1)));
            Self::lemma_replaced(old(self).refiners@, self.refiners@, i as int);
        }
        self.mark_dirty(*object_id);
        Ok(c)
    }
}


/// The identifiers of `s`, in order, without those in `gone`.
pub open spec fn retained_ids(s: Seq<ObjectId>, gone: Set<ObjectId>) -> Seq<ObjectId>
    decreases s.len(),
{
    if s.len() == 0 {
        s
    } else if gone.contains(s.last()) {
        retained_ids(s.drop_last(), gone)
    } else {
        retained_ids(s.drop_last(), gone).push(s.last())
    }
}

/// The keys of `a` that `b` no longer has.
pub open spec fn removed_keys(a: Map<ObjectId, RefinerInfo>, b: Map<ObjectId, RefinerInfo>) -> Set<ObjectId> {
    Set::new(|k: ObjectId| a.contains_key(k) && !b.contains_key(k))
}

/// Removing one more identifier from the retained ones.
proof fn lemma_retained_without(s: Seq<ObjectId>, gone: Set<ObjectId>, id: ObjectId)
    ensures
        without_id(retained_ids(s, gone), id) == retained_ids(s, gone.insert(id)),
    decreases s.len(),
{
    if s.len() > 0 {
        let d = s.drop_last();
        let l = s.last();
        lemma_retained_without(d, gone, id);
        let r = retained_ids(d, gone);
        if gone.contains(l) {
            assert(gone.insert(id).contains(l));
        } else if l == id {
            assert(r.push(l).drop_last() =~= r);
            assert(gone.insert(id).contains(l));
        } else {
            assert(r.push(l).drop_last() =~= r);
            assert(!gone.insert(id).contains(l));
        }
    }
}

/// Nothing gone, nothing removed.
proof fn lemma_retained_none(s: Seq<ObjectId>)
    ensures
        retained_ids(s, Set::empty()) == s,
    decreases s.len(),
{
    if s.len() > 0 {
        lemma_retained_none(s.drop_last());
        assert(s.drop_last().push(s.last()) =~= s);
    }
}

/// The matured withdrawals of a queue at `height`, as (account, amount), in
/// queue order.
pub open spec fn matured_of(q: Seq<PendingUnbond>, height: u64) -> Seq<(ObjectId, u64)>
    decreases q.len(),
{
    if q.len() == 0 {
        Seq::empty()
    } else if height >= q.last().matures_at {
        matured_of(q.drop_last(), height).push((q.last().account, q.last().amount))
    } else {
        matured_of(q.drop_last(), height)
    }
}

/// The withdrawals of a queue not yet matured at `height`, in queue order.
pub open spec fn pending_of(q: Seq<PendingUnbond>, height: u64) -> Seq<PendingUnbond>
    decreases q.len(),
{
    if q.len() == 0 {
        q
    } else if height >= q.last().matures_at {
        pending_of(q.drop_last(), height)
    } else {
        pending_of(q.drop_last(), height).push(q.last())
    }
}

/// Whether a queue holds a withdrawal for `id`.
pub open spec fn queued_for(q: Seq<PendingUnbond>, id: ObjectId) -> bool {
    exists|i: int| 0 <= i < q.len() && #[trigger] q[i].account == id
}

/// Splits the queue into matured (returned) and pending (kept) entries.
fn split_matured(q: &Vec<PendingUnbond>, height: u64) -> (r: (Vec<(ObjectId, u64)>, Vec<PendingUnbond>))
    ensures
        r.0@ == matured_of(q@, height),
        r.1@ == pending_of(q@, height),
{
    let mut matured: Vec<(ObjectId, u64)> = Vec::new();
    let mut remaining: Vec<PendingUnbond> = Vec::new();
    let mut i: usize = 0;
    while i < q.len()
        invariant
            i <= q@.len(),
            matured@ == matured_of(q@.take(i as int), height),
            remaining@ == pending_of(q@.take(i as int), height),
        decreases q@.len() - i,
    {
        proof {
            assert(q@.take(i as int + 1).drop_last() =~= q@.take(i as int));
        }
        let e = q[i];
        if height >= e.matures_at {
            matured.push((e.account, e.amount));
        } else {
            remaining.push(e);
        }
        i = i + 1;
    }
    assert(q@.take(i as int) =~= q@);
    (matured, remaining)
}

/// Whether the queue holds a withdrawal for `id`.
fn queue_has(q: &Vec<PendingUnbond>, id: &ObjectId) -> (b: bool)
    ensures
        b == queued_for(q@, *id),
{
    let mut i: usize = 0;
    while i < q.len()
        invariant
            i <= q@.len(),
            forall|j: int| 0 <= j < i ==> q@[j].account != *id,
        decreases q@.len() - i,
    {
        if id_eq(&q[i].account, id) {
            assert(q@[i as int].account == *id);
            return true;
        }
        i = i + 1;
    }
    false
}

impl RefinerSet {
    /// The matured withdrawals at `current_height`, without removing them.
    pub fn matured_unbonds(&self, current_height: u64) -> (r: Vec<(ObjectId, FlakeAmount)>)
        ensures
            r@ == matured_of(self.queue(), current_height),
    {
        let (m, _) = split_matured(&self.unbonding_queue, current_height);
        m
    }

    /// Removes the refiner stored under `id`, and `id` from the active set.
    pub(crate) fn remove_refiner(&mut self, id: &ObjectId)
        requires
            old(self).wf(),
        ensures
            final(self).wf(),
            final(self)@ == old(self)@.remove(*id),
            final(self).active_ids() == without_id(old(self).active_ids(), *id),
            final(self).dirty() == old(self).dirty(),
            final(self).queue() == old(self).queue(),
    {
        match find_key(&self.refiners, id) {
            Some(i) => {
                proof {
                    crate::keyed::lemma_to_map_remove(self.refiners@, i as int);
                }
                self.refiners.remove(i);
            },
            None => {
                proof {
                    lemma_to_map_contains(self.refiners@, *id);
                    assert(to_map(self.refiners@).remove(*id) =~= to_map(self.refiners@));
                }
            },
        }
        remove_id(&mut self.active_set, id);
    }

    /// Pays out the matured withdrawals at `current_height`: they leave the
    /// queue and are returned (the caller credits the accounts). A refiner
    /// with a paid-out withdrawal that is `Unbonding`, has no stake and no
    /// other pending withdrawal is removed.
    pub fn process_matured_unbonds(&mut self, current_height: u64) -> (r: Vec<(ObjectId, FlakeAmount)>)
        requires
            old(self).wf(),
        ensures
            final(self).wf(),
            r@ == matured_of(old(self).queue(), current_height),
            final(self).queue() == pending_of(old(self).queue(), current_height),
            final(self).dirty() == old(self).dirty(),
            forall|k: ObjectId|
                #![trigger final(self)@.contains_key(k)]
                #![trigger old(self)@.contains_key(k)]
                final(self)@.contains_key(k) <==> (old(self)@.contains_key(k) && !(
                exists|j: int| 0 <= j < r@.len() && #[trigger] r@[j].0 == k) || old(
                self,
            )@.contains_key(k) && !(old(self)@[k].status == RefinerStatus::Unbonding && saturate(
                old(self)@[k].stake(),
            ) == 0 && !queued_for(final(self).queue(), k))),
            forall|k: ObjectId| #[trigger] final(self)@.contains_key(k) ==> final(self)@[k] == old(
                self,
            )@[k],
            final(self).active_ids() == retained_ids(old(self).active_ids(), removed_keys(old(self)@, final(self)@)),
    {
        let (matured, remaining) = split_matured(&self.unbonding_queue, current_height);
        self.unbonding_queue = remaining;
        proof {
            assert(removed_keys(old(self)@, self@) =~= Set::<ObjectId>::empty());
            lemma_retained_none(old(self).active_ids());
        }
        let mut i: usize = 0;
        while i < matured.len()
            invariant
                i <= matured@.len(),
                self.wf(),
                self.queue() == pending_of(old(self).queue(), current_height),
                self.dirty() == old(self).dirty(),
                matured@ == matured_of(old(self).queue(), current_height),
                forall|k: ObjectId|
                    #![trigger self@.contains_key(k)]
                    self@.contains_key(k) <==> (old(self)@.contains_key(k) && !(exists|j: int|
                        0 <= j < i && #[trigger] matured@[j].0 == k) || old(self)@.contains_key(k)
                        && !(old(self)@[k].status == RefinerStatus::Unbonding && saturate(
                        old(self)@[k].stake(),
                    ) == 0 && !queued_for(self.queue(), k))),
                forall|k: ObjectId| #[trigger] self@.contains_key(k) ==> self@[k] == old(self)@[k],
                self.active_ids() == retained_ids(old(self).active_ids(), removed_keys(old(self)@, self@)),
            decreases matured@.len() - i,
        {
            let account = matured[i].0;
            let ghost before = *self;
            let still_pending = queue_has(&self.unbonding_queue, &account);
            let should_remove = match self.get_refiner(&account) {
                Some(v) => v.status == RefinerStatus::Unbonding && v.total_stake() == 0
                    && !still_pending,
                None => false,
            };
            if should_remove {
                self.remove_refiner(&account);
                proof {
                    lemma_retained_without(old(self).active_ids(), removed_keys(old(self)@, before@), account);
                    assert(removed_keys(old(self)@, self@) =~= removed_keys(old(self)@, before@).insert(account));
                }
            }
            proof {
                assert forall|k: ObjectId| #[trigger]
                    self@.contains_key(k) <==> (old(self)@.contains_key(k) && !(exists|j: int|
                        0 <= j < i + 1 && #[trigger] matured@[j].0 == k) || old(self)@.contains_key(k)
                        && !(old(self)@[k].status == RefinerStatus::Unbonding && saturate(
                        old(self)@[k].stake(),
                    ) == 0 && !queued_for(self.queue(), k))) by {
                    if k == account {
                        assert(matured@[i as int].0 == k);
                    } else {
                        if exists|j: int| 0 <= j < i + 1 && #[trigger] matured@[j].0 == k {
                            let j = choose|j: int| 0 <= j < i + 1 && #[trigger] matured@[j].0 == k;
                            assert(j < i);
                        }
                    }
                }
            }
            i = i + 1;
        }
        matured
    }

    /// Slashes a refiner for double-signing: every pending withdrawal of it
    /// is burned and leaves the queue; unless already slashed, its whole stake
    /// is burned too, it becomes `Slashed` and leaves the active set. Returns
    /// the Flakes burned; refused only for an unknown refiner with nothing
    /// queued.
    pub fn slash_refiner(&mut self, object_id: &ObjectId, current_height: u64) -> (r: Result<FlakeAmount, String>)
        requires
            old(self).wf(),
        ensures
            final(self).wf(),
            final(self).queue() == queue_without(old(self).queue(), *object_id),
            !old(self)@.contains_key(*object_id) ==> final(self)@ == old(self)@
                && final(self).active_ids() == old(self).active_ids() && final(self).dirty() == old(
                self,
            ).dirty(),
            !old(self)@.contains_key(*object_id) && pending_for(old(self).queue(), *object_id) > 0
                ==> r == Ok::<u64, String>(saturate(pending_for(old(self).queue(), *object_id)) as u64),
            !old(self)@.contains_key(*object_id) && pending_for(old(self).queue(), *object_id) == 0
                ==> (r matches Err(m) && m@ == "Refiner not found"@),
            old(self)@.contains_key(*object_id) && old(self)@[*object_id].status
                == RefinerStatus::Slashed ==> r == Ok::<u64, String>(
                saturate(pending_for(old(self).queue(), *object_id)) as u64,
            ) && final(self)@ == old(self)@ && final(self).active_ids() == old(self).active_ids()
                && final(self).dirty() == old(self).dirty(),
            old(self)@.contains_key(*object_id) && old(self)@[*object_id].status
                != RefinerStatus::Slashed ==> {
                let v = old(self)@[*object_id];
                let w = final(self)@[*object_id];
                &&& r == Ok::<u64, String>(
                    saturate(
                        saturate(v.stake()) + saturate(pending_for(old(self).queue(), *object_id)),
                    ) as u64,
                )
                &&& final(self)@ == old(self)@.insert(*object_id, w)
                &&& w.entries@ == zero_stakes(v.entries@)
                &&& w.status == RefinerStatus::Slashed
                &&& w.object_id == v.object_id
                &&& w.last_signed_height == v.last_signed_height
                &&& w.consecutive_correct_attestations == v.consecutive_correct_attestations
                &&& final(self).active_ids() == without_id(old(self).active_ids(), *object_id)
                &&& final(self).dirty() == old(self).dirty().insert(*object_id)
            },
    {
        let ghost q = self.unbonding_queue@;
        let mut pending: u128 = 0;
        let mut kept: Vec<PendingUnbond> = Vec::new();
        let mut i: usize = 0;
        while i < self.unbonding_queue.len()
            invariant
                i <= q.len(),
                q == self.unbonding_queue@,
                q == old(self).unbonding_queue@,
                self.refiners@ == old(self).refiners@,
                self.active_set@ == old(self).active_set@,
                self.dirty_refiners@ == old(self).dirty_refiners@,
                pending == pending_for(q.take(i as int), *object_id),
                pending <= i * 0x1_0000_0000_0000_0000,
                kept@ == queue_without(q.take(i as int), *object_id),
            decreases q.len() - i,
        {
            proof {
                assert(q.take(i as int + 1).drop_last() =~= q.take(i as int));
            }
            let e = self.unbonding_queue[i];
            if id_eq(&e.account, object_id) {
                pending = pending + e.amount as u128;
            } else {
                kept.push(e);
            }
            i = i + 1;
        }
        proof {
            assert(q.take(i as int) =~= q);
        }
        self.unbonding_queue = kept;
        let pending_burn: u64 = if pending > u64::MAX as u128 {
            u64::MAX
        } else {
            pending as u64
        };
        let idx = match find_key(&self.refiners, object_id) {
            Some(idx) => idx,
            None => {
                proof {
                    lemma_to_map_contains(self.refiners@, *object_id);
                }
                if pending_burn > 0 {
                    return Ok(pending_burn);
                }
                return Err(String::from_str("Refiner not found"));
            },
        };
        proof {
            lemma_to_map_index(self.refiners@, idx as int);
        }
        if self.refiners[idx].1.status == RefinerStatus::Slashed {
            return Ok(pending_burn);
        }
        let burn = self.refiners[idx].1.total_stake().saturating_add(pending_burn);
        self.refiners[idx].1.status = RefinerStatus::Slashed;
        let ghost before = self.refiners@[idx as int].1.entries@;
        let mut j: usize = 0;
        while j < self.refiners[idx].1.entries.len()
            invariant
                idx < self.refiners@.len(),
                self.refiners@.len() == old(self).refiners@.len(),
                j <= self.refiners@[idx as int].1.entries@.len(),
                self.refiners@[idx as int].1.entries@.len() == before.len(),
                forall|t: int|
                    0 <= t < j ==> #[trigger] self.refiners@[idx as int].1.entries@[t] == (BondEntry {
                        stake: 0,
                        ..before[t]
                    }),
                forall|t: int|
                    j <= t < before.len() ==> #[trigger] self.refiners@[idx as int].1.entries@[t]
                        == before[t],
                self.refiners@ == old(self).refiners@.update(
                    idx as int,
                    (*object_id, self.refiners@[idx as int].1),
                ),
                self.refiners@[idx as int].1.status == RefinerStatus::Slashed,
                self.refiners@[idx as int].1.object_id == old(self).refiners@[idx as int].1.object_id,
                self.refiners@[idx as int].1.last_signed_height == old(self).refiners@[idx as int].1.last_signed_height,
                self.refiners@[idx as int].1.consecutive_correct_attestations == old(self).refiners@[idx as int].1.consecutive_correct_attestations,
                before == old(self).refiners@[idx as int].1.entries@,
                old(self).refiners@[idx as int].0 == *object_id,
                keys_unique(old(self).refiners@),
                self.dirty_refiners@.no_duplicates(),
                self.dirty_refiners@ == old(self).dirty_refiners@,
                self.active_set@ == old(self).active_set@,
                self.unbonding_queue@ == queue_without(old(self).unbonding_queue@, *object_id),
            decreases before.len() - j,
        {
            let ghost prev = self.refiners@;
            self.refiners[idx].1.entries[j].stake = 0;
            proof {
                assert(self.refiners@.len() == prev.len());
                assert(self.refiners@[idx as int].0 == prev[idx as int].0);
                assert forall|t: int| 0 <= t < prev.len() && t != idx implies self.refiners@[t] == prev[t] by {}
                assert(self.refiners@ =~= old(self).refiners@.update(
                    idx as int,
                    (*object_id, self.refiners@[idx as int].1),
                ));
            }
            j = j + 1;
        }
        proof {
            assert(self.refiners@[idx as int].1.entries@ =~= zero_stakes(before));
            Self::lemma_replaced(old(self).refiners@, self.refiners@, idx as int);
        }
        remove_id(&mut self.active_set, object_id);
        self.mark_dirty(*object_id);
        Ok(burn)
    }
}


/// Whether a `Bonding` refiner has bonded for a full epoch at `height`
/// (judged by its oldest entry).
pub open spec fn epoch_matured(v: RefinerInfo, height: u64) -> bool {
    &&& v.status == RefinerStatus::Bonding
    &&& v.entries@.len() > 0
    &&& height >= saturate(v.entries@[0].bonded_at_height + EPOCH)
}

/// The refiner after moving to `Waiting` at `height`, if it matured.
pub open spec fn after_maturity(v: RefinerInfo, height: u64) -> RefinerInfo {
    if epoch_matured(v, height) {
        RefinerInfo { status: RefinerStatus::Waiting, last_signed_height: height, ..v }
    } else {
        v
    }
}

/// The stake counted for one refiner (saturating).
pub open spec fn counted_stake(v: RefinerInfo) -> int {
    saturate(v.stake())
}

/// The total counted stake of the refiners listed in `ids` (unknown
/// identifiers count nothing, repeated ones count again).
pub open spec fn ids_stake(ids: Seq<ObjectId>, m: Map<ObjectId, RefinerInfo>) -> int
    decreases ids.len(),
{
    if ids.len() == 0 {
        0
    } else {
        ids_stake(ids.drop_last(), m) + if m.contains_key(ids.last()) {
            counted_stake(m[ids.last()])
        } else {
            0
        }
    }
}

/// The total counted stake of the entries whose status is `Bonding` or
/// `Waiting`.
pub open spec fn bonding_waiting_stake(s: Seq<(ObjectId, RefinerInfo)>) -> int
    decreases s.len(),
{
    if s.len() == 0 {
        0
    } else {
        bonding_waiting_stake(s.drop_last()) + if s.last().1.status == RefinerStatus::Bonding
            || s.last().1.status == RefinerStatus::Waiting {
            counted_stake(s.last().1)
        } else {
            0
        }
    }
}

/// The refiners listed in `ids` that are stored, in order.
pub open spec fn listed_refiners(ids: Seq<ObjectId>, m: Map<ObjectId, RefinerInfo>) -> Seq<
    RefinerInfo,
>
    decreases ids.len(),
{
    if ids.len() == 0 {
        Seq::empty()
    } else if m.contains_key(ids.last()) {
        listed_refiners(ids.drop_last(), m).push(m[ids.last()])
    } else {
        listed_refiners(ids.drop_last(), m)
    }
}

/// The identifiers of the entries that matured at `height`, in order.
pub open spec fn matured_ids(s: Seq<(ObjectId, RefinerInfo)>, height: u64) -> Seq<ObjectId>
    decreases s.len(),
{
    if s.len() == 0 {
        Seq::empty()
    } else if epoch_matured(s.last().1, height) {
        matured_ids(s.drop_last(), height).push(s.last().0)
    } else {
        matured_ids(s.drop_last(), height)
    }
}

/// An element is in a pushed sequence exactly when it was there or was pushed.
pub proof fn lemma_push_contains<A>(s: Seq<A>, x: A, y: A)
    ensures
        s.push(x).contains(y) <==> (s.contains(y) || y == x),
{
    if s.push(x).contains(y) {
        let t = choose|t: int| 0 <= t < s.push(x).len() && s.push(x)[t] == y;
        if t < s.len() {
            assert(s[t] == y);
        }
    }
    if s.contains(y) {
        let t = choose|t: int| 0 <= t < s.len() && s[t] == y;
        assert(s.push(x)[t] == y);
    }
    if y == x {
        assert(s.push(x)[s.len() as int] == y);
    }
}

/// Pushing onto a sequence adds the element to its set.
pub proof fn lemma_to_set_push<A>(s: Seq<A>, x: A)
    ensures
        s.push(x).to_set() == s.to_set().insert(x),
{
    assert forall|y: A| #[trigger] s.push(x).to_set().contains(y) <==> s.to_set().insert(x).contains(y) by {
        lemma_push_contains(s, x, y);
    }
    assert(s.push(x).to_set() =~= s.to_set().insert(x));
}

/// The matured identifiers are distinct and are exactly the matured keys.
pub proof fn lemma_matured_ids(s: Seq<(ObjectId, RefinerInfo)>, height: u64)
    requires
        keys_unique(s),
    ensures
        matured_ids(s, height).no_duplicates(),
        forall|k: ObjectId|
            #![trigger matured_ids(s, height).contains(k)]
            #![trigger to_map(s)[k]]
            matured_ids(s, height).contains(k) <==> (to_map(s).contains_key(k) && epoch_matured(
                to_map(s)[k],
                height,
            )),
    decreases s.len(),
{
    if s.len() > 0 {
        let t = s.drop_last();
        assert(keys_unique(t)) by {
            assert forall|i: int, j: int|
                #![trigger t[i].0, t[j].0]
                0 <= i < t.len() && 0 <= j < t.len() && i != j implies t[i].0 != t[j].0 by {
                assert(t[i] == s[i] && t[j] == s[j]);
            }
        }
        lemma_matured_ids(t, height);
        let k0 = s.last().0;
        lemma_to_map_contains(t, k0);
        if to_map(t).contains_key(k0) {
            let i = choose|i: int| 0 <= i < t.len() && #[trigger] t[i].0 == k0;
            assert(s[i].0 == s[s.len() - 1].0);
        }
        let a = matured_ids(t, height);
        if a.contains(k0) {
            assert(epoch_matured(to_map(t)[k0], height));
        }
        if epoch_matured(s.last().1, height) {
            assert forall|i: int, j: int|
                0 <= i < a.push(k0).len() && 0 <= j < a.push(k0).len() && i != j implies a.push(k0)[i]
                != a.push(k0)[j] by {
                if i == a.len() {
                    assert(a.contains(a.push(k0)[j]));
                }
                if j == a.len() {
                    assert(a.contains(a.push(k0)[i]));
                }
            }
        }
        assert(to_map(s) == to_map(t).insert(k0, s.last().1));
        assert forall|k: ObjectId|
            #![trigger matured_ids(s, height).contains(k)]
            #![trigger to_map(s)[k]]
            matured_ids(s, height).contains(k) <==> (to_map(s).contains_key(k) && epoch_matured(
                to_map(s)[k],
                height,
            )) by {
            lemma_push_contains(a, k0, k);
            if k != k0 {
                assert(to_map(s)[k] == to_map(t)[k]);
                assert(a.contains(k) <==> (to_map(t).contains_key(k) && epoch_matured(
                    to_map(t)[k],
                    height,
                )));
            }
        }
    } else {
        assert(matured_ids(s, height) =~= Seq::<ObjectId>::empty());
        assert forall|k: ObjectId| !matured_ids(s, height).contains(k) by {}
    }
}

impl RefinerSet {
    /// Moves every `Bonding` refiner whose oldest entry is a full epoch old
    /// to `Waiting` (recording `current_height` as its last signed height);
    /// ranking later decides which become `Active`. Returns their ids.
    pub fn activate_matured_refiners(&mut self, current_height: u64) -> (r: Vec<ObjectId>)
        requires
            old(self).wf(),
        ensures
            final(self).wf(),
            final(self)@ == old(self)@.map_values(|v: RefinerInfo| after_maturity(v, current_height)),
            r@.no_duplicates(),
            forall|k: ObjectId|
                #![trigger r@.contains(k)]
                #![trigger old(self)@[k]]
                r@.contains(k) <==> (old(self)@.contains_key(k) && epoch_matured(
                    old(self)@[k],
                    current_height,
                )),
            final(self).dirty() == old(self).dirty() + r@.to_set(),
            final(self).active_ids() == old(self).active_ids(),
            final(self).queue() == old(self).queue(),
    {
        let ghost f = |v: RefinerInfo| after_maturity(v, current_height);
        let ghost s0 = self.refiners@;
        let mut newly: Vec<ObjectId> = Vec::new();
        let mut i: usize = 0;
        while i < self.refiners.len()
            invariant
                f == (|v: RefinerInfo| after_maturity(v, current_height)),
                i <= s0.len(),
                self.refiners@.len() == s0.len(),
                keys_unique(s0),
                s0 == old(self).refiners@,
                forall|j: int| 0 <= j < s0.len() ==> #[trigger] self.refiners@[j].0 == s0[j].0,
                forall|j: int| 0 <= j < i ==> #[trigger] self.refiners@[j].1 == f(s0[j].1),
                forall|j: int| i <= j < s0.len() ==> #[trigger] self.refiners@[j].1 == s0[j].1,
                self.dirty_refiners@.no_duplicates(),
                self.dirty() == old(self).dirty() + newly@.to_set(),
                newly@ == matured_ids(s0.take(i as int), current_height),
                self.active_set@ == old(self).active_set@,
                self.unbonding_queue@ == old(self).unbonding_queue@,
            decreases s0.len() - i,
        {
            proof {
                assert(s0.take(i as int + 1).drop_last() =~= s0.take(i as int));
            }
            let eligible = self.refiners[i].1.status == RefinerStatus::Bonding
                && self.refiners[i].1.entries.len() > 0
                && current_height >= self.refiners[i].1.entries[0].bonded_at_height.saturating_add(EPOCH);
            if eligible {
                let id = self.refiners[i].0;
                let ghost prev = self.refiners@;
                self.refiners[i].1.status = RefinerStatus::Waiting;
                self.refiners[i].1.last_signed_height = current_height;
                proof {
                    assert forall|t: int| 0 <= t < prev.len() && t != i implies self.refiners@[t] == prev[t] by {}
                }
                self.mark_dirty_in_place(id);
                proof {
                    lemma_to_set_push(newly@, id);
                }
                newly.push(id);
                proof {
                    assert(self.dirty() =~= old(self).dirty() + newly@.to_set());
                }
            }
            i = i + 1;
        }
        proof {
            assert(s0.take(i as int) =~= s0);
            let t = crate::keyed::map_entry_values(s0, f);
            assert forall|j: int| 0 <= j < s0.len() implies #[trigger] t[j] == self.refiners@[j] by {
                assert(t[j] == (s0[j].0, f(s0[j].1)));
            }
            assert(self.refiners@ =~= t);
            crate::keyed::lemma_to_map_map_values(s0, f);
            crate::keyed::lemma_map_entry_values_keys(s0, f);
            lemma_matured_ids(s0, current_height);
            assert(to_map(s0).map_values(f) =~= old(self)@.map_values(
                |v: RefinerInfo| after_maturity(v, current_height),
            ));
        }
        newly
    }

    /// Records that `id` changed (the refiners are left as they are).
    fn mark_dirty_in_place(&mut self, id: ObjectId)
        requires
            old(self).dirty_refiners@.no_duplicates(),
        ensures
            final(self).dirty_refiners@.no_duplicates(),
            final(self).refiners@ == old(self).refiners@,
            final(self).active_set@ == old(self).active_set@,
            final(self).dirty() == old(self).dirty().insert(id),
            final(self).unbonding_queue@ == old(self).unbonding_queue@,
    {
        if !contains_id(&self.dirty_refiners, &id) {
            self.dirty_refiners.push(id);
            proof {
                let d = self.dirty_refiners@;
                assert forall|i: int, j: int|
                    0 <= i < d.len() && 0 <= j < d.len() && i != j implies d[i] != d[j] by {
                    if i == d.len() - 1 {
                        assert(!old(self).dirty_refiners@.contains(d[j]) || d[j] != id);
                    }
                    if j == d.len() - 1 {
                        assert(old(self).dirty_refiners@.contains(d[i]));
                    }
                }
            }
        }
        proof {
            assert forall|x: ObjectId| self.dirty_refiners@.contains(x) <==> (old(
                self,
            ).dirty_refiners@.contains(x) || x == id) by {
                if self.dirty_refiners@.contains(x) && self.dirty_refiners@ != old(self).dirty_refiners@ {
                    let k = choose|k: int| 0 <= k < self.dirty_refiners@.len() && self.dirty_refiners@[k] == x;
                    if k < old(self).dirty_refiners@.len() {
                        assert(old(self).dirty_refiners@[k] == x);
                    }
                }
                if old(self).dirty_refiners@.contains(x) {
                    let k = choose|k: int| 0 <= k < old(self).dirty_refiners@.len() && old(self).dirty_refiners@[k] == x;
                    assert(self.dirty_refiners@[k] == x);
                }
                if x == id && self.dirty_refiners@ != old(self).dirty_refiners@ {
                    assert(self.dirty_refiners@[self.dirty_refiners@.len() - 1] == x);
                }
            }
            assert(self.dirty() =~= old(self).dirty().insert(id));
        }
    }

    /// Number of refiners in `Bonding` status.
    pub fn total_bonding_refiners(&self) -> (n: usize)
        requires
            self.wf(),
        ensures
            n == crate::keyed::keys_where(self@, |v: RefinerInfo| v.status == RefinerStatus::Bonding).len(),
    {
        self.count_status(RefinerStatus::Bonding)
    }

    /// Number of refiners in `Waiting` status.
    pub fn total_waiting_refiners(&self) -> (n: usize)
        requires
            self.wf(),
        ensures
            n == crate::keyed::keys_where(self@, |v: RefinerInfo| v.status == RefinerStatus::Waiting).len(),
    {
        self.count_status(RefinerStatus::Waiting)
    }

    fn count_status(&self, status: RefinerStatus) -> (n: usize)
        requires
            self.wf(),
        ensures
            n == crate::keyed::keys_where(self@, |v: RefinerInfo| v.status == status).len(),
    {
        let ghost p = |v: RefinerInfo| v.status == status;
        let ghost s = self.refiners@;
        let mut n: usize = 0;
        let mut i: usize = 0;
        while i < self.refiners.len()
            invariant
                p == (|v: RefinerInfo| v.status == status),
                s == self.refiners@,
                i <= s.len(),
                n == crate::keyed::count_where(s.take(i as int), p),
                n <= i,
            decreases s.len() - i,
        {
            proof {
                assert(s.take(i as int + 1).drop_last() =~= s.take(i as int));
            }
            if self.refiners[i].1.status == status {
                n = n + 1;
            }
            i = i + 1;
        }
        proof {
            assert(s.take(i as int) =~= s);
            crate::keyed::lemma_count_where(s, p);
        }
        n
    }

    /// The total stake of `Active` refiners (by the active set) plus that of
    /// `Bonding` and `Waiting` refiners, each refiner's stake and the result
    /// saturating at `u64::MAX`.
    pub fn total_bonded_stake(&self) -> (t: FlakeAmount)
        requires
            self.wf(),
        ensures
            t == saturate(ids_stake(self.active_ids(), self@) + self.bonding_waiting()),
    {
        let mut active: u128 = 0;
        let mut i: usize = 0;
        while i < self.active_set.len()
            invariant
                self.wf(),
                i <= self.active_set@.len(),
                active == ids_stake(self.active_set@.take(i as int), self@),
                active <= i * 0x1_0000_0000_0000_0000,
            decreases self.active_set@.len() - i,
        {
            proof {
                assert(self.active_set@.take(i as int + 1).drop_last() =~= self.active_set@.take(i as int));
            }
            match self.get_refiner(&self.active_set[i]) {
                Some(v) => {
                    active = active + v.total_stake() as u128;
                },
                None => {},
            }
            i = i + 1;
        }
        proof {
            assert(self.active_set@.take(i as int) =~= self.active_set@);
        }
        let mut other: u128 = 0;
        let mut j: usize = 0;
        let ghost s = self.refiners@;
        while j < self.refiners.len()
            invariant
                s == self.refiners@,
                j <= s.len(),
                other == bonding_waiting_stake(s.take(j as int)),
                other <= j * 0x1_0000_0000_0000_0000,
            decreases s.len() - j,
        {
            proof {
                assert(s.take(j as int + 1).drop_last() =~= s.take(j as int));
            }
            let st = self.refiners[j].1.status;
            if st == RefinerStatus::Bonding || st == RefinerStatus::Waiting {
                other = other + self.refiners[j].1.total_stake() as u128;
            }
            j = j + 1;
        }
        proof {
            assert(s.take(j as int) =~= s);
        }
        let a: u64 = if active > u64::MAX as u128 {
            u64::MAX
        } else {
            active as u64
        };
        let b: u64 = if other > u64::MAX as u128 {
            u64::MAX
        } else {
            other as u64
        };
        a.saturating_add(b)
    }

    /// The total counted stake of the `Bonding` and `Waiting` refiners.
    pub closed spec fn bonding_waiting(&self) -> int {
        bonding_waiting_stake(self.refiners@)
    }

    /// The stored refiners of the active set, in active-set order.
    pub fn active_refiners(&self) -> (r: Vec<&RefinerInfo>)
        requires
            self.wf(),
        ensures
            r@.len() == listed_refiners(self.active_ids(), self@).len(),
            forall|i: int| 0 <= i < r@.len() ==> *(#[trigger] r@[i]) == listed_refiners(self.active_ids(), self@)[i],
    {
        let mut r: Vec<&RefinerInfo> = Vec::new();
        let mut i: usize = 0;
        while i < self.active_set.len()
            invariant
                self.wf(),
                i <= self.active_set@.len(),
                r@.len() == listed_refiners(self.active_set@.take(i as int), self@).len(),
                forall|j: int| 0 <= j < r@.len() ==> *(#[trigger] r@[j]) == listed_refiners(self.active_set@.take(i as int), self@)[j],
            decreases self.active_set@.len() - i,
        {
            proof {
                assert(self.active_set@.take(i as int + 1).drop_last() =~= self.active_set@.take(i as int));
            }
            match self.get_refiner(&self.active_set[i]) {
                Some(v) => {
                    r.push(v);
                },
                None => {},
            }
            i = i + 1;
        }
        proof {
            assert(self.active_set@.take(i as int) =~= self.active_set@);
        }
        r
    }

    /// The total weight (stake) of the refiners of the active set.
    pub fn total_weight(&self, current_timestamp: u64) -> (t: FlakeAmount)
        requires
            self.wf(),
        ensures
            t == saturate(ids_stake(self.active_ids(), self@)),
    {
        let mut total: u128 = 0;
        let mut i: usize = 0;
        while i < self.active_set.len()
            invariant
                self.wf(),
                i <= self.active_set@.len(),
                total == ids_stake(self.active_set@.take(i as int), self@),
                total <= i * 0x1_0000_0000_0000_0000,
            decreases self.active_set@.len() - i,
        {
            proof {
                assert(self.active_set@.take(i as int + 1).drop_last() =~= self.active_set@.take(i as int));
            }
            match self.get_refiner(&self.active_set[i]) {
                Some(v) => {
                    total = total + v.weight(current_timestamp) as u128;
                },
                None => {},
            }
            i = i + 1;
        }
        proof {
            assert(self.active_set@.take(i as int) =~= self.active_set@);
        }
        if total > u64::MAX as u128 {
            u64::MAX
        } else {
            total as u64
        }
    }
}


/// Whether pairs are ordered by identifier (equal identifiers allowed).
pub open spec fn ordered_by_id(s: Seq<(ObjectId, u64)>) -> bool {
    forall|i: int, j: int|
        0 <= i < j < s.len() ==> !crate::types::bytes_lt(
            #[trigger] s[j].0.bytes(),
            #[trigger] s[i].0.bytes(),
        )
}

/// Where a pair enters a sequence sorted by identifier: after every pair
/// whose identifier is not above its own.
pub open spec fn insert_pos(o: Seq<(ObjectId, u64)>, x: (ObjectId, u64)) -> int
    decreases o.len(),
{
    if o.len() == 0 {
        0
    } else if crate::types::bytes_lt(x.0.bytes(), o[0].0.bytes()) {
        0
    } else {
        1 + insert_pos(o.drop_first(), x)
    }
}

/// The stable insertion sort of pairs by identifier.
pub open spec fn id_sorted(s: Seq<(ObjectId, u64)>) -> Seq<(ObjectId, u64)>
    decreases s.len(),
{
    if s.len() == 0 {
        s
    } else {
        let o = id_sorted(s.drop_last());
        o.insert(insert_pos(o, s.last()), s.last())
    }
}

proof fn lemma_insert_pos(o: Seq<(ObjectId, u64)>, x: (ObjectId, u64), p: int)
    requires
        0 <= p <= o.len(),
        forall|q: int| 0 <= q < p ==> !crate::types::bytes_lt(x.0.bytes(), #[trigger] o[q].0.bytes()),
        p < o.len() ==> crate::types::bytes_lt(x.0.bytes(), o[p].0.bytes()),
    ensures
        insert_pos(o, x) == p,
    decreases o.len(),
{
    if o.len() > 0 && p > 0 {
        assert(!crate::types::bytes_lt(x.0.bytes(), o[0].0.bytes()));
        let t = o.drop_first();
        assert forall|q: int| 0 <= q < p - 1 implies !crate::types::bytes_lt(x.0.bytes(), #[trigger] t[q].0.bytes()) by {
            assert(t[q] == o[q + 1]);
        }
        if p - 1 < t.len() {
            assert(t[p - 1] == o[p]);
        }
        lemma_insert_pos(t, x, p - 1);
    }
}

/// Stable insertion sort of pairs by identifier.
fn sort_by_id(v: &Vec<(ObjectId, u64)>) -> (r: Vec<(ObjectId, u64)>)
    ensures
        ordered_by_id(r@),
        r@.to_multiset() == v@.to_multiset(),
        r@.len() == v@.len(),
        r@ == id_sorted(v@),
{
    let mut out: Vec<(ObjectId, u64)> = Vec::new();
    let mut i: usize = 0;
    proof {
        assert(v@.take(0) =~= Seq::<(ObjectId, u64)>::empty());
        assert(out@ =~= Seq::<(ObjectId, u64)>::empty());
    }
    while i < v.len()
        invariant
            i <= v@.len(),
            ordered_by_id(out@),
            out@.to_multiset() == v@.take(i as int).to_multiset(),
            out@.len() == i,
            out@ == id_sorted(v@.take(i as int)),
        decreases v@.len() - i,
    {
        let x = v[i];
        let mut p: usize = 0;
        while p < out.len()
            invariant
                p <= out@.len(),
                forall|q: int| 0 <= q < p ==> !crate::types::bytes_lt(x.0.bytes(), #[trigger] out@[q].0.bytes()),
            ensures
                p <= out@.len(),
                forall|q: int| 0 <= q < p ==> !crate::types::bytes_lt(x.0.bytes(), #[trigger] out@[q].0.bytes()),
                p < out@.len() ==> crate::types::bytes_lt(x.0.bytes(), out@[p as int].0.bytes()),
            decreases out@.len() - p,
        {
            if crate::types::id_lt(&x.0, &out[p].0) {
                break;
            }
            p = p + 1;
        }
        let ghost o = out@;
        proof {
            lemma_insert_pos(o, x, p as int);
            assert(v@.take(i as int + 1).drop_last() =~= v@.take(i as int));
            assert(v@.take(i as int + 1).last() == x);
        }
        out.insert(p, x);
        proof {
            let n = out@;
            assert(n =~= o.insert(p as int, x));
            assert forall|a: int, b: int| 0 <= a < b < n.len() implies !crate::types::bytes_lt(
                #[trigger] n[b].0.bytes(),
                #[trigger] n[a].0.bytes(),
            ) by {
                if b < p {
                    assert(n[a] == o[a] && n[b] == o[b]);
                } else if b == p {
                    assert(n[a] == o[a]);
                } else if a < p {
                    assert(n[a] == o[a] && n[b] == o[b - 1]);
                } else if a == p {
                    assert(n[b] == o[b - 1]);
                    if crate::types::bytes_lt(o[b - 1].0.bytes(), x.0.bytes()) {
                        crate::keyed::lemma_bytes_lt_transitive(
                            o[b - 1].0.bytes(),
                            x.0.bytes(),
                            o[p as int].0.bytes(),
                        );
                        if b - 1 == p {
                            crate::keyed::lemma_bytes_lt_asymmetric(o[p as int].0.bytes(), x.0.bytes());
                        }
                    }
                } else {
                    assert(n[a] == o[a - 1] && n[b] == o[b - 1]);
                }
            }
            assert(v@.take(i as int + 1) =~= v@.take(i as int).push(v@[i as int]));
            vstd::seq_lib::to_multiset_insert(o, p as int, x);
            vstd::seq_lib::to_multiset_build(v@.take(i as int), v@[i as int]);
            assert(out@.to_multiset() == o.insert(p as int, x).to_multiset());
        }
        i = i + 1;
    }
    proof {
        assert(v@.take(i as int) =~= v@);
    }
    out
}

/// The (identifier, counted stake) pairs of the stored refiners of `ids`
/// with stake, in order.
pub open spec fn producer_candidates(ids: Seq<ObjectId>, m: Map<ObjectId, RefinerInfo>) -> Seq<
    (ObjectId, u64),
>
    decreases ids.len(),
{
    if ids.len() == 0 {
        Seq::empty()
    } else if m.contains_key(ids.last()) && m[ids.last()].stake() > 0 {
        producer_candidates(ids.drop_last(), m).push(
            (ids.last(), counted_stake(m[ids.last()]) as u64),
        )
    } else {
        producer_candidates(ids.drop_last(), m)
    }
}

/// The total stake of pairs (exact).
pub open spec fn pairs_stake(s: Seq<(ObjectId, u64)>) -> int
    decreases s.len(),
{
    if s.len() == 0 {
        0
    } else {
        pairs_stake(s.drop_last()) + s.last().1
    }
}

/// The identifier whose stake interval holds `ticket`, scanning from the
/// front with a saturating running total that starts at `acc`.
pub open spec fn pick_from(s: Seq<(ObjectId, u64)>, ticket: u64, acc: int) -> Option<ObjectId>
    decreases s.len(),
{
    if s.len() == 0 {
        None
    } else {
        let c = saturate(acc + s[0].1);
        if ticket < c {
            Some(s[0].0)
        } else {
            pick_from(s.drop_first(), ticket, c)
        }
    }
}

/// The producer identifier chosen from id-sorted candidates and a seed.
pub open spec fn producer_pick(sorted: Seq<(ObjectId, u64)>, seed: u64) -> Option<ObjectId> {
    match crate::refiner::uniform_spec(seed, saturate(pairs_stake(sorted)) as u64) {
        None => None,
        Some(ticket) => pick_from(sorted, ticket, 0),
    }
}

impl RefinerSet {
    /// Selects the next block producer by total-stake-weighted sampling: the
    /// active refiners with stake, ordered by identifier, each own an
    /// interval of tickets as wide as its stake; `seed` draws a ticket
    /// uniformly. `None` when no active refiner has stake.
    pub fn select_block_producer(&self, seed: u64) -> (r: Option<&RefinerInfo>)
        requires
            self.wf(),
        ensures
            exists|sorted: Seq<(ObjectId, u64)>|
                {
                    &&& ordered_by_id(sorted)
                    &&& sorted.to_multiset() == producer_candidates(self.active_ids(), self@).to_multiset()
                    &&& match producer_pick(sorted, seed) {
                        None => r is None,
                        Some(id) => r is Some && *r->0 == self@[id],
                    }
                },
            match producer_pick(id_sorted(producer_candidates(self.active_ids(), self@)), seed) {
                None => r is None,
                Some(id) => r is Some && *r->0 == self@[id],
            },
    {
        let mut cands: Vec<(ObjectId, u64)> = Vec::new();
        let mut i: usize = 0;
        while i < self.active_set.len()
            invariant
                self.wf(),
                i <= self.active_set@.len(),
                cands@ == producer_candidates(self.active_set@.take(i as int), self@),
                forall|j: int| 0 <= j < cands@.len() ==> self@.contains_key(#[trigger] cands@[j].0),
            decreases self.active_set@.len() - i,
        {
            proof {
                assert(self.active_set@.take(i as int + 1).drop_last() =~= self.active_set@.take(i as int));
            }
            let id = self.active_set[i];
            match self.get_refiner(&id) {
                Some(v) => {
                    let st = v.total_stake();
                    if st > 0 {
                        cands.push((id, st));
                    }
                },
                None => {},
            }
            i = i + 1;
        }
        proof {
            assert(self.active_set@.take(i as int) =~= self.active_set@);
        }
        let sorted = sort_by_id(&cands);
        proof {
            assert forall|j: int| 0 <= j < sorted@.len() implies self@.contains_key(#[trigger] sorted@[j].0) by {
                vstd::seq_lib::to_multiset_contains(sorted@, sorted@[j]);
                vstd::seq_lib::to_multiset_contains(cands@, sorted@[j]);
                assert(sorted@.contains(sorted@[j]));
                let k = choose|k: int| 0 <= k < cands@.len() && cands@[k] == sorted@[j];
                assert(self@.contains_key(cands@[k].0));
            }
        }
        let mut total: u128 = 0;
        let mut t: usize = 0;
        while t < sorted.len()
            invariant
                t <= sorted@.len(),
                total == pairs_stake(sorted@.take(t as int)),
                total <= t * 0x1_0000_0000_0000_0000,
            decreases sorted@.len() - t,
        {
            proof {
                assert(sorted@.take(t as int + 1).drop_last() =~= sorted@.take(t as int));
            }
            total = total + sorted[t].1 as u128;
            t = t + 1;
        }
        proof {
            assert(sorted@.take(t as int) =~= sorted@);
        }
        let total_stake: u64 = if total > u64::MAX as u128 {
            u64::MAX
        } else {
            total as u64
        };
        let ghost cand_ms = producer_candidates(self.active_ids(), self@).to_multiset();
        proof {
            assert(sorted@.to_multiset() == cand_ms);
        }
        let ticket = match crate::refiner::uniform_amount_from_seed(seed, total_stake) {
            Some(x) => x,
            None => {
                proof {
                    assert(ordered_by_id(sorted@) && sorted@.to_multiset() == cand_ms
                        && producer_pick(sorted@, seed) is None);
                }
                return None;
            },
        };
        let mut cumulative: u64 = 0;
        let mut j: usize = 0;
        proof {
            assert(sorted@.skip(0) =~= sorted@);
        }
        while j < sorted.len()
            invariant
                j <= sorted@.len(),
                pick_from(sorted@, ticket, 0) == pick_from(sorted@.skip(j as int), ticket, cumulative as int),
                forall|q: int| 0 <= q < sorted@.len() ==> self@.contains_key(#[trigger] sorted@[q].0),
                self.wf(),
                crate::refiner::uniform_spec(seed, total_stake) == Some(ticket),
                total_stake == saturate(pairs_stake(sorted@)),
                ordered_by_id(sorted@),
                sorted@.to_multiset() == cand_ms,
                cand_ms == producer_candidates(self.active_ids(), self@).to_multiset(),
                sorted@ == id_sorted(producer_candidates(self.active_ids(), self@)),
            decreases sorted@.len() - j,
        {
            proof {
                let x = sorted@.skip(j as int);
                assert(x[0] == sorted@[j as int]);
                assert(x.drop_first() =~= sorted@.skip(j as int + 1));
            }
            cumulative = cumulative.saturating_add(sorted[j].1);
            if ticket < cumulative {
                let id = sorted[j].0;
                proof {
                    assert(producer_pick(sorted@, seed) == Some(id));
                    assert(self@.contains_key(sorted@[j as int].0));
                }
                let r = self.get_refiner(&id);
                proof {
                    assert(ordered_by_id(sorted@) && sorted@.to_multiset() == cand_ms
                        && producer_pick(sorted@, seed) == Some(id));
                }
                return r;
            }
            j = j + 1;
        }
        proof {
            assert(sorted@.skip(j as int) =~= Seq::<(ObjectId, u64)>::empty());
            assert(ordered_by_id(sorted@) && sorted@.to_multiset() == cand_ms
                && producer_pick(sorted@, seed) is None);
        }
        None
    }
}

/// A ticket scan only ever names a pair it scanned.
proof fn lemma_pick_from_member(s: Seq<(ObjectId, u64)>, ticket: u64, acc: int)
    ensures
        pick_from(s, ticket, acc) matches Some(id) ==> exists|j: int| 0 <= j < s.len() && (#[trigger] s[j]).0 == id,
    decreases s.len(),
{
    if s.len() > 0 {
        let c = saturate(acc + s[0].1);
        if !(ticket < c) {
            lemma_pick_from_member(s.drop_first(), ticket, c);
            if let Some(id) = pick_from(s, ticket, acc) {
                let j = choose|j: int| 0 <= j < s.drop_first().len() && (#[trigger] s.drop_first()[j]).0 == id;
                assert(s[j + 1] == s.drop_first()[j]);
            }
        } else {
            assert(s[0].0 == s[0].0);
        }
    }
}

/// Every producer candidate is in the active set and has stake.
proof fn lemma_candidate_active(ids: Seq<ObjectId>, m: Map<ObjectId, RefinerInfo>, p: (ObjectId, u64))
    requires
        producer_candidates(ids, m).contains(p),
    ensures
        ids.contains(p.0),
        m.contains_key(p.0),
        m[p.0].stake() > 0,
        p.1 == counted_stake(m[p.0]),
    decreases ids.len(),
{
    let rest = producer_candidates(ids.drop_last(), m);
    if m.contains_key(ids.last()) && m[ids.last()].stake() > 0 && p == (ids.last(), counted_stake(m[ids.last()]) as u64) {
        assert(ids[ids.len() - 1] == ids.last());
    } else {
        if m.contains_key(ids.last()) && m[ids.last()].stake() > 0 {
            let full = rest.push((ids.last(), counted_stake(m[ids.last()]) as u64));
            let k = choose|k: int| 0 <= k < full.len() && #[trigger] full[k] == p;
            assert(rest[k] == p);
        }
        lemma_candidate_active(ids.drop_last(), m, p);
        let i = choose|i: int| 0 <= i < ids.drop_last().len() && #[trigger] ids.drop_last()[i] == p.0;
        assert(ids[i] == p.0);
    }
}

/// The total stake of pairs, first pair split off.
proof fn lemma_pairs_stake_front(s: Seq<(ObjectId, u64)>)
    requires
        s.len() > 0,
    ensures
        pairs_stake(s) == s[0].1 + pairs_stake(s.drop_first()),
        pairs_stake(s.drop_first()) >= 0,
    decreases s.len(),
{
    if s.len() > 1 {
        lemma_pairs_stake_front(s.drop_last());
        assert(s.drop_last().drop_first() =~= s.drop_first().drop_last());
        assert(s.drop_first().last() == s.last());
        assert(s.drop_last()[0] == s[0]);
        assert(pairs_stake(s) == pairs_stake(s.drop_last()) + s.last().1);
        assert(pairs_stake(s.drop_first()) == pairs_stake(s.drop_first().drop_last()) + s.drop_first().last().1);
    } else {
        assert(s.drop_last() =~= Seq::<(ObjectId, u64)>::empty());
        assert(s.drop_first() =~= Seq::<(ObjectId, u64)>::empty());
        assert(pairs_stake(s) == pairs_stake(s.drop_last()) + s.last().1);
    }
}

/// A ticket below the (saturated) total stake names some pair.
proof fn lemma_pick_from_some(s: Seq<(ObjectId, u64)>, ticket: u64, acc: int)
    requires
        0 <= acc <= ticket,
        ticket < saturate(acc + pairs_stake(s)),
    ensures
        pick_from(s, ticket, acc) is Some,
    decreases s.len(),
{
    if s.len() == 0 {
        assert(pairs_stake(s) == 0);
    } else {
        lemma_pairs_stake_front(s);
        let c = saturate(acc + s[0].1);
        if ticket >= c {
            lemma_pick_from_some(s.drop_first(), ticket, c);
        }
    }
}

/// A pair with stake makes the total positive.
proof fn lemma_pairs_stake_positive(s: Seq<(ObjectId, u64)>, j: int)
    requires
        0 <= j < s.len(),
        s[j].1 > 0,
    ensures
        pairs_stake(s) > 0,
    decreases s.len(),
{
    lemma_pairs_stake_front(s);
    if j > 0 {
        assert(s.drop_first()[j - 1] == s[j]);
        lemma_pairs_stake_positive(s.drop_first(), j - 1);
    }
}

/// The block producer, when one is drawn, is an active refiner with stake;
/// with no active refiner holding stake none is drawn; with one, the total
/// stake is positive and a producer is drawn exactly when the uniform ticket
/// draw succeeds (`lemma_uniform_draw`: at once when the seed lies in the
/// unbiased zone). This holds of every id-ordering of the candidates, so of
/// the one `select_block_producer` uses.
pub proof fn lemma_producer_is_active_with_stake(
    active: Seq<ObjectId>,
    m: Map<ObjectId, RefinerInfo>,
    sorted: Seq<(ObjectId, u64)>,
    seed: u64,
)
    requires
        sorted.to_multiset() == producer_candidates(active, m).to_multiset(),
    ensures
        producer_pick(sorted, seed) matches Some(id) ==> active.contains(id) && m.contains_key(id) && m[id].stake() > 0,
        producer_candidates(active, m).len() == 0 ==> producer_pick(sorted, seed) is None,
        producer_candidates(active, m).len() > 0 ==> saturate(pairs_stake(sorted)) > 0,
        producer_pick(sorted, seed) is Some <==> crate::refiner::uniform_spec(seed, saturate(pairs_stake(sorted)) as u64) is Some,
{
    let cands = producer_candidates(active, m);
    let upper = saturate(pairs_stake(sorted)) as u64;
    crate::refiner::lemma_uniform_draw(seed, upper);
    if sorted.len() > 0 {
        lemma_pairs_stake_front(sorted);
    }
    assert(pairs_stake(sorted) >= 0);
    if let Some(ticket) = crate::refiner::uniform_spec(seed, upper) {
        lemma_pick_from_some(sorted, ticket, 0);
    }
    if cands.len() > 0 {
        vstd::seq_lib::to_multiset_contains(cands, cands[0]);
        assert(cands.contains(cands[0]));
        vstd::seq_lib::to_multiset_contains(sorted, cands[0]);
        let j = choose|j: int| 0 <= j < sorted.len() && sorted[j] == cands[0];
        vstd::seq_lib::to_multiset_contains(sorted, sorted[j]);
        lemma_candidate_active(active, m, sorted[j]);
        lemma_pairs_stake_positive(sorted, j);
    }
    if let Some(id) = producer_pick(sorted, seed) {
        let ticket = crate::refiner::uniform_spec(seed, saturate(pairs_stake(sorted)) as u64)->0;
        lemma_pick_from_member(sorted, ticket, 0);
        let j = choose|j: int| 0 <= j < sorted.len() && (#[trigger] sorted[j]).0 == id;
        vstd::seq_lib::to_multiset_contains(sorted, sorted[j]);
        vstd::seq_lib::to_multiset_contains(cands, sorted[j]);
        assert(sorted.contains(sorted[j]));
        lemma_candidate_active(active, m, sorted[j]);
    }
    if cands.len() == 0 {
        if sorted.len() > 0 {
            vstd::seq_lib::to_multiset_contains(sorted, sorted[0]);
            assert(sorted.contains(sorted[0]));
            vstd::seq_lib::to_multiset_contains(cands, sorted[0]);
            assert(cands.contains(sorted[0]));
        }
        assert(sorted.len() == 0);
        assert(pairs_stake(sorted) == 0);
    }
}


/// The canonical encoding of a bond entry (three little-endian `u64`).
pub open spec fn enc_bond_entry(e: BondEntry) -> Seq<u8> {
    crate::encoding::le_u64(e.stake) + crate::encoding::le_u64(e.bonded_at_height)
        + crate::encoding::le_u64(e.bonded_at_timestamp)
}

/// The concatenated encodings of bond entries.
pub open spec fn enc_bond_entries(s: Seq<BondEntry>) -> Seq<u8>
    decreases s.len(),
{
    if s.len() == 0 {
        Seq::empty()
    } else {
        enc_bond_entries(s.drop_last()) + enc_bond_entry(s.last())
    }
}

/// The variant index of a refiner status.
pub open spec fn status_index(st: RefinerStatus) -> u8 {
    match st {
        RefinerStatus::Bonding => 0u8,
        RefinerStatus::Waiting => 1u8,
        RefinerStatus::Active => 2u8,
        RefinerStatus::Unbonding => 3u8,
        RefinerStatus::Slashed => 4u8,
    }
}

/// The canonical (borsh) encoding of a refiner.
pub open spec fn enc_refiner(v: RefinerInfo) -> Seq<u8> {
    crate::encoding::enc_id(v.object_id) + crate::encoding::le_u32(v.entries@.len() as u32)
        + enc_bond_entries(v.entries@) + seq![status_index(v.status)] + crate::encoding::le_u64(
        v.last_signed_height,
    ) + crate::encoding::le_u64(v.consecutive_correct_attestations)
}

/// The canonical encoding of a pending withdrawal.
pub open spec fn enc_pending(p: PendingUnbond) -> Seq<u8> {
    crate::encoding::enc_id(p.account) + crate::encoding::le_u64(p.amount) + crate::encoding::le_u64(
        p.matures_at,
    )
}

/// The concatenated encodings of a queue, in order.
pub open spec fn enc_queue(q: Seq<PendingUnbond>) -> Seq<u8>
    decreases q.len(),
{
    if q.len() == 0 {
        Seq::empty()
    } else {
        enc_queue(q.drop_last()) + enc_pending(q.last())
    }
}

/// ASCII `refiners`, the section tag of the refiner state root.
pub const REFINERS_TAG: [u8; 8] = [114u8, 101u8, 102u8, 105u8, 110u8, 101u8, 114u8, 115u8];

/// The refiner map that a list loads into (a later refiner with the same
/// identifier replaces an earlier one).
pub open spec fn refiners_map(s: Seq<RefinerInfo>) -> Map<ObjectId, RefinerInfo>
    decreases s.len(),
{
    if s.len() == 0 {
        Map::empty()
    } else {
        refiners_map(s.drop_last()).insert(s.last().object_id, s.last())
    }
}

/// The identifiers of the `Active` refiners of a list, in order.
pub open spec fn active_of(s: Seq<RefinerInfo>) -> Seq<ObjectId>
    decreases s.len(),
{
    if s.len() == 0 {
        Seq::empty()
    } else if s.last().status == RefinerStatus::Active {
        active_of(s.drop_last()).push(s.last().object_id)
    } else {
        active_of(s.drop_last())
    }
}

/// Whether two refiners have the same fields (entries by value).
pub open spec fn same_refiner(a: RefinerInfo, b: RefinerInfo) -> bool {
    &&& a.object_id == b.object_id
    &&& a.entries@ == b.entries@
    &&& a.status == b.status
    &&& a.last_signed_height == b.last_signed_height
    &&& a.consecutive_correct_attestations == b.consecutive_correct_attestations
}

/// Appends the encoding of a bond entry.
fn push_bond_entry(out: &mut Vec<u8>, e: &BondEntry)
    ensures
        final(out)@ == old(out)@ + enc_bond_entry(*e),
{
    crate::encoding::push_u64_le(out, e.stake);
    crate::encoding::push_u64_le(out, e.bonded_at_height);
    crate::encoding::push_u64_le(out, e.bonded_at_timestamp);
    assert(final(out)@ =~= old(out)@ + enc_bond_entry(*e));
}

/// The encoding of a refiner with at most `u32::MAX` entries.
fn encode_refiner(v: &RefinerInfo) -> (r: Vec<u8>)
    requires
        v.entries@.len() <= u32::MAX,
    ensures
        r@ == enc_refiner(*v),
{
    let mut out: Vec<u8> = Vec::new();
    crate::encoding::push_id(&mut out, &v.object_id);
    crate::encoding::push_u32_le(&mut out, v.entries.len() as u32);
    let ghost head = out@;
    let mut i: usize = 0;
    while i < v.entries.len()
        invariant
            i <= v.entries@.len(),
            out@ == head + enc_bond_entries(v.entries@.take(i as int)),
        decreases v.entries@.len() - i,
    {
        proof {
            assert(v.entries@.take(i as int + 1).drop_last() =~= v.entries@.take(i as int));
        }
        push_bond_entry(&mut out, &v.entries[i]);
        proof {
            assert(out@ =~= head + enc_bond_entries(v.entries@.take(i as int + 1)));
        }
        i = i + 1;
    }
    proof {
        assert(v.entries@.take(i as int) =~= v.entries@);
    }
    let idx: u8 = match v.status {
        RefinerStatus::Bonding => 0,
        RefinerStatus::Waiting => 1,
        RefinerStatus::Active => 2,
        RefinerStatus::Unbonding => 3,
        RefinerStatus::Slashed => 4,
    };
    out.push(idx);
    crate::encoding::push_u64_le(&mut out, v.last_signed_height);
    crate::encoding::push_u64_le(&mut out, v.consecutive_correct_attestations);
    assert(out@ =~= enc_refiner(*v));
    out
}

impl RefinerSet {
    /// A set holding the given refiners (a later refiner with the same
    /// identifier replaces an earlier one) and queue; the `Active` ones of the
    /// list, in order, form the active set.
    pub fn load_from_refiners(refiners: Vec<RefinerInfo>, unbonding_queue: Vec<PendingUnbond>) -> (s: RefinerSet)
        ensures
            s.wf(),
            s@ == refiners_map(refiners@),
            s.active_ids() == active_of(refiners@),
            s.queue() == unbonding_queue@,
            s.dirty() == Set::<ObjectId>::empty(),
    {
        let mut set = RefinerSet {
            refiners: Vec::new(),
            active_set: Vec::new(),
            dirty_refiners: Vec::new(),
            unbonding_queue,
        };
        let mut rest = refiners;
        let ghost orig = rest@;
        let ghost mut done: int = 0;
        while rest.len() > 0
            invariant
                keys_unique(set.refiners@),
                set.dirty_refiners@ == Seq::<ObjectId>::empty(),
                0 <= done <= orig.len(),
                rest@ == orig.subrange(done, orig.len() as int),
                set@ == refiners_map(orig.take(done)),
                set.active_set@ == active_of(orig.take(done)),
                set.unbonding_queue@ == unbonding_queue@,
            decreases rest@.len(),
        {
            let v = rest.remove(0);
            proof {
                assert(v == orig[done]);
                assert(orig.take(done + 1).drop_last() =~= orig.take(done));
                assert(orig.take(done + 1).last() == v);
            }
            let id = v.object_id;
            if v.status == RefinerStatus::Active {
                set.active_set.push(id);
            }
            match find_key(&set.refiners, &id) {
                Some(i) => {
                    proof {
                        lemma_to_map_update(set.refiners@, i as int, v);
                    }
                    set.refiners.set(i, (id, v));
                },
                None => {
                    proof {
                        lemma_push_unique(set.refiners@, id, v);
                        lemma_to_map_push(set.refiners@, id, v);
                    }
                    set.refiners.push((id, v));
                },
            }
            proof {
                done = done + 1;
                assert(rest@ =~= orig.subrange(done, orig.len() as int));
            }
        }
        proof {
            assert(orig.take(done) =~= orig);
            assert(set.dirty() =~= Set::<ObjectId>::empty());
        }
        set
    }

    /// Copies of all refiners in increasing order of their identifiers.
    pub fn all_refiners(&self) -> (r: Vec<RefinerInfo>)
        requires
            self.wf(),
        ensures
            r@.len() == self@.len(),
            exists|ks: Seq<ObjectId>| #[trigger] sorted_listing(ks, r@, self@),
    {
        let mut copies: Vec<(ObjectId, RefinerInfo)> = Vec::new();
        let mut i: usize = 0;
        while i < self.refiners.len()
            invariant
                i <= self.refiners@.len(),
                copies@.len() == i,
                forall|j: int|
                    0 <= j < i ==> (#[trigger] copies@[j]).0 == self.refiners@[j].0 && same_refiner(
                        copies@[j].1,
                        self.refiners@[j].1,
                    ),
            decreases self.refiners@.len() - i,
        {
            let c = self.refiners[i].1.clone();
            copies.push((self.refiners[i].0, c));
            i = i + 1;
        }
        proof {
            assert forall|a: int, b: int|
                #![trigger copies@[a].0, copies@[b].0]
                0 <= a < copies@.len() && 0 <= b < copies@.len() && a != b implies copies@[a].0
                != copies@[b].0 by {
                assert(self.refiners@[a].0 != self.refiners@[b].0);
            }
        }
        let ghost cs = copies@;
        let sorted = crate::keyed::sort_by_key(copies);
        let mut r: Vec<RefinerInfo> = Vec::new();
        let mut t: usize = 0;
        while t < sorted.len()
            invariant
                t <= sorted@.len(),
                r@.len() == t,
                forall|j: int| 0 <= j < t ==> same_refiner(#[trigger] r@[j], sorted@[j].1),
            decreases sorted@.len() - t,
        {
            let mut entries: Vec<BondEntry> = Vec::new();
            let src = &sorted[t].1;
            let mut q: usize = 0;
            while q < src.entries.len()
                invariant
                    q <= src.entries@.len(),
                    entries@ == src.entries@.take(q as int),
                decreases src.entries@.len() - q,
            {
                entries.push(src.entries[q]);
                proof {
                    assert(src.entries@.take(q as int + 1) =~= src.entries@.take(q as int).push(src.entries@[q as int]));
                }
                q = q + 1;
            }
            proof {
                assert(src.entries@.take(q as int) =~= src.entries@);
            }
            r.push(RefinerInfo {
                object_id: src.object_id,
                entries,
                status: src.status,
                last_signed_height: src.last_signed_height,
                consecutive_correct_attestations: src.consecutive_correct_attestations,
            });
            t = t + 1;
        }
        proof {
            let ks = sorted@.map_values(|e: (ObjectId, RefinerInfo)| e.0);
            crate::account::lemma_map_len(self.refiners@);
            crate::account::lemma_map_len(cs);
            assert forall|k: ObjectId| self@.contains_key(k) <==> ks.contains(k) by {
                lemma_to_map_contains(self.refiners@, k);
                lemma_to_map_contains(cs, k);
                lemma_to_map_contains(sorted@, k);
                if self@.contains_key(k) {
                    let j = choose|j: int| 0 <= j < self.refiners@.len() && #[trigger] self.refiners@[j].0 == k;
                    assert(cs[j].0 == k);
                    assert(to_map(sorted@).contains_key(k));
                    let q = choose|q: int| 0 <= q < sorted@.len() && #[trigger] sorted@[q].0 == k;
                    assert(ks[q] == k);
                }
                if ks.contains(k) {
                    let q = choose|q: int| 0 <= q < ks.len() && ks[q] == k;
                    assert(sorted@[q].0 == k);
                    assert(to_map(cs).contains_key(k));
                    let j = choose|j: int| 0 <= j < cs.len() && #[trigger] cs[j].0 == k;
                    assert(self.refiners@[j].0 == k);
                }
            }
            assert forall|q: int| 0 <= q < ks.len() implies same_refiner(#[trigger] r@[q], self@[ks[q]]) by {
                let k = sorted@[q].0;
                crate::keyed::lemma_to_map_index(sorted@, q);
                lemma_to_map_contains(cs, k);
                let j = choose|j: int| 0 <= j < cs.len() && #[trigger] cs[j].0 == k;
                crate::keyed::lemma_to_map_index(cs, j);
                lemma_to_map_index(self.refiners@, j);
                assert(self.refiners@[j].0 == k);
            }
            assert forall|a: int, b: int| 0 <= a < b < ks.len() implies crate::types::bytes_lt(
                #[trigger] ks[a].bytes(),
                #[trigger] ks[b].bytes(),
            ) by {
                assert(ks[a] == sorted@[a].0 && ks[b] == sorted@[b].0);
            }
            assert(sorted_listing(ks, r@, self@));
        }
        r
    }
}

/// Whether `rs` lists copies of the refiners of `m` under the strictly
/// increasing identifiers `ks`, which are exactly the keys of `m`.
pub open spec fn sorted_listing(ks: Seq<ObjectId>, rs: Seq<RefinerInfo>, m: Map<ObjectId, RefinerInfo>) -> bool {
    &&& ks.len() == rs.len()
    &&& forall|i: int, j: int|
        0 <= i < j < ks.len() ==> crate::types::bytes_lt(#[trigger] ks[i].bytes(), #[trigger] ks[j].bytes())
    &&& forall|k: ObjectId| m.contains_key(k) <==> ks.contains(k)
    &&& forall|i: int| 0 <= i < ks.len() ==> same_refiner(#[trigger] rs[i], m[ks[i]])
}


/// The message of a refiner that cannot be encoded.
pub open spec fn refiner_too_long_msg() -> Seq<char> {
    "Refiner serialization failed: entry count exceeds u32"@
}

/// The bytes hashed into the refiner state root, given the key-sorted
/// encoded refiners and the queue.
pub open spec fn refiner_root_preimage(sorted: Seq<(ObjectId, Seq<u8>)>, q: Seq<PendingUnbond>) -> Seq<u8> {
    crate::crypto::DOMAIN_STATE_ROOT@ + REFINERS_TAG@ + crate::account::concat_values(sorted)
        + enc_queue(q)
}

/// Appends the encoding of a pending withdrawal.
fn push_pending(out: &mut Vec<u8>, p: &PendingUnbond)
    ensures
        final(out)@ == old(out)@ + enc_pending(*p),
{
    crate::encoding::push_id(out, &p.account);
    crate::encoding::push_u64_le(out, p.amount);
    crate::encoding::push_u64_le(out, p.matures_at);
    assert(final(out)@ =~= old(out)@ + enc_pending(*p));
}

impl RefinerSet {
    /// The refiner state root: Blake3 of the state-root domain tag, the tag
    /// `refiners`, the encodings of all refiners in increasing identifier
    /// order, then the encodings of the queue in order. Refused when a
    /// refiner has more entries than its length prefix can count.
    pub fn compute_state_root(&self) -> (r: Result<crate::types::Hash, crate::errors::OpolysError>)
        requires
            self.wf(),
        ensures
            r is Err <==> exists|k: ObjectId| #[trigger] self@.contains_key(k) && self@[k].entries@.len() > u32::MAX,
            r matches Err(e) ==> (e matches crate::errors::OpolysError::SerializationError(m) && m@ == refiner_too_long_msg()),
            r matches Ok(h) ==> exists|sorted: Seq<(ObjectId, Seq<u8>)>|
                {
                    &&& #[trigger] crate::keyed::sorted_by_key(sorted)
                    &&& keys_unique(sorted)
                    &&& to_map(sorted) == self@.map_values(|v: RefinerInfo| enc_refiner(v))
                    &&& h.bytes() == crate::crypto::blake3_digest(refiner_root_preimage(sorted, self.queue()))
                },
    {
        let ghost enc = |v: RefinerInfo| enc_refiner(v);
        let ghost view = |v: Vec<u8>| v@;
        let mut encs: Vec<(ObjectId, Vec<u8>)> = Vec::new();
        let mut i: usize = 0;
        while i < self.refiners.len()
            invariant
                i <= self.refiners@.len(),
                keys_unique(self.refiners@),
                encs@.len() == i,
                forall|j: int| 0 <= j < i ==> self.refiners@[j].1.entries@.len() <= u32::MAX,
                forall|j: int|
                    0 <= j < i ==> (#[trigger] encs@[j]).0 == self.refiners@[j].0 && encs@[j].1@
                        == enc_refiner(self.refiners@[j].1),
            decreases self.refiners@.len() - i,
        {
            if self.refiners[i].1.entries.len() > 0xFFFF_FFFF {
                proof {
                    lemma_to_map_index(self.refiners@, i as int);
                    assert(self@.contains_key(self.refiners@[i as int].0));
                }
                return Err(crate::errors::OpolysError::SerializationError(
                    String::from_str("Refiner serialization failed: entry count exceeds u32"),
                ));
            }
            let v = encode_refiner(&self.refiners[i].1);
            encs.push((self.refiners[i].0, v));
            i = i + 1;
        }
        proof {
            assert forall|k: ObjectId| #[trigger] self@.contains_key(k) implies self@[k].entries@.len() <= u32::MAX by {
                lemma_to_map_contains(self.refiners@, k);
                let j = choose|j: int| 0 <= j < self.refiners@.len() && #[trigger] self.refiners@[j].0 == k;
                lemma_to_map_index(self.refiners@, j);
            }
            let a = crate::keyed::map_entry_values(encs@, view);
            let b = crate::keyed::map_entry_values(self.refiners@, enc);
            assert(a =~= b);
            crate::keyed::lemma_to_map_map_values(self.refiners@, enc);
            assert forall|x: int, y: int|
                #![trigger encs@[x].0, encs@[y].0]
                0 <= x < encs@.len() && 0 <= y < encs@.len() && x != y implies encs@[x].0
                != encs@[y].0 by {
                assert(encs@[x].0 == self.refiners@[x].0 && encs@[y].0 == self.refiners@[y].0);
            }
            crate::keyed::lemma_to_map_map_values(encs@, view);
        }
        let mut qbytes: Vec<u8> = Vec::new();
        let mut t: usize = 0;
        while t < self.unbonding_queue.len()
            invariant
                t <= self.unbonding_queue@.len(),
                qbytes@ == enc_queue(self.unbonding_queue@.take(t as int)),
            decreases self.unbonding_queue@.len() - t,
        {
            proof {
                assert(self.unbonding_queue@.take(t as int + 1).drop_last() =~= self.unbonding_queue@.take(t as int));
            }
            push_pending(&mut qbytes, &self.unbonding_queue[t]);
            t = t + 1;
        }
        proof {
            assert(self.unbonding_queue@.take(t as int) =~= self.unbonding_queue@);
        }
        let sorted = crate::keyed::sort_by_key(encs);
        let tag = REFINERS_TAG;
        let dom = crate::crypto::DOMAIN_STATE_ROOT;
        let h = crate::account::hash_sorted_values(dom.as_slice(), tag.as_slice(), &sorted, qbytes.as_slice());
        proof {
            let s2 = crate::keyed::map_entry_values(sorted@, view);
            crate::keyed::lemma_map_entry_values_keys(sorted@, view);
            crate::keyed::lemma_to_map_map_values(sorted@, view);
            assert(to_map(s2) == self@.map_values(|v: RefinerInfo| enc_refiner(v))) by {
                assert(self@.map_values(|v: RefinerInfo| enc_refiner(v)) =~= to_map(self.refiners@).map_values(enc));
            }
            assert(crate::keyed::sorted_by_key(s2));
        }
        Ok(h)
    }
}


/// Rank order of (identifier, stake) pairs: larger stake first, ties broken
/// by increasing identifier.
pub open spec fn rank_lt(a: (ObjectId, u64), b: (ObjectId, u64)) -> bool {
    a.1 > b.1 || (a.1 == b.1 && crate::types::bytes_lt(a.0.bytes(), b.0.bytes()))
}

/// Whether pairs are in strictly increasing rank order.
pub open spec fn ranked(s: Seq<(ObjectId, u64)>) -> bool {
    forall|i: int, j: int| #![trigger s[i], s[j]] 0 <= i < j < s.len() ==> rank_lt(s[i], s[j])
}

fn rank_lt_exec(a: &(ObjectId, u64), b: &(ObjectId, u64)) -> (r: bool)
    ensures
        r == rank_lt(*a, *b),
{
    a.1 > b.1 || (a.1 == b.1 && crate::types::id_lt(&a.0, &b.0))
}

proof fn lemma_rank_transitive(a: (ObjectId, u64), b: (ObjectId, u64), c: (ObjectId, u64))
    requires
        rank_lt(a, b),
        rank_lt(b, c),
    ensures
        rank_lt(a, c),
{
    if a.1 == b.1 && b.1 == c.1 {
        crate::keyed::lemma_bytes_lt_transitive(a.0.bytes(), b.0.bytes(), c.0.bytes());
    }
}

proof fn lemma_rank_total(a: (ObjectId, u64), b: (ObjectId, u64))
    requires
        a.0 != b.0,
    ensures
        rank_lt(a, b) || rank_lt(b, a),
{
    if a.1 == b.1 {
        if a.0.bytes() == b.0.bytes() {
            crate::types::lemma_hash_bytes_eq(a.0.0, b.0.0);
        }
        crate::keyed::lemma_bytes_lt_total(a.0.bytes(), b.0.bytes());
    }
}

/// The pairs in rank order: larger stake first, ties by increasing
/// identifier (insertion sort).
fn sort_ranked(entries: Vec<(ObjectId, u64)>) -> (r: Vec<(ObjectId, u64)>)
    requires
        keys_unique(entries@),
    ensures
        ranked(r@),
        r@.len() == entries@.len(),
        keys_unique(r@),
        forall|e: (ObjectId, u64)| r@.contains(e) <==> entries@.contains(e),
{
    let mut out: Vec<(ObjectId, u64)> = Vec::new();
    let mut rest = entries;
    let ghost orig = rest@;
    assert(out@ + rest@ =~= orig);
    while rest.len() > 0
        invariant
            ranked(out@),
            keys_unique(out@ + rest@),
            out@.len() + rest@.len() == orig.len(),
            forall|e: (ObjectId, u64)| (out@.contains(e) || rest@.contains(e)) <==> orig.contains(e),
        decreases rest@.len(),
    {
        let ghost old_out = out@;
        let ghost old_rest = rest@;
        let x = rest.pop().unwrap();
        proof {
            assert(old_rest =~= rest@.push(x));
            assert forall|i: int| 0 <= i < old_out.len() implies #[trigger] old_out[i].0 != x.0 by {
                let c = old_out + old_rest;
                assert(c[i] == old_out[i]);
                assert(c[c.len() - 1] == x);
            }
        }
        let mut k: usize = 0;
        while k < out.len()
            invariant
                k <= out@.len(),
                out@ == old_out,
                forall|i: int| 0 <= i < k ==> rank_lt(#[trigger] out@[i], x),
            ensures
                k <= out@.len(),
                out@ == old_out,
                forall|i: int| 0 <= i < k ==> rank_lt(#[trigger] out@[i], x),
                k < out@.len() ==> !rank_lt(out@[k as int], x),
            decreases out@.len() - k,
        {
            if !rank_lt_exec(&out[k], &x) {
                break;
            }
            k = k + 1;
        }
        proof {
            if k < old_out.len() {
                assert(!rank_lt(old_out[k as int], x));
                assert(old_out[k as int].0 != x.0);
                lemma_rank_total(old_out[k as int], x);
                assert forall|j: int| k <= j < old_out.len() implies rank_lt(x, #[trigger] old_out[j]) by {
                    if j > k {
                        lemma_rank_transitive(x, old_out[k as int], old_out[j]);
                    }
                }
            }
        }
        out.insert(k, x);
        proof {
            let n = out@;
            assert(n =~= old_out.insert(k as int, x));
            assert forall|i: int, j: int|
                #![trigger n[i], n[j]]
                0 <= i < j < n.len() implies rank_lt(n[i], n[j]) by {
                if j < k {
                    assert(n[i] == old_out[i] && n[j] == old_out[j]);
                } else if j == k {
                    assert(n[i] == old_out[i]);
                } else if i < k {
                    assert(n[i] == old_out[i] && n[j] == old_out[j - 1]);
                    lemma_rank_transitive(old_out[i], x, old_out[j - 1]);
                } else if i == k {
                    assert(n[j] == old_out[j - 1]);
                } else {
                    assert(n[i] == old_out[i - 1] && n[j] == old_out[j - 1]);
                }
            }
            let c_old = old_out + old_rest;
            let c_new = n + rest@;
            assert forall|a: int, b: int|
                #![trigger c_new[a].0, c_new[b].0]
                0 <= a < c_new.len() && 0 <= b < c_new.len() && a != b implies c_new[a].0
                    != c_new[b].0 by {
                let ia = if a < k { a } else if a == k { c_old.len() - 1 } else if a < n.len() {
                    a - 1
                } else {
                    a - 1
                };
                let ib = if b < k { b } else if b == k { c_old.len() - 1 } else if b < n.len() {
                    b - 1
                } else {
                    b - 1
                };
                assert(c_new[a] == c_old[ia]);
                assert(c_new[b] == c_old[ib]);
            }
            assert forall|e: (ObjectId, u64)| (n.contains(e) || rest@.contains(e)) <==> orig.contains(
                e,
            ) by {
                if n.contains(e) {
                    let i = choose|i: int| 0 <= i < n.len() && n[i] == e;
                    if i < k {
                        assert(old_out[i] == e);
                        assert(old_out.contains(e));
                    } else if i == k {
                        assert(old_rest[old_rest.len() - 1] == e);
                        assert(old_rest.contains(e));
                    } else {
                        assert(old_out[i - 1] == e);
                        assert(old_out.contains(e));
                    }
                }
                if rest@.contains(e) {
                    let i = choose|i: int| 0 <= i < rest@.len() && rest@[i] == e;
                    assert(old_rest[i] == e);
                    assert(old_rest.contains(e));
                }
                if old_out.contains(e) {
                    let i = choose|i: int| 0 <= i < old_out.len() && old_out[i] == e;
                    if i < k {
                        assert(n[i] == e);
                    } else {
                        assert(n[i + 1] == e);
                    }
                    assert(n.contains(e));
                }
                if old_rest.contains(e) {
                    let i = choose|i: int| 0 <= i < old_rest.len() && old_rest[i] == e;
                    if i == old_rest.len() - 1 {
                        assert(n[k as int] == e);
                        assert(n.contains(e));
                    } else {
                        assert(rest@[i] == e);
                        assert(rest@.contains(e));
                    }
                }
            }
        }
    }
    proof {
        assert(out@ + rest@ =~= out@);
        assert forall|e: (ObjectId, u64)| out@.contains(e) <==> orig.contains(e) by {
            if rest@.contains(e) {
                let i = choose|i: int| 0 <= i < rest@.len() && rest@[i] == e;
            }
        }
        
    }
    out
}

/// Whether a refiner competes for an active slot.
pub open spec fn rank_eligible(v: RefinerInfo) -> bool {
    v.status != RefinerStatus::Slashed && v.stake() > 0
}

/// The (identifier, counted stake) pairs of the competing entries, in order.
pub open spec fn eligible_pairs(s: Seq<(ObjectId, RefinerInfo)>) -> Seq<(ObjectId, u64)>
    decreases s.len(),
{
    if s.len() == 0 {
        Seq::empty()
    } else if rank_eligible(s.last().1) {
        eligible_pairs(s.drop_last()).push((s.last().0, counted_stake(s.last().1) as u64))
    } else {
        eligible_pairs(s.drop_last())
    }
}

/// Whether `ranking` lists, in rank order, exactly the competing refiners
/// of `m` with their counted stakes.
pub open spec fn is_ranking(ranking: Seq<(ObjectId, u64)>, m: Map<ObjectId, RefinerInfo>) -> bool {
    &&& ranked(ranking)
    &&& keys_unique(ranking)
    &&& forall|e: (ObjectId, u64)|
        #[trigger] ranking.contains(e) <==> (m.contains_key(e.0) && rank_eligible(m[e.0]) && e.1
            == counted_stake(m[e.0]))
}

/// A refiner after ranking at position `p` with `limit` active slots: a
/// waiting refiner within the limit becomes active, an active one beyond it
/// waits.
pub open spec fn reranked(v: RefinerInfo, p: int, limit: int) -> RefinerInfo {
    if p < limit {
        if v.status == RefinerStatus::Waiting {
            with_status(v, RefinerStatus::Active)
        } else {
            v
        }
    } else if v.status == RefinerStatus::Active {
        with_status(v, RefinerStatus::Waiting)
    } else {
        v
    }
}

/// The refiners after ranking the first `n` of `ranking`.
pub open spec fn reranked_upto(m: Map<ObjectId, RefinerInfo>, ranking: Seq<(ObjectId, u64)>, limit: int, n: nat) -> Map<ObjectId, RefinerInfo>
    decreases n,
{
    if n == 0 {
        m
    } else {
        let k = ranking[n - 1].0;
        reranked_upto(m, ranking, limit, (n - 1) as nat).insert(k, reranked(m[k], n - 1, limit))
    }
}

/// Whether `k` is among the first `n` identifiers of `ranking`.
pub open spec fn ranked_within(ranking: Seq<(ObjectId, u64)>, n: int, k: ObjectId) -> bool {
    exists|i: int| 0 <= i < n && #[trigger] ranking[i].0 == k
}

/// Re-ranking settles each ranked refiner by its place alone: the one at
/// place `i` is `reranked` at `i` (a waiting refiner within the limit turns
/// active, an active one beyond it waits, any other keeps its status), and a
/// refiner that is not ranked is left as it is.
pub proof fn lemma_rerank_by_place(m: Map<ObjectId, RefinerInfo>, ranking: Seq<(ObjectId, u64)>, limit: int, n: nat)
    requires
        keys_unique(ranking),
        n <= ranking.len(),
        forall|i: int| 0 <= i < ranking.len() ==> m.contains_key(#[trigger] ranking[i].0),
    ensures
        reranked_upto(m, ranking, limit, n).dom() == m.dom(),
        forall|i: int| 0 <= i < n ==> reranked_upto(m, ranking, limit, n)[#[trigger] ranking[i].0] == reranked(m[ranking[i].0], i, limit),
        forall|k: ObjectId| m.contains_key(k) && !ranked_within(ranking, n as int, k) ==> #[trigger] reranked_upto(m, ranking, limit, n)[k] == m[k],
    decreases n,
{
    if n > 0 {
        lemma_rerank_by_place(m, ranking, limit, (n - 1) as nat);
        let prev = reranked_upto(m, ranking, limit, (n - 1) as nat);
        let k = ranking[n - 1].0;
        assert(reranked_upto(m, ranking, limit, n).dom() =~= m.dom());
        assert forall|i: int| 0 <= i < n implies reranked_upto(m, ranking, limit, n)[#[trigger] ranking[i].0] == reranked(m[ranking[i].0], i, limit) by {
            if i < n - 1 {
                assert(ranking[i].0 != ranking[n - 1].0);
            }
        }
        assert forall|q: ObjectId| m.contains_key(q) && !ranked_within(ranking, n as int, q) implies #[trigger] reranked_upto(m, ranking, limit, n)[q] == m[q] by {
            if ranked_within(ranking, n - 1, q) {
                let i = choose|i: int| 0 <= i < n - 1 && #[trigger] ranking[i].0 == q;
                assert(ranked_within(ranking, n as int, q));
            }
            if q == k {
                assert(ranked_within(ranking, n as int, q));
            }
        }
    }
}

/// The identifiers promoted among the first `n` of `ranking`.
pub open spec fn promoted_upto(m: Map<ObjectId, RefinerInfo>, ranking: Seq<(ObjectId, u64)>, limit: int, n: nat) -> Seq<ObjectId>
    decreases n,
{
    if n == 0 {
        Seq::empty()
    } else {
        let k = ranking[n - 1].0;
        let prev = promoted_upto(m, ranking, limit, (n - 1) as nat);
        if n - 1 < limit && m[k].status == RefinerStatus::Waiting {
            prev.push(k)
        } else {
            prev
        }
    }
}

/// The identifiers demoted among the first `n` of `ranking`.
pub open spec fn demoted_upto(m: Map<ObjectId, RefinerInfo>, ranking: Seq<(ObjectId, u64)>, limit: int, n: nat) -> Seq<ObjectId>
    decreases n,
{
    if n == 0 {
        Seq::empty()
    } else {
        let k = ranking[n - 1].0;
        let prev = demoted_upto(m, ranking, limit, (n - 1) as nat);
        if n - 1 >= limit && m[k].status == RefinerStatus::Active {
            prev.push(k)
        } else {
            prev
        }
    }
}

/// The active set after ranking the first `n` of `ranking`: promoted
/// identifiers are appended, demoted ones removed.
pub open spec fn active_after(active: Seq<ObjectId>, m: Map<ObjectId, RefinerInfo>, ranking: Seq<(ObjectId, u64)>, limit: int, n: nat) -> Seq<ObjectId>
    decreases n,
{
    if n == 0 {
        active
    } else {
        let k = ranking[n - 1].0;
        let prev = active_after(active, m, ranking, limit, (n - 1) as nat);
        if n - 1 < limit && m[k].status == RefinerStatus::Waiting {
            prev.push(k)
        } else if n - 1 >= limit && m[k].status == RefinerStatus::Active {
            without_id(prev, k)
        } else {
            prev
        }
    }
}

proof fn lemma_reranked_untouched(m: Map<ObjectId, RefinerInfo>, ranking: Seq<(ObjectId, u64)>, limit: int, n: nat, k: ObjectId)
    requires
        n <= ranking.len(),
        forall|q: int| 0 <= q < n ==> ranking[q].0 != k,
    ensures
        reranked_upto(m, ranking, limit, n).contains_key(k) == m.contains_key(k),
        reranked_upto(m, ranking, limit, n)[k] == m[k],
    decreases n,
{
    if n > 0 {
        lemma_reranked_untouched(m, ranking, limit, (n - 1) as nat, k);
    }
}

proof fn lemma_reranked_dom(m: Map<ObjectId, RefinerInfo>, ranking: Seq<(ObjectId, u64)>, limit: int, n: nat)
    requires
        n <= ranking.len(),
        forall|q: int| 0 <= q < ranking.len() ==> m.contains_key(#[trigger] ranking[q].0),
    ensures
        reranked_upto(m, ranking, limit, n).dom() == m.dom(),
    decreases n,
{
    if n > 0 {
        lemma_reranked_dom(m, ranking, limit, (n - 1) as nat);
        assert(reranked_upto(m, ranking, limit, n).dom() =~= m.dom());
    }
}

proof fn lemma_eligible_pairs(s: Seq<(ObjectId, RefinerInfo)>)
    requires
        keys_unique(s),
    ensures
        keys_unique(eligible_pairs(s)),
        forall|e: (ObjectId, u64)|
            #[trigger] eligible_pairs(s).contains(e) <==> (to_map(s).contains_key(e.0) && rank_eligible(
                to_map(s)[e.0],
            ) && e.1 == counted_stake(to_map(s)[e.0])),
    decreases s.len(),
{
    if s.len() == 0 {
        assert forall|e: (ObjectId, u64)| !#[trigger] eligible_pairs(s).contains(e) by {}
    } else {
        let t = s.drop_last();
        assert(keys_unique(t)) by {
            assert forall|i: int, j: int|
                #![trigger t[i].0, t[j].0]
                0 <= i < t.len() && 0 <= j < t.len() && i != j implies t[i].0 != t[j].0 by {
                assert(t[i] == s[i] && t[j] == s[j]);
            }
        }
        lemma_eligible_pairs(t);
        let k0 = s.last().0;
        lemma_to_map_contains(t, k0);
        if to_map(t).contains_key(k0) {
            let i = choose|i: int| 0 <= i < t.len() && #[trigger] t[i].0 == k0;
            assert(s[i].0 == s[s.len() - 1].0);
        }
        let a = eligible_pairs(t);
        assert forall|i: int| 0 <= i < a.len() implies #[trigger] a[i].0 != k0 by {
            assert(a.contains(a[i]));
        }
        let x = (k0, counted_stake(s.last().1) as u64);
        if rank_eligible(s.last().1) {
            assert forall|i: int, j: int|
                #![trigger a.push(x)[i].0, a.push(x)[j].0]
                0 <= i < a.push(x).len() && 0 <= j < a.push(x).len() && i != j implies a.push(x)[i].0
                != a.push(x)[j].0 by {
                if i < a.len() && j < a.len() {
                    assert(a.push(x)[i] == a[i] && a.push(x)[j] == a[j]);
                } else if i < a.len() {
                    assert(a.push(x)[i] == a[i]);
                } else if j < a.len() {
                    assert(a.push(x)[j] == a[j]);
                }
            }
        }
        assert(to_map(s) == to_map(t).insert(k0, s.last().1));
        assert forall|e: (ObjectId, u64)|
            #[trigger] eligible_pairs(s).contains(e) <==> (to_map(s).contains_key(e.0) && rank_eligible(
                to_map(s)[e.0],
            ) && e.1 == counted_stake(to_map(s)[e.0])) by {
            lemma_push_contains(a, x, e);
            if e.0 != k0 {
                assert(to_map(s)[e.0] == to_map(t)[e.0]);
                assert(a.contains(e) <==> (to_map(t).contains_key(e.0) && rank_eligible(to_map(t)[e.0])
                    && e.1 == counted_stake(to_map(t)[e.0])));
            } else {
                if a.contains(e) {
                    let i = choose|i: int| 0 <= i < a.len() && a[i] == e;
                    assert(a[i].0 != k0);
                }
            }
        }
    }
}

impl RefinerSet {
    /// Re-ranks the competing refiners (not slashed, with stake) at an epoch
    /// boundary: in rank order (larger stake first, ties by identifier), a
    /// `Waiting` refiner within the first `active_refiner_limit` places
    /// becomes `Active` and joins the active set, an `Active` one beyond them
    /// returns to `Waiting` and leaves it. Returns (promoted, demoted).
    pub fn rerank_refiners(&mut self, current_timestamp: u64, total_issued_flakes: FlakeAmount) -> (r: (Vec<ObjectId>, Vec<ObjectId>))
        requires
            old(self).wf(),
        ensures
            final(self).wf(),
            final(self).queue() == old(self).queue(),
            exists|ranking: Seq<(ObjectId, u64)>|
                {
                    let limit = active_limit_spec(total_issued_flakes);
                    let n = ranking.len();
                    &&& #[trigger] is_ranking(ranking, old(self)@)
                    &&& final(self)@ == reranked_upto(old(self)@, ranking, limit, n)
                    &&& r.0@ == promoted_upto(old(self)@, ranking, limit, n)
                    &&& r.1@ == demoted_upto(old(self)@, ranking, limit, n)
                    &&& final(self).active_ids() == active_after(old(self).active_ids(), old(self)@, ranking, limit, n)
                    &&& final(self).dirty() == old(self).dirty() + r.0@.to_set() + r.1@.to_set()
                },
    {
        let active_limit = Self::active_refiner_limit(total_issued_flakes);
        let mut eligible: Vec<(ObjectId, u64)> = Vec::new();
        let mut i: usize = 0;
        while i < self.refiners.len()
            invariant
                i <= self.refiners@.len(),
                eligible@ == eligible_pairs(self.refiners@.take(i as int)),
            decreases self.refiners@.len() - i,
        {
            proof {
                assert(self.refiners@.take(i as int + 1).drop_last() =~= self.refiners@.take(i as int));
            }
            let st = self.refiners[i].1.total_stake();
            if self.refiners[i].1.status != RefinerStatus::Slashed && st > 0 {
                eligible.push((self.refiners[i].0, st));
            }
            i = i + 1;
        }
        proof {
            assert(self.refiners@.take(i as int) =~= self.refiners@);
            lemma_eligible_pairs(self.refiners@);
        }
        let ghost m0 = self@;
        let ghost el = eligible@;
        let ranking = sort_ranked(eligible);
        let ghost rk = ranking@;
        let ghost limit: int = active_limit as int;
        proof {
            assert forall|e: (ObjectId, u64)| #[trigger] rk.contains(e) <==> (m0.contains_key(e.0) && rank_eligible(m0[e.0]) && e.1 == counted_stake(m0[e.0])) by {
                assert(rk.contains(e) == el.contains(e));
            }
            assert(is_ranking(rk, m0));
            assert forall|q: int| 0 <= q < rk.len() implies m0.contains_key(#[trigger] rk[q].0) by {
                assert(rk.contains(rk[q]));
            }
        }
        let mut activated: Vec<ObjectId> = Vec::new();
        let mut demoted: Vec<ObjectId> = Vec::new();
        let mut p: usize = 0;
        while p < ranking.len()
            invariant
                self.wf(),
                p <= rk.len(),
                rk == ranking@,
                is_ranking(rk, m0),
                limit == active_limit as int,
                forall|q: int| 0 <= q < rk.len() ==> m0.contains_key(#[trigger] rk[q].0),
                self@ == reranked_upto(m0, rk, limit, p as nat),
                activated@ == promoted_upto(m0, rk, limit, p as nat),
                demoted@ == demoted_upto(m0, rk, limit, p as nat),
                self.active_ids() == active_after(old(self).active_ids(), m0, rk, limit, p as nat),
                self.dirty() == old(self).dirty() + activated@.to_set() + demoted@.to_set(),
                self.queue() == old(self).queue(),
                m0 == old(self)@,
            decreases rk.len() - p,
        {
            let id = ranking[p].0;
            proof {
                assert forall|q: int| 0 <= q < p implies rk[q].0 != id by {
                    assert(rk[q].0 != rk[p as int].0);
                }
                lemma_reranked_untouched(m0, rk, limit, p as nat, id);
            }
            let ghost before = self@;
            match find_key(&self.refiners, &id) {
                Some(i) => {
                    proof {
                        lemma_to_map_index(self.refiners@, i as int);
                    }
                    if p < active_limit {
                        if self.refiners[i].1.status == RefinerStatus::Waiting {
                            self.set_status_at(i, RefinerStatus::Active);
                            self.active_set.push(id);
                            self.mark_dirty(id);
                            proof {
                                lemma_to_set_push(activated@, id);
                            }
                            activated.push(id);
                        }
                    } else {
                        if self.refiners[i].1.status == RefinerStatus::Active {
                            self.set_status_at(i, RefinerStatus::Waiting);
                            remove_id(&mut self.active_set, &id);
                            self.mark_dirty(id);
                            proof {
                                lemma_to_set_push(demoted@, id);
                            }
                            demoted.push(id);
                        }
                    }
                },
                None => {
                    proof {
                        lemma_to_map_contains(self.refiners@, id);
                    }
                },
            }
            proof {
                assert(self@ =~= reranked_upto(m0, rk, limit, p as nat + 1));
                assert(self.dirty() =~= old(self).dirty() + activated@.to_set() + demoted@.to_set());
            }
            p = p + 1;
        }
        proof {
            assert(is_ranking(rk, old(self)@));
        }
        (activated, demoted)
    }
}


/// The Flakes that surplus decay burns from an entry of `stake`:
/// `stake · surplus · EPOCH / total_bonded / BLOCKS_PER_YEAR / limit_sqrt`
/// (the product saturating at `u128::MAX`), at most the stake.
pub open spec fn entry_burn(stake: u64, surplus: int, total_bonded: int, limit_sqrt: int) -> int {
    let p = stake * surplus;
    let q = if p * (EPOCH as int) > u128::MAX {
        u128::MAX as int
    } else {
        p * (EPOCH as int)
    };
    let b = q / total_bonded / (crate::constants::BLOCKS_PER_YEAR as int) / limit_sqrt;
    if b > stake {
        stake as int
    } else {
        b
    }
}

/// The entries after surplus decay.
pub open spec fn decayed_entries(s: Seq<BondEntry>, surplus: int, total_bonded: int, limit_sqrt: int) -> Seq<BondEntry> {
    s.map_values(|e: BondEntry| BondEntry { stake: (e.stake - entry_burn(e.stake, surplus, total_bonded, limit_sqrt)) as u64, ..e })
}

/// The Flakes burned from a sequence of entries.
pub open spec fn entries_burn(s: Seq<BondEntry>, surplus: int, total_bonded: int, limit_sqrt: int) -> int
    decreases s.len(),
{
    if s.len() == 0 {
        0
    } else {
        entries_burn(s.drop_last(), surplus, total_bonded, limit_sqrt) + entry_burn(s.last().stake, surplus, total_bonded, limit_sqrt)
    }
}

/// The Flakes burned from the refiners that are not slashed.
pub open spec fn refiners_burn(s: Seq<(ObjectId, RefinerInfo)>, surplus: int, total_bonded: int, limit_sqrt: int) -> int
    decreases s.len(),
{
    if s.len() == 0 {
        0
    } else {
        refiners_burn(s.drop_last(), surplus, total_bonded, limit_sqrt) + if s.last().1.status == RefinerStatus::Slashed {
            0
        } else {
            entries_burn(s.last().1.entries@, surplus, total_bonded, limit_sqrt)
        }
    }
}

/// Whether decay burns something from a refiner.
pub open spec fn decay_touches(v: RefinerInfo, surplus: int, total_bonded: int, limit_sqrt: int) -> bool {
    v.status != RefinerStatus::Slashed && exists|i: int|
        0 <= i < v.entries@.len() && entry_burn(#[trigger] v.entries@[i].stake, surplus, total_bonded, limit_sqrt) > 0
}

/// Whether `w` is `v` after surplus decay.
pub open spec fn decayed_from(w: RefinerInfo, v: RefinerInfo, surplus: int, total_bonded: int, limit_sqrt: int) -> bool {
    if v.status == RefinerStatus::Slashed {
        w == v
    } else {
        &&& w.object_id == v.object_id
        &&& w.status == v.status
        &&& w.last_signed_height == v.last_signed_height
        &&& w.consecutive_correct_attestations == v.consecutive_correct_attestations
        &&& w.entries@ == decayed_entries(v.entries@, surplus, total_bonded, limit_sqrt)
    }
}

proof fn lemma_entry_burn_bound(stake: u64, surplus: int, total_bonded: int, limit_sqrt: int)
    requires
        0 <= surplus,
        total_bonded > 0,
        limit_sqrt > 0,
    ensures
        0 <= entry_burn(stake, surplus, total_bonded, limit_sqrt) <= stake,
{
    let p = stake * surplus;
    assert(p >= 0) by (nonlinear_arith)
        requires
            surplus >= 0,
            stake >= 0,
            p == stake * surplus,
    ;
    let q = if p * (EPOCH as int) > u128::MAX {
        u128::MAX as int
    } else {
        p * (EPOCH as int)
    };
    assert(q >= 0);
    let b1 = q / total_bonded;
    assert(b1 >= 0) by (nonlinear_arith)
        requires
            q >= 0,
            total_bonded > 0,
            b1 == q / total_bonded,
    ;
    let b2 = b1 / (crate::constants::BLOCKS_PER_YEAR as int);
    let b3 = b2 / limit_sqrt;
    assert(b3 >= 0) by (nonlinear_arith)
        requires
            b2 >= 0,
            limit_sqrt > 0,
            b3 == b2 / limit_sqrt,
    ;
}

/// Decay lowers the stake of a sequence of entries by exactly what it burns.
proof fn lemma_decayed_entries_sum(s: Seq<BondEntry>, surplus: int, total_bonded: int, limit_sqrt: int)
    requires
        0 <= surplus,
        total_bonded > 0,
        limit_sqrt > 0,
    ensures
        stake_sum(decayed_entries(s, surplus, total_bonded, limit_sqrt)) == stake_sum(s) - entries_burn(s, surplus, total_bonded, limit_sqrt),
    decreases s.len(),
{
    let d = decayed_entries(s, surplus, total_bonded, limit_sqrt);
    if s.len() == 0 {
        assert(d =~= Seq::<BondEntry>::empty());
    } else {
        let t = s.drop_last();
        let e = s.last();
        lemma_decayed_entries_sum(t, surplus, total_bonded, limit_sqrt);
        lemma_entry_burn_bound(e.stake, surplus, total_bonded, limit_sqrt);
        let de = BondEntry { stake: (e.stake - entry_burn(e.stake, surplus, total_bonded, limit_sqrt)) as u64, ..e };
        assert(s =~= t.push(e));
        assert(d =~= decayed_entries(t, surplus, total_bonded, limit_sqrt).push(de));
        crate::refiner::lemma_stake_sum_push(t, e);
        crate::refiner::lemma_stake_sum_push(decayed_entries(t, surplus, total_bonded, limit_sqrt), de);
    }
}

/// Surplus decay never raises stake: a slashed refiner is left as it is;
/// any other keeps its entries, each holding at most its old stake, and its
/// stake falls by exactly what its entries burn; a refiner whose stake fell
/// is one that decay touches (and so is marked dirty).
pub proof fn lemma_decay_lowers_stake(w: RefinerInfo, v: RefinerInfo, surplus: int, total_bonded: int, limit_sqrt: int)
    requires
        decayed_from(w, v, surplus, total_bonded, limit_sqrt),
        0 <= surplus,
        total_bonded > 0,
        limit_sqrt > 0,
    ensures
        v.status == RefinerStatus::Slashed ==> w == v,
        w.entries@.len() == v.entries@.len(),
        forall|i: int| 0 <= i < v.entries@.len() ==> #[trigger] w.entries@[i].stake <= v.entries@[i].stake,
        v.status != RefinerStatus::Slashed ==> w.stake() == v.stake() - entries_burn(v.entries@, surplus, total_bonded, limit_sqrt),
        w.stake() <= v.stake(),
        w.stake() < v.stake() ==> decay_touches(v, surplus, total_bonded, limit_sqrt),
{
    if v.status != RefinerStatus::Slashed {
        lemma_entries_burn_positive(v.entries@, surplus, total_bonded, limit_sqrt);
        assert forall|i: int| 0 <= i < v.entries@.len() implies #[trigger] w.entries@[i].stake <= v.entries@[i].stake by {
            lemma_entry_burn_bound(v.entries@[i].stake, surplus, total_bonded, limit_sqrt);
        }
        lemma_decayed_entries_sum(v.entries@, surplus, total_bonded, limit_sqrt);
        lemma_entries_burn_nonneg(v.entries@, surplus, total_bonded, limit_sqrt);
    }
}

/// Entries that burn something hold one entry that burns something.
proof fn lemma_entries_burn_positive(s: Seq<BondEntry>, surplus: int, total_bonded: int, limit_sqrt: int)
    ensures
        entries_burn(s, surplus, total_bonded, limit_sqrt) > 0 ==> exists|i: int|
            0 <= i < s.len() && entry_burn(#[trigger] s[i].stake, surplus, total_bonded, limit_sqrt) > 0,
    decreases s.len(),
{
    if s.len() > 0 {
        lemma_entries_burn_positive(s.drop_last(), surplus, total_bonded, limit_sqrt);
        if entries_burn(s.drop_last(), surplus, total_bonded, limit_sqrt) > 0 {
            let i = choose|i: int| 0 <= i < s.drop_last().len() && entry_burn(#[trigger] s.drop_last()[i].stake, surplus, total_bonded, limit_sqrt) > 0;
            assert(s[i] == s.drop_last()[i]);
        } else if entries_burn(s, surplus, total_bonded, limit_sqrt) > 0 {
            assert(s[s.len() - 1] == s.last());
        }
    }
}

/// What entries burn is never negative.
proof fn lemma_entries_burn_nonneg(s: Seq<BondEntry>, surplus: int, total_bonded: int, limit_sqrt: int)
    requires
        0 <= surplus,
        total_bonded > 0,
        limit_sqrt > 0,
    ensures
        entries_burn(s, surplus, total_bonded, limit_sqrt) >= 0,
    decreases s.len(),
{
    if s.len() > 0 {
        lemma_entries_burn_nonneg(s.drop_last(), surplus, total_bonded, limit_sqrt);
        lemma_entry_burn_bound(s.last().stake, surplus, total_bonded, limit_sqrt);
    }
}

/// How much the stake of the listed refiners fell from `m` to `n`.
pub open spec fn stake_drop(ks: Seq<ObjectId>, m: Map<ObjectId, RefinerInfo>, n: Map<ObjectId, RefinerInfo>) -> int
    decreases ks.len(),
{
    if ks.len() == 0 {
        0
    } else {
        stake_drop(ks.drop_last(), m, n) + (m[ks.last()].stake() - n[ks.last()].stake())
    }
}

proof fn lemma_refiners_burn_prefix(
    s: Seq<(ObjectId, RefinerInfo)>,
    n: Map<ObjectId, RefinerInfo>,
    surplus: int,
    total_bonded: int,
    limit_sqrt: int,
    k: int,
)
    requires
        keys_unique(s),
        0 <= k <= s.len(),
        0 <= surplus,
        total_bonded > 0,
        limit_sqrt > 0,
        forall|q: ObjectId| #[trigger] to_map(s).contains_key(q) ==> decayed_from(n[q], to_map(s)[q], surplus, total_bonded, limit_sqrt),
    ensures
        refiners_burn(s.take(k), surplus, total_bonded, limit_sqrt) == stake_drop(crate::keyed::key_seq(s).take(k), to_map(s), n),
    decreases k,
{
    if k > 0 {
        lemma_refiners_burn_prefix(s, n, surplus, total_bonded, limit_sqrt, k - 1);
        assert(s.take(k).drop_last() =~= s.take(k - 1));
        assert(crate::keyed::key_seq(s).take(k).drop_last() =~= crate::keyed::key_seq(s).take(k - 1));
        let e = s[k - 1];
        assert(s.take(k).last() == e);
        assert(crate::keyed::key_seq(s).take(k).last() == e.0);
        crate::keyed::lemma_to_map_index(s, k - 1);
        lemma_decay_lowers_stake(n[e.0], e.1, surplus, total_bonded, limit_sqrt);
    }
}

/// What surplus decay burns is the sum, over every refiner, of how much its
/// stake fell: for refiners decayed with the given parameters, the listing
/// of all identifiers gives `decay_burn_total` as their total stake drop.
pub proof fn lemma_decay_burn_is_stake_drop(
    old: &RefinerSet,
    new_view: Map<ObjectId, RefinerInfo>,
    surplus: int,
    total_bonded: int,
    limit_sqrt: int,
)
    requires
        old.wf(),
        0 <= surplus,
        total_bonded > 0,
        limit_sqrt > 0,
        forall|q: ObjectId| #[trigger] old@.contains_key(q) ==> decayed_from(new_view[q], old@[q], surplus, total_bonded, limit_sqrt),
    ensures
        exists|ks: Seq<ObjectId>|
            {
                &&& ks.no_duplicates()
                &&& forall|q: ObjectId| #[trigger] ks.contains(q) <==> old@.contains_key(q)
                &&& old.decay_burn_total(surplus, total_bonded, limit_sqrt) == stake_drop(ks, old@, new_view)
            },
{
    let s = old.refiners@;
    let ks = crate::keyed::key_seq(s);
    assert(old@ == to_map(s));
    assert(keys_unique(s));
    lemma_refiners_burn_prefix(s, new_view, surplus, total_bonded, limit_sqrt, s.len() as int);
    assert(s.take(s.len() as int) =~= s);
    assert(ks.take(s.len() as int) =~= ks);
    assert forall|i: int, j: int| 0 <= i < ks.len() && 0 <= j < ks.len() && i != j implies ks[i] != ks[j] by {
        assert(ks[i] == s[i].0 && ks[j] == s[j].0);
    }
    assert forall|q: ObjectId| #[trigger] ks.contains(q) <==> old@.contains_key(q) by {
        crate::keyed::lemma_to_map_contains(s, q);
        if ks.contains(q) {
            let i = choose|i: int| 0 <= i < ks.len() && ks[i] == q;
            assert(s[i].0 == q);
        }
        if old@.contains_key(q) {
            let i = choose|i: int| 0 <= i < s.len() && #[trigger] s[i].0 == q;
            assert(ks[i] == q);
        }
    }
    assert(old.decay_burn_total(surplus, total_bonded, limit_sqrt) == stake_drop(ks, old@, new_view));
    assert(ks.no_duplicates());
}

impl RefinerSet {
    /// The Flakes that surplus decay burns with the given parameters.
    pub closed spec fn decay_burn_total(&self, surplus: int, total_bonded: int, limit_sqrt: int) -> int {
        refiners_burn(self.refiners@, surplus, total_bonded, limit_sqrt)
    }

    /// Burns surplus stake: with `B` the bonded stake and the baseline
    /// `minimum_bond_stake · active_refiner_limit`, nothing decays unless `B`
    /// exceeds the baseline; then each entry of a refiner that is not slashed
    /// loses `stake · (B − baseline) · EPOCH / (B · BLOCKS_PER_YEAR ·
    /// max(1, ⌊√limit⌋))`, at most its stake. Returns the total burned
    /// (saturating): the sum of how much each refiner's stake fell.
    pub fn decay_stake(&mut self, total_issued_flakes: FlakeAmount) -> (r: FlakeAmount)
        requires
            old(self).wf(),
        ensures
            final(self).wf(),
            final(self).active_ids() == old(self).active_ids(),
            final(self).queue() == old(self).queue(),
            ({
                let tb = saturate(ids_stake(old(self).active_ids(), old(self)@) + old(self).bonding_waiting());
                let limit = active_limit_spec(total_issued_flakes);
                let surplus = tb - minimum_bond_spec(total_issued_flakes) * limit;
                let root = floor_sqrt(limit as nat);
                let sq = if root < 1 { 1 } else { root as int };
                if tb == 0 || surplus <= 0 {
                    &&& r == 0
                    &&& final(self)@ == old(self)@
                    &&& final(self).dirty() == old(self).dirty()
                } else {
                    &&& r == saturate(old(self).decay_burn_total(surplus, tb, sq))
                    &&& exists|ks: Seq<ObjectId>|
                        {
                            &&& ks.no_duplicates()
                            &&& forall|q: ObjectId| #[trigger] ks.contains(q) <==> old(self)@.contains_key(q)
                            &&& r == saturate(stake_drop(ks, old(self)@, final(self)@))
                        }
                    &&& final(self)@.dom() == old(self)@.dom()
                    &&& forall|k: ObjectId| #[trigger] old(self)@.contains_key(k) ==> decayed_from(final(self)@[k], old(self)@[k], surplus, tb, sq)
                    &&& forall|k: ObjectId| #[trigger] final(self).dirty().contains(k) <==> (old(self).dirty().contains(k) || (old(self)@.contains_key(k) && decay_touches(old(self)@[k], surplus, tb, sq)))
                }
            }),
    {
        let total_bonded = self.total_bonded_stake();
        if total_bonded == 0 {
            return 0;
        }
        let active_limit = Self::active_refiner_limit(total_issued_flakes);
        let min_bond = Self::minimum_bond_stake(total_issued_flakes);
        proof {
            lemma_issued_sqrt_bound(total_issued_flakes);
            assert((min_bond as u128) * (active_limit as u128) < 0x1_0000_0000_0000_0000_0000_0000) by (nonlinear_arith)
                requires
                    min_bond <= 0x80_0000 * 1_000_000,
                    active_limit <= 960 + 0x80_0000,
            ;
        }
        let baseline = (min_bond as u128) * (active_limit as u128);
        if (total_bonded as u128) <= baseline {
            return 0;
        }
        let surplus = (total_bonded as u128) - baseline;
        let root = integer_sqrt_floor(active_limit as u128);
        let limit_sqrt: u128 = if root < 1 {
            1
        } else {
            root
        };
        let ghost sp = surplus as int;
        let ghost tb = total_bonded as int;
        let ghost sq = limit_sqrt as int;
        let mut total_burned: u64 = 0;
        let ghost s0 = self.refiners@;
        let ghost mut burned_so_far: int = 0;
        let mut i: usize = 0;
        while i < self.refiners.len()
            invariant
                s0 == old(self).refiners@,
                keys_unique(s0),
                i <= s0.len(),
                self.refiners@.len() == s0.len(),
                0 < surplus < 0x1_0000_0000_0000_0000,
                sp == surplus as int,
                tb == total_bonded as int,
                tb > 0,
                sq == limit_sqrt as int,
                sq > 0,
                forall|j: int| 0 <= j < s0.len() ==> #[trigger] self.refiners@[j].0 == s0[j].0,
                forall|j: int| 0 <= j < i ==> decayed_from(#[trigger] self.refiners@[j].1, s0[j].1, sp, tb, sq),
                forall|j: int| i <= j < s0.len() ==> #[trigger] self.refiners@[j].1 == s0[j].1,
                burned_so_far == refiners_burn(s0.take(i as int), sp, tb, sq),
                burned_so_far >= 0,
                total_burned == saturate(burned_so_far),
                self.dirty_refiners@.no_duplicates(),
                forall|k: ObjectId| #[trigger] self.dirty().contains(k) <==> (old(self).dirty().contains(k) || exists|j: int| 0 <= j < i && #[trigger] s0[j].0 == k && decay_touches(s0[j].1, sp, tb, sq)),
                self.active_set@ == old(self).active_set@,
                self.unbonding_queue@ == old(self).unbonding_queue@,
            decreases s0.len() - i,
        {
            proof {
                assert(s0.take(i as int + 1).drop_last() =~= s0.take(i as int));
            }
            let ghost dprev = self.dirty();
            let ghost ti = decay_touches(s0[i as int].1, sp, tb, sq);
            if self.refiners[i].1.status != RefinerStatus::Slashed {
                let ghost v = s0[i as int].1;
                let mut touched = false;
                let mut j: usize = 0;
                let ghost mut eb: int = 0;
                let ghost d0 = self.dirty_refiners@;
                while j < self.refiners[i].1.entries.len()
                    invariant
                        i < self.refiners@.len(),
                        self.refiners@.len() == s0.len(),
                        s0 == old(self).refiners@,
                        v == s0[i as int].1,
                        v.status != RefinerStatus::Slashed,
                        j <= v.entries@.len(),
                        self.refiners@[i as int].1.entries@.len() == v.entries@.len(),
                        self.refiners@[i as int].0 == s0[i as int].0,
                        self.refiners@[i as int].1.object_id == v.object_id,
                        self.refiners@[i as int].1.status == v.status,
                        self.refiners@[i as int].1.last_signed_height == v.last_signed_height,
                        self.refiners@[i as int].1.consecutive_correct_attestations == v.consecutive_correct_attestations,
                        forall|t: int| 0 <= t < j ==> #[trigger] self.refiners@[i as int].1.entries@[t] == decayed_entries(v.entries@, sp, tb, sq)[t],
                        forall|t: int| j <= t < v.entries@.len() ==> #[trigger] self.refiners@[i as int].1.entries@[t] == v.entries@[t],
                        forall|t: int| 0 <= t < s0.len() && t != i ==> #[trigger] self.refiners@[t] == old(self).refiners@[t] || (t < i && decayed_from(self.refiners@[t].1, s0[t].1, sp, tb, sq) && self.refiners@[t].0 == s0[t].0),
                        forall|t: int| 0 <= t < i ==> decayed_from(#[trigger] self.refiners@[t].1, s0[t].1, sp, tb, sq),
                        forall|t: int| 0 <= t < s0.len() ==> #[trigger] self.refiners@[t].0 == s0[t].0,
                        forall|t: int| i < t < s0.len() ==> #[trigger] self.refiners@[t].1 == s0[t].1,
                        0 < surplus < 0x1_0000_0000_0000_0000,
                        sp == surplus as int,
                        tb == total_bonded as int,
                        tb > 0,
                        sq == limit_sqrt as int,
                        sq > 0,
                        eb == entries_burn(v.entries@.take(j as int), sp, tb, sq),
                        eb >= 0,
                        touched == exists|t: int| 0 <= t < j && entry_burn(#[trigger] v.entries@[t].stake, sp, tb, sq) > 0,
                        self.dirty_refiners@ == d0,
                        d0.no_duplicates(),
                        self.active_set@ == old(self).active_set@,
                        self.unbonding_queue@ == old(self).unbonding_queue@,
                        total_burned == saturate(burned_so_far + eb),
                        burned_so_far >= 0,
                    decreases v.entries@.len() - j,
                {
                    proof {
                        assert(v.entries@.take(j as int + 1).drop_last() =~= v.entries@.take(j as int));
                    }
                    let st = self.refiners[i].1.entries[j].stake;
                    proof {
                        lemma_entry_burn_bound(st, sp, tb, sq);
                    }
                    proof {
                        assert((st as u128) * surplus < 0x1_0000_0000_0000_0000_0000_0000_0000_0000) by (nonlinear_arith)
                            requires
                                st < 0x1_0000_0000_0000_0000,
                                surplus < 0x1_0000_0000_0000_0000,
                        ;
                    }
                    let p1: u128 = (st as u128) * surplus;
                    let p2: u128 = if p1 > u128::MAX / 960 {
                        u128::MAX
                    } else {
                        p1 * 960
                    };
                    let b = p2 / (total_bonded as u128) / (crate::constants::BLOCKS_PER_YEAR as u128) / limit_sqrt;
                    let burned: u64 = if b > st as u128 {
                        st
                    } else {
                        b as u64
                    };
                    proof {
                        assert(burned == entry_burn(st, sp, tb, sq));
                    }
                    if burned > 0 {
                        total_burned = total_burned.saturating_add(burned);
                        touched = true;
                        let ghost prev = self.refiners@;
                        self.refiners[i].1.entries[j].stake = st - burned;
                        proof {
                            assert forall|t: int| 0 <= t < prev.len() && t != i implies self.refiners@[t] == prev[t] by {}
                        }
                    }
                    proof {
                        eb = eb + entry_burn(st, sp, tb, sq);
                    }
                    j = j + 1;
                }
                proof {
                    assert(v.entries@.take(j as int) =~= v.entries@);
                    assert(self.refiners@[i as int].1.entries@ =~= decayed_entries(v.entries@, sp, tb, sq));
                    burned_so_far = burned_so_far + eb;
                    assert(touched == decay_touches(v, sp, tb, sq));
                }
                if touched {
                    let id = self.refiners[i].0;
                    self.mark_dirty_in_place(id);
                }
                proof {
                    assert(self.dirty() == if ti { dprev.insert(s0[i as int].0) } else { dprev });
                }
            } else {
                proof {
                    assert(decayed_from(self.refiners@[i as int].1, s0[i as int].1, sp, tb, sq));
                    assert(!ti);
                }
            }
            proof {
                assert(self.dirty() == if ti { dprev.insert(s0[i as int].0) } else { dprev });
                assert forall|k: ObjectId| #[trigger] self.dirty().contains(k) <==> (old(self).dirty().contains(k) || exists|j: int| 0 <= j < i + 1 && #[trigger] s0[j].0 == k && decay_touches(s0[j].1, sp, tb, sq)) by {
                    assert(dprev.contains(k) <==> (old(self).dirty().contains(k) || exists|j: int| 0 <= j < i && #[trigger] s0[j].0 == k && decay_touches(s0[j].1, sp, tb, sq)));
                    if exists|j: int| 0 <= j < i + 1 && #[trigger] s0[j].0 == k && decay_touches(s0[j].1, sp, tb, sq) {
                        let j = choose|j: int| 0 <= j < i + 1 && #[trigger] s0[j].0 == k && decay_touches(s0[j].1, sp, tb, sq);
                        if j < i {
                            assert(dprev.contains(k));
                        }
                    }
                    if ti && k == s0[i as int].0 {
                        assert(s0[i as int].0 == k && decay_touches(s0[i as int].1, sp, tb, sq));
                    }
                }
            }
            i = i + 1;
        }
        proof {
            assert(s0.take(i as int) =~= s0);
            crate::account::lemma_map_len(s0);
            assert forall|k: ObjectId| #[trigger] self.dirty().contains(k) <==> (old(self).dirty().contains(k) || (old(self)@.contains_key(k) && decay_touches(old(self)@[k], sp, tb, sq))) by {
                lemma_to_map_contains(s0, k);
                if exists|j: int| 0 <= j < s0.len() && #[trigger] s0[j].0 == k && decay_touches(s0[j].1, sp, tb, sq) {
                    let j = choose|j: int| 0 <= j < s0.len() && #[trigger] s0[j].0 == k && decay_touches(s0[j].1, sp, tb, sq);
                    lemma_to_map_index(s0, j);
                }
                if old(self)@.contains_key(k) {
                    let j = choose|j: int| 0 <= j < s0.len() && #[trigger] s0[j].0 == k;
                    lemma_to_map_index(s0, j);
                }
            }
            assert forall|k: ObjectId| #[trigger] self@.dom().contains(k) <==> old(self)@.dom().contains(k) by {
                lemma_to_map_contains(s0, k);
                lemma_to_map_contains(self.refiners@, k);
                if self@.contains_key(k) {
                    let j = choose|j: int| 0 <= j < self.refiners@.len() && #[trigger] self.refiners@[j].0 == k;
                    assert(s0[j].0 == k);
                }
                if old(self)@.contains_key(k) {
                    let j = choose|j: int| 0 <= j < s0.len() && #[trigger] s0[j].0 == k;
                    assert(self.refiners@[j].0 == k);
                }
            }
            assert(self@.dom() =~= old(self)@.dom());
            assert forall|k: ObjectId| #[trigger] old(self)@.contains_key(k) implies decayed_from(self@[k], old(self)@[k], sp, tb, sq) by {
                lemma_to_map_contains(s0, k);
                let j = choose|j: int| 0 <= j < s0.len() && #[trigger] s0[j].0 == k;
                lemma_to_map_index(s0, j);
                lemma_to_map_index(self.refiners@, j);
            }
            lemma_decay_burn_is_stake_drop(old(self), self@, sp, tb, sq);
        }
        total_burned
    }
}

} // verus!
