//! Proof-of-stake refiners: bonding, FIFO unbonding, activation, ranking,
//! surplus decay, slashing and stake-weighted block-producer selection.
//!
//! A refiner's weight is the sum of the stake of its bond entries; bond age
//! is kept for FIFO ordering and provenance only. Unbonding consumes the
//! oldest entries first and queues the stake for one epoch. Slashing (for
//! double-signing only) burns all stake, pending withdrawals included.
use crate::constants::{BLOCKS_PER_YEAR, EPOCH, FLAKES_PER_OPL};
use crate::emission::{floor_sqrt, integer_sqrt_floor, lemma_floor_sqrt};
use crate::types::{FlakeAmount, ObjectId, RefinerStatus};
use vstd::prelude::*;
use vstd::wrapping::u64_specs;

verus! {

/// Block height.
pub type BlockHeight = u64;

/// A withdrawal of unbonded stake that matures one epoch after the unbond.
#[derive(Debug, Clone, Copy, PartialEq, Eq)]
pub struct PendingUnbond {
    /// The account that receives the stake.
    pub account: ObjectId,
    /// Flakes returned at maturity.
    pub amount: FlakeAmount,
    /// Height from which the entry can be paid out.
    pub matures_at: BlockHeight,
}

/// One bond entry of a refiner: an amount of stake and when it was bonded.
#[derive(Debug, Clone, Copy, PartialEq, Eq, Structural)]
pub struct BondEntry {
    /// Flakes locked in this entry.
    pub stake: FlakeAmount,
    /// Height at which the entry was bonded.
    pub bonded_at_height: u64,
    /// Unix time at which the entry was bonded (FIFO order and provenance).
    pub bonded_at_timestamp: u64,
}

/// Seconds in a Julian year (365.25 days).
pub const SECONDS_PER_JULIAN_YEAR: u64 = 31_557_600;

/// The age of an entry in milli-years, 0 at or before its bonding time.
pub open spec fn age_milli_spec(bonded_at: u64, now: u64) -> int {
    if now <= bonded_at {
        0
    } else {
        (now - bonded_at) * 1000 / (SECONDS_PER_JULIAN_YEAR as int)
    }
}

impl BondEntry {
    /// The entry's age in milli-years at `current_timestamp`.
    pub fn age_years_milli(&self, current_timestamp: u64) -> (r: u64)
        ensures
            r == age_milli_spec(self.bonded_at_timestamp, current_timestamp),
    {
        if current_timestamp <= self.bonded_at_timestamp {
            return 0;
        }
        let age_secs = current_timestamp - self.bonded_at_timestamp;
        let milli = (age_secs as u128) * 1000 / (SECONDS_PER_JULIAN_YEAR as u128);
        assert((age_secs as int) * 1000 / 31_557_600 <= age_secs) by (nonlinear_arith);
        milli as u64
    }

    /// The entry's weight: exactly its stake (age does not count).
    pub fn weight(&self, current_timestamp: u64) -> (w: FlakeAmount)
        ensures
            w == self.stake,
    {
        crate::emission::compute_refiner_weight(self.stake, self.age_years_milli(current_timestamp))
    }
}

/// The total stake of a sequence of entries.
pub open spec fn stake_sum(s: Seq<BondEntry>) -> int
    decreases s.len(),
{
    if s.len() == 0 {
        0
    } else {
        s[0].stake + stake_sum(s.drop_first())
    }
}

/// Appending an entry adds its stake.
pub proof fn lemma_stake_sum_push(s: Seq<BondEntry>, e: BondEntry)
    ensures
        stake_sum(s.push(e)) == stake_sum(s) + e.stake,
    decreases s.len(),
{
    if s.len() > 0 {
        lemma_stake_sum_push(s.drop_first(), e);
        assert(s.push(e).drop_first() =~= s.drop_first().push(e));
    } else {
        assert(s.push(e).drop_first() =~= Seq::<BondEntry>::empty());
        assert(stake_sum(Seq::<BondEntry>::empty()) == 0);
    }
}

/// Stake sums are non-negative.
pub proof fn lemma_stake_sum_nonneg(s: Seq<BondEntry>)
    ensures
        stake_sum(s) >= 0,
    decreases s.len(),
{
    if s.len() > 0 {
        lemma_stake_sum_nonneg(s.drop_first());
    }
}

/// Changing one entry's stake changes the sum by the difference.
pub proof fn lemma_stake_sum_update(s: Seq<BondEntry>, i: int, e: BondEntry)
    requires
        0 <= i < s.len(),
    ensures
        stake_sum(s.update(i, e)) == stake_sum(s) - s[i].stake + e.stake,
    decreases s.len(),
{
    if i > 0 {
        lemma_stake_sum_update(s.drop_first(), i - 1, e);
        assert(s.update(i, e).drop_first() =~= s.drop_first().update(i - 1, e));
    } else {
        assert(s.update(i, e).drop_first() =~= s.drop_first());
    }
}

/// Inserting an entry adds its stake.
pub proof fn lemma_stake_sum_insert(s: Seq<BondEntry>, i: int, e: BondEntry)
    requires
        0 <= i <= s.len(),
    ensures
        stake_sum(s.insert(i, e)) == stake_sum(s) + e.stake,
    decreases s.len(),
{
    if i > 0 {
        lemma_stake_sum_insert(s.drop_first(), i - 1, e);
        assert(s.insert(i, e).drop_first() =~= s.drop_first().insert(i - 1, e));
    } else {
        assert(s.insert(i, e).drop_first() =~= s);
    }
}

/// The stake of a prefix is at most the stake of the whole sequence.
pub proof fn lemma_stake_sum_skip(s: Seq<BondEntry>, k: int)
    requires
        0 <= k <= s.len(),
    ensures
        stake_sum(s) == stake_sum(s.take(k)) + stake_sum(s.skip(k)),
    decreases k,
{
    if k > 0 {
        lemma_stake_sum_skip(s.drop_first(), k - 1);
        assert(s.take(k).drop_first() =~= s.drop_first().take(k - 1));
        assert(s.skip(k) =~= s.drop_first().skip(k - 1));
    } else {
        assert(s.skip(0) =~= s);
    }
}

/// The entries left after unbonding `amount`, oldest entries first: whole
/// entries are consumed while they fit, then the next is reduced.
pub open spec fn fifo_remove(s: Seq<BondEntry>, amount: nat) -> Seq<BondEntry>
    decreases s.len(),
{
    if amount == 0 || s.len() == 0 {
        s
    } else if s[0].stake <= amount {
        fifo_remove(s.drop_first(), (amount - s[0].stake) as nat)
    } else {
        s.update(0, BondEntry { stake: (s[0].stake - amount) as u64, ..s[0] })
    }
}

/// FIFO unbonding of at most the total stake removes exactly that amount.
pub proof fn lemma_fifo_remove_sum(s: Seq<BondEntry>, amount: nat)
    requires
        amount <= stake_sum(s),
    ensures
        stake_sum(fifo_remove(s, amount)) == stake_sum(s) - amount,
    decreases s.len(),
{
    if amount == 0 || s.len() == 0 {
    } else if s[0].stake <= amount {
        lemma_fifo_remove_sum(s.drop_first(), (amount - s[0].stake) as nat);
    } else {
        lemma_stake_sum_update(s, 0, BondEntry { stake: (s[0].stake - amount) as u64, ..s[0] });
    }
}

/// Whether the timestamps of the entries never decrease (FIFO order).
pub open spec fn fifo_ordered(s: Seq<BondEntry>) -> bool {
    forall|i: int, j: int|
        0 <= i < j < s.len() ==> #[trigger] s[i].bonded_at_timestamp
            <= #[trigger] s[j].bonded_at_timestamp
}

/// `x` capped at `u64::MAX`.
pub open spec fn saturate(x: int) -> int {
    if x > u64::MAX {
        u64::MAX as int
    } else {
        x
    }
}

/// The exact total stake of the entries, as a `u128`.
fn sum_entry_stakes(entries: &Vec<BondEntry>) -> (t: u128)
    ensures
        t == stake_sum(entries@),
{
    let mut total: u128 = 0;
    let mut i: usize = 0;
    let ghost s = entries@;
    while i < entries.len()
        invariant
            i <= s.len(),
            s == entries@,
            total == stake_sum(s.take(i as int)),
            total <= i * 0x1_0000_0000_0000_0000,
        decreases s.len() - i,
    {
        proof {
            lemma_stake_sum_push(s.take(i as int), s[i as int]);
            assert(s.take(i as int + 1) =~= s.take(i as int).push(s[i as int]));
        }
        total = total + entries[i].stake as u128;
        i = i + 1;
    }
    assert(s.take(i as int) =~= s);
    total
}

/// A bonded refiner.
#[derive(Debug)]
pub struct RefinerInfo {
    /// The refiner's identity.
    pub object_id: ObjectId,
    /// Bond entries, oldest first.
    pub entries: Vec<BondEntry>,
    /// Lifecycle status.
    pub status: RefinerStatus,
    /// Height of the most recent block it signed.
    pub last_signed_height: u64,
    /// Consecutive verified attestations recorded on-chain.
    pub consecutive_correct_attestations: u64,
}

impl Clone for RefinerInfo {
    fn clone(&self) -> (r: Self)
        ensures
            r.object_id == self.object_id,
            r.entries@ == self.entries@,
            r.status == self.status,
            r.last_signed_height == self.last_signed_height,
            r.consecutive_correct_attestations == self.consecutive_correct_attestations,
    {
        RefinerInfo {
            object_id: self.object_id,
            entries: self.entries.clone(),
            status: self.status,
            last_signed_height: self.last_signed_height,
            consecutive_correct_attestations: self.consecutive_correct_attestations,
        }
    }
}

impl RefinerInfo {
    /// The total stake of the refiner.
    pub open spec fn stake(&self) -> int {
        stake_sum(self.entries@)
    }

    /// A new refiner in `Bonding` status with one entry.
    pub(crate) fn new_refiner(object_id: ObjectId, stake: FlakeAmount, height: u64, timestamp: u64) -> (r: RefinerInfo)
        ensures
            r.object_id == object_id,
            r.entries@ == seq![
                BondEntry { stake, bonded_at_height: height, bonded_at_timestamp: timestamp },
            ],
            r.status == RefinerStatus::Bonding,
            r.last_signed_height == 0,
            r.consecutive_correct_attestations == 0,
            r.stake() == stake,
    {
        let mut entries: Vec<BondEntry> = Vec::new();
        entries.push(BondEntry { stake, bonded_at_height: height, bonded_at_timestamp: timestamp });
        let r = RefinerInfo {
            object_id,
            entries,
            status: RefinerStatus::Bonding,
            last_signed_height: 0,
            consecutive_correct_attestations: 0,
        };
        assert(r.entries@.drop_first() =~= Seq::<BondEntry>::empty());
        assert(stake_sum(r.entries@.drop_first()) == 0);
        r
    }

    /// The total stake across all entries (saturating at `u64::MAX`).
    pub fn total_stake(&self) -> (t: FlakeAmount)
        ensures
            t == saturate(self.stake()),
    {
        let t = sum_entry_stakes(&self.entries);
        if t > u64::MAX as u128 {
            u64::MAX
        } else {
            t as u64
        }
    }

    /// The refiner's weight: the sum of its entries' weights, that is, its
    /// stake (saturating at `u64::MAX`).
    pub fn weight(&self, current_timestamp: u64) -> (w: FlakeAmount)
        ensures
            w == saturate(self.stake()),
    {
        let mut total: u128 = 0;
        let mut i: usize = 0;
        let ghost s = self.entries@;
        while i < self.entries.len()
            invariant
                i <= s.len(),
                s == self.entries@,
                total == stake_sum(s.take(i as int)),
                total <= i * 0x1_0000_0000_0000_0000,
            decreases s.len() - i,
        {
            proof {
                lemma_stake_sum_push(s.take(i as int), s[i as int]);
                assert(s.take(i as int + 1) =~= s.take(i as int).push(s[i as int]));
            }
            total = total + self.entries[i].weight(current_timestamp) as u128;
            i = i + 1;
        }
        assert(s.take(i as int) =~= s);
        if total > u64::MAX as u128 {
            u64::MAX
        } else {
            total as u64
        }
    }

    /// The entry at `index`, if any.
    pub fn get_entry(&self, index: usize) -> (r: Option<&BondEntry>)
        ensures
            r is Some <==> index < self.entries@.len(),
            r matches Some(e) ==> *e == self.entries@[index as int],
    {
        if index < self.entries.len() {
            Some(&self.entries[index])
        } else {
            None
        }
    }
}


/// Position of the first entry bonded at `ts` (the length if none).
pub open spec fn first_index_with_ts(s: Seq<BondEntry>, ts: u64) -> int
    decreases s.len(),
{
    if s.len() == 0 {
        0
    } else if s[0].bonded_at_timestamp == ts {
        0
    } else {
        1 + first_index_with_ts(s.drop_first(), ts)
    }
}

/// Position of the first entry bonded after `ts` (the length if none).
pub open spec fn first_index_after_ts(s: Seq<BondEntry>, ts: u64) -> int
    decreases s.len(),
{
    if s.len() == 0 {
        0
    } else if s[0].bonded_at_timestamp > ts {
        0
    } else {
        1 + first_index_after_ts(s.drop_first(), ts)
    }
}

proof fn lemma_first_index_with_ts(s: Seq<BondEntry>, ts: u64, k: int)
    requires
        0 <= k <= s.len(),
        forall|j: int| 0 <= j < k ==> s[j].bonded_at_timestamp != ts,
        k < s.len() ==> s[k].bonded_at_timestamp == ts,
    ensures
        first_index_with_ts(s, ts) == k,
    decreases s.len(),
{
    if k > 0 {
        assert(s[0].bonded_at_timestamp != ts);
        lemma_first_index_with_ts(s.drop_first(), ts, k - 1);
    }
}

proof fn lemma_first_index_after_ts(s: Seq<BondEntry>, ts: u64, k: int)
    requires
        0 <= k <= s.len(),
        forall|j: int| 0 <= j < k ==> s[j].bonded_at_timestamp <= ts,
        k < s.len() ==> s[k].bonded_at_timestamp > ts,
    ensures
        first_index_after_ts(s, ts) == k,
    decreases s.len(),
{
    if k > 0 {
        assert(s[0].bonded_at_timestamp <= ts);
        lemma_first_index_after_ts(s.drop_first(), ts, k - 1);
    }
}

/// The entries after bonding `stake` at `ts`: merged into the first entry
/// with that timestamp (`None` if its stake would overflow), else a new
/// entry inserted before the first later one.
pub open spec fn added_entries(s: Seq<BondEntry>, stake: u64, height: u64, ts: u64) -> Option<
    Seq<BondEntry>,
> {
    let k = first_index_with_ts(s, ts);
    if k < s.len() {
        if s[k].stake + stake > u64::MAX {
            None
        } else {
            Some(s.update(k, add_stake(s[k], stake)))
        }
    } else {
        Some(
            s.insert(
                first_index_after_ts(s, ts),
                BondEntry { stake, bonded_at_height: height, bonded_at_timestamp: ts },
            ),
        )
    }
}

/// Whether entries are in strictly increasing timestamp order.
pub open spec fn ts_ordered(s: Seq<BondEntry>) -> bool {
    forall|i: int, j: int| 0 <= i < j < s.len() ==> #[trigger] s[i].bonded_at_timestamp < #[trigger] s[j].bonded_at_timestamp
}

proof fn lemma_first_index_with_ts_props(s: Seq<BondEntry>, ts: u64)
    ensures
        0 <= first_index_with_ts(s, ts) <= s.len(),
        forall|j: int| 0 <= j < first_index_with_ts(s, ts) ==> #[trigger] s[j].bonded_at_timestamp != ts,
        first_index_with_ts(s, ts) < s.len() ==> s[first_index_with_ts(s, ts)].bonded_at_timestamp == ts,
    decreases s.len(),
{
    if s.len() > 0 && s[0].bonded_at_timestamp != ts {
        lemma_first_index_with_ts_props(s.drop_first(), ts);
        assert forall|j: int| 0 <= j < first_index_with_ts(s, ts) implies #[trigger] s[j].bonded_at_timestamp != ts by {
            if j > 0 {
                assert(s[j] == s.drop_first()[j - 1]);
            }
        }
    }
}

proof fn lemma_first_index_after_ts_props(s: Seq<BondEntry>, ts: u64)
    requires
        ts_ordered(s),
    ensures
        0 <= first_index_after_ts(s, ts) <= s.len(),
        forall|j: int| 0 <= j < first_index_after_ts(s, ts) ==> #[trigger] s[j].bonded_at_timestamp <= ts,
        forall|j: int| first_index_after_ts(s, ts) <= j < s.len() ==> #[trigger] s[j].bonded_at_timestamp > ts,
    decreases s.len(),
{
    if s.len() > 0 {
        if s[0].bonded_at_timestamp > ts {
            assert forall|j: int| 0 <= j < s.len() implies #[trigger] s[j].bonded_at_timestamp > ts by {
                if j > 0 {
                    assert(s[0].bonded_at_timestamp < s[j].bonded_at_timestamp);
                }
            }
        } else {
            let t = s.drop_first();
            assert(ts_ordered(t)) by {
                assert forall|i: int, j: int| 0 <= i < j < t.len() implies #[trigger] t[i].bonded_at_timestamp < #[trigger] t[j].bonded_at_timestamp by {
                    assert(t[i] == s[i + 1] && t[j] == s[j + 1]);
                }
            }
            lemma_first_index_after_ts_props(t, ts);
            assert forall|j: int| 0 <= j < first_index_after_ts(s, ts) implies #[trigger] s[j].bonded_at_timestamp <= ts by {
                if j > 0 {
                    assert(s[j] == t[j - 1]);
                }
            }
            assert forall|j: int| first_index_after_ts(s, ts) <= j < s.len() implies #[trigger] s[j].bonded_at_timestamp > ts by {
                assert(s[j] == t[j - 1]);
            }
        }
    }
}

/// Bonding keeps a refiner's entries in strictly increasing timestamp order
/// and adds exactly the bonded stake: a bond at a timestamp already held
/// merges into that entry (refused only if its stake would overflow), any
/// other becomes a new entry in its place.
pub proof fn lemma_bond_keeps_timestamp_order(s: Seq<BondEntry>, stake: u64, height: u64, ts: u64)
    requires
        ts_ordered(s),
    ensures
        added_entries(s, stake, height, ts) matches Some(t) ==> ts_ordered(t) && stake_sum(t) == stake_sum(s) + stake,
        (exists|i: int| 0 <= i < s.len() && #[trigger] s[i].bonded_at_timestamp == ts) ==> (added_entries(s, stake, height, ts) matches Some(t) ==> t.len() == s.len()),
        (forall|i: int| 0 <= i < s.len() ==> #[trigger] s[i].bonded_at_timestamp != ts) ==> (added_entries(s, stake, height, ts) matches Some(t) && t.len() == s.len() + 1
            && t.contains(BondEntry { stake, bonded_at_height: height, bonded_at_timestamp: ts })),
{
    lemma_first_index_with_ts_props(s, ts);
    lemma_first_index_after_ts_props(s, ts);
    let k = first_index_with_ts(s, ts);
    if k < s.len() {
        if s[k].stake + stake <= u64::MAX {
            let t = s.update(k, add_stake(s[k], stake));
            assert forall|i: int, j: int| 0 <= i < j < t.len() implies #[trigger] t[i].bonded_at_timestamp < #[trigger] t[j].bonded_at_timestamp by {
                assert(t[i].bonded_at_timestamp == s[i].bonded_at_timestamp);
                assert(t[j].bonded_at_timestamp == s[j].bonded_at_timestamp);
            }
            lemma_stake_sum_update(s, k, add_stake(s[k], stake));
        }
    } else {
        let p = first_index_after_ts(s, ts);
        let e = BondEntry { stake, bonded_at_height: height, bonded_at_timestamp: ts };
        let t = s.insert(p, e);
        assert forall|i: int| 0 <= i < p implies #[trigger] s[i].bonded_at_timestamp < ts by {
            assert(s[i].bonded_at_timestamp != ts);
        }
        assert forall|i: int, j: int| 0 <= i < j < t.len() implies #[trigger] t[i].bonded_at_timestamp < #[trigger] t[j].bonded_at_timestamp by {
            if i < p {
                assert(t[i] == s[i]);
                if j < p {
                    assert(t[j] == s[j]);
                } else if j > p {
                    assert(t[j] == s[j - 1]);
                }
            } else if i == p {
                assert(t[j] == s[j - 1]);
            } else {
                assert(t[i] == s[i - 1] && t[j] == s[j - 1]);
            }
        }
        lemma_stake_sum_insert(s, p, e);
        assert(t[p] == e);
    }
}

/// The message refusing a merge whose stake would overflow.
pub open spec fn bond_overflow_msg(existing: u64, new: u64) -> Seq<char> {
    "Bond entry stake overflow: existing "@ + crate::account::dec_str(existing) + " + new "@
        + crate::account::dec_str(new)
}

/// The entry `e` with its stake raised by `extra`.
pub open spec fn add_stake(e: BondEntry, extra: u64) -> BondEntry {
    BondEntry { stake: (e.stake + extra) as u64, ..e }
}

impl RefinerInfo {
    /// Adds stake bonded at `timestamp`: merged into the first entry with the
    /// same timestamp (refused on overflow), else inserted as a new entry
    /// before the first entry with a later timestamp.
    pub(crate) fn add_entry(&mut self, stake: FlakeAmount, height: u64, timestamp: u64) -> (r: Result<(), String>)
        ensures
            final(self).object_id == old(self).object_id,
            final(self).status == old(self).status,
            final(self).last_signed_height == old(self).last_signed_height,
            final(self).consecutive_correct_attestations == old(self).consecutive_correct_attestations,
            forall|k: int|
                0 <= k < old(self).entries@.len() && (#[trigger] old(self).entries@[k]).bonded_at_timestamp
                    == timestamp && (forall|j: int|
                    0 <= j < k ==> old(self).entries@[j].bonded_at_timestamp != timestamp) ==> {
                    let e = old(self).entries@[k];
                    &&& e.stake + stake > u64::MAX ==> (r matches Err(m) && m@
                        == "Bond entry stake overflow: existing "@ + crate::account::dec_str(e.stake)
                        + " + new "@ + crate::account::dec_str(stake) && final(self).entries@ == old(
                        self,
                    ).entries@)
                    &&& e.stake + stake <= u64::MAX ==> (r is Ok && final(self).entries@ == old(
                        self,
                    ).entries@.update(k, add_stake(e, stake)))
                },
            (forall|j: int|
                0 <= j < old(self).entries@.len() ==> (#[trigger] old(self).entries@[j]).bonded_at_timestamp
                    != timestamp) ==> (r is Ok && exists|p: int|
                0 <= p <= old(self).entries@.len() && (forall|j: int|
                    0 <= j < p ==> (#[trigger] old(self).entries@[j]).bonded_at_timestamp
                        <= timestamp) && (p < old(self).entries@.len() ==> old(
                    self,
                ).entries@[p].bonded_at_timestamp > timestamp) && final(self).entries@ == old(
                    self,
                ).entries@.insert(
                    p,
                    BondEntry { stake, bonded_at_height: height, bonded_at_timestamp: timestamp },
                )),
            fifo_ordered(old(self).entries@) ==> fifo_ordered(final(self).entries@),
            r is Ok ==> final(self).stake() == old(self).stake() + stake,
            r is Err ==> final(self).stake() == old(self).stake(),
            r is Ok <==> added_entries(old(self).entries@, stake, height, timestamp) is Some,
            r is Ok ==> final(self).entries@ == added_entries(
                old(self).entries@,
                stake,
                height,
                timestamp,
            )->0,
            r is Err ==> final(self).entries == old(self).entries,
            r matches Err(m) ==> m@ == bond_overflow_msg(
                old(self).entries@[first_index_with_ts(old(self).entries@, timestamp)].stake,
                stake,
            ),
    {
        let ghost s = self.entries@;
        let mut k: usize = 0;
        while k < self.entries.len()
            invariant
                k <= s.len(),
                s == self.entries@,
                s == old(self).entries@,
                self.entries == old(self).entries,
                forall|j: int| 0 <= j < k ==> s[j].bonded_at_timestamp != timestamp,
                self.object_id == old(self).object_id,
                self.status == old(self).status,
                self.last_signed_height == old(self).last_signed_height,
                self.consecutive_correct_attestations == old(self).consecutive_correct_attestations,
            decreases s.len() - k,
        {
            if self.entries[k].bonded_at_timestamp == timestamp {
                proof {
                    assert(old(self).entries@[k as int].bonded_at_timestamp == timestamp);
                    assert forall|k2: int|
                        0 <= k2 < s.len() && #[trigger] s[k2].bonded_at_timestamp == timestamp && (
                        forall|j: int| 0 <= j < k2 ==> s[j].bonded_at_timestamp != timestamp) implies k2
                        == k by {
                        if k2 > k {
                            assert(s[k as int].bonded_at_timestamp == timestamp);
                        }
                    }
                }
                proof {
                    lemma_first_index_with_ts(s, timestamp, k as int);
                }
                let existing = self.entries[k].stake;
                match existing.checked_add(stake) {
                    None => {
                        let mut m = String::from_str("Bond entry stake overflow: existing ");
                        m.append(crate::text::decimal_string(existing).as_str());
                        m.append(" + new ");
                        m.append(crate::text::decimal_string(stake).as_str());
                        return Err(m);
                    },
                    Some(total) => {
                        proof {
                            lemma_stake_sum_update(s, k as int, add_stake(s[k as int], stake));
                        }
                        self.entries[k].stake = total;
                        proof {
                            assert(self.entries@ =~= s.update(k as int, add_stake(s[k as int], stake)));
                        }
                        return Ok(());
                    },
                }
            }
            k = k + 1;
        }
        let mut p: usize = 0;
        while p < self.entries.len()
            invariant
                p <= s.len(),
                s == self.entries@,
                s == old(self).entries@,
                forall|j: int| 0 <= j < p ==> s[j].bonded_at_timestamp <= timestamp,
                self.object_id == old(self).object_id,
                self.status == old(self).status,
                self.last_signed_height == old(self).last_signed_height,
                self.consecutive_correct_attestations == old(self).consecutive_correct_attestations,
            ensures
                p <= s.len(),
                s == self.entries@,
                s == old(self).entries@,
                forall|j: int| 0 <= j < p ==> s[j].bonded_at_timestamp <= timestamp,
                p < s.len() ==> s[p as int].bonded_at_timestamp > timestamp,
                self.object_id == old(self).object_id,
                self.status == old(self).status,
                self.last_signed_height == old(self).last_signed_height,
                self.consecutive_correct_attestations == old(self).consecutive_correct_attestations,
            decreases s.len() - p,
        {
            if self.entries[p].bonded_at_timestamp > timestamp {
                break;
            }
            p = p + 1;
        }
        let e = BondEntry { stake, bonded_at_height: height, bonded_at_timestamp: timestamp };
        proof {
            lemma_first_index_with_ts(s, timestamp, s.len() as int);
            lemma_first_index_after_ts(s, timestamp, p as int);
            lemma_stake_sum_insert(s, p as int, e);
        }
        self.entries.insert(p, e);
        proof {
            let t = self.entries@;
            assert(t =~= s.insert(p as int, e));
            if fifo_ordered(s) {
                assert forall|i: int, j: int| 0 <= i < j < t.len() implies #[trigger] t[i].bonded_at_timestamp
                    <= #[trigger] t[j].bonded_at_timestamp by {
                    if j < p {
                        assert(t[i] == s[i] && t[j] == s[j]);
                    } else if j == p {
                        assert(t[i] == s[i]);
                    } else if i < p {
                        assert(t[i] == s[i] && t[j] == s[j - 1]);
                        assert(s[p as int].bonded_at_timestamp <= s[j - 1].bonded_at_timestamp);
                    } else if i == p {
                        assert(t[j] == s[j - 1]);
                        assert(s[p as int].bonded_at_timestamp <= s[j - 1].bonded_at_timestamp);
                    } else {
                        assert(t[i] == s[i - 1] && t[j] == s[j - 1]);
                    }
                }
            }
        }
        Ok(())
    }

    /// Unbonds `amount` Flakes, oldest entries first; consumed entries are
    /// removed and a partly consumed entry keeps its timestamp. Returns the
    /// amount unbonded.
    pub(crate) fn unbond_fifo(&mut self, amount: FlakeAmount) -> (r: FlakeAmount)
        requires
            amount <= old(self).stake(),
        ensures
            r == amount,
            final(self).entries@ == fifo_remove(old(self).entries@, amount as nat),
            final(self).stake() == old(self).stake() - amount,
            final(self).object_id == old(self).object_id,
            final(self).status == old(self).status,
            final(self).last_signed_height == old(self).last_signed_height,
            final(self).consecutive_correct_attestations == old(self).consecutive_correct_attestations,
    {
        let ghost s0 = self.entries@;
        let mut remaining = amount;
        let mut consumed: usize = 0;
        proof {
            assert(s0.skip(0) =~= s0);
        }
        while remaining > 0 && consumed < self.entries.len()
            invariant
                consumed <= self.entries@.len(),
                self.entries@.len() == s0.len(),
                remaining > 0 ==> self.entries@ == s0,
                fifo_remove(s0, amount as nat) == fifo_remove(
                    self.entries@.skip(consumed as int),
                    remaining as nat,
                ),
                stake_sum(self.entries@.skip(consumed as int)) >= remaining,
                self.object_id == old(self).object_id,
                self.status == old(self).status,
                self.last_signed_height == old(self).last_signed_height,
                self.consecutive_correct_attestations == old(self).consecutive_correct_attestations,
            decreases self.entries@.len() - consumed, remaining,
        {
            let ghost x = self.entries@.skip(consumed as int);
            let entry_stake = self.entries[consumed].stake;
            if entry_stake <= remaining {
                proof {
                    assert(x.len() > 0);
                    assert(x[0] == self.entries@[consumed as int]);
                    assert(x.drop_first() =~= self.entries@.skip(consumed as int + 1));
                    assert(stake_sum(x) == x[0].stake + stake_sum(x.drop_first()));
                }
                remaining = remaining - entry_stake;
                consumed = consumed + 1;
            } else {
                let ghost reduced = BondEntry {
                    stake: (entry_stake - remaining) as u64,
                    ..self.entries@[consumed as int]
                };
                self.entries[consumed].stake = entry_stake - remaining;
                proof {
                    lemma_stake_sum_nonneg(self.entries@.skip(consumed as int));
                    assert(self.entries@.skip(consumed as int) =~= x.update(0, reduced));
                }
                remaining = 0;
            }
        }
        proof {
            if remaining > 0 {
                assert(self.entries@.skip(consumed as int) =~= Seq::<BondEntry>::empty());
            }
        }
        let mut rest: Vec<BondEntry> = Vec::new();
        let mut j: usize = consumed;
        while j < self.entries.len()
            invariant
                consumed <= j <= self.entries@.len(),
                rest@ == self.entries@.subrange(consumed as int, j as int),
            decreases self.entries@.len() - j,
        {
            rest.push(self.entries[j]);
            j = j + 1;
        }
        proof {
            assert(rest@ =~= self.entries@.skip(consumed as int));
            lemma_fifo_remove_sum(s0, amount as nat);
        }
        self.entries = rest;
        amount - remaining
    }
}

/// The splitmix64 finalizer that re-mixes a seed.
pub open spec fn mix_seed_spec(seed: u64) -> u64 {
    let z0 = u64_specs::wrapping_add(seed, 0x9E37_79B9_7F4A_7C15u64);
    let z1 = u64_specs::wrapping_mul(z0 ^ (z0 >> 30u64), 0xBF58_476D_1CE4_E5B9u64);
    let z2 = u64_specs::wrapping_mul(z1 ^ (z1 >> 27u64), 0x94D0_49BB_1331_11EBu64);
    z2 ^ (z2 >> 31u64)
}

/// Re-mixes a seed (splitmix64 finalizer).
pub fn mix_seed(seed: u64) -> (r: u64)
    ensures
        r == mix_seed_spec(seed),
{
    let mut z = seed.wrapping_add(0x9E37_79B9_7F4A_7C15);
    z = (z ^ (z >> 30)).wrapping_mul(0xBF58_476D_1CE4_E5B9);
    z = (z ^ (z >> 27)).wrapping_mul(0x94D0_49BB_1331_11EB);
    z ^ (z >> 31)
}

/// The seed after `n` re-mixings.
pub open spec fn mix_iter(seed: u64, n: nat) -> u64
    decreases n,
{
    if n == 0 {
        seed
    } else {
        mix_seed_spec(mix_iter(seed, (n - 1) as nat))
    }
}

/// The largest multiple of `upper` that is at most 2^64: candidates below it
/// map onto `0..upper` without bias.
pub open spec fn unbiased_zone(upper: u64) -> int {
    0x1_0000_0000_0000_0000int - 0x1_0000_0000_0000_0000int % (upper as int)
}

/// Whether the `n`-th re-mixing of `seed` is the first to land below the
/// unbiased zone of `upper`.
pub open spec fn first_in_zone(seed: u64, upper: u64, n: nat) -> bool {
    &&& n <= u64::MAX
    &&& mix_iter(seed, n) < unbiased_zone(upper)
    &&& forall|m: nat| m < n ==> #[trigger] mix_iter(seed, m) >= unbiased_zone(upper)
}

/// The uniform draw in `0..upper` from `seed` (rejection sampling over
/// re-mixings of the seed); `None` when `upper` is 0 or no re-mixing within
/// 2^64 steps lands in the zone.
pub open spec fn uniform_spec(seed: u64, upper: u64) -> Option<u64> {
    if upper == 0 {
        None
    } else if exists|n: nat| first_in_zone(seed, upper, n) {
        let n = choose|n: nat| first_in_zone(seed, upper, n);
        Some(mix_iter(seed, n) % upper)
    } else {
        None
    }
}

/// A draw always lies below its bound; a seed that already lies in the
/// unbiased zone is used as it is, without re-mixing.
pub proof fn lemma_uniform_draw(seed: u64, upper: u64)
    ensures
        uniform_spec(seed, upper) matches Some(v) ==> v < upper,
        upper > 0 && (seed as int) < unbiased_zone(upper) ==> uniform_spec(seed, upper) == Some((seed % upper) as u64),
{
    if upper > 0 && (seed as int) < unbiased_zone(upper) {
        assert(first_in_zone(seed, upper, 0));
        let n = choose|n: nat| first_in_zone(seed, upper, n);
        if n > 0 {
            assert(mix_iter(seed, 0) >= unbiased_zone(upper));
        }
    }
}

/// A uniform value in `0..upper` drawn from `seed` by rejection sampling.
pub fn uniform_amount_from_seed(seed: u64, upper: FlakeAmount) -> (r: Option<FlakeAmount>)
    ensures
        r == uniform_spec(seed, upper),
        r matches Some(v) ==> v < upper,
{
    if upper == 0 {
        return None;
    }
    let up = upper as u128;
    let range: u128 = 0x1_0000_0000_0000_0000u128;
    let zone = range - (range % up);
    let mut candidate = seed;
    let mut steps: u64 = 0;
    loop
        invariant
            upper > 0,
            up == upper as u128,
            zone == unbiased_zone(upper),
            candidate == mix_iter(seed, steps as nat),
            forall|m: nat| m < steps ==> #[trigger] mix_iter(seed, m) >= unbiased_zone(upper),
        decreases u64::MAX - steps,
    {
        let value = candidate as u128;
        if value < zone {
            proof {
                assert(first_in_zone(seed, upper, steps as nat));
                let n = choose|n: nat| first_in_zone(seed, upper, n);
                if n < steps {
                    assert(mix_iter(seed, n) >= unbiased_zone(upper));
                } else if n > steps {
                    assert(mix_iter(seed, steps as nat) >= unbiased_zone(upper));
                }
                assert(n == steps);
            }
            return Some((value % up) as u64);
        }
        if steps == u64::MAX {
            proof {
                assert forall|n: nat| !first_in_zone(seed, upper, n) by {
                    if n <= u64::MAX && mix_iter(seed, n) < unbiased_zone(upper) {
                        assert(n < steps || n == steps);
                    }
                }
            }
            return None;
        }
        candidate = mix_seed(candidate);
        steps = steps + 1;
    }
}

/// The smallest stake of a new bond entry:
/// `max(1, ⌊√(issued OPL)⌋)` OPL, in Flakes.
pub open spec fn minimum_bond_spec(total_issued_flakes: u64) -> int {
    let s = floor_sqrt((total_issued_flakes / FLAKES_PER_OPL) as nat);
    (if s < 1 { 1 } else { s }) * FLAKES_PER_OPL
}

/// The number of active-refiner slots: `EPOCH + ⌊√(issued OPL)⌋`.
pub open spec fn active_limit_spec(total_issued_flakes: u64) -> int {
    EPOCH + floor_sqrt((total_issued_flakes / FLAKES_PER_OPL) as nat)
}

/// `⌊√(issued OPL)⌋` is below 2^23 (issued OPL is below 2^45).
pub proof fn lemma_issued_sqrt_bound(total_issued_flakes: u64)
    ensures
        floor_sqrt((total_issued_flakes / FLAKES_PER_OPL) as nat) < 0x80_0000,
{
    let n = (total_issued_flakes / FLAKES_PER_OPL) as nat;
    lemma_floor_sqrt(n);
    let r = floor_sqrt(n);
    assert(n < 0x4000_0000_0000);
    if r >= 0x80_0000 {
        assert(r * r >= 0x80_0000 * 0x80_0000) by (nonlinear_arith)
            requires
                r >= 0x80_0000,
        ;
    }
}

} // verus!
