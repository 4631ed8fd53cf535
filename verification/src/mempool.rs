//! The fee-prioritized mempool of pending transactions.
//!
//! Entries are ordered by priority (higher first) and then by submission
//! time (earlier first). The pool caps the encoded size of a transaction,
//! the number of pending transactions per sender and its total encoded
//! size; when full it evicts the lowest-priority entries to make room.
//! Priorities are integers (a node derives them from the fee).
use crate::account::{dec_str, hex_str};
use crate::constants::{MEMPOOL_MAX_SIZE_BYTES, MEMPOOL_MAX_TXS_PER_ACCOUNT, TX_MAX_SIZE_BYTES};
use crate::encoding::{enc_transaction, transaction_fits};
use crate::errors::OpolysError;
use crate::keyed::{
    find_key, keys_unique, lemma_push_unique, lemma_to_map_contains, lemma_to_map_index,
    lemma_to_map_push, lemma_to_map_remove, to_map,
};
use crate::types::{ObjectId, Transaction};
use vstd::prelude::*;

verus! {

/// A pending transaction with its priority and submission time.
#[derive(Debug)]
pub struct MempoolEntry {
    pub transaction: Transaction,
    /// Higher priorities are included first.
    pub priority_score: u64,
    /// Unix time of submission; earlier wins among equal priorities.
    pub submitted_at: u64,
}

/// The encoded size of a transaction (0 when it cannot be encoded).
pub open spec fn tx_size(t: Transaction) -> int {
    if transaction_fits(t) {
        enc_transaction(t).len() as int
    } else {
        0
    }
}

/// The encoded size of a transaction (0 when it cannot be encoded).
pub fn encoded_size(t: &Transaction) -> (n: usize)
    ensures
        n == tx_size(*t),
{
    if t.signature.len() <= u32::MAX as usize && t.data.len() <= u32::MAX as usize && t.public_key.len() <= u32::MAX as usize {
        let mut v: Vec<u8> = Vec::new();
        crate::encoding::push_transaction(&mut v, t);
        assert(Seq::<u8>::empty() + enc_transaction(*t) =~= enc_transaction(*t));
        v.len()
    } else {
        0
    }
}

/// The total encoded size of the entries.
pub open spec fn sizes_sum(s: Seq<(ObjectId, MempoolEntry)>) -> int
    decreases s.len(),
{
    if s.len() == 0 {
        0
    } else {
        sizes_sum(s.drop_last()) + tx_size(s.last().1.transaction)
    }
}

proof fn lemma_sizes_nonneg(s: Seq<(ObjectId, MempoolEntry)>)
    ensures
        sizes_sum(s) >= 0,
    decreases s.len(),
{
    if s.len() > 0 {
        lemma_sizes_nonneg(s.drop_last());
    }
}

proof fn lemma_sizes_remove(s: Seq<(ObjectId, MempoolEntry)>, i: int)
    requires
        0 <= i < s.len(),
    ensures
        sizes_sum(s.remove(i)) == sizes_sum(s) - tx_size(s[i].1.transaction),
    decreases s.len(),
{
    if i < s.len() - 1 {
        lemma_sizes_remove(s.drop_last(), i);
        assert(s.remove(i).drop_last() =~= s.drop_last().remove(i));
        assert(s.remove(i).last() == s.last());
    } else {
        assert(s.remove(i) =~= s.drop_last());
    }
}

/// The pool of pending transactions.
#[derive(Debug)]
pub struct Mempool {
    entries: Vec<(ObjectId, MempoolEntry)>,
    total_size: usize,
}

impl View for Mempool {
    type V = Map<ObjectId, MempoolEntry>;

    closed spec fn view(&self) -> Map<ObjectId, MempoolEntry> {
        to_map(self.entries@)
    }
}

/// The number of pending transactions from `sender`.
pub open spec fn pending_from(m: Map<ObjectId, MempoolEntry>, sender: ObjectId) -> nat {
    crate::keyed::keys_where(m, |e: MempoolEntry| e.transaction.sender == sender).len()
}

/// The (id, (priority, time)) keys of the entries of a map.
pub open spec fn keys_of(order: Seq<(ObjectId, (u64, u64))>, m: Map<ObjectId, MempoolEntry>) -> bool {
    &&& keys_unique(order)
    &&& forall|k: ObjectId| m.contains_key(k) <==> exists|i: int| 0 <= i < order.len() && #[trigger] order[i].0 == k
    &&& forall|i: int| 0 <= i < order.len() ==> (#[trigger] order[i]).1 == (m[order[i].0].priority_score, m[order[i].0].submitted_at)
}

/// How many entries (from the front of `order`) eviction removes to free
/// `needed` bytes, having freed `freed` so far.
pub open spec fn evict_count(order: Seq<(ObjectId, (u64, u64))>, m: Map<ObjectId, MempoolEntry>, needed: int, freed: int) -> nat
    decreases order.len(),
{
    if order.len() == 0 || freed >= needed {
        0
    } else {
        1 + evict_count(order.drop_first(), m, needed, freed + tx_size(m[order[0].0].transaction))
    }
}

/// The total size of the first `k` entries of `order`.
pub open spec fn prefix_size(order: Seq<(ObjectId, (u64, u64))>, m: Map<ObjectId, MempoolEntry>, k: int) -> int
    decreases k,
{
    if k <= 0 || order.len() == 0 {
        0
    } else {
        prefix_size(order, m, k - 1) + tx_size(m[order[k - 1].0].transaction)
    }
}

/// The identifiers of the first `k` entries of `order`.
pub open spec fn prefix_ids(order: Seq<(ObjectId, (u64, u64))>, k: int) -> Set<ObjectId> {
    Set::new(|id: ObjectId| exists|i: int| 0 <= i < k && i < order.len() && #[trigger] order[i].0 == id)
}

impl Mempool {
    /// The invariant: entries are stored under their transaction ids, once,
    /// and `total_size` is their total encoded size, within the pool cap.
    pub closed spec fn wf(&self) -> bool {
        &&& keys_unique(self.entries@)
        &&& forall|i: int| 0 <= i < self.entries@.len() ==> (#[trigger] self.entries@[i]).0 == self.entries@[i].1.transaction.tx_id
        &&& self.total_size == sizes_sum(self.entries@)
        &&& self.total_size <= MEMPOOL_MAX_SIZE_BYTES
    }

    /// The total encoded size of the pending transactions.
    pub closed spec fn bytes(&self) -> int {
        self.total_size as int
    }

    /// An empty pool.
    pub fn new() -> (m: Mempool)
        ensures
            m.wf(),
            m@ == Map::<ObjectId, MempoolEntry>::empty(),
            m.bytes() == 0,
    {
        Mempool { entries: Vec::new(), total_size: 0 }
    }

    /// Number of pending transactions.
    pub fn transaction_count(&self) -> (n: usize)
        requires
            self.wf(),
        ensures
            n == self@.len(),
    {
        proof {
            crate::account::lemma_map_len(self.entries@);
        }
        self.entries.len()
    }

    /// Total encoded size of the pending transactions.
    pub fn total_size(&self) -> (n: usize)
        ensures
            n == self.bytes(),
    {
        self.total_size
    }

    /// The pending transaction with id `tx_id`, if any.
    pub fn get_transaction(&self, tx_id: &ObjectId) -> (r: Option<&Transaction>)
        requires
            self.wf(),
        ensures
            r is Some <==> self@.contains_key(*tx_id),
            r matches Some(t) ==> *t == self@[*tx_id].transaction,
    {
        match find_key(&self.entries, tx_id) {
            Some(i) => {
                proof {
                    lemma_to_map_index(self.entries@, i as int);
                }
                Some(&self.entries[i].1.transaction)
            },
            None => {
                proof {
                    lemma_to_map_contains(self.entries@, *tx_id);
                }
                None
            },
        }
    }

    /// Removes the pending transaction with id `tx_id` and returns it.
    pub fn remove_transaction(&mut self, tx_id: &ObjectId) -> (r: Option<Transaction>)
        requires
            old(self).wf(),
        ensures
            final(self).wf(),
            r is Some <==> old(self)@.contains_key(*tx_id),
            r matches Some(t) ==> t == old(self)@[*tx_id].transaction && final(self)@ == old(self)@.remove(*tx_id) && final(self).bytes() == old(self).bytes() - tx_size(t),
            r is None ==> final(self)@ == old(self)@ && final(self).bytes() == old(self).bytes(),
    {
        match find_key(&self.entries, tx_id) {
            Some(i) => {
                proof {
                    lemma_to_map_index(self.entries@, i as int);
                    crate::keyed::lemma_to_map_remove(self.entries@, i as int);
                    lemma_sizes_remove(self.entries@, i as int);
                    lemma_sizes_nonneg(self.entries@.remove(i as int));
                }
                let ghost before = self.entries@;
                let (_, entry) = self.entries.remove(i);
                proof {
                    assert forall|j: int| 0 <= j < self.entries@.len() implies (#[trigger] self.entries@[j]).0 == self.entries@[j].1.transaction.tx_id by {
                        if j < i {
                            assert(self.entries@[j] == before[j]);
                        } else {
                            assert(self.entries@[j] == before[j + 1]);
                        }
                    }
                }
                let size = encoded_size(&entry.transaction);
                self.total_size = self.total_size - size;
                Some(entry.transaction)
            },
            None => {
                proof {
                    lemma_to_map_contains(self.entries@, *tx_id);
                }
                None
            },
        }
    }

    /// The number of entries from `sender`.
    fn count_from(&self, sender: &ObjectId) -> (n: usize)
        requires
            self.wf(),
        ensures
            n == pending_from(self@, *sender),
    {
        let ghost p = |e: MempoolEntry| e.transaction.sender == *sender;
        let ghost s = self.entries@;
        let mut n: usize = 0;
        let mut i: usize = 0;
        while i < self.entries.len()
            invariant
                p == (|e: MempoolEntry| e.transaction.sender == *sender),
                s == self.entries@,
                i <= s.len(),
                n == crate::keyed::count_where(s.take(i as int), p),
                n <= i,
            decreases s.len() - i,
        {
            proof {
                assert(s.take(i as int + 1).drop_last() =~= s.take(i as int));
            }
            if crate::types::id_eq(&self.entries[i].1.transaction.sender, sender) {
                n = n + 1;
            }
            i = i + 1;
        }
        proof {
            assert(s.take(i as int) =~= s);
            crate::keyed::lemma_count_where(s, p);
        }
        n
    }

    /// The (id, (priority, time)) keys of all entries.
    fn keys(&self) -> (r: Vec<(ObjectId, (u64, u64))>)
        requires
            self.wf(),
        ensures
            keys_of(r@, self@),
            r@.len() == self@.len(),
    {
        proof {
            crate::account::lemma_map_len(self.entries@);
        }
        let mut r: Vec<(ObjectId, (u64, u64))> = Vec::new();
        let mut i: usize = 0;
        while i < self.entries.len()
            invariant
                i <= self.entries@.len(),
                r@.len() == i,
                forall|j: int| 0 <= j < i ==> (#[trigger] r@[j]) == (self.entries@[j].0, (self.entries@[j].1.priority_score, self.entries@[j].1.submitted_at)),
            decreases self.entries@.len() - i,
        {
            let e = &self.entries[i];
            r.push((e.0, (e.1.priority_score, e.1.submitted_at)));
            i = i + 1;
        }
        proof {
            let s = self.entries@;
            assert forall|a: int, b: int| #![trigger r@[a].0, r@[b].0] 0 <= a < r@.len() && 0 <= b < r@.len() && a != b implies r@[a].0 != r@[b].0 by {
                assert(s[a].0 != s[b].0);
            }
            assert forall|k: ObjectId| self@.contains_key(k) <==> exists|q: int| 0 <= q < r@.len() && #[trigger] r@[q].0 == k by {
                lemma_to_map_contains(s, k);
                if self@.contains_key(k) {
                    let q = choose|q: int| 0 <= q < s.len() && #[trigger] s[q].0 == k;
                    assert(r@[q].0 == k);
                }
                if exists|q: int| 0 <= q < r@.len() && #[trigger] r@[q].0 == k {
                    let q = choose|q: int| 0 <= q < r@.len() && #[trigger] r@[q].0 == k;
                    assert(s[q].0 == k);
                }
            }
            assert forall|q: int| 0 <= q < r@.len() implies (#[trigger] r@[q]).1 == (self@[r@[q].0].priority_score, self@[r@[q].0].submitted_at) by {
                lemma_to_map_index(s, q);
            }
        }
        r
    }
}


/// The order of mempool keys (id, (priority, submitted_at)): with `desc`,
/// higher priority first and then earlier submission; otherwise lower
/// priority first and then earlier submission. Remaining ties go by id.
pub open spec fn mp_lt(desc: bool, a: (ObjectId, (u64, u64)), b: (ObjectId, (u64, u64))) -> bool {
    let pa = a.1.0;
    let pb = b.1.0;
    (if desc { pa > pb } else { pa < pb }) || (pa == pb && a.1.1 < b.1.1) || (pa == pb && a.1.1
        == b.1.1 && crate::types::bytes_lt(a.0.bytes(), b.0.bytes()))
}

/// Whether keys are in strictly increasing `mp_lt` order.
pub open spec fn mp_sorted(desc: bool, s: Seq<(ObjectId, (u64, u64))>) -> bool {
    forall|i: int, j: int| #![trigger s[i], s[j]] 0 <= i < j < s.len() ==> mp_lt(desc, s[i], s[j])
}

fn mp_lt_exec(desc: bool, a: &(ObjectId, (u64, u64)), b: &(ObjectId, (u64, u64))) -> (r: bool)
    ensures
        r == mp_lt(desc, *a, *b),
{
    let pa = a.1.0;
    let pb = b.1.0;
    (if desc { pa > pb } else { pa < pb }) || (pa == pb && a.1.1 < b.1.1) || (pa == pb && a.1.1
        == b.1.1 && crate::types::id_lt(&a.0, &b.0))
}

proof fn lemma_mp_transitive(desc: bool, a: (ObjectId, (u64, u64)), b: (ObjectId, (u64, u64)), c: (ObjectId, (u64, u64)))
    requires
        mp_lt(desc, a, b),
        mp_lt(desc, b, c),
    ensures
        mp_lt(desc, a, c),
{
    if a.1 == b.1 && b.1 == c.1 {
        crate::keyed::lemma_bytes_lt_transitive(a.0.bytes(), b.0.bytes(), c.0.bytes());
    }
}

proof fn lemma_mp_total(desc: bool, a: (ObjectId, (u64, u64)), b: (ObjectId, (u64, u64)))
    requires
        a.0 != b.0,
    ensures
        mp_lt(desc, a, b) || mp_lt(desc, b, a),
{
    if a.1 == b.1 {
        if a.0.bytes() == b.0.bytes() {
            crate::types::lemma_hash_bytes_eq(a.0.0, b.0.0);
        }
        crate::keyed::lemma_bytes_lt_total(a.0.bytes(), b.0.bytes());
    }
}

/// Mempool keys in the order given by `mp_lt(desc, ..)` (insertion sort).
fn sort_mempool_keys(entries: Vec<(ObjectId, (u64, u64))>, desc: bool) -> (r: Vec<(ObjectId, (u64, u64))>)
    requires
        crate::keyed::keys_unique(entries@),
    ensures
        mp_sorted(desc, r@),
        r@.len() == entries@.len(),
        crate::keyed::keys_unique(r@),
        forall|e: (ObjectId, (u64, u64))| r@.contains(e) <==> entries@.contains(e),
{
    let mut out: Vec<(ObjectId, (u64, u64))> = Vec::new();
    let mut rest = entries;
    let ghost orig = rest@;
    assert(out@ + rest@ =~= orig);
    while rest.len() > 0
        invariant
            mp_sorted(desc, out@),
            crate::keyed::keys_unique(out@ + rest@),
            out@.len() + rest@.len() == orig.len(),
            forall|e: (ObjectId, (u64, u64))| (out@.contains(e) || rest@.contains(e)) <==> orig.contains(e),
        decreases rest@.len(),
    {
        let ghost old_out = out@;
        let ghost old_rest = rest@;
        let x = rest.pop().unwrap();
        proof {
            assert(old_rest =~= rest@.push(x));
            assert forall|i: int| 0 <= i < old_out.len() implies #[trigger] old_out[i].0 != x.0 by {
                let c = old_out + old_rest;
                assert(c[i] == old_out[i]);
                assert(c[c.len() - 1] == x);
            }
        }
        let mut k: usize = 0;
        while k < out.len()
            invariant
                k <= out@.len(),
                out@ == old_out,
                forall|i: int| 0 <= i < k ==> mp_lt(desc, #[trigger] out@[i], x),
            ensures
                k <= out@.len(),
                out@ == old_out,
                forall|i: int| 0 <= i < k ==> mp_lt(desc, #[trigger] out@[i], x),
                k < out@.len() ==> !mp_lt(desc, out@[k as int], x),
            decreases out@.len() - k,
        {
            if !mp_lt_exec(desc, &out[k], &x) {
                break;
            }
            k = k + 1;
        }
        proof {
            if k < old_out.len() {
                assert(!mp_lt(desc, old_out[k as int], x));
                assert(old_out[k as int].0 != x.0);
                lemma_mp_total(desc, old_out[k as int], x);
                assert forall|j: int| k <= j < old_out.len() implies mp_lt(desc, x, #[trigger] old_out[j]) by {
                    if j > k {
                        lemma_mp_transitive(desc, x, old_out[k as int], old_out[j]);
                    }
                }
            }
        }
        out.insert(k, x);
        proof {
            let n = out@;
            assert(n =~= old_out.insert(k as int, x));
            assert forall|i: int, j: int|
                #![trigger n[i], n[j]]
                0 <= i < j < n.len() implies mp_lt(desc, n[i], n[j]) by {
                if j < k {
                    assert(n[i] == old_out[i] && n[j] == old_out[j]);
                } else if j == k {
                    assert(n[i] == old_out[i]);
                } else if i < k {
                    assert(n[i] == old_out[i] && n[j] == old_out[j - 1]);
                    lemma_mp_transitive(desc, old_out[i], x, old_out[j - 1]);
                } else if i == k {
                    assert(n[j] == old_out[j - 1]);
                } else {
                    assert(n[i] == old_out[i - 1] && n[j] == old_out[j - 1]);
                }
            }
            let c_old = old_out + old_rest;
            let c_new = n + rest@;
            assert forall|a: int, b: int|
                #![trigger c_new[a].0, c_new[b].0]
                0 <= a < c_new.len() && 0 <= b < c_new.len() && a != b implies c_new[a].0
                    != c_new[b].0 by {
                let ia = if a < k { a } else if a == k { c_old.len() - 1 } else if a < n.len() {
                    a - 1
                } else {
                    a - 1
                };
                let ib = if b < k { b } else if b == k { c_old.len() - 1 } else if b < n.len() {
                    b - 1
                } else {
                    b - 1
                };
                assert(c_new[a] == c_old[ia]);
                assert(c_new[b] == c_old[ib]);
            }
            assert forall|e: (ObjectId, (u64, u64))| (n.contains(e) || rest@.contains(e)) <==> orig.contains(
                e,
            ) by {
                if n.contains(e) {
                    let i = choose|i: int| 0 <= i < n.len() && n[i] == e;
                    if i < k {
                        assert(old_out[i] == e);
                        assert(old_out.contains(e));
                    } else if i == k {
                        assert(old_rest[old_rest.len() - 1] == e);
                        assert(old_rest.contains(e));
                    } else {
                        assert(old_out[i - 1] == e);
                        assert(old_out.contains(e));
                    }
                }
                if rest@.contains(e) {
                    let i = choose|i: int| 0 <= i < rest@.len() && rest@[i] == e;
                    assert(old_rest[i] == e);
                    assert(old_rest.contains(e));
                }
                if old_out.contains(e) {
                    let i = choose|i: int| 0 <= i < old_out.len() && old_out[i] == e;
                    if i < k {
                        assert(n[i] == e);
                    } else {
                        assert(n[i + 1] == e);
                    }
                    assert(n.contains(e));
                }
                if old_rest.contains(e) {
                    let i = choose|i: int| 0 <= i < old_rest.len() && old_rest[i] == e;
                    if i == old_rest.len() - 1 {
                        assert(n[k as int] == e);
                        assert(n.contains(e));
                    } else {
                        assert(rest@[i] == e);
                        assert(rest@.contains(e));
                    }
                }
            }
        }
    }
    proof {
        assert(out@ + rest@ =~= out@);
        assert forall|e: (ObjectId, (u64, u64))| out@.contains(e) <==> orig.contains(e) by {
            if rest@.contains(e) {
                let i = choose|i: int| 0 <= i < rest@.len() && rest@[i] == e;
            }
        }
        
    }
    out
}

/// Sorting keeps the keys of a map.
proof fn lemma_sorted_keys_of(orig: Seq<(ObjectId, (u64, u64))>, sorted: Seq<(ObjectId, (u64, u64))>, m: Map<ObjectId, MempoolEntry>)
    requires
        keys_of(orig, m),
        keys_unique(sorted),
        forall|e: (ObjectId, (u64, u64))| sorted.contains(e) <==> orig.contains(e),
    ensures
        keys_of(sorted, m),
{
    assert forall|k: ObjectId| m.contains_key(k) <==> exists|i: int| 0 <= i < sorted.len() && #[trigger] sorted[i].0 == k by {
        if m.contains_key(k) {
            let i = choose|i: int| 0 <= i < orig.len() && #[trigger] orig[i].0 == k;
            assert(orig.contains(orig[i]));
            let j = choose|j: int| 0 <= j < sorted.len() && sorted[j] == orig[i];
            assert(sorted[j].0 == k);
        }
        if exists|i: int| 0 <= i < sorted.len() && #[trigger] sorted[i].0 == k {
            let i = choose|i: int| 0 <= i < sorted.len() && #[trigger] sorted[i].0 == k;
            assert(sorted.contains(sorted[i]));
            let j = choose|j: int| 0 <= j < orig.len() && orig[j] == sorted[i];
            assert(orig[j].0 == k);
        }
    }
    assert forall|i: int| 0 <= i < sorted.len() implies (#[trigger] sorted[i]).1 == (m[sorted[i].0].priority_score, m[sorted[i].0].submitted_at) by {
        assert(sorted.contains(sorted[i]));
        let j = choose|j: int| 0 <= j < orig.len() && orig[j] == sorted[i];
        assert(orig[j].1 == (m[orig[j].0].priority_score, m[orig[j].0].submitted_at));
    }
}

/// In the order the pool lists its entries, every pending entry comes once,
/// and an entry listed before another has a higher priority, or the same
/// priority and a submission time no later.
pub proof fn lemma_listing_order(order: Seq<(ObjectId, (u64, u64))>, m: Map<ObjectId, MempoolEntry>)
    requires
        mp_sorted(true, order),
        keys_of(order, m),
    ensures
        forall|i: int, j: int| 0 <= i < j < order.len() ==> order[i].0 != order[j].0,
        forall|i: int, j: int|
            #![trigger order[i], order[j]]
            0 <= i < j < order.len() ==> m[order[i].0].priority_score > m[order[j].0].priority_score || (
            m[order[i].0].priority_score == m[order[j].0].priority_score && m[order[i].0].submitted_at
                <= m[order[j].0].submitted_at),
{
    assert forall|i: int, j: int| 0 <= i < j < order.len() implies order[i].0 != order[j].0 by {
        assert(order[i].0 != order[j].0);
    }
    assert forall|i: int, j: int|
        #![trigger order[i], order[j]]
        0 <= i < j < order.len() implies m[order[i].0].priority_score > m[order[j].0].priority_score || (
        m[order[i].0].priority_score == m[order[j].0].priority_score && m[order[i].0].submitted_at
            <= m[order[j].0].submitted_at) by {
        assert(mp_lt(true, order[i], order[j]));
    }
}

impl Mempool {
    /// The pending transactions, higher priority first and then earlier
    /// submission (remaining ties by id).
    pub fn get_ordered_transactions(&self) -> (r: Vec<&Transaction>)
        requires
            self.wf(),
        ensures
            exists|order: Seq<(ObjectId, (u64, u64))>|
                {
                    &&& #[trigger] mp_sorted(true, order)
                    &&& keys_of(order, self@)
                    &&& r@.len() == order.len()
                    &&& forall|i: int| 0 <= i < order.len() ==> *(#[trigger] r@[i]) == self@[order[i].0].transaction
                },
            r@.len() == self@.len(),
    {
        let keys = self.keys();
        let ghost k0 = keys@;
        let sorted = sort_mempool_keys(keys, true);
        proof {
            lemma_sorted_keys_of(k0, sorted@, self@);
        }
        let mut r: Vec<&Transaction> = Vec::new();
        let mut i: usize = 0;
        while i < sorted.len()
            invariant
                self.wf(),
                keys_of(sorted@, self@),
                i <= sorted@.len(),
                r@.len() == i,
                forall|j: int| 0 <= j < i ==> *(#[trigger] r@[j]) == self@[sorted@[j].0].transaction,
            decreases sorted@.len() - i,
        {
            let id = sorted[i].0;
            proof {
                assert(exists|q: int| 0 <= q < sorted@.len() && #[trigger] sorted@[q].0 == id);
            }
            match self.get_transaction(&id) {
                Some(t) => {
                    r.push(t);
                },
                None => {
                    proof {
                        assert(false);
                    }
                },
            }
            i = i + 1;
        }
        proof {
            assert(mp_sorted(true, sorted@));
        }
        r
    }

    /// Evicts the lowest-priority entries (lower priority first, then earlier
    /// submission, then id) until at least `needed_space` bytes are freed or
    /// the pool is empty.
    fn evict_lowest_priority(&mut self, needed_space: usize)
        requires
            old(self).wf(),
        ensures
            final(self).wf(),
            exists|order: Seq<(ObjectId, (u64, u64))>|
                {
                    let k = evict_count(order, old(self)@, needed_space as int, 0);
                    &&& #[trigger] mp_sorted(false, order)
                    &&& keys_of(order, old(self)@)
                    &&& final(self)@ == old(self)@.remove_keys(prefix_ids(order, k as int))
                    &&& final(self).bytes() == old(self).bytes() - prefix_size(order, old(self)@, k as int)
                },
    {
        let keys = self.keys();
        let ghost k0 = keys@;
        let ghost m0 = self@;
        let ghost b0 = self.bytes();
        let sorted = sort_mempool_keys(keys, false);
        proof {
            lemma_sorted_keys_of(k0, sorted@, m0);
        }
        let ghost ord = sorted@;
        let mut freed: usize = 0;
        let mut i: usize = 0;
        proof {
            assert(ord.skip(0) =~= ord);
            assert(m0.remove_keys(prefix_ids(ord, 0)) =~= m0);
        }
        while i < sorted.len()
            invariant
                self.wf(),
                ord == sorted@,
                keys_of(ord, m0),
                i <= ord.len(),
                freed == prefix_size(ord, m0, i as int),
                self@ == m0.remove_keys(prefix_ids(ord, i as int)),
                self.bytes() == b0 - freed,
                b0 >= freed,
                b0 <= MEMPOOL_MAX_SIZE_BYTES,
                evict_count(ord, m0, needed_space as int, 0) == i + evict_count(ord.skip(i as int), m0, needed_space as int, freed as int),
            ensures
                self.wf(),
                self@ == m0.remove_keys(prefix_ids(ord, evict_count(ord, m0, needed_space as int, 0) as int)),
                self.bytes() == b0 - prefix_size(ord, m0, evict_count(ord, m0, needed_space as int, 0) as int),
            decreases ord.len() - i,
        {
            if freed >= needed_space {
                proof {
                    assert(evict_count(ord.skip(i as int), m0, needed_space as int, freed as int) == 0);
                }
                break;
            }
            let id = sorted[i].0;
            proof {
                let x = ord.skip(i as int);
                assert(x[0] == ord[i as int]);
                assert(x.drop_first() =~= ord.skip(i as int + 1));
                assert(exists|q: int| 0 <= q < ord.len() && #[trigger] ord[q].0 == id);
                assert(!prefix_ids(ord, i as int).contains(id)) by {
                    if prefix_ids(ord, i as int).contains(id) {
                        let q = choose|q: int| 0 <= q < i && q < ord.len() && #[trigger] ord[q].0 == id;
                        assert(ord[q].0 != ord[i as int].0);
                    }
                }
            }
            let removed = self.remove_transaction(&id);
            let ghost size = tx_size(m0[id].transaction);
            proof {
                assert(removed is Some);
                assert(self@ =~= m0.remove_keys(prefix_ids(ord, i as int + 1))) by {
                    assert forall|k: ObjectId| prefix_ids(ord, i as int + 1).contains(k) <==> (prefix_ids(ord, i as int).contains(k) || k == id) by {
                        if prefix_ids(ord, i as int + 1).contains(k) {
                            let q = choose|q: int| 0 <= q < i + 1 && q < ord.len() && #[trigger] ord[q].0 == k;
                            if q < i {
                                assert(prefix_ids(ord, i as int).contains(k));
                            }
                        }
                        if prefix_ids(ord, i as int).contains(k) {
                            let q = choose|q: int| 0 <= q < i && q < ord.len() && #[trigger] ord[q].0 == k;
                            assert(prefix_ids(ord, i as int + 1).contains(k));
                        }
                        if k == id {
                            assert(ord[i as int].0 == k);
                        }
                    }
                }
                lemma_sizes_nonneg(self.entries@);
            }
            let sz = encoded_size(removed.as_ref().unwrap());
            proof {
                assert(sz == tx_size(m0[id].transaction));
                assert(self.bytes() == b0 - freed - sz);
                assert(self.bytes() >= 0);
            }
            freed = freed + sz;
            i = i + 1;
        }
        proof {
            assert(mp_sorted(false, ord));
        }
    }
}


/// Whether `m2` (with `b2` bytes) is `m` (with `b` bytes) after evicting
/// for `needed` bytes.
pub open spec fn evicted(m: Map<ObjectId, MempoolEntry>, b: int, needed: int, m2: Map<ObjectId, MempoolEntry>, b2: int) -> bool {
    exists|order: Seq<(ObjectId, (u64, u64))>|
        {
            let k = evict_count(order, m, needed, 0);
            &&& #[trigger] mp_sorted(false, order)
            &&& keys_of(order, m)
            &&& m2 == m.remove_keys(prefix_ids(order, k as int))
            &&& b2 == b - prefix_size(order, m, k as int)
        }
}

/// The outcome of admitting `tx` into a pool that holds `m2` (`b2` bytes)
/// after any eviction: full if it still does not fit, else inserted.
pub open spec fn admitted(r: Result<(), OpolysError>, fm: Map<ObjectId, MempoolEntry>, fb: int, m2: Map<ObjectId, MempoolEntry>, b2: int, tx: Transaction, priority_score: u64, submitted_at: u64) -> bool {
    &&& b2 + tx_size(tx) > MEMPOOL_MAX_SIZE_BYTES ==> r == Err::<(), OpolysError>(OpolysError::MempoolFull) && fm == m2 && fb == b2
    &&& b2 + tx_size(tx) <= MEMPOOL_MAX_SIZE_BYTES ==> r is Ok && fm == m2.insert(tx.tx_id, MempoolEntry { transaction: tx, priority_score, submitted_at }) && fb == b2 + tx_size(tx)
}

impl Mempool {
    /// Admits a transaction: refused if its encoding exceeds the size limit,
    /// if its sender already has the maximum number pending, or if its id is
    /// pending; when the pool would overflow, the lowest-priority entries are
    /// evicted first, and if it still would, the pool is full.
    pub fn add_transaction(&mut self, tx: Transaction, priority_score: u64, submitted_at: u64) -> (r: Result<(), OpolysError>)
        requires
            old(self).wf(),
        ensures
            final(self).wf(),
            tx_size(tx) > TX_MAX_SIZE_BYTES ==> (r matches Err(OpolysError::InvalidTransaction(m)) && m@ == "Transaction too large: "@ + dec_str(tx_size(tx) as u64) + " bytes"@ && final(self)@ == old(self)@ && final(self).bytes() == old(self).bytes()),
            tx_size(tx) <= TX_MAX_SIZE_BYTES && pending_from(old(self)@, tx.sender) >= MEMPOOL_MAX_TXS_PER_ACCOUNT ==> (r matches Err(OpolysError::InvalidTransaction(m)) && m@ == "Too many transactions from account: "@ + hex_str(tx.sender) && final(self)@ == old(self)@ && final(self).bytes() == old(self).bytes()),
            tx_size(tx) <= TX_MAX_SIZE_BYTES && pending_from(old(self)@, tx.sender) < MEMPOOL_MAX_TXS_PER_ACCOUNT && old(self)@.contains_key(tx.tx_id) ==> (r matches Err(OpolysError::InvalidTransaction(m)) && m@ == "Duplicate transaction"@ && final(self)@ == old(self)@ && final(self).bytes() == old(self).bytes()),
            tx_size(tx) <= TX_MAX_SIZE_BYTES && pending_from(old(self)@, tx.sender) < MEMPOOL_MAX_TXS_PER_ACCOUNT && !old(self)@.contains_key(tx.tx_id) && old(self).bytes() + tx_size(tx) <= MEMPOOL_MAX_SIZE_BYTES ==> admitted(r, final(self)@, final(self).bytes(), old(self)@, old(self).bytes(), tx, priority_score, submitted_at),
            tx_size(tx) <= TX_MAX_SIZE_BYTES && pending_from(old(self)@, tx.sender) < MEMPOOL_MAX_TXS_PER_ACCOUNT && !old(self)@.contains_key(tx.tx_id) && old(self).bytes() + tx_size(tx) > MEMPOOL_MAX_SIZE_BYTES ==> exists|m2: Map<ObjectId, MempoolEntry>, b2: int|
                #[trigger] evicted(old(self)@, old(self).bytes(), tx_size(tx), m2, b2) && admitted(r, final(self)@, final(self).bytes(), m2, b2, tx, priority_score, submitted_at),
    {
        let tx_size = encoded_size(&tx);
        if tx_size > TX_MAX_SIZE_BYTES {
            let mut m = String::from_str("Transaction too large: ");
            m.append(crate::text::decimal_string(tx_size as u64).as_str());
            m.append(" bytes");
            return Err(OpolysError::InvalidTransaction(m));
        }
        let sender_count = self.count_from(&tx.sender);
        if sender_count >= MEMPOOL_MAX_TXS_PER_ACCOUNT {
            let mut m = String::from_str("Too many transactions from account: ");
            m.append(tx.sender.to_hex().as_str());
            return Err(OpolysError::InvalidTransaction(m));
        }
        match find_key(&self.entries, &tx.tx_id) {
            Some(i) => {
                proof {
                    lemma_to_map_index(self.entries@, i as int);
                }
                return Err(OpolysError::InvalidTransaction(String::from_str("Duplicate transaction")));
            },
            None => {
                proof {
                    lemma_to_map_contains(self.entries@, tx.tx_id);
                }
            },
        }
        let ghost m0 = self@;
        let ghost b0 = self.bytes();
        if self.total_size + tx_size > MEMPOOL_MAX_SIZE_BYTES {
            self.evict_lowest_priority(tx_size);
        }
        let ghost m2 = self@;
        let ghost b2 = self.bytes();
        proof {
            if b0 + tx_size > MEMPOOL_MAX_SIZE_BYTES {
                assert(evicted(m0, b0, tx_size as int, m2, b2));
            }
        }
        if self.total_size + tx_size > MEMPOOL_MAX_SIZE_BYTES {
            return Err(OpolysError::MempoolFull);
        }
        let id = tx.tx_id;
        proof {
            if !(m0.contains_key(id)) {
                assert(!m2.contains_key(id)) by {
                    if b0 + tx_size > MEMPOOL_MAX_SIZE_BYTES {
                        assert(m2.dom().subset_of(m0.dom()));
                    }
                }
            }
            lemma_to_map_contains(self.entries@, id);
            let e = MempoolEntry { transaction: tx, priority_score, submitted_at };
            lemma_push_unique(self.entries@, id, e);
            lemma_to_map_push(self.entries@, id, e);
        }
        let ghost before = self.entries@;
        self.entries.push((id, MempoolEntry { transaction: tx, priority_score, submitted_at }));
        self.total_size = self.total_size + tx_size;
        proof {
            assert(self.entries@.drop_last() =~= before);
            assert forall|j: int| 0 <= j < self.entries@.len() implies (#[trigger] self.entries@[j]).0 == self.entries@[j].1.transaction.tx_id by {
                if j < before.len() {
                    assert(self.entries@[j] == before[j]);
                }
            }
        }
        Ok(())
    }
}

} // verus!
