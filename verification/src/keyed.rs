//! Maps keyed by object id, stored as a sequence of (key, value) entries
//! whose keys are pairwise distinct, and the lemmas that relate such a
//! sequence to the mathematical map it stands for.
use crate::types::{id_eq, ObjectId};
use vstd::prelude::*;

verus! {

/// Whether the keys of the entries are pairwise distinct.
pub open spec fn keys_unique<V>(s: Seq<(ObjectId, V)>) -> bool {
    forall|i: int, j: int|
        #![trigger s[i].0, s[j].0]
        0 <= i < s.len() && 0 <= j < s.len() && i != j ==> s[i].0 != s[j].0
}

/// The map that the entries stand for (later entries win on equal keys).
pub open spec fn to_map<V>(s: Seq<(ObjectId, V)>) -> Map<ObjectId, V>
    decreases s.len(),
{
    if s.len() == 0 {
        Map::empty()
    } else {
        to_map(s.drop_last()).insert(s.last().0, s.last().1)
    }
}

/// The keys of the entries.
pub open spec fn key_seq<V>(s: Seq<(ObjectId, V)>) -> Seq<ObjectId> {
    s.map_values(|e: (ObjectId, V)| e.0)
}

/// Every key of the map is the key of some entry and conversely; the
/// map's value at an entry's key is that entry's value when keys are unique.
pub proof fn lemma_to_map_index<V>(s: Seq<(ObjectId, V)>, i: int)
    requires
        keys_unique(s),
        0 <= i < s.len(),
    ensures
        to_map(s).contains_key(s[i].0),
        to_map(s)[s[i].0] == s[i].1,
    decreases s.len(),
{
    if i < s.len() - 1 {
        lemma_to_map_index(s.drop_last(), i);
        assert(s.drop_last()[i] == s[i]);
        assert(s.last().0 != s[i].0);
    }
}

/// A key is in the map exactly when some entry has it.
pub proof fn lemma_to_map_contains<V>(s: Seq<(ObjectId, V)>, k: ObjectId)
    ensures
        to_map(s).contains_key(k) <==> exists|i: int| 0 <= i < s.len() && #[trigger] s[i].0 == k,
    decreases s.len(),
{
    if s.len() > 0 {
        lemma_to_map_contains(s.drop_last(), k);
        if to_map(s).contains_key(k) {
            if k == s.last().0 {
                assert(s[s.len() - 1].0 == k);
            } else {
                let i = choose|i: int| 0 <= i < s.drop_last().len() && #[trigger] s.drop_last()[i].0 == k;
                assert(s[i].0 == k);
            }
        }
        if exists|i: int| 0 <= i < s.len() && #[trigger] s[i].0 == k {
            let i = choose|i: int| 0 <= i < s.len() && #[trigger] s[i].0 == k;
            if i < s.len() - 1 {
                assert(s.drop_last()[i].0 == k);
            }
        }
    }
}

/// Appending an entry inserts it.
pub proof fn lemma_to_map_push<V>(s: Seq<(ObjectId, V)>, k: ObjectId, v: V)
    ensures
        to_map(s.push((k, v))) == to_map(s).insert(k, v),
{
    assert(s.push((k, v)).drop_last() =~= s);
}

/// Replacing the value of an entry updates the map at that key.
pub proof fn lemma_to_map_update<V>(s: Seq<(ObjectId, V)>, i: int, v: V)
    requires
        keys_unique(s),
        0 <= i < s.len(),
    ensures
        to_map(s.update(i, (s[i].0, v))) == to_map(s).insert(s[i].0, v),
        keys_unique(s.update(i, (s[i].0, v))),
    decreases s.len(),
{
    let t = s.update(i, (s[i].0, v));
    assert forall|a: int, b: int|
        #![trigger t[a].0, t[b].0]
        0 <= a < t.len() && 0 <= b < t.len() && a != b implies t[a].0 != t[b].0 by {
        assert(t[a].0 == s[a].0);
        assert(t[b].0 == s[b].0);
    }
    if i == s.len() - 1 {
        assert(t.drop_last() =~= s.drop_last());
        assert(to_map(t) == to_map(s.drop_last()).insert(s[i].0, v));
        assert(to_map(s.drop_last()).insert(s[i].0, v) =~= to_map(s).insert(s[i].0, v));
    } else {
        lemma_to_map_update(s.drop_last(), i, v);
        assert(t.drop_last() =~= s.drop_last().update(i, (s[i].0, v)));
        assert(s.last().0 != s[i].0);
        assert(to_map(t) =~= to_map(s).insert(s[i].0, v));
    }
}

/// Removing an entry removes its key.
pub proof fn lemma_to_map_remove<V>(s: Seq<(ObjectId, V)>, i: int)
    requires
        keys_unique(s),
        0 <= i < s.len(),
    ensures
        to_map(s.remove(i)) == to_map(s).remove(s[i].0),
        keys_unique(s.remove(i)),
    decreases s.len(),
{
    let t = s.remove(i);
    assert forall|a: int, b: int|
        #![trigger t[a].0, t[b].0]
        0 <= a < t.len() && 0 <= b < t.len() && a != b implies t[a].0 != t[b].0 by {
        let sa = if a < i { a } else { a + 1 };
        let sb = if b < i { b } else { b + 1 };
        assert(t[a] == s[sa]);
        assert(t[b] == s[sb]);
    }
    if i == s.len() - 1 {
        assert(t =~= s.drop_last());
        lemma_to_map_contains(s.drop_last(), s[i].0);
        assert(!to_map(s.drop_last()).contains_key(s[i].0)) by {
            if to_map(s.drop_last()).contains_key(s[i].0) {
                let j = choose|j: int|
                    0 <= j < s.drop_last().len() && #[trigger] s.drop_last()[j].0 == s[i].0;
                assert(s[j].0 == s[i].0);
            }
        }
        assert(to_map(s).remove(s[i].0) =~= to_map(s.drop_last()));
    } else {
        lemma_to_map_remove(s.drop_last(), i);
        assert(t.drop_last() =~= s.drop_last().remove(i));
        assert(t.last() == s.last());
        assert(s.last().0 != s[i].0);
        assert(to_map(t) =~= to_map(s).remove(s[i].0));
    }
}

/// Appending a fresh key keeps keys unique.
pub proof fn lemma_push_unique<V>(s: Seq<(ObjectId, V)>, k: ObjectId, v: V)
    requires
        keys_unique(s),
        forall|i: int| 0 <= i < s.len() ==> #[trigger] s[i].0 != k,
    ensures
        keys_unique(s.push((k, v))),
{
    let t = s.push((k, v));
    assert forall|a: int, b: int|
        #![trigger t[a].0, t[b].0]
        0 <= a < t.len() && 0 <= b < t.len() && a != b implies t[a].0 != t[b].0 by {
        if a < s.len() {
            assert(t[a] == s[a]);
        }
        if b < s.len() {
            assert(t[b] == s[b]);
        }
    }
}

/// Position of the entry with key `k`, if any.
pub fn find_key<V>(entries: &Vec<(ObjectId, V)>, k: &ObjectId) -> (r: Option<usize>)
    ensures
        r matches Some(i) ==> i < entries@.len() && entries@[i as int].0 == *k,
        r is None ==> forall|i: int| 0 <= i < entries@.len() ==> #[trigger] entries@[i].0 != *k,
{
    let mut i: usize = 0;
    while i < entries.len()
        invariant
            i <= entries@.len(),
            forall|j: int| 0 <= j < i ==> #[trigger] entries@[j].0 != *k,
        decreases entries@.len() - i,
    {
        if id_eq(&entries[i].0, k) {
            return Some(i);
        }
        i = i + 1;
    }
    None
}

} // verus!

verus! {

/// Lexicographic order on byte sequences is transitive.
pub proof fn lemma_bytes_lt_transitive(a: Seq<u8>, b: Seq<u8>, c: Seq<u8>)
    requires
        crate::types::bytes_lt(a, b),
        crate::types::bytes_lt(b, c),
        a.len() == b.len(),
        b.len() == c.len(),
    ensures
        crate::types::bytes_lt(a, c),
{
    let k1 = choose|k: int|
        #![trigger a[k], b[k]]
        0 <= k < a.len() && k < b.len() && a[k] < b[k] && a.take(k) == b.take(k);
    let k2 = choose|k: int|
        #![trigger b[k], c[k]]
        0 <= k < b.len() && k < c.len() && b[k] < c[k] && b.take(k) == c.take(k);
    if k1 < k2 {
        assert(b.take(k2).take(k1) =~= b.take(k1));
        assert(c.take(k2).take(k1) =~= c.take(k1));
        assert(b.take(k2)[k1] == b[k1]);
        assert(c.take(k2)[k1] == c[k1]);
        assert(a[k1] < c[k1]);
        assert(a.take(k1) == c.take(k1));
    } else if k2 < k1 {
        assert(a.take(k1).take(k2) =~= a.take(k2));
        assert(b.take(k1).take(k2) =~= b.take(k2));
        assert(a.take(k1)[k2] == a[k2]);
        assert(b.take(k1)[k2] == b[k2]);
        assert(a[k2] < c[k2]);
        assert(a.take(k2) == c.take(k2));
    } else {
        assert(a[k1] < c[k1]);
    }
}

/// Lexicographic order is irreflexive and asymmetric.
pub proof fn lemma_bytes_lt_asymmetric(a: Seq<u8>, b: Seq<u8>)
    requires
        crate::types::bytes_lt(a, b),
        a.len() == b.len(),
    ensures
        !crate::types::bytes_lt(b, a),
        a != b,
{
    let k1 = choose|k: int|
        #![trigger a[k], b[k]]
        0 <= k < a.len() && k < b.len() && a[k] < b[k] && a.take(k) == b.take(k);
    if crate::types::bytes_lt(b, a) {
        let k2 = choose|k: int|
            #![trigger b[k], a[k]]
            0 <= k < b.len() && k < a.len() && b[k] < a[k] && b.take(k) == a.take(k);
        if k1 < k2 {
            assert(b.take(k2)[k1] == b[k1]);
            assert(a.take(k2)[k1] == a[k1]);
        } else if k2 < k1 {
            assert(b.take(k1)[k2] == b[k2]);
            assert(a.take(k1)[k2] == a[k2]);
        }
    }
}

proof fn lemma_prefix_or_diff(a: Seq<u8>, b: Seq<u8>, i: int)
    requires
        a.len() == b.len(),
        0 <= i <= a.len(),
    ensures
        a.take(i) == b.take(i) || exists|k: int|
            #![trigger a[k], b[k]]
            0 <= k < i && a[k] != b[k] && a.take(k) == b.take(k),
    decreases i,
{
    if i > 0 {
        lemma_prefix_or_diff(a, b, i - 1);
        if a.take(i - 1) == b.take(i - 1) {
            if a[i - 1] == b[i - 1] {
                assert(a.take(i) =~= a.take(i - 1).push(a[i - 1]));
                assert(b.take(i) =~= b.take(i - 1).push(b[i - 1]));
            } else {
                assert(a[i - 1] != b[i - 1]);
            }
        }
    }
}

/// Distinct byte sequences of equal length are ordered one way or the other.
pub proof fn lemma_bytes_lt_total(a: Seq<u8>, b: Seq<u8>)
    requires
        a.len() == b.len(),
        a != b,
    ensures
        crate::types::bytes_lt(a, b) || crate::types::bytes_lt(b, a),
{
    lemma_prefix_or_diff(a, b, a.len() as int);
    assert(a.take(a.len() as int) =~= a);
    assert(b.take(b.len() as int) =~= b);
    let k = choose|k: int|
        #![trigger a[k], b[k]]
        0 <= k < a.len() && a[k] != b[k] && a.take(k) == b.take(k);
    if a[k] < b[k] {
        assert(crate::types::bytes_lt(a, b));
    } else {
        assert(b[k] < a[k]);
        assert(b.take(k) == a.take(k));
        assert(crate::types::bytes_lt(b, a));
    }
}

/// Whether entries are in strictly increasing key order.
pub open spec fn sorted_by_key<V>(s: Seq<(ObjectId, V)>) -> bool {
    forall|i: int, j: int|
        #![trigger s[i].0, s[j].0]
        0 <= i < j < s.len() ==> crate::types::bytes_lt(s[i].0.bytes(), s[j].0.bytes())
}

/// Two key-unique entry sequences with the same entries stand for the same map.
pub proof fn lemma_same_entries_same_map<V>(a: Seq<(ObjectId, V)>, b: Seq<(ObjectId, V)>)
    requires
        keys_unique(a),
        keys_unique(b),
        forall|e: (ObjectId, V)| a.contains(e) <==> b.contains(e),
    ensures
        to_map(a) == to_map(b),
{
    assert forall|k: ObjectId| #[trigger] to_map(a).dom().contains(k) implies to_map(b).dom().contains(k)
        && to_map(b)[k] == to_map(a)[k] by {
        lemma_to_map_contains(a, k);
        let i = choose|i: int| 0 <= i < a.len() && #[trigger] a[i].0 == k;
        lemma_to_map_index(a, i);
        assert(a.contains(a[i]));
        assert(b.contains(a[i]));
        let j = choose|j: int| 0 <= j < b.len() && b[j] == a[i];
        lemma_to_map_index(b, j);
    }
    assert forall|k: ObjectId| #[trigger] to_map(b).dom().contains(k) implies to_map(a).dom().contains(k) by {
        lemma_to_map_contains(b, k);
        let j = choose|j: int| 0 <= j < b.len() && #[trigger] b[j].0 == k;
        assert(b.contains(b[j]));
        assert(a.contains(b[j]));
        let i = choose|i: int| 0 <= i < a.len() && a[i] == b[j];
        lemma_to_map_index(a, i);
    }
    assert(to_map(a).dom() =~= to_map(b).dom());
    assert forall|k: ObjectId| #[trigger] to_map(a).dom().contains(k) implies to_map(a)[k]
        == to_map(b)[k] by {
        assert(to_map(a).contains_key(k));
    }
    assert(to_map(a) =~= to_map(b));
}

/// Two sorted entry sequences that stand for the same map are the same
/// sequence.
pub proof fn lemma_sorted_entries_unique<V>(a: Seq<(ObjectId, V)>, b: Seq<(ObjectId, V)>)
    requires
        sorted_by_key(a),
        sorted_by_key(b),
        keys_unique(a),
        keys_unique(b),
        to_map(a) == to_map(b),
    ensures
        a == b,
    decreases a.len(),
{
    crate::account::lemma_map_len(a);
    crate::account::lemma_map_len(b);
    if a.len() == 0 {
        assert(a =~= b);
    } else {
        let n = a.len() - 1;
        let ka = a[n].0;
        let kb = b[n].0;
        lemma_to_map_index(a, n);
        lemma_to_map_index(b, n);
        if ka != kb {
            lemma_to_map_contains(a, kb);
            let j = choose|j: int| 0 <= j < a.len() && #[trigger] a[j].0 == kb;
            lemma_to_map_contains(b, ka);
            let i = choose|i: int| 0 <= i < b.len() && #[trigger] b[i].0 == ka;
            assert(j < n);
            assert(i < n);
            assert(crate::types::bytes_lt(a[j].0.bytes(), a[n].0.bytes()));
            assert(crate::types::bytes_lt(b[i].0.bytes(), b[n].0.bytes()));
            lemma_bytes_lt_asymmetric(kb.bytes(), ka.bytes());
            assert(false);
        }
        assert(a[n] == b[n]);
        lemma_to_map_remove(a, n);
        lemma_to_map_remove(b, n);
        assert(a.remove(n) =~= a.drop_last());
        assert(b.remove(n) =~= b.drop_last());
        lemma_sorted_entries_unique(a.drop_last(), b.drop_last());
        assert(a =~= b.drop_last().push(b[n]));
        assert(b =~= b.drop_last().push(b[n]));
    }
}

/// The entries, reordered into increasing key order (insertion sort).
pub fn sort_by_key<V>(entries: Vec<(ObjectId, V)>) -> (r: Vec<(ObjectId, V)>)
    requires
        keys_unique(entries@),
    ensures
        sorted_by_key(r@),
        r@.len() == entries@.len(),
        keys_unique(r@),
        forall|e: (ObjectId, V)| r@.contains(e) <==> entries@.contains(e),
        to_map(r@) == to_map(entries@),
{
    let mut out: Vec<(ObjectId, V)> = Vec::new();
    let mut rest = entries;
    let ghost orig = rest@;
    assert(out@ + rest@ =~= orig);
    while rest.len() > 0
        invariant
            sorted_by_key(out@),
            keys_unique(out@ + rest@),
            out@.len() + rest@.len() == orig.len(),
            forall|e: (ObjectId, V)| (out@.contains(e) || rest@.contains(e)) <==> orig.contains(e),
        decreases rest@.len(),
    {
        let ghost old_out = out@;
        let ghost old_rest = rest@;
        let x = rest.pop().unwrap();
        proof {
            assert(old_rest =~= rest@.push(x));
            assert forall|i: int| 0 <= i < old_out.len() implies #[trigger] old_out[i].0 != x.0 by {
                let c = old_out + old_rest;
                assert(c[i] == old_out[i]);
                assert(c[c.len() - 1] == x);
            }
        }
        let mut k: usize = 0;
        while k < out.len()
            invariant
                k <= out@.len(),
                out@ == old_out,
                forall|i: int|
                    0 <= i < k ==> crate::types::bytes_lt(#[trigger] out@[i].0.bytes(), x.0.bytes()),
            ensures
                k <= out@.len(),
                out@ == old_out,
                forall|i: int|
                    0 <= i < k ==> crate::types::bytes_lt(#[trigger] out@[i].0.bytes(), x.0.bytes()),
                k < out@.len() ==> !crate::types::bytes_lt(out@[k as int].0.bytes(), x.0.bytes()),
            decreases out@.len() - k,
        {
            if !crate::types::id_lt(&out[k].0, &x.0) {
                break;
            }
            k = k + 1;
        }
        proof {
            if k < old_out.len() {
                assert(!crate::types::bytes_lt(old_out[k as int].0.bytes(), x.0.bytes()));
                assert(old_out[k as int].0 != x.0);
                if old_out[k as int].0.bytes() == x.0.bytes() {
                    crate::types::lemma_hash_bytes_eq(old_out[k as int].0.0, x.0.0);
                }
                lemma_bytes_lt_total(old_out[k as int].0.bytes(), x.0.bytes());
                assert forall|j: int| k <= j < old_out.len() implies crate::types::bytes_lt(
                    x.0.bytes(),
                    #[trigger] old_out[j].0.bytes(),
                ) by {
                    if j > k {
                        lemma_bytes_lt_transitive(
                            x.0.bytes(),
                            old_out[k as int].0.bytes(),
                            old_out[j].0.bytes(),
                        );
                    }
                }
            }
        }
        out.insert(k, x);
        proof {
            let n = out@;
            assert(n =~= old_out.insert(k as int, x));
            assert forall|i: int, j: int|
                #![trigger n[i].0, n[j].0]
                0 <= i < j < n.len() implies crate::types::bytes_lt(n[i].0.bytes(), n[j].0.bytes()) by {
                if j < k {
                    assert(n[i] == old_out[i] && n[j] == old_out[j]);
                } else if j == k {
                    assert(n[i] == old_out[i]);
                } else if i < k {
                    assert(n[i] == old_out[i] && n[j] == old_out[j - 1]);
                    lemma_bytes_lt_transitive(
                        old_out[i].0.bytes(),
                        x.0.bytes(),
                        old_out[j - 1].0.bytes(),
                    );
                } else if i == k {
                    assert(n[j] == old_out[j - 1]);
                } else {
                    assert(n[i] == old_out[i - 1] && n[j] == old_out[j - 1]);
                }
            }
            let c_old = old_out + old_rest;
            let c_new = n + rest@;
            assert forall|a: int, b: int|
                #![trigger c_new[a].0, c_new[b].0]
                0 <= a < c_new.len() && 0 <= b < c_new.len() && a != b implies c_new[a].0
                    != c_new[b].0 by {
                let ia = if a < k { a } else if a == k { c_old.len() - 1 } else if a < n.len() {
                    a - 1
                } else {
                    a - 1
                };
                let ib = if b < k { b } else if b == k { c_old.len() - 1 } else if b < n.len() {
                    b - 1
                } else {
                    b - 1
                };
                assert(c_new[a] == c_old[ia]);
                assert(c_new[b] == c_old[ib]);
            }
            assert forall|e: (ObjectId, V)| (n.contains(e) || rest@.contains(e)) <==> orig.contains(
                e,
            ) by {
                if n.contains(e) {
                    let i = choose|i: int| 0 <= i < n.len() && n[i] == e;
                    if i < k {
                        assert(old_out[i] == e);
                        assert(old_out.contains(e));
                    } else if i == k {
                        assert(old_rest[old_rest.len() - 1] == e);
                        assert(old_rest.contains(e));
                    } else {
                        assert(old_out[i - 1] == e);
                        assert(old_out.contains(e));
                    }
                }
                if rest@.contains(e) {
                    let i = choose|i: int| 0 <= i < rest@.len() && rest@[i] == e;
                    assert(old_rest[i] == e);
                    assert(old_rest.contains(e));
                }
                if old_out.contains(e) {
                    let i = choose|i: int| 0 <= i < old_out.len() && old_out[i] == e;
                    if i < k {
                        assert(n[i] == e);
                    } else {
                        assert(n[i + 1] == e);
                    }
                    assert(n.contains(e));
                }
                if old_rest.contains(e) {
                    let i = choose|i: int| 0 <= i < old_rest.len() && old_rest[i] == e;
                    if i == old_rest.len() - 1 {
                        assert(n[k as int] == e);
                        assert(n.contains(e));
                    } else {
                        assert(rest@[i] == e);
                        assert(rest@.contains(e));
                    }
                }
            }
        }
    }
    proof {
        assert(out@ + rest@ =~= out@);
        assert forall|e: (ObjectId, V)| out@.contains(e) <==> orig.contains(e) by {
            if rest@.contains(e) {
                let i = choose|i: int| 0 <= i < rest@.len() && rest@[i] == e;
            }
        }
        lemma_same_entries_same_map(out@, orig);
    }
    out
}


/// The entries with each value replaced by its image under `f`.
pub open spec fn map_entry_values<V, W>(s: Seq<(ObjectId, V)>, f: spec_fn(V) -> W) -> Seq<
    (ObjectId, W),
> {
    s.map_values(|e: (ObjectId, V)| (e.0, f(e.1)))
}

/// Mapping the values of the entries maps the values of their map.
pub proof fn lemma_to_map_map_values<V, W>(s: Seq<(ObjectId, V)>, f: spec_fn(V) -> W)
    ensures
        to_map(map_entry_values(s, f)) == to_map(s).map_values(f),
    decreases s.len(),
{
    let t = map_entry_values(s, f);
    if s.len() == 0 {
        assert(to_map(s).map_values(f) =~= Map::empty());
    } else {
        lemma_to_map_map_values(s.drop_last(), f);
        assert(t.drop_last() =~= map_entry_values(s.drop_last(), f));
        assert(to_map(t) =~= to_map(s).map_values(f));
    }
}

/// Mapping the values keeps the keys, hence their uniqueness and order.
pub proof fn lemma_map_entry_values_keys<V, W>(s: Seq<(ObjectId, V)>, f: spec_fn(V) -> W)
    ensures
        map_entry_values(s, f).len() == s.len(),
        forall|i: int| 0 <= i < s.len() ==> #[trigger] map_entry_values(s, f)[i].0 == s[i].0,
        keys_unique(s) ==> keys_unique(map_entry_values(s, f)),
        sorted_by_key(s) ==> sorted_by_key(map_entry_values(s, f)),
{
    let t = map_entry_values(s, f);
    if keys_unique(s) {
        assert forall|i: int, j: int|
            #![trigger t[i].0, t[j].0]
            0 <= i < t.len() && 0 <= j < t.len() && i != j implies t[i].0 != t[j].0 by {
            assert(t[i].0 == s[i].0 && t[j].0 == s[j].0);
        }
    }
    if sorted_by_key(s) {
        assert forall|i: int, j: int|
            #![trigger t[i].0, t[j].0]
            0 <= i < j < t.len() implies crate::types::bytes_lt(t[i].0.bytes(), t[j].0.bytes()) by {
            assert(t[i].0 == s[i].0 && t[j].0 == s[j].0);
        }
    }
}


/// The number of entries whose value satisfies `p`.
pub open spec fn count_where<V>(s: Seq<(ObjectId, V)>, p: spec_fn(V) -> bool) -> nat
    decreases s.len(),
{
    if s.len() == 0 {
        0
    } else {
        count_where(s.drop_last(), p) + if p(s.last().1) {
            1nat
        } else {
            0nat
        }
    }
}

/// The keys of a map whose values satisfy `p`.
pub open spec fn keys_where<V>(m: Map<ObjectId, V>, p: spec_fn(V) -> bool) -> Set<ObjectId> {
    m.dom().filter(|k: ObjectId| p(m[k]))
}

/// With distinct keys, counting entries counts the matching keys of the map.
pub proof fn lemma_count_where<V>(s: Seq<(ObjectId, V)>, p: spec_fn(V) -> bool)
    requires
        keys_unique(s),
    ensures
        keys_where(to_map(s), p).finite(),
        keys_where(to_map(s), p).len() == count_where(s, p),
    decreases s.len(),
{
    if s.len() == 0 {
        assert(keys_where(to_map(s), p) =~= Set::<ObjectId>::empty());
    } else {
        let t = s.drop_last();
        assert(keys_unique(t)) by {
            assert forall|i: int, j: int|
                #![trigger t[i].0, t[j].0]
                0 <= i < t.len() && 0 <= j < t.len() && i != j implies t[i].0 != t[j].0 by {
                assert(t[i] == s[i] && t[j] == s[j]);
            }
        }
        lemma_count_where(t, p);
        let k = s.last().0;
        lemma_to_map_contains(t, k);
        if to_map(t).contains_key(k) {
            let i = choose|i: int| 0 <= i < t.len() && #[trigger] t[i].0 == k;
            assert(s[i].0 == s[s.len() - 1].0);
        }
        let a = keys_where(to_map(t), p);
        let b = keys_where(to_map(s), p);
        if p(s.last().1) {
            assert(b =~= a.insert(k));
        } else {
            assert(b =~= a);
        }
    }
}

} // verus!
