//! Association sequences with unique keys, and their `Map` views.
//!
//! The registry and the pending queue both store their entries as a vector
//! of key/value pairs with pairwise-distinct keys. The spec functions here
//! give such a sequence its meaning as a finite map, and the lemmas relate
//! each sequence edit (push, update, remove) to the corresponding map edit.

use vstd::prelude::*;

verus! {

/// Some pair of the sequence carries key `k`.
pub open spec fn kv_contains<K, V>(s: Seq<(K, V)>, k: K) -> bool {
    exists|i: int| 0 <= i < s.len() && s[i].0 == k
}

/// An index whose pair carries key `k` (unique when `kv_unique` holds).
pub open spec fn kv_index_of<K, V>(s: Seq<(K, V)>, k: K) -> int {
    choose|i: int| 0 <= i < s.len() && s[i].0 == k
}

/// The value stored beside key `k`.
pub open spec fn kv_value_of<K, V>(s: Seq<(K, V)>, k: K) -> V {
    s[kv_index_of(s, k)].1
}

/// The sequence read as a finite map.
pub open spec fn kv_map<K, V>(s: Seq<(K, V)>) -> Map<K, V> {
    Map::new(|k: K| kv_contains(s, k), |k: K| kv_value_of(s, k))
}

/// No two pairs of the sequence carry the same key.
pub open spec fn kv_unique<K, V>(s: Seq<(K, V)>) -> bool {
    forall|i: int, j: int| 0 <= i < j < s.len() ==> s[i].0 != s[j].0
}

/// Under unique keys, the pair at any index is the map entry for its key.
pub proof fn lemma_kv_at_index<K, V>(s: Seq<(K, V)>, i: int)
    requires
        kv_unique(s),
        0 <= i < s.len(),
    ensures
        kv_contains(s, s[i].0),
        kv_index_of(s, s[i].0) == i,
        kv_map(s).contains_key(s[i].0),
        kv_map(s)[s[i].0] == s[i].1,
{
    assert(kv_contains(s, s[i].0));
    let j = kv_index_of(s, s[i].0);
    assert(0 <= j < s.len() && s[j].0 == s[i].0);
    if i != j {
        assert(false);
    }
}

/// Appending a fresh key edits the map by inserting that key.
pub proof fn lemma_kv_push<K, V>(s: Seq<(K, V)>, k: K, v: V)
    requires
        kv_unique(s),
        !kv_contains(s, k),
    ensures
        kv_unique(s.push((k, v))),
        kv_map(s.push((k, v))) == kv_map(s).insert(k, v),
{
    let s2 = s.push((k, v));
    assert forall|i: int, j: int| 0 <= i < j < s2.len() implies s2[i].0 != s2[j].0 by {
        if j < s.len() {
            assert(s2[i] == s[i] && s2[j] == s[j]);
        } else {
            assert(s2[j].0 == k);
            assert(s2[i] == s[i]);
        }
    }
    assert(s2[s.len() as int].0 == k);
    assert(kv_contains(s2, k));
    lemma_kv_at_index(s2, s.len() as int);
    assert forall|k2: K| k2 != k implies kv_contains(s2, k2) == kv_contains(s, k2) by {
        if kv_contains(s, k2) {
            let i = kv_index_of(s, k2);
            assert(s2[i] == s[i]);
            assert(kv_contains(s2, k2));
        }
        if kv_contains(s2, k2) {
            let i = kv_index_of(s2, k2);
            assert(i < s.len() && s2[i] == s[i]);
            assert(kv_contains(s, k2));
        }
    }
    assert forall|k2: K| k2 != k && kv_contains(s, k2) implies kv_value_of(s2, k2) == kv_value_of(
        s,
        k2,
    ) by {
        let i = kv_index_of(s, k2);
        assert(0 <= i < s.len() && s[i].0 == k2);
        assert(s2[i] == s[i]);
        lemma_kv_at_index(s2, i);
    }
    assert(kv_map(s2) =~= kv_map(s).insert(k, v));
}

/// Replacing the value at an index edits the map by inserting over its key.
pub proof fn lemma_kv_update<K, V>(s: Seq<(K, V)>, i: int, v: V)
    requires
        kv_unique(s),
        0 <= i < s.len(),
    ensures
        kv_unique(s.update(i, (s[i].0, v))),
        kv_map(s.update(i, (s[i].0, v))) == kv_map(s).insert(s[i].0, v),
{
    let k = s[i].0;
    let s2 = s.update(i, (k, v));
    assert(forall|j: int| 0 <= j < s.len() ==> s2[j].0 == s[j].0);
    assert(kv_unique(s2));
    lemma_kv_at_index(s2, i);
    assert forall|k2: K| k2 != k implies kv_contains(s2, k2) == kv_contains(s, k2) by {
        if kv_contains(s, k2) {
            let j = kv_index_of(s, k2);
            assert(s2[j].0 == k2);
        }
        if kv_contains(s2, k2) {
            let j = kv_index_of(s2, k2);
            assert(s[j].0 == k2);
        }
    }
    assert forall|k2: K| k2 != k && kv_contains(s, k2) implies kv_value_of(s2, k2) == kv_value_of(
        s,
        k2,
    ) by {
        let j = kv_index_of(s, k2);
        assert(0 <= j < s.len() && s[j].0 == k2);
        assert(j != i);
        assert(s2[j] == s[j]);
        lemma_kv_at_index(s2, j);
    }
    assert(kv_map(s2) =~= kv_map(s).insert(k, v));
}

/// Removing the pair at an index edits the map by removing its key.
pub proof fn lemma_kv_remove<K, V>(s: Seq<(K, V)>, i: int)
    requires
        kv_unique(s),
        0 <= i < s.len(),
    ensures
        kv_unique(s.remove(i)),
        kv_map(s.remove(i)) == kv_map(s).remove(s[i].0),
{
    let k = s[i].0;
    let s2 = s.remove(i);
    assert(forall|j: int| 0 <= j < i ==> s2[j] == s[j]);
    assert(forall|j: int| i <= j < s2.len() ==> s2[j] == s[j + 1]);
    assert forall|p: int, q: int| 0 <= p < q < s2.len() implies s2[p].0 != s2[q].0 by {
        let p0: int = if p < i { p } else { p + 1 };
        let q0: int = if q < i { q } else { q + 1 };
        assert(s2[p] == s[p0] && s2[q] == s[q0]);
    }
    assert forall|j: int| 0 <= j < s2.len() implies s2[j].0 != k by {
        let j0: int = if j < i { j } else { j + 1 };
        assert(s2[j] == s[j0]);
        assert(j0 != i);
    }
    assert(!kv_contains(s2, k));
    assert forall|k2: K| k2 != k implies kv_contains(s2, k2) == kv_contains(s, k2) by {
        if kv_contains(s, k2) {
            let j = kv_index_of(s, k2);
            assert(j != i);
            let j2: int = if j < i { j } else { j - 1 };
            assert(s2[j2] == s[j]);
            assert(kv_contains(s2, k2));
        }
        if kv_contains(s2, k2) {
            let j = kv_index_of(s2, k2);
            let j0: int = if j < i { j } else { j + 1 };
            assert(s2[j] == s[j0]);
            assert(kv_contains(s, k2));
        }
    }
    assert forall|k2: K| k2 != k && kv_contains(s, k2) implies kv_value_of(s2, k2) == kv_value_of(
        s,
        k2,
    ) by {
        let j = kv_index_of(s, k2);
        assert(0 <= j < s.len() && s[j].0 == k2);
        assert(j != i);
        let j2: int = if j < i { j } else { j - 1 };
        assert(s2[j2] == s[j]);
        lemma_kv_at_index(s2, j2);
    }
    assert(kv_map(s2) =~= kv_map(s).remove(k));
}

/// Under unique keys, the map has exactly one entry per pair.
pub proof fn lemma_kv_dom_len<K, V>(s: Seq<(K, V)>)
    requires
        kv_unique(s),
    ensures
        kv_map(s).dom().finite(),
        kv_map(s).dom().len() == s.len(),
    decreases s.len(),
{
    if s.len() == 0 {
        assert(kv_map(s) =~= Map::<K, V>::empty());
    } else {
        let s0 = s.drop_last();
        let last = s.last();
        assert(forall|i: int| 0 <= i < s0.len() ==> s0[i] == s[i]);
        assert(kv_unique(s0));
        if kv_contains(s0, last.0) {
            let i = kv_index_of(s0, last.0);
            assert(s[i].0 == s[s.len() - 1].0);
            assert(false);
        }
        lemma_kv_dom_len(s0);
        lemma_kv_push(s0, last.0, last.1);
        assert(s0.push(last) =~= s);
        assert(kv_map(s) == kv_map(s0).insert(last.0, last.1));
        assert(kv_map(s).dom() =~= kv_map(s0).dom().insert(last.0));
        assert(!kv_map(s0).dom().contains(last.0));
    }
}

/// The empty sequence reads as the empty map.
pub proof fn lemma_kv_empty<K, V>()
    ensures
        kv_map(Seq::<(K, V)>::empty()) == Map::<K, V>::empty(),
{
    assert(kv_map(Seq::<(K, V)>::empty()) =~= Map::<K, V>::empty());
}

} // verus!
