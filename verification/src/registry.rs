//! The flatten registry: the in-memory cache of flattened record values,
//! keyed by (target value, record type).

use vstd::prelude::*;

use crate::kvlist::{
    kv_contains, kv_map, kv_unique, lemma_kv_at_index, lemma_kv_empty, lemma_kv_push,
    lemma_kv_remove, lemma_kv_update,
};
use crate::records::{DNSFlattenRegistryKey, RecordType};

verus! {

/// One cached flattening result.
///
/// `values` is the ordered sequence of string-encoded record values (empty
/// means "resolved, but no values"). `ttl` is the zone-supplied TTL in
/// seconds. `refreshed_at` is the time of the last resolution write, and
/// `accessed_at` the time of the last cache read; both are seconds of some
/// monotonically-read wall clock supplied by the caller.
pub struct DNSFlattenEntry {
    pub values: Vec<String>,
    pub ttl: u32,
    pub refreshed_at: u64,
    pub accessed_at: u64,
}

/// The mathematical shape of a registry entry.
pub ghost struct DNSFlattenEntryView {
    pub values: Seq<Seq<char>>,
    pub ttl: u32,
    pub refreshed_at: u64,
    pub accessed_at: u64,
}

impl View for DNSFlattenEntry {
    type V = DNSFlattenEntryView;

    open spec fn view(&self) -> DNSFlattenEntryView {
        DNSFlattenEntryView {
            values: self.values.deep_view(),
            ttl: self.ttl,
            refreshed_at: self.refreshed_at,
            accessed_at: self.accessed_at,
        }
    }
}

impl DNSFlattenEntry {
    /// A fresh entry written at time `now`: `refreshed_at` is stamped with
    /// `now`, while `accessed_at` takes the explicit override when one is
    /// given (a background refresh restoring the eviction clock) and `now`
    /// otherwise.
    pub fn new(values: Vec<String>, ttl: u32, accessed_at: Option<u64>, now: u64) -> (r: Self)
        ensures
            r@ == (DNSFlattenEntryView {
                values: values.deep_view(),
                ttl,
                refreshed_at: now,
                accessed_at: if accessed_at is Some {
                    accessed_at->0
                } else {
                    now
                },
            }),
    {
        DNSFlattenEntry {
            values,
            ttl,
            refreshed_at: now,
            accessed_at: match accessed_at {
                Some(at) => at,
                None => now,
            },
        }
    }
}

/// The key type of the registry map view.
pub type RegistryKeyView = (Seq<char>, RecordType);

/// The authoritative in-memory cache of flattened values.
///
/// Entries are stored as a vector of key/entry pairs with pairwise-distinct
/// keys; the registry's meaning is the finite map `as_map()`.
pub struct DNSFlattenRegistry {
    entries: Vec<(DNSFlattenRegistryKey, DNSFlattenEntry)>,
}

impl DNSFlattenRegistry {
    /// The stored pairs, each read as (key view, entry view).
    pub closed spec fn contents(self) -> Seq<(RegistryKeyView, DNSFlattenEntryView)> {
        self.entries@.map(
            |i: int, kv: (DNSFlattenRegistryKey, DNSFlattenEntry)| (kv.0@, kv.1@),
        )
    }

    /// Keys are pairwise distinct.
    pub open spec fn wf(self) -> bool {
        kv_unique(self.contents())
    }

    /// The registry read as a finite map.
    pub open spec fn as_map(self) -> Map<RegistryKeyView, DNSFlattenEntryView> {
        kv_map(self.contents())
    }

    /// An empty registry.
    pub fn new() -> (r: Self)
        ensures
            r.wf(),
            r.as_map() == Map::<RegistryKeyView, DNSFlattenEntryView>::empty(),
            r.contents() == Seq::<(RegistryKeyView, DNSFlattenEntryView)>::empty(),
    {
        let r = DNSFlattenRegistry { entries: Vec::new() };
        proof {
            assert(r.contents() =~= Seq::<(RegistryKeyView, DNSFlattenEntryView)>::empty());
            lemma_kv_empty::<RegistryKeyView, DNSFlattenEntryView>();
        }
        r
    }

    /// The number of cached entries.
    pub fn len(&self) -> (r: usize)
        ensures
            r == self.contents().len(),
    {
        self.entries.len()
    }

    /// Read access to the pair at one index, for maintenance scans.
    pub fn entry_at(&self, i: usize) -> (r: &(DNSFlattenRegistryKey, DNSFlattenEntry))
        requires
            i < self.contents().len(),
        ensures
            (r.0@, r.1@) == self.contents()[i as int],
    {
        &self.entries[i]
    }

    /// Whether the stored keys are pairwise distinct, i.e. whether `wf` holds.
    pub fn check_unique(&self) -> (r: bool)
        ensures
            r == self.wf(),
    {
        let n = self.entries.len();
        let mut i: usize = 0;
        while i < n
            invariant
                n == self.contents().len(),
                i <= n,
                forall|p: int, q: int|
                    0 <= p < q < n && p < i ==> self.contents()[p].0 != self.contents()[q].0,
            decreases n - i,
        {
            let mut j: usize = i + 1;
            while j < n
                invariant
                    n == self.contents().len(),
                    i < n,
                    i + 1 <= j <= n,
                    forall|q: int| i < q < j ==> self.contents()[i as int].0 != self.contents()[q].0,
                decreases n - j,
            {
                if self.entries[i].0.same_key(&self.entries[j].0) {
                    proof {
                        assert(self.contents()[i as int].0 == self.contents()[j as int].0);
                        assert(!kv_unique(self.contents()));
                    }
                    return false;
                }
                j += 1;
            }
            i += 1;
        }
        true
    }

    /// The index holding `key`, if the key is cached.
    fn index_of(&self, key: &DNSFlattenRegistryKey) -> (r: Option<usize>)
        ensures
            match r {
                Some(i) => i < self.contents().len() && self.contents()[i as int].0 == key@,
                None => !kv_contains(self.contents(), key@),
            },
    {
        let n = self.entries.len();
        let mut i: usize = 0;
        while i < n
            invariant
                n == self.contents().len(),
                i <= n,
                forall|j: int| 0 <= j < i ==> self.contents()[j].0 != key@,
            decreases n - i,
        {
            if self.entries[i].0.same_key(key) {
                return Some(i);
            }
            i += 1;
        }
        None
    }

    /// Whether `key` is cached.
    pub fn contains(&self, key: &DNSFlattenRegistryKey) -> (r: bool)
        requires
            self.wf(),
        ensures
            r == self.as_map().contains_key(key@),
    {
        let idx = self.index_of(key);
        proof {
            if let Some(i) = idx {
                lemma_kv_at_index(self.contents(), i as int);
            }
        }
        idx.is_some()
    }

    /// Look `key` up; on a hit, stamp `accessed_at` with `now` and hand back
    /// a copy of the cached values.
    pub fn touch(&mut self, key: &DNSFlattenRegistryKey, now: u64) -> (r: Option<Vec<String>>)
        requires
            old(self).wf(),
        ensures
            final(self).wf(),
            match r {
                Some(vs) => {
                    &&& old(self).as_map().contains_key(key@)
                    &&& vs.deep_view() == old(self).as_map()[key@].values
                    &&& final(self).as_map() == old(self).as_map().insert(
                        key@,
                        DNSFlattenEntryView {
                            accessed_at: now,
                            ..old(self).as_map()[key@]
                        },
                    )
                },
                None => {
                    &&& !old(self).as_map().contains_key(key@)
                    &&& *final(self) == *old(self)
                },
            },
    {
        let idx = self.index_of(key);
        match idx {
            Some(i) => {
                proof {
                    lemma_kv_at_index(self.contents(), i as int);
                }
                let ghost pre = self.contents();
                self.entries[i].1.accessed_at = now;
                proof {
                    assert(self.contents() =~= pre.update(
                        i as int,
                        (
                            pre[i as int].0,
                            DNSFlattenEntryView { accessed_at: now, ..pre[i as int].1 },
                        ),
                    ));
                    lemma_kv_update(
                        pre,
                        i as int,
                        DNSFlattenEntryView { accessed_at: now, ..pre[i as int].1 },
                    );
                }
                let copied = clone_values(&self.entries[i].1.values);
                Some(copied)
            },
            None => None,
        }
    }

    /// Write `entry` under `key`, replacing any cached entry for that key.
    pub fn store(&mut self, key: DNSFlattenRegistryKey, entry: DNSFlattenEntry)
        requires
            old(self).wf(),
        ensures
            final(self).wf(),
            final(self).as_map() == old(self).as_map().insert(key@, entry@),
    {
        let idx = self.index_of(&key);
        let ghost pre = self.contents();
        match idx {
            Some(i) => {
                proof {
                    lemma_kv_at_index(pre, i as int);
                }
                let _ = self.entries.remove(i);
                self.entries.insert(i, (key, entry));
                proof {
                    assert(self.contents() =~= pre.update(i as int, (pre[i as int].0, entry@)));
                    lemma_kv_update(pre, i as int, entry@);
                }
            },
            None => {
                self.entries.push((key, entry));
                proof {
                    assert(self.contents() =~= pre.push((key@, entry@)));
                    lemma_kv_push(pre, key@, entry@);
                }
            },
        }
    }

    /// Drop the entry for `key`, if one is cached.
    pub fn remove(&mut self, key: &DNSFlattenRegistryKey)
        requires
            old(self).wf(),
        ensures
            final(self).wf(),
            final(self).as_map() == old(self).as_map().remove(key@),
    {
        let idx = self.index_of(key);
        let ghost pre = self.contents();
        match idx {
            Some(i) => {
                proof {
                    lemma_kv_at_index(pre, i as int);
                }
                let _ = self.entries.remove(i);
                proof {
                    assert(self.contents() =~= pre.remove(i as int));
                    lemma_kv_remove(pre, i as int);
                }
            },
            None => {
                proof {
                    assert(!self.as_map().contains_key(key@));
                    assert(self.as_map() =~= self.as_map().remove(key@));
                }
            },
        }
    }
}

/// An owned copy of a value list, element for element.
pub fn clone_values(values: &Vec<String>) -> (r: Vec<String>)
    ensures
        r@ == values@,
        r.deep_view() == values.deep_view(),
{
    let n = values.len();
    let mut out: Vec<String> = Vec::new();
    let mut i: usize = 0;
    while i < n
        invariant
            n == values@.len(),
            i <= n,
            out@ == values@.subrange(0, i as int),
        decreases n - i,
    {
        out.push(values[i].clone());
        proof {
            assert(out@ =~= values@.subrange(0, i + 1 as int));
        }
        i += 1;
    }
    proof {
        assert(out@ =~= values@);
        assert(out.deep_view() =~= values.deep_view());
    }
    out
}

} // verus!
