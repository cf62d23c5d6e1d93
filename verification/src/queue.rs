//! The pending-resolution queue: keys awaiting first-time resolution,
//! each with the TTL requested for it. Enqueuing an already-pending key
//! overwrites the stored TTL (last writer wins; no duplicate work).

use vstd::prelude::*;

use crate::kvlist::{
    kv_contains, kv_map, kv_unique, lemma_kv_at_index, lemma_kv_empty, lemma_kv_push,
    lemma_kv_remove, lemma_kv_update,
};
use crate::records::DNSFlattenRegistryKey;
use crate::registry::RegistryKeyView;

verus! {

/// The queue of keys awaiting resolution, read as a map from key to the
/// requested TTL.
pub struct DNSFlattenBootstrapQueue {
    pending: Vec<(DNSFlattenRegistryKey, u32)>,
}

impl DNSFlattenBootstrapQueue {
    /// The stored pairs, each read as (key view, requested TTL).
    pub closed spec fn contents(self) -> Seq<(RegistryKeyView, u32)> {
        self.pending@.map(|i: int, kv: (DNSFlattenRegistryKey, u32)| (kv.0@, kv.1))
    }

    /// Keys are pairwise distinct.
    pub open spec fn wf(self) -> bool {
        kv_unique(self.contents())
    }

    /// The queue read as a finite map.
    pub open spec fn as_map(self) -> Map<RegistryKeyView, u32> {
        kv_map(self.contents())
    }

    /// An empty queue.
    pub fn new() -> (r: Self)
        ensures
            r.wf(),
            r.as_map() == Map::<RegistryKeyView, u32>::empty(),
            r.contents() == Seq::<(RegistryKeyView, u32)>::empty(),
    {
        let r = DNSFlattenBootstrapQueue { pending: Vec::new() };
        proof {
            assert(r.contents() =~= Seq::<(RegistryKeyView, u32)>::empty());
            lemma_kv_empty::<RegistryKeyView, u32>();
        }
        r
    }

    /// Whether the stored keys are pairwise distinct, i.e. whether `wf` holds.
    pub fn check_unique(&self) -> (r: bool)
        ensures
            r == self.wf(),
    {
        let n = self.pending.len();
        let mut i: usize = 0;
        while i < n
            invariant
                n == self.contents().len(),
                i <= n,
                forall|p: int, q: int|
                    0 <= p < q < n && p < i ==> self.contents()[p].0 != self.contents()[q].0,
            decreases n - i,
        {
            let mut j: usize = i + 1;
            while j < n
                invariant
                    n == self.contents().len(),
                    i < n,
                    i + 1 <= j <= n,
                    forall|q: int| i < q < j ==> self.contents()[i as int].0 != self.contents()[q].0,
                decreases n - j,
            {
                if self.pending[i].0.same_key(&self.pending[j].0) {
                    proof {
                        assert(self.contents()[i as int].0 == self.contents()[j as int].0);
                        assert(!kv_unique(self.contents()));
                    }
                    return false;
                }
                j += 1;
            }
            i += 1;
        }
        true
    }

    /// The index holding `key`, if the key is pending.
    fn index_of(&self, key: &DNSFlattenRegistryKey) -> (r: Option<usize>)
        ensures
            match r {
                Some(i) => i < self.contents().len() && self.contents()[i as int].0 == key@,
                None => !kv_contains(self.contents(), key@),
            },
    {
        let n = self.pending.len();
        let mut i: usize = 0;
        while i < n
            invariant
                n == self.contents().len(),
                i <= n,
                forall|j: int| 0 <= j < i ==> self.contents()[j].0 != key@,
            decreases n - i,
        {
            if self.pending[i].0.same_key(key) {
                return Some(i);
            }
            i += 1;
        }
        None
    }

    /// Enqueue `key` with the requested TTL, overwriting any pending TTL.
    pub fn enqueue(&mut self, key: DNSFlattenRegistryKey, ttl: u32)
        requires
            old(self).wf(),
        ensures
            final(self).wf(),
            final(self).as_map() == old(self).as_map().insert(key@, ttl),
    {
        let idx = self.index_of(&key);
        let ghost pre = self.contents();
        match idx {
            Some(i) => {
                proof {
                    lemma_kv_at_index(pre, i as int);
                }
                let _ = self.pending.remove(i);
                self.pending.insert(i, (key, ttl));
                proof {
                    assert(self.contents() =~= pre.update(i as int, (pre[i as int].0, ttl)));
                    lemma_kv_update(pre, i as int, ttl);
                }
            },
            None => {
                self.pending.push((key, ttl));
                proof {
                    assert(self.contents() =~= pre.push((key@, ttl)));
                    lemma_kv_push(pre, key@, ttl);
                }
            },
        }
    }

    /// Drop `key` from the queue, if pending.
    pub fn remove(&mut self, key: &DNSFlattenRegistryKey)
        requires
            old(self).wf(),
        ensures
            final(self).wf(),
            final(self).as_map() == old(self).as_map().remove(key@),
    {
        let idx = self.index_of(key);
        let ghost pre = self.contents();
        match idx {
            Some(i) => {
                proof {
                    lemma_kv_at_index(pre, i as int);
                }
                let _ = self.pending.remove(i);
                proof {
                    assert(self.contents() =~= pre.remove(i as int));
                    lemma_kv_remove(pre, i as int);
                }
            },
            None => {
                proof {
                    assert(!self.as_map().contains_key(key@));
                    assert(self.as_map() =~= self.as_map().remove(key@));
                }
            },
        }
    }

    /// The number of pending keys.
    pub fn len(&self) -> (r: usize)
        ensures
            r == self.contents().len(),
    {
        self.pending.len()
    }

    /// An owned copy of everything pending, released before any resolution
    /// work begins so that no lock need span a network call.
    pub fn snapshot(&self) -> (r: Vec<(DNSFlattenRegistryKey, u32)>)
        ensures
            r@.map(|i: int, kv: (DNSFlattenRegistryKey, u32)| (kv.0@, kv.1)) == self.contents(),
    {
        let n = self.pending.len();
        let mut out: Vec<(DNSFlattenRegistryKey, u32)> = Vec::new();
        let mut i: usize = 0;
        while i < n
            invariant
                n == self.contents().len(),
                i <= n,
                out@.len() == i,
                forall|j: int| 0 <= j < i ==> (#[trigger] out@[j]).0@ == self.contents()[j].0
                    && out@[j].1 == self.contents()[j].1,
            decreases n - i,
        {
            let pair = &self.pending[i];
            out.push((pair.0.duplicate(), pair.1));
            i += 1;
        }
        proof {
            assert(out@.map(|i: int, kv: (DNSFlattenRegistryKey, u32)| (kv.0@, kv.1))
                =~= self.contents());
        }
        out
    }
}

} // verus!
