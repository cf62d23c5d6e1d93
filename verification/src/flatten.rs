//! The flattening service: the cache-or-defer query path, the resolution
//! write-back routine, and the two background sweeps (bootstrap drain,
//! maintenance expire/refresh).
//!
//! Everything here is a pure state transition: the wall clock is passed in
//! as whole seconds, and upstream lookup outcomes are handed over by the
//! surrounding program, which alone talks to the network. Within one
//! process the service is meant to be shared behind a readers-writer lock,
//! never held across a network call.

use vstd::prelude::*;

use crate::kvlist::{kv_index_of, lemma_kv_at_index};
use crate::queue::DNSFlattenBootstrapQueue;
use crate::records::{
    format_mx_values, format_txt_values, spec_concat_segments, spec_mx_value,
    DNSFlattenRegistryKey, MxRecord, RecordType, TxtRecord,
};
use crate::registry::{
    clone_values, DNSFlattenEntry, DNSFlattenEntryView, DNSFlattenRegistry, RegistryKeyView,
};

verus! {

/// An entry is evicted once unaccessed for this multiple of its TTL.
pub const MAINTAIN_EXPIRE_TTL_RATIO: u64 = 10;

/// The outcome of one upstream lookup, already converted to plain values:
/// addresses in their string form (A and AAAA), mail-exchange records, text
/// records, or a typed failure (timeout, no such domain, network error).
pub enum UpstreamLookup {
    Addresses(Vec<String>),
    MailExchanges(Vec<MxRecord>),
    Texts(Vec<TxtRecord>),
    Failed,
}

/// Whether a lookup outcome is of the shape the record type's upstream
/// call produces. Pass-through types never reach upstream, so any value
/// stands for them.
pub open spec fn spec_lookup_matches(record_type: RecordType, lookup: UpstreamLookup) -> bool {
    match record_type {
        RecordType::A | RecordType::AAAA => lookup is Addresses || lookup is Failed,
        RecordType::MX => lookup is MailExchanges || lookup is Failed,
        RecordType::TXT => lookup is Texts || lookup is Failed,
        RecordType::PTR | RecordType::CNAME => true,
    }
}

/// The value set a resolution produces: `None` on upstream failure, else
/// the string-encoded values in resolver order. Pass-through types always
/// produce the empty set, whatever the lookup holds.
pub open spec fn spec_lookup_values(record_type: RecordType, lookup: UpstreamLookup) -> Option<
    Seq<Seq<char>>,
> {
    if record_type is PTR || record_type is CNAME {
        Some(Seq::empty())
    } else {
        match lookup {
            UpstreamLookup::Addresses(addrs) => Some(addrs.deep_view()),
            UpstreamLookup::MailExchanges(records) => Some(
                records@.map(|i: int, rec: MxRecord| spec_mx_value(rec.preference, rec.exchange@)),
            ),
            UpstreamLookup::Texts(records) => Some(
                records@.map(
                    |i: int, rec: TxtRecord| spec_concat_segments(rec.segments.deep_view()),
                ),
            ),
            UpstreamLookup::Failed => None,
        }
    }
}

/// The access stamp of a freshly written entry: the explicit override when
/// one is given, the write time otherwise.
pub open spec fn spec_stamp(accessed_at: Option<u64>, now: u64) -> u64 {
    if accessed_at is Some {
        accessed_at->0
    } else {
        now
    }
}

/// How one resolution outcome edits the registry map. A failure against a
/// cached key leaves the cache untouched (stale-but-correct beats
/// empty-and-wrong); any other outcome installs a fresh entry, empty on a
/// first-time failure.
pub open spec fn spec_flatten_registry(
    m: Map<RegistryKeyView, DNSFlattenEntryView>,
    k: RegistryKeyView,
    ttl: u32,
    accessed_at: Option<u64>,
    outcome: Option<Seq<Seq<char>>>,
    now: u64,
) -> Map<RegistryKeyView, DNSFlattenEntryView> {
    match outcome {
        Option::Some(vs) => m.insert(
            k,
            DNSFlattenEntryView {
                values: vs,
                ttl,
                refreshed_at: now,
                accessed_at: spec_stamp(accessed_at, now),
            },
        ),
        Option::None => if m.contains_key(k) {
            m
        } else {
            m.insert(
                k,
                DNSFlattenEntryView {
                    values: Seq::empty(),
                    ttl,
                    refreshed_at: now,
                    accessed_at: spec_stamp(accessed_at, now),
                },
            )
        },
    }
}

/// An entry unaccessed for at least `ttl × MAINTAIN_EXPIRE_TTL_RATIO`
/// seconds is due for eviction.
pub open spec fn spec_entry_expired(e: DNSFlattenEntryView, now: u64) -> bool {
    now - e.accessed_at >= e.ttl * MAINTAIN_EXPIRE_TTL_RATIO
}

/// An entry not re-resolved for at least `ttl` seconds is due for refresh.
pub open spec fn spec_entry_due_refresh(e: DNSFlattenEntryView, now: u64) -> bool {
    now - e.refreshed_at >= e.ttl
}

/// The registry after one expire sweep at time `now`: exactly the entries
/// accessed recently enough survive, unchanged.
pub open spec fn spec_expire(m: Map<RegistryKeyView, DNSFlattenEntryView>, now: u64) -> Map<
    RegistryKeyView,
    DNSFlattenEntryView,
> {
    Map::new(
        |k: RegistryKeyView| m.contains_key(k) && !spec_entry_expired(m[k], now),
        |k: RegistryKeyView| m[k],
    )
}

/// Some listed key reads as `k`.
pub open spec fn spec_key_listed(ks: Seq<DNSFlattenRegistryKey>, k: RegistryKeyView) -> bool {
    exists|j: int| 0 <= j < ks.len() && ks[j]@ == k
}

/// The record-flattening service: the registry of flattened values and the
/// queue of keys awaiting first-time resolution. The two are never walked
/// under one lock by the callers; every routine here touches them through
/// short, snapshot-then-act steps.
pub struct DNSFlatten {
    registry: DNSFlattenRegistry,
    bootstrap: DNSFlattenBootstrapQueue,
}

/// Builds the flattening service. The upstream resolver itself is owned by
/// the surrounding program; the service only records what it reports.
pub struct DNSFlattenBuilder;

impl DNSFlattenBuilder {
    pub fn new() -> (r: DNSFlatten)
        ensures
            r.wf(),
            r.registry_map() == Map::<RegistryKeyView, DNSFlattenEntryView>::empty(),
            r.bootstrap_map() == Map::<RegistryKeyView, u32>::empty(),
    {
        DNSFlatten { registry: DNSFlattenRegistry::new(), bootstrap: DNSFlattenBootstrapQueue::new() }
    }
}

impl DNSFlatten {
    /// Both stores hold pairwise-distinct keys.
    pub closed spec fn wf(self) -> bool {
        self.registry.wf() && self.bootstrap.wf()
    }

    /// The registry read as a map: key to cached entry.
    pub closed spec fn registry_map(self) -> Map<RegistryKeyView, DNSFlattenEntryView> {
        self.registry.as_map()
    }

    /// The pending queue read as a map: key to requested TTL.
    pub closed spec fn bootstrap_map(self) -> Map<RegistryKeyView, u32> {
        self.bootstrap.as_map()
    }

    /// The query path. On a cache hit, stamp the entry's `accessed_at` with
    /// `now` and return a copy of the cached values. On a miss, enqueue the
    /// key (overwriting any pending TTL) and report the deferred failure,
    /// so the caller answers with a non-cacheable server failure instead of
    /// a false negative. Never blocks on the network.
    pub fn pass(
        &mut self,
        record_type: RecordType,
        record_value: String,
        record_ttl: u32,
        now: u64,
    ) -> (r: Result<Vec<String>, ()>)
        requires
            old(self).wf(),
        ensures
            final(self).wf(),
            ({
                let k = (record_value@, record_type);
                if old(self).registry_map().contains_key(k) {
                    &&& r matches Ok(vs) && vs.deep_view() == old(self).registry_map()[k].values
                    &&& final(self).registry_map() == old(self).registry_map().insert(
                        k,
                        DNSFlattenEntryView { accessed_at: now, ..old(self).registry_map()[k] },
                    )
                    &&& final(self).bootstrap_map() == old(self).bootstrap_map()
                } else {
                    &&& r is Err
                    &&& final(self).registry_map() == old(self).registry_map()
                    &&& final(self).bootstrap_map() == old(self).bootstrap_map().insert(
                        k,
                        record_ttl,
                    )
                }
            }),
    {
        let registry_key = DNSFlattenRegistryKey::new(record_value, record_type);

        // Cache lookup, access-stamping the entry on a hit.
        let cached_value = self.registry.touch(&registry_key, now);

        // Return the cached value, or queue a flatten order.
        if let Some(value) = cached_value {
            Ok(value)
        } else {
            self.queue(registry_key, record_ttl)
        }
    }

    /// Stack a flatten order onto the pending queue, to be picked up by the
    /// bootstrap worker, and report the deferred failure.
    fn queue(&mut self, registry_key: DNSFlattenRegistryKey, ttl: u32) -> (r: Result<
        Vec<String>,
        (),
    >)
        requires
            old(self).wf(),
        ensures
            final(self).wf(),
            r is Err,
            final(self).registry_map() == old(self).registry_map(),
            final(self).bootstrap_map() == old(self).bootstrap_map().insert(registry_key@, ttl),
    {
        self.bootstrap.enqueue(registry_key, ttl);
        Err(())
    }

    /// Write one resolution outcome into the registry.
    ///
    /// On success the key gets a fresh entry holding the formatted values,
    /// `refreshed_at = now`, and `accessed_at` from the override when one
    /// is given. On failure against a cached key, the stale entry is kept
    /// untouched; on a first-time failure an empty entry is installed so
    /// the miss path does not re-queue indefinitely. Pass-through types
    /// (PTR, CNAME) always cache the empty set.
    pub fn flatten(
        &mut self,
        registry_key: &DNSFlattenRegistryKey,
        ttl: u32,
        accessed_at: Option<u64>,
        lookup: &UpstreamLookup,
        now: u64,
    )
        requires
            old(self).wf(),
            spec_lookup_matches(registry_key.record_type, *lookup),
        ensures
            final(self).wf(),
            final(self).registry_map() == spec_flatten_registry(
                old(self).registry_map(),
                registry_key@,
                ttl,
                accessed_at,
                spec_lookup_values(registry_key.record_type, *lookup),
                now,
            ),
            final(self).bootstrap_map() == old(self).bootstrap_map(),
    {
        // Convert the lookup outcome into string-encoded record values.
        let values: Result<Vec<String>, ()> = match registry_key.record_type {
            RecordType::A | RecordType::AAAA => match lookup {
                UpstreamLookup::Addresses(addrs) => Ok(clone_values(addrs)),
                _ => Err(()),
            },
            RecordType::MX => match lookup {
                UpstreamLookup::MailExchanges(records) => Ok(format_mx_values(records)),
                _ => Err(()),
            },
            RecordType::TXT => match lookup {
                UpstreamLookup::Texts(records) => Ok(format_txt_values(records)),
                _ => Err(()),
            },
            RecordType::PTR | RecordType::CNAME => Ok(Vec::new()),
        };

        proof {
            let outcome = spec_lookup_values(registry_key.record_type, *lookup);
            match &values {
                Ok(vs) => {
                    if registry_key.record_type is PTR || registry_key.record_type is CNAME {
                        assert(vs.deep_view() =~= Seq::<Seq<char>>::empty());
                    }
                    assert(outcome matches Some(o) && o == vs.deep_view());
                },
                Err(_) => {
                    assert(outcome is None);
                },
            }
        }

        match values {
            Ok(values) => {
                // Store the flattened values, replacing any cached entry.
                self.registry.store(
                    registry_key.duplicate(),
                    DNSFlattenEntry::new(values, ttl, accessed_at, now),
                );
            },
            Err(_) => {
                if self.registry.contains(registry_key) {
                    // An in-error refresh must not empty a registry key that
                    // previously held records: keep the old cache.
                } else {
                    let empty: Vec<String> = Vec::new();
                    proof {
                        assert(empty.deep_view() =~= Seq::<Seq<char>>::empty());
                    }
                    self.registry.store(
                        registry_key.duplicate(),
                        DNSFlattenEntry::new(empty, ttl, accessed_at, now),
                    );
                }
            },
        }
    }

    /// An owned copy of the pending queue, taken so that no lock need be
    /// held while the orders are resolved.
    pub fn bootstrap_snapshot(&self) -> (r: Vec<(DNSFlattenRegistryKey, u32)>)
        requires
            self.wf(),
        ensures
            r@.len() == self.bootstrap_map().dom().len(),
            forall|j: int|
                0 <= j < r@.len() ==> self.bootstrap_map().contains_key((#[trigger] r@[j]).0@)
                    && self.bootstrap_map()[r@[j].0@] == r@[j].1,
            forall|k: RegistryKeyView|
                self.bootstrap_map().contains_key(k) ==> exists|j: int|
                    0 <= j < r@.len() && (#[trigger] r@[j]).0@ == k,
            forall|p: int, q: int| 0 <= p < q < r@.len() ==> r@[p].0@ != r@[q].0@,
    {
        let r = self.bootstrap.snapshot();
        proof {
            let c = self.bootstrap.contents();
            let rv = r@.map(|i: int, kv: (DNSFlattenRegistryKey, u32)| (kv.0@, kv.1));
            assert(rv == c);
            assert forall|j: int| 0 <= j < r@.len() implies self.bootstrap_map().contains_key(
                r@[j].0@,
            ) && self.bootstrap_map()[r@[j].0@] == r@[j].1 by {
                assert(rv[j] == c[j]);
                lemma_kv_at_index(c, j);
            }
            assert forall|k: RegistryKeyView|
                self.bootstrap_map().contains_key(k) implies exists|j: int|
                0 <= j < r@.len() && (#[trigger] r@[j]).0@ == k by {
                let j = kv_index_of(c, k);
                assert(rv[j] == c[j]);
                assert(r@[j].0@ == k);
            }
            assert forall|p: int, q: int| 0 <= p < q < r@.len() implies r@[p].0@ != r@[q].0@ by {
                assert(rv[p] == c[p] && rv[q] == c[q]);
            }
            crate::kvlist::lemma_kv_dom_len(c);
        }
        r
    }
}

/// One resolved flatten order: the key, the TTL requested for it, and what
/// the upstream lookup returned.
pub struct DNSFlattenResolution {
    pub key: DNSFlattenRegistryKey,
    pub ttl: u32,
    pub lookup: UpstreamLookup,
}

/// The registry and queue after the bootstrap worker has processed the
/// given resolved orders, first to last: each is written back through the
/// resolution routine and its key removed from the queue.
pub open spec fn spec_tick(
    registry: Map<RegistryKeyView, DNSFlattenEntryView>,
    queue: Map<RegistryKeyView, u32>,
    resolutions: Seq<DNSFlattenResolution>,
    now: u64,
) -> (Map<RegistryKeyView, DNSFlattenEntryView>, Map<RegistryKeyView, u32>)
    decreases resolutions.len(),
{
    if resolutions.len() == 0 {
        (registry, queue)
    } else {
        let r0 = resolutions[0];
        spec_tick(
            spec_flatten_registry(
                registry,
                r0.key@,
                r0.ttl,
                None,
                spec_lookup_values(r0.key.record_type, r0.lookup),
                now,
            ),
            queue.remove(r0.key@),
            resolutions.drop_first(),
            now,
        )
    }
}

pub struct DNSFlattenBootstrapBuilder;

pub struct DNSFlattenBootstrap;

impl DNSFlattenBootstrapBuilder {
    pub fn new() -> DNSFlattenBootstrap {
        DNSFlattenBootstrap
    }
}

impl DNSFlattenBootstrap {
    /// One drain step of the bootstrap worker: write back each resolved
    /// order and drop its key from the pending queue. The caller snapshots
    /// the queue, performs the upstream lookups off-lock, and hands the
    /// outcomes here.
    pub fn tick(
        &self,
        flatten: &mut DNSFlatten,
        resolutions: Vec<DNSFlattenResolution>,
        now: u64,
    )
        requires
            old(flatten).wf(),
            forall|i: int|
                0 <= i < resolutions@.len() ==> spec_lookup_matches(
                    (#[trigger] resolutions@[i]).key.record_type,
                    resolutions@[i].lookup,
                ),
        ensures
            final(flatten).wf(),
            final(flatten).registry_map() == spec_tick(
                old(flatten).registry_map(),
                old(flatten).bootstrap_map(),
                resolutions@,
                now,
            ).0,
            final(flatten).bootstrap_map() == spec_tick(
                old(flatten).registry_map(),
                old(flatten).bootstrap_map(),
                resolutions@,
                now,
            ).1,
    {
        let ghost m0 = old(flatten).registry_map();
        let ghost q0 = old(flatten).bootstrap_map();
        let n = resolutions.len();
        let mut i: usize = 0;
        proof {
            assert(resolutions@.skip(0) =~= resolutions@);
        }
        while i < n
            invariant
                flatten.wf(),
                n == resolutions@.len(),
                i <= n,
                forall|j: int|
                    0 <= j < resolutions@.len() ==> spec_lookup_matches(
                        (#[trigger] resolutions@[j]).key.record_type,
                        resolutions@[j].lookup,
                    ),
                spec_tick(m0, q0, resolutions@, now) == spec_tick(
                    flatten.registry_map(),
                    flatten.bootstrap_map(),
                    resolutions@.skip(i as int),
                    now,
                ),
            decreases n - i,
        {
            let order = &resolutions[i];
            proof {
                assert(resolutions@.skip(i as int)[0] == resolutions@[i as int]);
                assert(resolutions@.skip(i as int).drop_first() =~= resolutions@.skip(i + 1));
            }
            flatten.flatten(&order.key, order.ttl, None, &order.lookup, now);
            flatten.bootstrap.remove(&order.key);
            i += 1;
        }
        proof {
            assert(resolutions@.skip(n as int) =~= Seq::<DNSFlattenResolution>::empty());
        }
    }
}

/// One order of the maintenance refresh sweep: a key due for re-resolution,
/// its TTL, and the `accessed_at` to restore, so a background refresh never
/// resets the access-based eviction clock.
pub struct DNSFlattenRefreshOrder {
    pub key: DNSFlattenRegistryKey,
    pub ttl: u32,
    pub accessed_at: u64,
}

pub struct DNSFlattenMaintainBuilder;

pub struct DNSFlattenMaintain;

impl DNSFlattenMaintainBuilder {
    pub fn new() -> DNSFlattenMaintain {
        DNSFlattenMaintain
    }
}

impl DNSFlattenMaintain {
    /// The expire sweep: evict every entry whose last access lies at least
    /// `ttl × MAINTAIN_EXPIRE_TTL_RATIO` seconds back; keep every other
    /// entry untouched. Runs before the refresh sweep of the same tick.
    pub fn expire(&self, flatten: &mut DNSFlatten, now: u64)
        requires
            old(flatten).wf(),
            forall|k: RegistryKeyView|
                old(flatten).registry_map().contains_key(k) ==> (#[trigger] old(
                    flatten,
                ).registry_map()[k]).accessed_at <= now,
        ensures
            final(flatten).wf(),
            final(flatten).registry_map() == spec_expire(old(flatten).registry_map(), now),
            final(flatten).bootstrap_map() == old(flatten).bootstrap_map(),
    {
        let ghost m0 = old(flatten).registry_map();
        let mut expire_register: Vec<DNSFlattenRegistryKey> = Vec::new();

        // Scan for expired registry entries.
        let n = flatten.registry.len();
        let mut i: usize = 0;
        while i < n
            invariant
                *flatten == *old(flatten),
                flatten.wf(),
                m0 == flatten.registry_map(),
                forall|k: RegistryKeyView|
                    m0.contains_key(k) ==> (#[trigger] m0[k]).accessed_at <= now,
                n == flatten.registry.contents().len(),
                i <= n,
                forall|j: int|
                    0 <= j < expire_register@.len() ==> m0.contains_key(
                        (#[trigger] expire_register@[j])@,
                    ) && spec_entry_expired(m0[expire_register@[j]@], now),
                forall|p: int|
                    0 <= p < i ==> (spec_entry_expired(
                        (#[trigger] flatten.registry.contents()[p]).1,
                        now,
                    ) ==> spec_key_listed(expire_register@, flatten.registry.contents()[p].0)),
            decreases n - i,
        {
            let pair = flatten.registry.entry_at(i);
            let entry_ttl = pair.1.ttl;
            let entry_accessed = pair.1.accessed_at;
            let ghost ci = flatten.registry.contents()[i as int];
            let ghost pre_register = expire_register@;
            proof {
                lemma_kv_at_index(flatten.registry.contents(), i as int);
            }
            let elapsed = now - entry_accessed;
            if elapsed >= (entry_ttl as u64) * MAINTAIN_EXPIRE_TTL_RATIO {
                let key_copy = pair.0.duplicate();
                expire_register.push(key_copy);
                proof {
                    assert(spec_entry_expired(ci.1, now));
                    assert(expire_register@[pre_register.len() as int]@ == ci.0);
                    assert(spec_key_listed(expire_register@, ci.0));
                    assert forall|k: RegistryKeyView|
                        spec_key_listed(pre_register, k) implies spec_key_listed(
                        expire_register@,
                        k,
                    ) by {
                        let w = choose|w: int|
                            0 <= w < pre_register.len() && pre_register[w]@ == k;
                        assert(expire_register@[w]@ == k);
                    }
                }
            } else {
                proof {
                    assert(!spec_entry_expired(ci.1, now));
                }
            }
            i += 1;
        }

        proof {
            assert forall|k: RegistryKeyView|
                m0.contains_key(k) && spec_entry_expired(m0[k], now) implies spec_key_listed(
                expire_register@,
                k,
            ) by {
                let c = flatten.registry.contents();
                let p = kv_index_of(c, k);
                lemma_kv_at_index(c, p);
            }
        }
        let ghost register0 = expire_register@;

        // Remove the marked keys in a single exclusive pass.
        let en = expire_register.len();
        let mut j: usize = 0;
        proof {
            assert(register0.take(0) =~= Seq::<DNSFlattenRegistryKey>::empty());
            assert(flatten.registry_map() =~= Map::new(
                |k: RegistryKeyView|
                    m0.contains_key(k) && !spec_key_listed(register0.take(0), k),
                |k: RegistryKeyView| m0[k],
            ));
        }
        while j < en
            invariant
                flatten.wf(),
                flatten.bootstrap_map() == old(flatten).bootstrap_map(),
                en == register0.len(),
                register0 == expire_register@,
                j <= en,
                forall|jj: int|
                    0 <= jj < register0.len() ==> m0.contains_key((#[trigger] register0[jj])@)
                        && spec_entry_expired(m0[register0[jj]@], now),
                forall|k: RegistryKeyView|
                    m0.contains_key(k) && spec_entry_expired(m0[k], now) ==> spec_key_listed(
                        register0,
                        k,
                    ),
                flatten.registry_map() == Map::new(
                    |k: RegistryKeyView|
                        m0.contains_key(k) && !spec_key_listed(register0.take(j as int), k),
                    |k: RegistryKeyView| m0[k],
                ),
            decreases en - j,
        {
            let key = &expire_register[j];
            flatten.registry.remove(key);
            proof {
                assert(register0.take(j + 1) =~= register0.take(j as int).push(
                    register0[j as int],
                ));
                assert forall|k: RegistryKeyView|
                    spec_key_listed(register0.take(j + 1), k) == (spec_key_listed(
                        register0.take(j as int),
                        k,
                    ) || register0[j as int]@ == k) by {
                    let t1 = register0.take(j + 1);
                    let t0 = register0.take(j as int);
                    if spec_key_listed(t1, k) {
                        let w = choose|w: int| 0 <= w < t1.len() && t1[w]@ == k;
                        if w < j {
                            assert(t0[w]@ == k);
                        }
                    }
                    if spec_key_listed(t0, k) {
                        let w = choose|w: int| 0 <= w < t0.len() && t0[w]@ == k;
                        assert(t1[w]@ == k);
                    }
                    if register0[j as int]@ == k {
                        assert(t1[j as int]@ == k);
                    }
                }
                assert(flatten.registry_map() =~= Map::new(
                    |k: RegistryKeyView|
                        m0.contains_key(k) && !spec_key_listed(register0.take(j + 1), k),
                    |k: RegistryKeyView| m0[k],
                ));
            }
            j += 1;
        }

        proof {
            assert(register0.take(en as int) =~= register0);
            assert(flatten.registry_map() =~= spec_expire(m0, now));
        }
    }

    /// The refresh sweep's scan: every entry whose last resolution lies at
    /// least `ttl` seconds back yields one refresh order carrying the
    /// entry's TTL and its current `accessed_at`. The caller resolves each
    /// order off-lock and writes it back through the resolution routine.
    pub fn refresh(&self, flatten: &DNSFlatten, now: u64) -> (r: Vec<DNSFlattenRefreshOrder>)
        requires
            flatten.wf(),
            forall|k: RegistryKeyView|
                flatten.registry_map().contains_key(k) ==> (#[trigger] flatten.registry_map()[k]).refreshed_at
                    <= now,
        ensures
            forall|j: int|
                0 <= j < r@.len() ==> {
                    let k = (#[trigger] r@[j]).key@;
                    &&& flatten.registry_map().contains_key(k)
                    &&& spec_entry_due_refresh(flatten.registry_map()[k], now)
                    &&& r@[j].ttl == flatten.registry_map()[k].ttl
                    &&& r@[j].accessed_at == flatten.registry_map()[k].accessed_at
                },
            forall|k: RegistryKeyView|
                flatten.registry_map().contains_key(k) && spec_entry_due_refresh(
                    flatten.registry_map()[k],
                    now,
                ) ==> exists|j: int| 0 <= j < r@.len() && (#[trigger] r@[j]).key@ == k,
    {
        let ghost m0 = flatten.registry_map();
        let mut refresh_register: Vec<DNSFlattenRefreshOrder> = Vec::new();

        // Scan for entries due a re-resolution.
        let n = flatten.registry.len();
        let mut i: usize = 0;
        while i < n
            invariant
                flatten.wf(),
                m0 == flatten.registry_map(),
                forall|k: RegistryKeyView|
                    m0.contains_key(k) ==> (#[trigger] m0[k]).refreshed_at <= now,
                n == flatten.registry.contents().len(),
                i <= n,
                forall|j: int|
                    0 <= j < refresh_register@.len() ==> {
                        let k = (#[trigger] refresh_register@[j]).key@;
                        &&& m0.contains_key(k)
                        &&& spec_entry_due_refresh(m0[k], now)
                        &&& refresh_register@[j].ttl == m0[k].ttl
                        &&& refresh_register@[j].accessed_at == m0[k].accessed_at
                    },
                forall|p: int|
                    0 <= p < i ==> (spec_entry_due_refresh(
                        (#[trigger] flatten.registry.contents()[p]).1,
                        now,
                    ) ==> exists|j: int|
                        0 <= j < refresh_register@.len() && (#[trigger] refresh_register@[j]).key@
                            == flatten.registry.contents()[p].0),
            decreases n - i,
        {
            let pair = flatten.registry.entry_at(i);
            let entry_ttl = pair.1.ttl;
            let entry_refreshed = pair.1.refreshed_at;
            let entry_accessed = pair.1.accessed_at;
            let ghost ci = flatten.registry.contents()[i as int];
            let ghost pre_register = refresh_register@;
            proof {
                lemma_kv_at_index(flatten.registry.contents(), i as int);
            }
            let elapsed = now - entry_refreshed;
            if elapsed >= entry_ttl as u64 {
                let order = DNSFlattenRefreshOrder {
                    key: pair.0.duplicate(),
                    ttl: entry_ttl,
                    accessed_at: entry_accessed,
                };
                refresh_register.push(order);
                proof {
                    assert(spec_entry_due_refresh(ci.1, now));
                    assert(refresh_register@[pre_register.len() as int].key@ == ci.0);
                    assert forall|p: int|
                        0 <= p < i && spec_entry_due_refresh(
                            flatten.registry.contents()[p].1,
                            now,
                        ) implies exists|j: int|
                        0 <= j < refresh_register@.len()
                            && (#[trigger] refresh_register@[j]).key@
                            == flatten.registry.contents()[p].0 by {
                        let w = choose|w: int|
                            0 <= w < pre_register.len() && pre_register[w].key@
                                == flatten.registry.contents()[p].0;
                        assert(refresh_register@[w].key@ == flatten.registry.contents()[p].0);
                    }
                }
            } else {
                proof {
                    assert(!spec_entry_due_refresh(ci.1, now));
                }
            }
            i += 1;
        }

        proof {
            assert forall|k: RegistryKeyView|
                m0.contains_key(k) && spec_entry_due_refresh(m0[k], now) implies exists|j: int|
                0 <= j < refresh_register@.len() && (#[trigger] refresh_register@[j]).key@
                    == k by {
                let c = flatten.registry.contents();
                let p = kv_index_of(c, k);
                lemma_kv_at_index(c, p);
            }
        }
        refresh_register
    }
}

/// Check that the shared state is sound before the workers start: both
/// stores must hold pairwise-distinct keys.
pub fn ensure_states(flatten: &DNSFlatten) -> (r: bool)
    ensures
        r == flatten.wf(),
{
    flatten.registry.check_unique() && flatten.bootstrap.check_unique()
}

} // verus!
