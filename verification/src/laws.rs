//! Proved laws relating the service's operations: what a query returns
//! after a resolution, what failures may and may not change, which entries
//! a maintenance sweep removes, and which keys an operation can touch at
//! all. Each law is stated over the map views that the operations' own
//! contracts use.

use vstd::prelude::*;

use crate::flatten::{
    spec_entry_expired, spec_expire, spec_flatten_registry,
    spec_lookup_values, spec_stamp, spec_tick, DNSFlattenResolution, UpstreamLookup,
};
use crate::records::DNSFlattenRegistryKey;
use crate::registry::{DNSFlattenEntryView, RegistryKeyView};

verus! {

/// A resolution outcome edits the registry at its own key alone: any other
/// key keeps its entry, and stays absent if it was absent. Together with
/// the empty initial registry and the query path's contract (which inserts
/// at most the queried key), a key never queried and never resolved has no
/// entry.
pub proof fn lemma_flatten_touches_only_its_key(
    m: Map<RegistryKeyView, DNSFlattenEntryView>,
    k: RegistryKeyView,
    ttl: u32,
    accessed_at: Option<u64>,
    outcome: Option<Seq<Seq<char>>>,
    now: u64,
    other: RegistryKeyView,
)
    requires
        other != k,
    ensures
        spec_flatten_registry(m, k, ttl, accessed_at, outcome, now).contains_key(other)
            == m.contains_key(other),
        m.contains_key(other) ==> spec_flatten_registry(m, k, ttl, accessed_at, outcome, now)[other]
            == m[other],
{
}

/// A whole bootstrap drain adds entries only for the keys it resolved: a
/// key absent from the registry and named by none of the processed orders
/// is still absent afterwards.
pub proof fn lemma_tick_adds_only_resolved_keys(
    registry: Map<RegistryKeyView, DNSFlattenEntryView>,
    queue: Map<RegistryKeyView, u32>,
    resolutions: Seq<DNSFlattenResolution>,
    now: u64,
    other: RegistryKeyView,
)
    requires
        !registry.contains_key(other),
        forall|i: int| 0 <= i < resolutions.len() ==> (#[trigger] resolutions[i]).key@ != other,
    ensures
        !spec_tick(registry, queue, resolutions, now).0.contains_key(other),
    decreases resolutions.len(),
{
    if resolutions.len() > 0 {
        let r0 = resolutions[0];
        let registry1 = spec_flatten_registry(
            registry,
            r0.key@,
            r0.ttl,
            None,
            spec_lookup_values(r0.key.record_type, r0.lookup),
            now,
        );
        lemma_flatten_touches_only_its_key(
            registry,
            r0.key@,
            r0.ttl,
            None,
            spec_lookup_values(r0.key.record_type, r0.lookup),
            now,
            other,
        );
        assert(forall|i: int|
            0 <= i < resolutions.drop_first().len() ==> (#[trigger] resolutions.drop_first()[i]).key@
                != other);
        lemma_tick_adds_only_resolved_keys(
            registry1,
            queue.remove(r0.key@),
            resolutions.drop_first(),
            now,
            other,
        );
    }
}

/// A bootstrap drain removes exactly the keys it processed from the
/// pending queue, whether their resolution succeeded or failed: every
/// processed key is gone afterwards, every other pending key keeps its
/// stored TTL, and the drain adds nothing.
pub proof fn lemma_tick_removes_processed_keys(
    registry: Map<RegistryKeyView, DNSFlattenEntryView>,
    queue: Map<RegistryKeyView, u32>,
    resolutions: Seq<DNSFlattenResolution>,
    now: u64,
)
    ensures
        ({
            let q2 = spec_tick(registry, queue, resolutions, now).1;
            &&& forall|k: RegistryKeyView| #[trigger]
                q2.contains_key(k) ==> queue.contains_key(k) && q2[k] == queue[k]
            &&& forall|i: int|
                0 <= i < resolutions.len() ==> !q2.contains_key(
                    (#[trigger] resolutions[i]).key@,
                )
            &&& forall|k: RegistryKeyView| #[trigger]
                queue.contains_key(k) && (forall|i: int|
                    0 <= i < resolutions.len() ==> (#[trigger] resolutions[i]).key@ != k)
                    ==> q2.contains_key(k)
        }),
    decreases resolutions.len(),
{
    if resolutions.len() > 0 {
        let r0 = resolutions[0];
        let registry1 = spec_flatten_registry(
            registry,
            r0.key@,
            r0.ttl,
            None,
            spec_lookup_values(r0.key.record_type, r0.lookup),
            now,
        );
        let queue1 = queue.remove(r0.key@);
        let rest = resolutions.drop_first();
        lemma_tick_removes_processed_keys(registry1, queue1, rest, now);
        let q2 = spec_tick(registry, queue, resolutions, now).1;
        assert(q2 == spec_tick(registry1, queue1, rest, now).1);
        assert(!queue1.contains_key(r0.key@));
        assert(!q2.contains_key(r0.key@));
        assert forall|i: int|
            0 <= i < resolutions.len() implies !q2.contains_key(
            (#[trigger] resolutions[i]).key@,
        ) by {
            if i > 0 {
                assert(rest[i - 1] == resolutions[i]);
            }
        }
        assert forall|k: RegistryKeyView| #[trigger]
            queue.contains_key(k) && (forall|i: int|
                0 <= i < resolutions.len() ==> (#[trigger] resolutions[i]).key@ != k)
                implies q2.contains_key(k) by {
            assert(resolutions[0].key@ != k);
            assert(queue1.contains_key(k));
            assert(forall|i: int|
                0 <= i < rest.len() ==> (#[trigger] rest[i]) == resolutions[i + 1]);
        }
    }
}

/// Deferring the same uncached key twice queues it once: the second order
/// only overwrites the stored TTL, and the queue's key set grows by that
/// one key alone.
pub proof fn lemma_duplicate_defer_queues_once(
    queue: Map<RegistryKeyView, u32>,
    k: RegistryKeyView,
    first_ttl: u32,
    second_ttl: u32,
)
    ensures
        queue.insert(k, first_ttl).insert(k, second_ttl) == queue.insert(k, second_ttl),
        queue.insert(k, first_ttl).dom() == queue.dom().insert(k),
{
    assert(queue.insert(k, first_ttl).insert(k, second_ttl) =~= queue.insert(k, second_ttl));
    assert(queue.insert(k, first_ttl).dom() =~= queue.dom().insert(k));
}

/// A successful resolution installs exactly the resolved values, stamped
/// with the resolution time; the key is cached from then on, so a later
/// query hits and returns those values.
pub proof fn lemma_resolution_success_installs(
    m: Map<RegistryKeyView, DNSFlattenEntryView>,
    k: RegistryKeyView,
    ttl: u32,
    accessed_at: Option<u64>,
    values: Seq<Seq<char>>,
    now: u64,
)
    ensures
        ({
            let m2 = spec_flatten_registry(m, k, ttl, accessed_at, Some(values), now);
            &&& m2.contains_key(k)
            &&& m2[k].values == values
            &&& m2[k].ttl == ttl
            &&& m2[k].refreshed_at == now
            &&& m2[k].accessed_at == spec_stamp(accessed_at, now)
        }),
{
}

/// Every query hit at a strictly later time moves the entry's
/// `accessed_at` strictly forward while leaving its values untouched (the
/// hit's registry edit is the one the query path's contract states).
pub proof fn lemma_pass_hit_advances_access(
    m: Map<RegistryKeyView, DNSFlattenEntryView>,
    k: RegistryKeyView,
    later: u64,
)
    requires
        m.contains_key(k),
        m[k].accessed_at < later,
    ensures
        ({
            let m2 = m.insert(k, DNSFlattenEntryView { accessed_at: later, ..m[k] });
            &&& m2[k].values == m[k].values
            &&& m2[k].accessed_at == later
            &&& m2[k].accessed_at > m[k].accessed_at
        }),
{
}

/// A resolution failure on a cached key changes nothing: in particular the
/// cached values are not cleared.
pub proof fn lemma_resolution_failure_keeps_cache(
    m: Map<RegistryKeyView, DNSFlattenEntryView>,
    k: RegistryKeyView,
    ttl: u32,
    accessed_at: Option<u64>,
    now: u64,
)
    requires
        m.contains_key(k),
    ensures
        spec_flatten_registry(m, k, ttl, accessed_at, None, now) == m,
        spec_flatten_registry(m, k, ttl, accessed_at, None, now)[k].values == m[k].values,
{
}

/// A resolution failure on a key with no prior entry installs an entry
/// with empty values, stamped like a success.
pub proof fn lemma_resolution_failure_installs_empty(
    m: Map<RegistryKeyView, DNSFlattenEntryView>,
    k: RegistryKeyView,
    ttl: u32,
    accessed_at: Option<u64>,
    now: u64,
)
    requires
        !m.contains_key(k),
    ensures
        ({
            let m2 = spec_flatten_registry(m, k, ttl, accessed_at, None, now);
            &&& m2.contains_key(k)
            &&& m2[k].values == Seq::<Seq<char>>::empty()
            &&& m2[k].ttl == ttl
            &&& m2[k].refreshed_at == now
            &&& m2[k].accessed_at == spec_stamp(accessed_at, now)
        }),
{
}

/// The expire sweep removes an entry exactly when its last access lies the
/// grace window back, and keeps a more recently accessed entry unchanged.
pub proof fn lemma_expire_boundary(
    m: Map<RegistryKeyView, DNSFlattenEntryView>,
    now: u64,
    k: RegistryKeyView,
)
    requires
        m.contains_key(k),
    ensures
        spec_entry_expired(m[k], now) ==> !spec_expire(m, now).contains_key(k),
        !spec_entry_expired(m[k], now) ==> spec_expire(m, now).contains_key(k) && spec_expire(
            m,
            now,
        )[k] == m[k],
{
}

/// The expire sweep only removes: a key absent from the registry is still
/// absent after it, so no sweep can invent an entry for an unqueried key.
pub proof fn lemma_expire_adds_no_keys(
    m: Map<RegistryKeyView, DNSFlattenEntryView>,
    now: u64,
    other: RegistryKeyView,
)
    requires
        !m.contains_key(other),
    ensures
        !spec_expire(m, now).contains_key(other),
{
}

/// Writing a refresh outcome back with the order's `accessed_at` override
/// never advances the access clock: whatever the upstream returned, the
/// entry's `accessed_at` afterwards equals its value before the refresh.
/// (That the scan picks up exactly the entries stale by their TTL is the
/// refresh scan's own contract, over `spec_entry_due_refresh`.)
pub proof fn lemma_refresh_preserves_access_clock(
    m: Map<RegistryKeyView, DNSFlattenEntryView>,
    k: RegistryKeyView,
    outcome: Option<Seq<Seq<char>>>,
    now: u64,
)
    requires
        m.contains_key(k),
    ensures
        ({
            let m2 = spec_flatten_registry(
                m,
                k,
                m[k].ttl,
                Some(m[k].accessed_at),
                outcome,
                now,
            );
            &&& m2.contains_key(k)
            &&& m2[k].accessed_at == m[k].accessed_at
        }),
{
}

/// Pass-through record types (PTR, CNAME) always cache the empty value
/// set, whatever the upstream lookup holds.
pub proof fn lemma_passthrough_always_empty(
    m: Map<RegistryKeyView, DNSFlattenEntryView>,
    key: DNSFlattenRegistryKey,
    ttl: u32,
    accessed_at: Option<u64>,
    lookup: UpstreamLookup,
    now: u64,
)
    requires
        key.record_type is PTR || key.record_type is CNAME,
    ensures
        ({
            let m2 = spec_flatten_registry(
                m,
                key@,
                ttl,
                accessed_at,
                spec_lookup_values(key.record_type, lookup),
                now,
            );
            &&& m2.contains_key(key@)
            &&& m2[key@].values == Seq::<Seq<char>>::empty()
        }),
{
}

} // verus!
