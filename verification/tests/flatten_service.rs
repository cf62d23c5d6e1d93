//! End-to-end behavior of the flattening service: the cache-or-defer query
//! path, resolution write-back, and the maintenance sweeps.

use constellation::flatten::{
    ensure_states, DNSFlattenBootstrapBuilder, DNSFlattenBuilder, DNSFlattenMaintainBuilder,
    DNSFlattenResolution, UpstreamLookup,
};
use constellation::records::{DNSFlattenRegistryKey, MxRecord, RecordType, TxtRecord};

fn key(value: &str, record_type: RecordType) -> DNSFlattenRegistryKey {
    DNSFlattenRegistryKey::new(String::from(value), record_type)
}

#[test]
fn fresh_service_defers_all_queries() {
    let mut service = DNSFlattenBuilder::new();
    assert!(ensure_states(&service));
    assert_eq!(
        service.pass(RecordType::A, String::from("example.com"), 60, 0),
        Err(())
    );
    assert_eq!(
        service.pass(RecordType::TXT, String::from("other.example.com"), 60, 1),
        Err(())
    );
}

#[test]
fn duplicate_defer_queues_once() {
    let mut service = DNSFlattenBuilder::new();
    assert_eq!(
        service.pass(RecordType::A, String::from("example.com"), 60, 0),
        Err(())
    );
    assert_eq!(
        service.pass(RecordType::A, String::from("example.com"), 120, 1),
        Err(())
    );
    let snapshot = service.bootstrap_snapshot();
    assert_eq!(snapshot.len(), 1);
    assert_eq!(snapshot[0].1, 120);
    assert!(snapshot[0].0.same_key(&key("example.com", RecordType::A)));
}

#[test]
fn a_records_flatten_in_order() {
    let mut service = DNSFlattenBuilder::new();
    let bootstrap = DNSFlattenBootstrapBuilder::new();
    assert_eq!(
        service.pass(RecordType::A, String::from("example.com"), 60, 0),
        Err(())
    );
    let snapshot = service.bootstrap_snapshot();
    let mut resolutions = Vec::new();
    for (pending_key, pending_ttl) in snapshot {
        resolutions.push(DNSFlattenResolution {
            key: pending_key,
            ttl: pending_ttl,
            lookup: UpstreamLookup::Addresses(vec![
                String::from("1.2.3.4"),
                String::from("1.2.3.5"),
            ]),
        });
    }
    bootstrap.tick(&mut service, resolutions, 1);
    assert_eq!(service.bootstrap_snapshot().len(), 0);
    assert_eq!(
        service.pass(RecordType::A, String::from("example.com"), 60, 2),
        Ok(vec![String::from("1.2.3.4"), String::from("1.2.3.5")])
    );
}

#[test]
fn mx_records_format_preference_and_exchange() {
    let mut service = DNSFlattenBuilder::new();
    let mx_key = key("example.com", RecordType::MX);
    let lookup = UpstreamLookup::MailExchanges(vec![MxRecord {
        preference: 10,
        exchange: String::from("mail.example.com"),
    }]);
    service.flatten(&mx_key, 60, None, &lookup, 0);
    assert_eq!(
        service.pass(RecordType::MX, String::from("example.com"), 60, 1),
        Ok(vec![String::from("10 mail.example.com")])
    );
}

#[test]
fn txt_records_concatenate_segments() {
    let mut service = DNSFlattenBuilder::new();
    let txt_key = key("example.com", RecordType::TXT);
    let lookup = UpstreamLookup::Texts(vec![
        TxtRecord {
            segments: vec![String::from("hello"), String::from("world")],
        },
        TxtRecord {
            segments: vec![String::from("v=spf1 -all")],
        },
    ]);
    service.flatten(&txt_key, 60, None, &lookup, 0);
    assert_eq!(
        service.pass(RecordType::TXT, String::from("example.com"), 60, 1),
        Ok(vec![String::from("helloworld"), String::from("v=spf1 -all")])
    );
}

#[test]
fn cname_and_ptr_always_cache_empty() {
    let mut service = DNSFlattenBuilder::new();
    let cname_key = key("alias.example.com", RecordType::CNAME);
    let lookup = UpstreamLookup::Addresses(vec![String::from("1.2.3.4")]);
    service.flatten(&cname_key, 60, None, &lookup, 0);
    assert_eq!(
        service.pass(RecordType::CNAME, String::from("alias.example.com"), 60, 1),
        Ok(Vec::new())
    );

    let ptr_key = key("4.3.2.1.in-addr.arpa", RecordType::PTR);
    service.flatten(&ptr_key, 60, None, &UpstreamLookup::Failed, 2);
    assert_eq!(
        service.pass(RecordType::PTR, String::from("4.3.2.1.in-addr.arpa"), 60, 3),
        Ok(Vec::new())
    );
}

#[test]
fn success_with_no_values_caches_empty_set() {
    // "Resolved but no values" is a valid cached state, distinct from a
    // deferred (uncached) key.
    let mut service = DNSFlattenBuilder::new();
    let a_key = key("empty.example.com", RecordType::A);
    service.flatten(&a_key, 60, None, &UpstreamLookup::Addresses(Vec::new()), 0);
    assert_eq!(
        service.pass(RecordType::A, String::from("empty.example.com"), 60, 1),
        Ok(Vec::new())
    );
}

#[test]
fn failure_keeps_previously_cached_values() {
    let mut service = DNSFlattenBuilder::new();
    let a_key = key("example.com", RecordType::A);
    let good = UpstreamLookup::Addresses(vec![String::from("1.2.3.4")]);
    service.flatten(&a_key, 60, None, &good, 0);
    service.flatten(&a_key, 60, None, &UpstreamLookup::Failed, 10);
    assert_eq!(
        service.pass(RecordType::A, String::from("example.com"), 60, 11),
        Ok(vec![String::from("1.2.3.4")])
    );
}

#[test]
fn failure_on_unknown_key_installs_empty_entry() {
    let mut service = DNSFlattenBuilder::new();
    let a_key = key("broken.example.com", RecordType::A);
    service.flatten(&a_key, 60, None, &UpstreamLookup::Failed, 0);
    // The key is now cached (not deferred), with an empty value set.
    assert_eq!(
        service.pass(RecordType::A, String::from("broken.example.com"), 60, 1),
        Ok(Vec::new())
    );
}

#[test]
fn expire_sweep_keeps_entry_inside_grace_window() {
    // TTL 5 s, ratio 10: last accessed at t=0, swept at t=49 (49 < 50).
    let mut service = DNSFlattenBuilder::new();
    let maintain = DNSFlattenMaintainBuilder::new();
    let a_key = key("example.com", RecordType::A);
    let lookup = UpstreamLookup::Addresses(vec![String::from("1.2.3.4")]);
    service.flatten(&a_key, 5, None, &lookup, 0);
    maintain.expire(&mut service, 49);
    assert_eq!(
        service.pass(RecordType::A, String::from("example.com"), 5, 49),
        Ok(vec![String::from("1.2.3.4")])
    );
}

#[test]
fn expire_sweep_removes_entry_past_grace_window() {
    // TTL 5 s, ratio 10: last accessed at t=0, swept at t=51 (51 >= 50).
    let mut service = DNSFlattenBuilder::new();
    let maintain = DNSFlattenMaintainBuilder::new();
    let a_key = key("example.com", RecordType::A);
    let lookup = UpstreamLookup::Addresses(vec![String::from("1.2.3.4")]);
    service.flatten(&a_key, 5, None, &lookup, 0);
    maintain.expire(&mut service, 51);
    assert_eq!(
        service.pass(RecordType::A, String::from("example.com"), 5, 51),
        Err(())
    );
}

#[test]
fn refresh_scan_picks_up_stale_entries_only() {
    let mut service = DNSFlattenBuilder::new();
    let maintain = DNSFlattenMaintainBuilder::new();
    let a_key = key("example.com", RecordType::A);
    let lookup = UpstreamLookup::Addresses(vec![String::from("1.2.3.4")]);
    service.flatten(&a_key, 5, None, &lookup, 0);
    assert_eq!(maintain.refresh(&service, 4).len(), 0);
    let orders = maintain.refresh(&service, 5);
    assert_eq!(orders.len(), 1);
    assert!(orders[0].key.same_key(&a_key));
    assert_eq!(orders[0].ttl, 5);
    assert_eq!(orders[0].accessed_at, 0);
}

#[test]
fn refresh_does_not_reset_eviction_clock() {
    let mut service = DNSFlattenBuilder::new();
    let maintain = DNSFlattenMaintainBuilder::new();
    let a_key = key("example.com", RecordType::A);
    service.flatten(
        &a_key,
        5,
        None,
        &UpstreamLookup::Addresses(vec![String::from("1.2.3.4")]),
        0,
    );
    // Background refresh at t=5, restoring the order's accessed_at.
    let orders = maintain.refresh(&service, 5);
    assert_eq!(orders.len(), 1);
    for order in orders {
        let fresh = UpstreamLookup::Addresses(vec![String::from("1.2.3.9")]);
        service.flatten(&order.key, order.ttl, Some(order.accessed_at), &fresh, 5);
    }
    // The refresh took: a fresh scan right after finds nothing stale.
    assert_eq!(maintain.refresh(&service, 6).len(), 0);
    // The access clock still reads t=0, so the entry expires at t=50 even
    // though it was re-resolved at t=5.
    maintain.expire(&mut service, 50);
    assert_eq!(
        service.pass(RecordType::A, String::from("example.com"), 5, 50),
        Err(())
    );
}

#[test]
fn query_hit_advances_eviction_clock() {
    let mut service = DNSFlattenBuilder::new();
    let maintain = DNSFlattenMaintainBuilder::new();
    let a_key = key("example.com", RecordType::A);
    service.flatten(
        &a_key,
        5,
        None,
        &UpstreamLookup::Addresses(vec![String::from("1.2.3.4")]),
        0,
    );
    // A real query at t=10 stamps the access clock forward...
    assert_eq!(
        service.pass(RecordType::A, String::from("example.com"), 5, 10),
        Ok(vec![String::from("1.2.3.4")])
    );
    let orders = maintain.refresh(&service, 10);
    assert_eq!(orders.len(), 1);
    assert_eq!(orders[0].accessed_at, 10);
    // ...so at t=59 the entry is still inside its grace window (49 < 50),
    // where an entry last accessed at t=0 would already have been evicted.
    maintain.expire(&mut service, 59);
    assert_eq!(
        service.pass(RecordType::A, String::from("example.com"), 5, 59),
        Ok(vec![String::from("1.2.3.4")])
    );
}

#[test]
fn tick_drains_processed_keys_from_queue() {
    let mut service = DNSFlattenBuilder::new();
    let bootstrap = DNSFlattenBootstrapBuilder::new();
    assert_eq!(
        service.pass(RecordType::AAAA, String::from("example.com"), 60, 0),
        Err(())
    );
    assert_eq!(
        service.pass(RecordType::A, String::from("example.com"), 60, 0),
        Err(())
    );
    let snapshot = service.bootstrap_snapshot();
    assert_eq!(snapshot.len(), 2);
    let mut resolutions = Vec::new();
    for (pending_key, pending_ttl) in snapshot {
        resolutions.push(DNSFlattenResolution {
            key: pending_key,
            ttl: pending_ttl,
            lookup: UpstreamLookup::Failed,
        });
    }
    bootstrap.tick(&mut service, resolutions, 1);
    assert_eq!(service.bootstrap_snapshot().len(), 0);
    assert!(ensure_states(&service));
}
