use arp_watch::addr::Ipv4Address;
use arp_watch::addr::MacAddress;
use arp_watch::cache::Alert;
use arp_watch::cache::ArpCache;
use arp_watch::cache::ArpCacheUpdateResult;
use arp_watch::cache::ArpEntry;

fn ip(a: u8, b: u8, c: u8, d: u8) -> Ipv4Address {
    Ipv4Address::new(a, b, c, d)
}

fn mac(b: u8) -> MacAddress {
    MacAddress::new(b, b, b, b, b, b)
}

#[test]
fn update_same_entry_twice_grows_table_by_one() {
    let mut cache = ArpCache::new();
    let e = ArpEntry::new(ip(10, 0, 0, 5), mac(0xaa));

    let first = cache.update(e);
    assert_eq!(first.result, ArpCacheUpdateResult::NewEntry);
    assert_eq!(cache.entries().len(), 1);

    let second = cache.update(e);
    assert_eq!(second.result, ArpCacheUpdateResult::AlreadyExists);
    assert_eq!(second.alert, None);
    assert_eq!(second.rearp, None);
    assert_eq!(cache.entries().len(), 1);
}

#[test]
fn diverged_keeps_old_entry_without_follow() {
    let mut cache = ArpCache::new().follow_update(false);
    cache.update(ArpEntry::new(ip(10, 0, 0, 5), mac(0xaa)));

    let outcome = cache.update(ArpEntry::new(ip(10, 0, 0, 5), mac(0xbb)));
    assert_eq!(outcome.result, ArpCacheUpdateResult::Diverged);

    let entries = cache.entries();
    assert_eq!(entries.len(), 1);
    assert_eq!(*entries[0].mac(), mac(0xaa));
}

#[test]
fn diverged_replaces_entry_with_follow() {
    let mut cache = ArpCache::new().follow_update(true);
    cache.update(ArpEntry::new(ip(10, 0, 0, 5), mac(0xaa)));

    let outcome = cache.update(ArpEntry::new(ip(10, 0, 0, 5), mac(0xbb)));
    assert_eq!(outcome.result, ArpCacheUpdateResult::Diverged);

    let entries = cache.entries();
    assert_eq!(entries.len(), 1);
    assert_eq!(*entries[0].mac(), mac(0xbb));
}

#[test]
fn diverged_alert_names_old_and_new() {
    let mut cache = ArpCache::new();
    cache.update(ArpEntry::new(ip(10, 0, 0, 5), mac(0xaa)));

    let outcome = cache.update(ArpEntry::new(ip(10, 0, 0, 5), mac(0xbb)));
    assert_eq!(
        outcome.alert,
        Some(Alert::BindingChanged {
            ip: ip(10, 0, 0, 5),
            old_mac: mac(0xaa),
            new_mac: mac(0xbb),
        })
    );
}

#[test]
fn rearp_requested_only_when_enabled_and_carries_old_entry() {
    let old = ArpEntry::new(ip(10, 0, 0, 5), mac(0xaa));
    let new = ArpEntry::new(ip(10, 0, 0, 5), mac(0xbb));

    let mut with_rearp = ArpCache::new().rearp(true);
    with_rearp.update(old);
    let outcome = with_rearp.update(new);
    assert_eq!(outcome.result, ArpCacheUpdateResult::Diverged);
    assert_eq!(outcome.rearp, Some(old));

    let mut without_rearp = ArpCache::new().rearp(false);
    without_rearp.update(old);
    let outcome = without_rearp.update(new);
    assert_eq!(outcome.result, ArpCacheUpdateResult::Diverged);
    assert_eq!(outcome.rearp, None);
}

#[test]
fn new_entry_emits_ip_at_mac_alert() {
    let mut cache = ArpCache::new();
    let outcome = cache.update(ArpEntry::new(ip(192, 168, 1, 10), mac(0x01)));
    assert_eq!(
        outcome.alert,
        Some(Alert::NewBinding { ip: ip(192, 168, 1, 10), mac: mac(0x01) })
    );
}

#[test]
fn entries_is_an_independent_snapshot() {
    let mut cache = ArpCache::new();
    cache.update(ArpEntry::new(ip(10, 0, 0, 1), mac(0x01)));

    let mut snapshot = cache.entries();
    snapshot.push(ArpEntry::new(ip(10, 0, 0, 2), mac(0x02)));
    snapshot[0] = ArpEntry::new(ip(10, 0, 0, 3), mac(0x03));

    let live = cache.entries();
    assert_eq!(live.len(), 1);
    assert_eq!(*live[0].ip(), ip(10, 0, 0, 1));
    assert_eq!(*live[0].mac(), mac(0x01));
}

#[test]
fn seeding_keeps_first_binding_per_ip() {
    let seed = vec![
        ArpEntry::new(ip(10, 0, 0, 1), mac(0x01)),
        ArpEntry::new(ip(10, 0, 0, 2), mac(0x02)),
        ArpEntry::new(ip(10, 0, 0, 1), mac(0x03)),
    ];
    let cache = ArpCache::new().with_entries(seed);
    let entries = cache.entries();
    assert_eq!(entries.len(), 2);
    assert_eq!(*entries[0].mac(), mac(0x01));
    assert_eq!(*entries[1].ip(), ip(10, 0, 0, 2));
}

#[test]
fn distinct_ips_are_tracked_independently() {
    let mut cache = ArpCache::new();
    assert_eq!(
        cache.update(ArpEntry::new(ip(10, 0, 0, 1), mac(0x01))).result,
        ArpCacheUpdateResult::NewEntry
    );
    assert_eq!(
        cache.update(ArpEntry::new(ip(10, 0, 0, 2), mac(0x02))).result,
        ArpCacheUpdateResult::NewEntry
    );
    assert_eq!(
        cache.update(ArpEntry::new(ip(10, 0, 0, 1), mac(0x01))).result,
        ArpCacheUpdateResult::AlreadyExists
    );
    assert_eq!(cache.entries().len(), 2);
}
