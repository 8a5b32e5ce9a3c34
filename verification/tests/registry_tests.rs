use std::collections::HashSet;

use wdic_gateway::address::GatewayAddr;
use wdic_gateway::registry::{Registry, RegistryEntry};

fn create_test_address(port: u16) -> GatewayAddr {
    GatewayAddr::v4(192, 168, 1, 1, port)
}

fn now_nanos() -> i128 {
    wdic_gateway::runtime::now_nanos()
}

/// Waits until the clock reads later than `t`.
fn wait_past(t: i128) {
    while now_nanos() <= t {}
}

#[test]
fn test_registry_entry_creation() {
    let address = create_test_address(55555);
    let entry = RegistryEntry::new("测试网关".to_string(), address);

    assert_eq!(entry.name, "测试网关");
    assert_eq!(entry.address, address);
    assert!(entry.last_seen <= now_nanos());
}

#[test]
fn test_registry_entry_update_last_seen() {
    let address = create_test_address(55555);
    let mut entry = RegistryEntry::new("测试网关".to_string(), address);
    let earlier = entry.last_seen;

    wait_past(earlier);
    entry.update_last_seen();

    assert!(entry.last_seen > earlier);
}

#[test]
fn test_registry_creation() {
    let address = create_test_address(55555);
    let registry = Registry::new("本地网关".to_string(), address);

    assert_eq!(registry.local_entry().name, "本地网关");
    assert_eq!(registry.local_entry().address, address);
    assert!(registry.is_empty());
    assert_eq!(registry.size(), 0);
}

#[test]
fn test_registry_add_entry() {
    let local_address = create_test_address(55555);
    let mut registry = Registry::new("本地网关".to_string(), local_address);

    let remote_address = create_test_address(55556);
    let entry = RegistryEntry::new("远程网关".to_string(), remote_address);

    let is_new = registry.add_or_update(entry.clone());
    assert!(is_new);
    assert_eq!(registry.size(), 1);

    let retrieved = registry.get(&entry.id);
    assert!(retrieved.is_some());
    assert_eq!(retrieved.unwrap().name, "远程网关");
}

#[test]
fn test_registry_update_existing_entry() {
    let local_address = create_test_address(55555);
    let mut registry = Registry::new("本地网关".to_string(), local_address);

    let remote_address = create_test_address(55556);
    let entry = RegistryEntry::new("远程网关".to_string(), remote_address);
    let earlier = entry.last_seen;

    registry.add_or_update(entry.clone());

    wait_past(earlier);
    let is_new = registry.add_or_update(entry.clone());
    assert!(!is_new);
    assert_eq!(registry.size(), 1);

    let retrieved = registry.get(&entry.id).unwrap();
    assert!(retrieved.last_seen > earlier);
}

#[test]
fn test_registry_prevent_self_registration() {
    let local_address = create_test_address(55555);
    let mut registry = Registry::new("本地网关".to_string(), local_address);

    let is_new = registry.add_or_update(registry.local_entry().clone());
    assert!(!is_new);
    assert_eq!(registry.size(), 0);
}

#[test]
fn test_registry_get_by_address() {
    let local_address = create_test_address(55555);
    let mut registry = Registry::new("本地网关".to_string(), local_address);

    let remote_address = create_test_address(55556);
    let entry = RegistryEntry::new("远程网关".to_string(), remote_address);

    registry.add_or_update(entry.clone());

    let retrieved = registry.get_by_address(&remote_address);
    assert!(retrieved.is_some());
    assert_eq!(retrieved.unwrap().id, entry.id);
}

#[test]
fn test_registry_remove_entry() {
    let local_address = create_test_address(55555);
    let mut registry = Registry::new("本地网关".to_string(), local_address);

    let remote_address = create_test_address(55556);
    let entry = RegistryEntry::new("远程网关".to_string(), remote_address);

    registry.add_or_update(entry.clone());
    assert_eq!(registry.size(), 1);

    let removed = registry.remove(&entry.id);
    assert!(removed);
    assert_eq!(registry.size(), 0);

    let removed_again = registry.remove(&entry.id);
    assert!(!removed_again);
}

#[test]
fn test_registry_entries_except() {
    let local_address = create_test_address(55555);
    let mut registry = Registry::new("本地网关".to_string(), local_address);

    let entry1 = RegistryEntry::new("网关1".to_string(), create_test_address(55556));
    let entry2 = RegistryEntry::new("网关2".to_string(), create_test_address(55557));
    let entry3 = RegistryEntry::new("网关3".to_string(), create_test_address(55558));

    registry.add_or_update(entry1.clone());
    registry.add_or_update(entry2.clone());
    registry.add_or_update(entry3.clone());

    let entries_except_1 = registry.entries_except(&entry1.id);
    assert_eq!(entries_except_1.len(), 2);
    assert!(!entries_except_1.iter().any(|e| e.id == entry1.id));
}

#[test]
fn test_registry_cleanup_expired() {
    let local_address = create_test_address(55555);
    let mut registry = Registry::new("本地网关".to_string(), local_address);

    let entry1 = RegistryEntry::new("网关1".to_string(), create_test_address(55556));
    let entry2 = RegistryEntry::new("网关2".to_string(), create_test_address(55557));

    // an entry last seen an hour ago
    let old_entry = RegistryEntry::new("旧网关".to_string(), create_test_address(55558));
    let an_hour_ago = now_nanos() - 3600 * 1_000_000_000;

    registry.add_or_update(entry1);
    registry.add_or_update(entry2);
    registry.add_or_update_at(old_entry, an_hour_ago);

    assert_eq!(registry.size(), 3);

    let cleaned_count = registry.cleanup_expired(1800);
    assert_eq!(cleaned_count, 1);
    assert_eq!(registry.size(), 2);
}

#[test]
fn test_registry_all_entries() {
    let local_address = create_test_address(55555);
    let mut registry = Registry::new("本地网关".to_string(), local_address);

    let entry1 = RegistryEntry::new("网关1".to_string(), create_test_address(55556));
    let entry2 = RegistryEntry::new("网关2".to_string(), create_test_address(55557));

    registry.add_or_update(entry1.clone());
    registry.add_or_update(entry2.clone());

    let all_entries = registry.all_entries();
    assert_eq!(all_entries.len(), 2);

    let ids: HashSet<u128> = all_entries.iter().map(|e| e.id).collect();
    assert!(ids.contains(&entry1.id));
    assert!(ids.contains(&entry2.id));
}

#[test]
fn add_at_records_the_given_time_and_get_returns_it() {
    let local = RegistryEntry::with_id(1, "local".to_string(), create_test_address(1), 0);
    let mut registry = Registry::with_local_entry(local);
    let e = RegistryEntry::with_id(7, "seven".to_string(), create_test_address(7), 5);
    assert!(registry.add_or_update_at(e, 1_000));
    let got = registry.get(&7).unwrap();
    assert_eq!(got.last_seen, 1_000);
    assert_eq!(got.name, "seven");
    // refreshing keeps one entry and moves the time
    let e_again = RegistryEntry::with_id(7, "seven bis".to_string(), create_test_address(8), 5);
    assert!(!registry.add_or_update_at(e_again, 2_000));
    assert_eq!(registry.size(), 1);
    assert_eq!(registry.get(&7).unwrap().name, "seven bis");
    assert_eq!(registry.get(&7).unwrap().last_seen, 2_000);
    // the local gateway is refused
    let me = RegistryEntry::with_id(1, "me".to_string(), create_test_address(9), 0);
    assert!(!registry.add_or_update_at(me, 3_000));
    assert!(registry.get(&1).is_none());
}

#[test]
fn cleanup_at_removes_exactly_the_entries_seen_before_the_cutoff() {
    let local = RegistryEntry::with_id(1, "local".to_string(), create_test_address(1), 0);
    let mut registry = Registry::with_local_entry(local);
    let second = 1_000_000_000;
    registry.add_or_update_at(RegistryEntry::with_id(2, "a".to_string(), create_test_address(2), 0), 100 * second);
    registry.add_or_update_at(RegistryEntry::with_id(3, "b".to_string(), create_test_address(3), 0), 140 * second);
    registry.add_or_update_at(RegistryEntry::with_id(4, "c".to_string(), create_test_address(4), 0), 150 * second);
    // cutoff at 200 - 50 = 150 seconds: strictly older entries go
    assert_eq!(registry.cleanup_expired_at(200 * second, 50), 2);
    assert!(registry.get(&2).is_none());
    assert!(registry.get(&3).is_none());
    assert!(registry.get(&4).is_some());
    assert_eq!(registry.cleanup_expired_at(200 * second, 50), 0);
}

#[test]
fn get_by_address_misses_unknown_addresses_and_the_local_gateway() {
    let mut registry = Registry::new("local".to_string(), create_test_address(55555));
    registry.add_or_update(RegistryEntry::new("r".to_string(), create_test_address(55556)));
    assert!(registry.get_by_address(&create_test_address(55557)).is_none());
    assert!(registry.get_by_address(&create_test_address(55555)).is_none());
    assert!(registry.get_by_address(&GatewayAddr::v6(1, 55556)).is_none());
}

#[test]
fn new_entries_carry_version_four_uuids() {
    let e = RegistryEntry::new("x".to_string(), create_test_address(1));
    assert_eq!((e.id >> 76) & 0xf, 4);
    assert_eq!((e.id >> 62) & 0x3, 2);
    let f = RegistryEntry::new("y".to_string(), create_test_address(1));
    assert_ne!(e.id, f.id);
}

#[test]
fn cleanup_at_the_ends_of_the_time_range() {
    let local = RegistryEntry::with_id(1, "local".to_string(), create_test_address(1), 0);
    let mut registry = Registry::with_local_entry(local);
    registry.add_or_update_at(RegistryEntry::with_id(2, "a".to_string(), create_test_address(2), 0), i128::MIN);
    // the cutoff lies below every time: nothing is expired
    assert_eq!(registry.cleanup_expired_at(i128::MIN + 5, 300), 0);
    // the cutoff lies above every time: everything is expired
    assert_eq!(registry.cleanup_expired_at(i128::MAX, -300), 1);
    assert!(registry.is_empty());
    // one nanosecond before the cutoff is expired, at the cutoff is not
    registry.add_or_update_at(RegistryEntry::with_id(3, "b".to_string(), create_test_address(3), 0), 99);
    registry.add_or_update_at(RegistryEntry::with_id(4, "c".to_string(), create_test_address(4), 0), 100);
    assert_eq!(registry.cleanup_expired_at(10 * 1_000_000_000 + 100, 10), 1);
    assert!(registry.get(&4).is_some());
}
