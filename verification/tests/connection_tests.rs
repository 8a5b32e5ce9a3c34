use wdic_gateway::address::GatewayAddr;
use wdic_gateway::connections::{ConnectionState, ConnectionTable};

fn create_test_addr(port: u16) -> GatewayAddr {
    GatewayAddr::v4(127, 0, 0, 1, port)
}

fn now_nanos() -> i128 {
    wdic_gateway::runtime::now_nanos()
}

#[test]
fn test_connection_state() {
    let addr = create_test_addr(55555);
    let mut state = ConnectionState::new(addr);

    assert_eq!(state.remote_addr, addr);
    assert!(state.last_active <= now_nanos());
    assert_eq!(state.last_active, state.established_at);

    let earlier = state.last_active;
    while now_nanos() <= earlier {}
    state.update_activity();
    assert!(state.last_active > earlier);

    assert!(!state.is_expired(3600));

    state.last_active = now_nanos() - 7200 * 1_000_000_000;
    assert!(state.is_expired(3600));
}

#[test]
fn expiry_counts_whole_seconds() {
    let s = ConnectionState::new_at(create_test_addr(1), 0);
    // exactly 300 seconds later: not more than 300 whole seconds
    assert!(!s.is_expired_at(300 * 1_000_000_000, 300));
    assert!(!s.is_expired_at(300 * 1_000_000_000 + 999_999_999, 300));
    assert!(s.is_expired_at(301 * 1_000_000_000, 300));
    // a clock that went backwards rounds toward zero
    assert!(!s.is_expired_at(-1_500_000_000, -1));
    assert!(s.is_expired_at(-1_500_000_000, -2));
}

#[test]
fn table_records_peers_once_and_drops_expired_ones() {
    let mut table = ConnectionTable::new();
    assert!(table.record_activity_at(create_test_addr(1), 0));
    assert!(table.record_activity_at(create_test_addr(2), 100 * 1_000_000_000));
    assert!(!table.record_activity_at(create_test_addr(1), 200 * 1_000_000_000));
    assert_eq!(table.len(), 2);
    let all = table.all();
    assert_eq!(all[0].remote_addr, create_test_addr(1));
    assert_eq!(all[0].last_active, 200 * 1_000_000_000);
    assert_eq!(all[0].established_at, 0);
    // at 450 s the second peer (last active at 100 s) has been idle 350 s
    assert_eq!(table.remove_expired_at(450 * 1_000_000_000, 300), 1);
    assert_eq!(table.len(), 1);
    assert_eq!(table.all()[0].remote_addr, create_test_addr(1));
    assert!(table.disconnect(&create_test_addr(1)));
    assert!(!table.disconnect(&create_test_addr(1)));
    assert_eq!(table.len(), 0);
    table.record_activity(create_test_addr(3));
    table.clear();
    assert_eq!(table.len(), 0);
}

#[test]
fn expiry_at_the_ends_of_the_time_range() {
    let oldest = ConnectionState::new_at(create_test_addr(1), i128::MIN);
    assert!(oldest.is_expired_at(i128::MAX, i64::MAX));
    let newest = ConnectionState::new_at(create_test_addr(1), i128::MAX);
    assert!(!newest.is_expired_at(i128::MIN, i64::MIN));
    // nanoseconds count: 300 s plus one nanosecond is still 300 whole seconds
    let s = ConnectionState::new_at(create_test_addr(1), 5);
    assert!(!s.is_expired_at(300 * 1_000_000_000 + 6, 300));
}
