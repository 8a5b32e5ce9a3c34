use wdic_gateway::address::GatewayAddr;
use wdic_gateway::performance::{
    registry_workload, registry_workload_at, ConnectionCounters, ConnectionEvent, MemoryCounters, NetworkCounters, PerformanceTestSuite,
};
use wdic_gateway::registry::Registry;

#[test]
fn default_suite_settings() {
    let suite = PerformanceTestSuite::default();
    assert_eq!(suite.concurrency, 10);
    assert_eq!(suite.duration_seconds, 30);
    assert_eq!(suite.packet_size, 1024);
    assert_eq!(suite.test_interval_ms, 10);
}

#[test]
fn network_counters_add_up() {
    let mut c = NetworkCounters::new();
    c.record_send(100);
    c.record_send(50);
    c.record_receive(70);
    c.record_error(true);
    c.record_error(false);
    c.record_error(false);
    assert_eq!(c.bytes_sent, 150);
    assert_eq!(c.packets_sent, 2);
    assert_eq!(c.bytes_received, 70);
    assert_eq!(c.packets_received, 1);
    assert_eq!(c.send_errors, 1);
    assert_eq!(c.receive_errors, 2);
}

#[test]
fn connection_counters_follow_events() {
    let mut c = ConnectionCounters::new();
    c.record(ConnectionEvent::Connected);
    c.record(ConnectionEvent::Connected);
    c.record(ConnectionEvent::Disconnected);
    c.record(ConnectionEvent::Failed);
    c.record(ConnectionEvent::Timeout);
    assert_eq!(c.active(), 0);
    assert_eq!(c.total(), 2);
    assert_eq!(c.failed(), 1);
    assert_eq!(c.timed_out(), 1);
    assert_eq!(c.closed(), 2);
    assert_eq!(c.attempts(), Some(3));
    // closing with nothing active leaves the active count at zero
    c.record(ConnectionEvent::Disconnected);
    c.record(ConnectionEvent::Timeout);
    assert_eq!(c.active(), 0);
    assert_eq!(c.timed_out(), 2);
    assert!(c.active() <= c.total());
}

#[test]
fn memory_counters_track_the_peak() {
    let mut m = MemoryCounters::new();
    m.record_sample(Some(100), 1000, 500);
    assert_eq!(m.current(), 102_400);
    assert_eq!(m.peak(), 102_400);
    assert_eq!(m.total(), 1_024_000);
    assert_eq!(m.available(), 512_000);
    m.record_sample(Some(50), 1000, 400);
    assert_eq!(m.current(), 51_200);
    assert_eq!(m.peak(), 102_400);
    // the process could not be read: its figures stay
    m.record_sample(None, 2000, 300);
    assert_eq!(m.current(), 51_200);
    assert_eq!(m.peak(), 102_400);
    assert_eq!(m.total(), 2_048_000);
    assert_eq!(m.available(), 307_200);
}

#[test]
fn registry_workload_counts_its_operations() {
    let mut registry = Registry::new("本地网关".to_string(), GatewayAddr::v4(127, 0, 0, 1, 55555));
    // 2 operations per iteration, plus cleanups at iterations 0 and 1000
    assert_eq!(registry_workload(&mut registry, 1001), 2 * 1001 + 2);
    assert_eq!(registry.size(), 1001);
    assert_eq!(registry.local_entry().name, "本地网关");
    let mut empty = Registry::new("x".to_string(), GatewayAddr::v4(127, 0, 0, 1, 1));
    assert_eq!(registry_workload(&mut empty, 0), 0);
    assert_eq!(registry_workload(&mut empty, 1), 3);
}

#[test]
fn test_network_metrics_recording() {
    let mut metrics = NetworkCounters::new();
    metrics.record_send(1024);
    metrics.record_receive(512);
    metrics.record_error(true);
    assert_eq!(metrics.bytes_sent, 1024);
    assert_eq!(metrics.bytes_received, 512);
    assert_eq!(metrics.packets_sent, 1);
    assert_eq!(metrics.packets_received, 1);
    assert_eq!(metrics.send_errors, 1);
}

#[test]
fn test_connection_metrics() {
    let mut metrics = ConnectionCounters::new();
    metrics.record(ConnectionEvent::Connected);
    metrics.record(ConnectionEvent::Connected);
    metrics.record(ConnectionEvent::Disconnected);
    metrics.record(ConnectionEvent::Failed);
    assert_eq!(metrics.active(), 1);
    assert_eq!(metrics.total(), 2);
    assert_eq!(metrics.failed(), 1);
    // the success rate, total over attempts, is above zero
    assert_eq!(metrics.attempts(), Some(3));
    assert!(metrics.total() > 0);
}

#[test]
fn registry_workload_with_given_ids_and_times() {
    let mut registry = Registry::new("本地网关".to_string(), GatewayAddr::v4(127, 0, 0, 1, 55555));
    // iteration 0 cleans up 301 s after its own addition, so its gateway is dropped
    let ops = registry_workload_at(&mut registry, &vec![10, 11], &vec![100, 200], &vec![100 + 301_000_000_000, 0]);
    assert_eq!(ops, 2 * 2 + 1);
    assert!(registry.get(&10).is_none());
    let e = registry.get(&11).unwrap();
    assert_eq!(e.name, "test_gateway_1");
    assert_eq!(e.address, GatewayAddr::v4(192, 168, 1, 1, 55556));
    assert_eq!(e.last_seen, 200);
    assert_eq!(registry.size(), 1);
    // within the timeout the first gateway stays
    let mut kept = Registry::new("x".to_string(), GatewayAddr::v4(127, 0, 0, 1, 1));
    registry_workload_at(&mut kept, &vec![7], &vec![0], &vec![300_000_000_000]);
    assert_eq!(kept.get(&7).unwrap().name, "test_gateway_0");
}
