use wdic_gateway::address::GatewayAddr;
use wdic_gateway::gateway::{
    broadcast_round, cache_hash_announcement, heartbeat_info, cleanup_connection_entry, handle_broadcast_at, handle_broadcast_response_at, handle_heartbeat_at,
    handle_message_at, handle_query_gateways, handle_register_request_at, GatewayConfig,
    GatewayMessage, MessageReply,
};
use wdic_gateway::registry::{Registry, RegistryEntry};
use wdic_gateway::text::{append_joined, decimal_string};
use wdic_gateway::tokens::UdpToken;

fn addr(port: u16) -> GatewayAddr {
    GatewayAddr::v4(192, 168, 1, 1, port)
}

fn entry(id: u128, name: &str, port: u16, last_seen: i128) -> RegistryEntry {
    RegistryEntry::with_id(id, name.to_string(), addr(port), last_seen)
}

fn registry() -> Registry {
    Registry::with_local_entry(entry(1, "本地网关", 55555, 0))
}

fn ids(entries: &[RegistryEntry]) -> Vec<u128> {
    let mut v: Vec<u128> = entries.iter().map(|e| e.id).collect();
    v.sort();
    v
}

#[test]
fn default_config_values() {
    let config = GatewayConfig::default();
    assert_eq!(config.name, "本地网关");
    assert_eq!(config.port, 55555);
    assert_eq!(config.broadcast_interval, 30);
    assert_eq!(config.heartbeat_interval, 60);
    assert_eq!(config.connection_timeout, 300);
    assert_eq!(config.registry_cleanup_interval, 120);
    assert!(config.enable_ipv6);
    assert!(config.enable_mtls);
    assert!(config.enable_compression);
    assert_eq!(config.cache_dir, "./cache");
    assert_eq!(config.cache_default_ttl, 3600);
    assert_eq!(config.max_cache_size, 1024 * 1024 * 1024);
    assert_eq!(config.cache_cleanup_interval, 300);

    let named = GatewayConfig::named("边缘".to_string());
    assert_eq!(named.name, "边缘");
    assert_eq!(named.port, 55555);
}

#[test]
fn broadcast_registers_sender_and_lists_the_others() {
    let mut reg = registry();
    reg.add_or_update_at(entry(2, "b", 2, 10), 10);
    let others = handle_broadcast_at(&mut reg, entry(3, "c", 3, 0), 50);
    assert_eq!(ids(&others), vec![2]);
    assert_eq!(reg.get(&3).unwrap().last_seen, 50);
    assert_eq!(reg.size(), 2);
}

#[test]
fn broadcast_response_counts_new_gateways() {
    let mut reg = registry();
    reg.add_or_update_at(entry(2, "b", 2, 10), 10);
    let gateways = vec![entry(2, "b", 2, 0), entry(4, "d", 4, 0), entry(1, "本地网关", 55555, 0)];
    let new = handle_broadcast_response_at(&mut reg, entry(3, "c", 3, 0), gateways, 70);
    // 2 was known, 1 is the local gateway: only 4 is new
    assert_eq!(new, 1);
    assert_eq!(reg.size(), 3);
    assert_eq!(reg.get(&2).unwrap().last_seen, 70);
    assert!(reg.get(&1).is_none());
}

#[test]
fn heartbeat_refreshes_known_gateway_only() {
    let mut reg = registry();
    reg.add_or_update_at(entry(2, "b", 2, 10), 10);
    handle_heartbeat_at(&mut reg, 2, 99);
    assert_eq!(reg.get(&2).unwrap().last_seen, 99);
    handle_heartbeat_at(&mut reg, 7, 100);
    assert!(reg.get(&7).is_none());
    assert_eq!(reg.size(), 1);
}

#[test]
fn register_request_reports_new_then_updated() {
    let mut reg = registry();
    reg.add_or_update_at(entry(2, "b", 2, 10), 10);
    let first = handle_register_request_at(&mut reg, entry(5, "边缘网关", 5, 0), 20);
    assert!(first.success);
    assert!(first.is_new);
    assert_eq!(first.message, "网关 '边缘网关' 注册成功");
    assert_eq!(ids(&first.gateways), vec![2]);

    let second = handle_register_request_at(&mut reg, entry(5, "边缘网关", 5, 0), 30);
    assert!(second.success);
    assert!(!second.is_new);
    assert_eq!(second.message, "网关 '边缘网关' 信息已更新");
    assert_eq!(reg.get(&5).unwrap().last_seen, 30);
}

#[test]
fn query_lists_everyone_but_the_requester() {
    let mut reg = registry();
    reg.add_or_update_at(entry(2, "b", 2, 10), 10);
    reg.add_or_update_at(entry(3, "c", 3, 10), 10);
    assert_eq!(ids(&handle_query_gateways(&reg, 2)), vec![3]);
    assert_eq!(ids(&handle_query_gateways(&reg, 9)), vec![2, 3]);
}

#[test]
fn lost_connection_forgets_gateway_at_that_address() {
    let mut reg = registry();
    reg.add_or_update_at(entry(2, "b", 2, 10), 10);
    assert!(cleanup_connection_entry(&mut reg, &addr(2)));
    assert!(reg.is_empty());
    assert!(!cleanup_connection_entry(&mut reg, &addr(2)));
}

#[test]
fn message_dispatch_answers_each_kind() {
    let mut reg = registry();
    match handle_message_at(&mut reg, GatewayMessage::Broadcast { sender: entry(2, "b", 2, 0) }, 5) {
        MessageReply::BroadcastResponse { sender, gateways } => {
            assert_eq!(sender.id, 1);
            assert!(gateways.is_empty());
        }
        other => panic!("unexpected reply {:?}", other),
    }
    match handle_message_at(&mut reg, GatewayMessage::Heartbeat { sender_id: 2 }, 6) {
        MessageReply::HeartbeatResponse { sender_id } => assert_eq!(sender_id, 1),
        other => panic!("unexpected reply {:?}", other),
    }
    assert_eq!(reg.get(&2).unwrap().last_seen, 6);
    match handle_message_at(&mut reg, GatewayMessage::RegisterRequest { gateway: entry(3, "c", 3, 0) }, 7) {
        MessageReply::RegisterResponse(outcome) => {
            assert!(outcome.success && outcome.is_new);
            assert_eq!(ids(&outcome.gateways), vec![2]);
        }
        other => panic!("unexpected reply {:?}", other),
    }
    match handle_message_at(&mut reg, GatewayMessage::QueryGateways { requester_id: 3 }, 8) {
        MessageReply::QueryResponse { responder_id, gateways } => {
            assert_eq!(responder_id, 1);
            assert_eq!(ids(&gateways), vec![2]);
        }
        other => panic!("unexpected reply {:?}", other),
    }
    let reply = handle_message_at(
        &mut reg,
        GatewayMessage::BroadcastResponse { sender: entry(4, "d", 4, 0), gateways: vec![entry(5, "e", 5, 0)] },
        9,
    );
    assert!(matches!(reply, MessageReply::Nothing));
    assert_eq!(reg.size(), 4);
    assert!(matches!(handle_message_at(&mut reg, GatewayMessage::Other, 10), MessageReply::Nothing));
    assert_eq!(reg.size(), 4);
}

#[test]
fn heartbeat_texts() {
    assert_eq!(heartbeat_info("甲", 0), "网关 '甲' 心跳广播 - 无缓存文件");
    assert_eq!(heartbeat_info("甲", 12), "网关 '甲' 心跳广播 - 缓存文件: 12 个");
    assert_eq!(cache_hash_announcement(&[]), None);
    assert_eq!(
        cache_hash_announcement(&["ab".to_string(), "cd".to_string(), "ef".to_string()]),
        Some("CACHE_HASHES:ab,cd,ef".to_string())
    );
    assert_eq!(cache_hash_announcement(&["x".to_string()]), Some("CACHE_HASHES:x".to_string()));
}

#[test]
fn broadcast_round_announces_and_informs() {
    let local = entry(1, "本地网关", 55555, 0);
    let (message, infos) = broadcast_round(&local, &[]);
    match message {
        GatewayMessage::Broadcast { sender } => assert_eq!(sender.id, 1),
        other => panic!("unexpected message {:?}", other),
    }
    assert_eq!(infos.len(), 1);
    let (_, infos) = broadcast_round(&local, &["h1".to_string(), "h2".to_string()]);
    assert_eq!(infos.len(), 2);
    let contents: Vec<String> = infos
        .iter()
        .map(|t| match t {
            UdpToken::InfoMessage { sender_id, content, .. } => {
                assert_eq!(*sender_id, 1);
                content.clone()
            }
            other => panic!("unexpected token {:?}", other),
        })
        .collect();
    assert_eq!(contents, vec!["网关 '本地网关' 心跳广播 - 缓存文件: 2 个".to_string(), "CACHE_HASHES:h1,h2".to_string()]);
}

#[test]
fn heartbeat_then_cleanup_keeps_gateway() {
    let mut reg = registry();
    reg.add_or_update_at(entry(2, "b", 2, 0), 0);
    let now = 10_000 * 1_000_000_000;
    handle_heartbeat_at(&mut reg, 2, now);
    assert_eq!(reg.cleanup_expired_at(now, 300), 0);
    assert!(reg.get(&2).is_some());
    assert_eq!(reg.cleanup_expired_at(now + 301 * 1_000_000_000, 300), 1);
}

#[test]
fn decimal_and_joined_text() {
    assert_eq!(decimal_string(0), "0");
    assert_eq!(decimal_string(7), "7");
    assert_eq!(decimal_string(10), "10");
    assert_eq!(decimal_string(18446744073709551615), "18446744073709551615");
    let mut out = "[".to_string();
    append_joined(&mut out, &["a".to_string(), "".to_string(), "c".to_string()], ", ");
    assert_eq!(out, "[a, , c");
}
