use wdic_gateway::address::{generate_broadcast_addresses, wildcard_address, GatewayAddr};

#[test]
fn test_broadcast_addresses_generation() {
    let local_addr = GatewayAddr::v4(192, 168, 1, 100, 55555);
    let addresses = generate_broadcast_addresses(local_addr);

    assert!(!addresses.is_empty());
    assert!(addresses.contains(&GatewayAddr::v4(255, 255, 255, 255, 55555)));
    assert!(addresses.contains(&GatewayAddr::v4(192, 168, 255, 255, 55555)));
    assert!(addresses.contains(&GatewayAddr::v4(192, 168, 1, 255, 55555)));
}

#[test]
fn broadcast_addresses_follow_the_private_range() {
    let ten = generate_broadcast_addresses(GatewayAddr::v4(10, 7, 3, 1, 9));
    assert_eq!(
        ten,
        vec![
            GatewayAddr::v4(255, 255, 255, 255, 9),
            GatewayAddr::v4(192, 168, 255, 255, 9),
            GatewayAddr::v4(10, 255, 255, 255, 9),
            GatewayAddr::v4(172, 31, 255, 255, 9),
            GatewayAddr::v4(10, 7, 255, 255, 9),
        ]
    );
    let private_172 = generate_broadcast_addresses(GatewayAddr::v4(172, 20, 0, 5, 9));
    assert_eq!(private_172.len(), 5);
    assert_eq!(private_172[4], GatewayAddr::v4(172, 20, 255, 255, 9));
    let public_172 = generate_broadcast_addresses(GatewayAddr::v4(172, 32, 0, 5, 9));
    assert_eq!(public_172.len(), 4);
    let public = generate_broadcast_addresses(GatewayAddr::v4(8, 8, 8, 8, 9));
    assert_eq!(public.len(), 4);
    let v6 = generate_broadcast_addresses(GatewayAddr::v6(1, 9));
    assert_eq!(v6, vec![GatewayAddr::v4(255, 255, 255, 255, 9)]);
}

#[test]
fn wildcard_address_depends_on_dual_stack() {
    assert_eq!(wildcard_address(true, 55555), GatewayAddr::v6(0, 55555));
    assert_eq!(wildcard_address(false, 55555), GatewayAddr::v4(0, 0, 0, 0, 55555));
    assert_eq!(GatewayAddr::v4(1, 2, 3, 4, 77).port(), 77);
}
