//! Socket addresses of gateways, and the broadcast addresses a gateway
//! announces itself to.

use vstd::prelude::*;

verus! {

/// A socket address: an IPv4 address given by its four octets, or an IPv6
/// address given by its 128 bits together with its flow information and
/// scope, each with a port.
#[derive(Clone, Copy, Debug, PartialEq, Eq, Structural)]
pub enum GatewayAddr {
    V4 { a: u8, b: u8, c: u8, d: u8, port: u16 },
    V6 { ip: u128, port: u16, flowinfo: u32, scope_id: u32 },
}

impl GatewayAddr {
    /// An IPv4 socket address `a.b.c.d:port`.
    pub fn v4(a: u8, b: u8, c: u8, d: u8, port: u16) -> (r: Self)
        ensures
            r == (GatewayAddr::V4 { a, b, c, d, port }),
    {
        GatewayAddr::V4 { a, b, c, d, port }
    }

    /// An IPv6 socket address with no flow information and no scope.
    pub fn v6(ip: u128, port: u16) -> (r: Self)
        ensures
            r == (GatewayAddr::V6 { ip, port, flowinfo: 0, scope_id: 0 }),
    {
        GatewayAddr::V6 { ip, port, flowinfo: 0, scope_id: 0 }
    }

    pub open spec fn spec_port(&self) -> u16 {
        match *self {
            GatewayAddr::V4 { port, .. } => port,
            GatewayAddr::V6 { port, .. } => port,
        }
    }

    /// The port.
    #[verifier::when_used_as_spec(spec_port)]
    pub fn port(&self) -> (r: u16)
        ensures
            r == self.spec_port(),
    {
        match self {
            GatewayAddr::V4 { port, .. } => *port,
            GatewayAddr::V6 { port, .. } => *port,
        }
    }
}

/// The addresses a gateway bound at `local` broadcasts to, in order: the
/// limited broadcast address; for IPv4 also the broadcast addresses of the
/// three private ranges and, when the local address lies in one of them,
/// the broadcast address of its own subnet (a /24 in 192.168/16, a /16 in
/// 10/8 or in 172.16/12). All use the local port.
pub open spec fn broadcast_addresses_for(local: GatewayAddr) -> Seq<GatewayAddr> {
    let port = local.spec_port();
    let limited = seq![GatewayAddr::V4 { a: 255, b: 255, c: 255, d: 255, port }];
    match local {
        GatewayAddr::V4 { a, b, c, .. } => {
            let private = seq![
                GatewayAddr::V4 { a: 192, b: 168, c: 255, d: 255, port },
                GatewayAddr::V4 { a: 10, b: 255, c: 255, d: 255, port },
                GatewayAddr::V4 { a: 172, b: 31, c: 255, d: 255, port },
            ];
            let subnet = if a == 192 && b == 168 {
                seq![GatewayAddr::V4 { a: 192, b: 168, c, d: 255, port }]
            } else if a == 10 {
                seq![GatewayAddr::V4 { a: 10, b, c: 255, d: 255, port }]
            } else if a == 172 && 16 <= b <= 31 {
                seq![GatewayAddr::V4 { a: 172, b, c: 255, d: 255, port }]
            } else {
                Seq::empty()
            };
            limited + private + subnet
        },
        GatewayAddr::V6 { .. } => limited,
    }
}

/// Computes the broadcast addresses of a gateway bound at `local_addr`.
pub fn generate_broadcast_addresses(local_addr: GatewayAddr) -> (r: Vec<GatewayAddr>)
    ensures
        r@ == broadcast_addresses_for(local_addr),
{
    let port = local_addr.port();
    let mut addresses: Vec<GatewayAddr> = Vec::new();
    addresses.push(GatewayAddr::v4(255, 255, 255, 255, port));
    match local_addr {
        GatewayAddr::V4 { a, b, c, .. } => {
            addresses.push(GatewayAddr::v4(192, 168, 255, 255, port));
            addresses.push(GatewayAddr::v4(10, 255, 255, 255, port));
            addresses.push(GatewayAddr::v4(172, 31, 255, 255, port));
            if a == 192 && b == 168 {
                addresses.push(GatewayAddr::v4(192, 168, c, 255, port));
            } else if a == 10 {
                addresses.push(GatewayAddr::v4(10, b, 255, 255, port));
            } else if a == 172 && 16 <= b && b <= 31 {
                addresses.push(GatewayAddr::v4(172, b, 255, 255, port));
            }
        },
        GatewayAddr::V6 { .. } => {},
    }
    assert(addresses@ =~= broadcast_addresses_for(local_addr));
    addresses
}

/// The wildcard address a gateway binds to: `[::]:port` in dual-stack mode,
/// `0.0.0.0:port` otherwise.
pub fn wildcard_address(enable_ipv6: bool, port: u16) -> (r: GatewayAddr)
    ensures
        enable_ipv6 ==> r == (GatewayAddr::V6 { ip: 0, port, flowinfo: 0, scope_id: 0 }),
        !enable_ipv6 ==> r == (GatewayAddr::V4 { a: 0, b: 0, c: 0, d: 0, port }),
{
    if enable_ipv6 {
        GatewayAddr::v6(0, port)
    } else {
        GatewayAddr::v4(0, 0, 0, 0, port)
    }
}

} // verus!
