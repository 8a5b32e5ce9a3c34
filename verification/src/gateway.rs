//! Gateway configuration, and what a gateway does with the registry when
//! a protocol message arrives.

use vstd::prelude::*;
use vstd::string::*;

use crate::address::GatewayAddr;
use crate::registry::{lists_entries, register_one, seen_at, Registry, RegistryEntry};
use crate::security::string_views;
use crate::text::{append_joined, decimal, decimal_string, joined};
use crate::tokens::{info_message, UdpToken};

verus! {

broadcast use vstd::string::group_string_axioms;

/// Gateway configuration.
#[derive(Debug, Clone)]
pub struct GatewayConfig {
    /// Gateway name.
    pub name: String,
    /// Listening port.
    pub port: u16,
    /// Seconds between broadcasts.
    pub broadcast_interval: u64,
    /// Seconds between heartbeats.
    pub heartbeat_interval: u64,
    /// Seconds after which a silent gateway is forgotten.
    pub connection_timeout: i64,
    /// Seconds between registry cleanups.
    pub registry_cleanup_interval: u64,
    /// Listen on IPv6 and IPv4 (dual stack).
    pub enable_ipv6: bool,
    /// Require mutual TLS.
    pub enable_mtls: bool,
    /// Compress data.
    pub enable_compression: bool,
    /// Cache directory.
    pub cache_dir: String,
    /// Default cache time-to-live, in seconds.
    pub cache_default_ttl: u64,
    /// Largest cache, in bytes.
    pub max_cache_size: u64,
    /// Seconds between cache cleanups.
    pub cache_cleanup_interval: u64,
}

impl Default for GatewayConfig {
    fn default() -> (r: Self)
        ensures
            r.name@ == "本地网关"@,
            r.port == 55555,
            r.broadcast_interval == 30,
            r.heartbeat_interval == 60,
            r.connection_timeout == 300,
            r.registry_cleanup_interval == 120,
            r.enable_ipv6,
            r.enable_mtls,
            r.enable_compression,
            r.cache_dir@ == "./cache"@,
            r.cache_default_ttl == 3600,
            r.max_cache_size == 1024 * 1024 * 1024,
            r.cache_cleanup_interval == 300,
    {
        GatewayConfig {
            name: String::from_str("本地网关"),
            port: 55555,
            broadcast_interval: 30,
            heartbeat_interval: 60,
            connection_timeout: 300,
            registry_cleanup_interval: 120,
            enable_ipv6: true,
            enable_mtls: true,
            enable_compression: true,
            cache_dir: String::from_str("./cache"),
            cache_default_ttl: 3600,
            max_cache_size: 1024 * 1024 * 1024,
            cache_cleanup_interval: 300,
        }
    }
}

impl GatewayConfig {
    /// The default configuration under another name.
    pub fn named(name: String) -> (r: Self)
        ensures
            r.name == name,
            r.port == 55555,
            r.broadcast_interval == 30,
            r.heartbeat_interval == 60,
            r.connection_timeout == 300,
            r.registry_cleanup_interval == 120,
            r.enable_ipv6,
            r.enable_mtls,
            r.enable_compression,
            r.cache_dir@ == "./cache"@,
            r.cache_default_ttl == 3600,
            r.max_cache_size == 1024 * 1024 * 1024,
            r.cache_cleanup_interval == 300,
    {
        GatewayConfig { name, ..GatewayConfig::default() }
    }
}

/// The registry after every entry of `gateways` was added in turn at time
/// `now`, skipping the local gateway.
pub open spec fn register_all(
    m: Map<u128, RegistryEntry>,
    local_id: u128,
    gateways: Seq<RegistryEntry>,
    now: i128,
) -> Map<u128, RegistryEntry>
    decreases gateways.len(),
{
    if gateways.len() == 0 {
        m
    } else {
        register_one(register_all(m, local_id, gateways.drop_last(), now), local_id, gateways.last(), now)
    }
}

/// A broadcast from `sender` arrived at `now`: the sender is added or
/// refreshed, and the answer lists every other known gateway.
pub fn handle_broadcast_at(registry: &mut Registry, sender: RegistryEntry, now: i128) -> (r: Vec<
    RegistryEntry,
>)
    ensures
        final(registry).local() == old(registry).local(),
        final(registry).entries() == register_one(
            old(registry).entries(),
            old(registry).local().id,
            sender,
            now,
        ),
        lists_entries(r@, final(registry).entries().remove(sender.id)),
{
    let sender_id = sender.id;
    registry.add_or_update_at(sender, now);
    registry.entries_except(&sender_id)
}

/// The answer to a broadcast arrived: the responder and every gateway it
/// lists are added or refreshed at `now`. Returns how many were new.
pub fn handle_broadcast_response_at(
    registry: &mut Registry,
    sender: RegistryEntry,
    gateways: Vec<RegistryEntry>,
    now: i128,
) -> (r: usize)
    ensures
        final(registry).local() == old(registry).local(),
        final(registry).entries() == register_all(
            register_one(old(registry).entries(), old(registry).local().id, sender, now),
            old(registry).local().id,
            gateways@,
            now,
        ),
{
    registry.add_or_update_at(sender, now);
    let ghost start = registry.entries();
    let ghost local_id = registry.local().id;
    let n = gateways.len();
    let mut new_count: usize = 0;
    let mut i: usize = 0;
    assert(gateways@.take(0) =~= Seq::<RegistryEntry>::empty());
    while i < n
        invariant
            n == gateways@.len(),
            i <= n,
            new_count <= i,
            registry.local().id == local_id,
            registry.local() == old(registry).local(),
            registry.entries() == register_all(start, local_id, gateways@.take(i as int), now),
        decreases n - i,
    {
        assert(gateways@.take(i as int + 1).drop_last() =~= gateways@.take(i as int));
        let g = gateways[i].clone();
        if registry.add_or_update_at(g, now) {
            new_count = new_count + 1;
        }
        i = i + 1;
    }
    assert(gateways@.take(n as int) =~= gateways@);
    new_count
}

/// A heartbeat from `sender_id` arrived at `now`: a known sender is marked
/// seen; an unknown one is ignored.
pub fn handle_heartbeat_at(registry: &mut Registry, sender_id: u128, now: i128)
    ensures
        final(registry).local() == old(registry).local(),
        old(registry).entries().contains_key(sender_id) ==> final(registry).entries()
            == old(registry).entries().insert(sender_id, seen_at(old(registry).entries()[sender_id], now)),
        !old(registry).entries().contains_key(sender_id) ==> final(registry).entries()
            == old(registry).entries(),
{
    let known = match registry.get(&sender_id) {
        Some(entry) => Some(entry.clone()),
        None => None,
    };
    if let Some(entry) = known {
        registry.add_or_update_at(entry, now);
    }
}

/// The answer to a registration request.
#[derive(Debug)]
pub struct RegisterOutcome {
    /// Whether the registration succeeded.
    pub success: bool,
    /// Whether the gateway was new.
    pub is_new: bool,
    /// A message for the requester.
    pub message: String,
    /// The other known gateways.
    pub gateways: Vec<RegistryEntry>,
}

/// The message sent back for a registration of a gateway named `name`.
pub open spec fn register_message(name: Seq<char>, is_new: bool) -> Seq<char> {
    if is_new {
        "网关 '"@ + name + "' 注册成功"@
    } else {
        "网关 '"@ + name + "' 信息已更新"@
    }
}

/// A registration request for `gateway` arrived at `now`: the gateway is
/// added or refreshed, and the answer says which, and lists every other
/// known gateway. A registration always succeeds.
pub fn handle_register_request_at(registry: &mut Registry, gateway: RegistryEntry, now: i128) -> (r:
    RegisterOutcome)
    ensures
        final(registry).local() == old(registry).local(),
        final(registry).entries() == register_one(
            old(registry).entries(),
            old(registry).local().id,
            gateway,
            now,
        ),
        r.success,
        gateway.id != old(registry).local().id ==> r.is_new == !old(registry).entries().contains_key(
            gateway.id,
        ),
        gateway.id == old(registry).local().id ==> !r.is_new,
        r.message@ == register_message(gateway.name@, r.is_new),
        lists_entries(r.gateways@, final(registry).entries().remove(gateway.id)),
{
    let gateway_id = gateway.id;
    let mut message = String::from_str("网关 '");
    message.append(gateway.name.as_str());
    let is_new = registry.add_or_update_at(gateway, now);
    if is_new {
        message.append("' 注册成功");
    } else {
        message.append("' 信息已更新");
    }
    let gateways = registry.entries_except(&gateway_id);
    RegisterOutcome { success: true, is_new, message, gateways }
}

/// A query for the known gateways from `requester_id`: every known gateway
/// but the requester.
pub fn handle_query_gateways(registry: &Registry, requester_id: u128) -> (r: Vec<RegistryEntry>)
    ensures
        lists_entries(r@, registry.entries().remove(requester_id)),
{
    registry.entries_except(&requester_id)
}

/// The connection with `addr` was lost: a gateway registered at that
/// address is forgotten. Returns whether one was.
pub fn cleanup_connection_entry(registry: &mut Registry, addr: &GatewayAddr) -> (r: bool)
    ensures
        final(registry).local() == old(registry).local(),
        r == exists|k: u128|
            #[trigger] old(registry).entries().contains_key(k) && old(registry).entries()[k].address == *addr,
        r ==> exists|k: u128|
            #[trigger] old(registry).entries().contains_key(k) && old(registry).entries()[k].address == *addr
                && final(registry).entries() == old(registry).entries().remove(k),
        !r ==> final(registry).entries() == old(registry).entries(),
{
    let found = match registry.get_by_address(addr) {
        Some(entry) => Some(entry.id),
        None => None,
    };
    match found {
        Some(id) => {
            registry.remove(&id);
            true
        },
        None => false,
    }
}

/// A protocol message between gateways, holding what the gateway acts on.
#[derive(Debug)]
pub enum GatewayMessage {
    /// A gateway announces itself.
    Broadcast { sender: RegistryEntry },
    /// The answer to an announcement: the responder and the gateways it
    /// knows.
    BroadcastResponse { sender: RegistryEntry, gateways: Vec<RegistryEntry> },
    /// A gateway is still alive.
    Heartbeat { sender_id: u128 },
    /// A gateway asks to be registered.
    RegisterRequest { gateway: RegistryEntry },
    /// A gateway asks which gateways are known.
    QueryGateways { requester_id: u128 },
    /// Any other message; the gateway ignores it.
    Other,
}

/// What a gateway sends back to the sender of a message.
#[derive(Debug)]
pub enum MessageReply {
    /// The answer to an announcement: the local gateway and the others.
    BroadcastResponse { sender: RegistryEntry, gateways: Vec<RegistryEntry> },
    /// The answer to a heartbeat, from the local gateway.
    HeartbeatResponse { sender_id: u128 },
    /// The answer to a registration request.
    RegisterResponse(RegisterOutcome),
    /// The answer to a query: the local gateway and the gateways known.
    QueryResponse { responder_id: u128, gateways: Vec<RegistryEntry> },
    /// No answer.
    Nothing,
}

/// A message arrived at `now`; the registry is updated as the message
/// calls for and the answer to send back is returned.
pub fn handle_message_at(registry: &mut Registry, message: GatewayMessage, now: i128) -> (r: MessageReply)
    ensures
        final(registry).local() == old(registry).local(),
        match message {
            GatewayMessage::Broadcast { sender } => {
                &&& final(registry).entries() == register_one(
                    old(registry).entries(),
                    old(registry).local().id,
                    sender,
                    now,
                )
                &&& r matches MessageReply::BroadcastResponse { sender: s, gateways }
                &&& s == old(registry).local()
                &&& lists_entries(gateways@, final(registry).entries().remove(sender.id))
            },
            GatewayMessage::BroadcastResponse { sender, gateways } => {
                &&& final(registry).entries() == register_all(
                    register_one(old(registry).entries(), old(registry).local().id, sender, now),
                    old(registry).local().id,
                    gateways@,
                    now,
                )
                &&& r is Nothing
            },
            GatewayMessage::Heartbeat { sender_id } => {
                &&& old(registry).entries().contains_key(sender_id) ==> final(registry).entries()
                    == old(registry).entries().insert(
                    sender_id,
                    seen_at(old(registry).entries()[sender_id], now),
                )
                &&& !old(registry).entries().contains_key(sender_id) ==> final(registry).entries()
                    == old(registry).entries()
                &&& r == (MessageReply::HeartbeatResponse { sender_id: old(registry).local().id })
            },
            GatewayMessage::RegisterRequest { gateway } => {
                &&& final(registry).entries() == register_one(
                    old(registry).entries(),
                    old(registry).local().id,
                    gateway,
                    now,
                )
                &&& r matches MessageReply::RegisterResponse(outcome)
                &&& outcome.success
                &&& outcome.is_new == (gateway.id != old(registry).local().id
                    && !old(registry).entries().contains_key(gateway.id))
                &&& outcome.message@ == register_message(gateway.name@, outcome.is_new)
                &&& lists_entries(outcome.gateways@, final(registry).entries().remove(gateway.id))
            },
            GatewayMessage::QueryGateways { requester_id } => {
                &&& final(registry).entries() == old(registry).entries()
                &&& r matches MessageReply::QueryResponse { responder_id, gateways }
                &&& responder_id == old(registry).local().id
                &&& lists_entries(gateways@, old(registry).entries().remove(requester_id))
            },
            GatewayMessage::Other => {
                &&& final(registry).entries() == old(registry).entries()
                &&& r is Nothing
            },
        },
{
    match message {
        GatewayMessage::Broadcast { sender } => {
            let gateways = handle_broadcast_at(registry, sender, now);
            let local = registry.local_entry().clone();
            MessageReply::BroadcastResponse { sender: local, gateways }
        },
        GatewayMessage::BroadcastResponse { sender, gateways } => {
            handle_broadcast_response_at(registry, sender, gateways, now);
            MessageReply::Nothing
        },
        GatewayMessage::Heartbeat { sender_id } => {
            handle_heartbeat_at(registry, sender_id, now);
            MessageReply::HeartbeatResponse { sender_id: registry.local_entry().id }
        },
        GatewayMessage::RegisterRequest { gateway } => {
            MessageReply::RegisterResponse(handle_register_request_at(registry, gateway, now))
        },
        GatewayMessage::QueryGateways { requester_id } => {
            let gateways = handle_query_gateways(registry, requester_id);
            MessageReply::QueryResponse { responder_id: registry.local_entry().id, gateways }
        },
        GatewayMessage::Other => MessageReply::Nothing,
    }
}

/// The text of the periodic information broadcast of the gateway `name`
/// holding `cached_files` cached files.
pub open spec fn heartbeat_text(name: Seq<char>, cached_files: nat) -> Seq<char> {
    if cached_files == 0 {
        "网关 '"@ + name + "' 心跳广播 - 无缓存文件"@
    } else {
        "网关 '"@ + name + "' 心跳广播 - 缓存文件: "@ + decimal(cached_files) + " 个"@
    }
}

/// The text announcing the name hashes of the cached files.
pub open spec fn cache_hashes_text(hashes: Seq<Seq<char>>) -> Seq<char> {
    "CACHE_HASHES:"@ + joined(hashes, ","@)
}

/// The periodic information text of the gateway `name`.
pub fn heartbeat_info(name: &str, cached_files: usize) -> (r: String)
    ensures
        r@ == heartbeat_text(name@, cached_files as nat),
{
    let mut text = String::from_str("网关 '");
    text.append(name);
    if cached_files == 0 {
        text.append("' 心跳广播 - 无缓存文件");
    } else {
        text.append("' 心跳广播 - 缓存文件: ");
        let count = decimal_string(cached_files as u64);
        text.append(count.as_str());
        text.append(" 个");
    }
    text
}

/// The announcement of the cached files' name hashes; none when nothing
/// is cached.
pub fn cache_hash_announcement(hashes: &[String]) -> (r: Option<String>)
    ensures
        r is None <==> hashes@.len() == 0,
        r matches Some(t) ==> t@ == cache_hashes_text(string_views(hashes@)),
{
    if hashes.len() == 0 {
        None
    } else {
        let mut text = String::from_str("CACHE_HASHES:");
        append_joined(&mut text, hashes, ",");
        Some(text)
    }
}

/// One round of the periodic broadcast of the gateway `local` holding
/// cached files with the name hashes `name_hashes`: the announcement of the
/// gateway, and the information messages to broadcast (the heartbeat text,
/// then the hash list when there is one).
pub fn broadcast_round(local: &RegistryEntry, name_hashes: &[String]) -> (r: (GatewayMessage, Vec<UdpToken>))
    ensures
        r.0 == (GatewayMessage::Broadcast { sender: *local }),
        r.1@.len() == if name_hashes@.len() == 0 { 1int } else { 2int },
        r.1@[0] matches UdpToken::InfoMessage { sender_id, content, .. } && sender_id == local.id
            && content@ == heartbeat_text(local.name@, name_hashes@.len()),
        name_hashes@.len() > 0 ==> (r.1@[1] matches UdpToken::InfoMessage { sender_id, content, .. }
            && sender_id == local.id && content@ == cache_hashes_text(string_views(name_hashes@))),
{
    let message = GatewayMessage::Broadcast { sender: local.clone() };
    let mut infos: Vec<UdpToken> = Vec::new();
    infos.push(info_message(local.id, heartbeat_info(local.name.as_str(), name_hashes.len())));
    match cache_hash_announcement(name_hashes) {
        Some(text) => {
            infos.push(info_message(local.id, text));
        },
        None => {},
    }
    (message, infos)
}

} // verus!
