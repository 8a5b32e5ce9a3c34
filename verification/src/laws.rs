//! Properties that relate several operations of the library, stated over
//! the models its contracts use.

use vstd::prelude::*;

use crate::address::{broadcast_addresses_for, GatewayAddr};
use crate::connections::{after_activity, after_disconnect, distinct_peers, peer_index, ConnectionState};
use crate::directory::{entry_paths, path_matches, search_entries, DirectoryEntry};
use crate::path::{
    file_name, components, dot, dot_dot, piece_component, pieces_components, root_components, split_slash,
    ComponentModel,
};
use crate::performance::{counters_after, ConnectionEvent};
use crate::registry::{expired_ids, is_expired_entry, lists_entries, register_one, seen_at, RegistryEntry};
use crate::sources::{measured, nearer, nearest_order};
use crate::security::{
    filtered_results, has_forbidden_char, hits_forbidden_pattern, join_names, MAX_PATH_LENGTH, lemma_normalize_failure_persists,
    normalize_components, path_allowed, render_path, take_at_most, validate_path, within_roots,
    NormalizeModel, PathVerdict,
};

verus! {

// ---------------------------------------------------------------------------
// Registry
// ---------------------------------------------------------------------------

/// A gateway other than the local one that was added is found again, as
/// last seen at the time it was added.
pub proof fn law_added_gateway_is_found(
    m: Map<u128, RegistryEntry>,
    local_id: u128,
    e: RegistryEntry,
    now: i128,
)
    requires
        e.id != local_id,
    ensures
        register_one(m, local_id, e, now).contains_key(e.id),
        register_one(m, local_id, e, now)[e.id] == seen_at(e, now),
{
}

/// Adding the same gateway twice: the second addition finds it known (so
/// reports it as not new) and only moves its time of last sight.
pub proof fn law_second_add_refreshes(
    m: Map<u128, RegistryEntry>,
    local_id: u128,
    e: RegistryEntry,
    t1: i128,
    t2: i128,
)
    requires
        e.id != local_id,
    ensures
        register_one(m, local_id, e, t1).contains_key(e.id),
        register_one(register_one(m, local_id, e, t1), local_id, e, t2) == register_one(m, local_id, e, t2),
        register_one(register_one(m, local_id, e, t1), local_id, e, t2).dom() == register_one(
            m,
            local_id,
            e,
            t1,
        ).dom(),
{
    assert(register_one(register_one(m, local_id, e, t1), local_id, e, t2) =~= register_one(
        m,
        local_id,
        e,
        t2,
    ));
}

/// The local gateway never enters the registry.
pub proof fn law_local_gateway_never_registered(
    m: Map<u128, RegistryEntry>,
    local_id: u128,
    e: RegistryEntry,
    now: i128,
)
    requires
        !m.contains_key(local_id),
    ensures
        !register_one(m, local_id, e, now).contains_key(local_id),
{
}

/// Removing a gateway that was just added forgets it, and leaves the rest
/// of the registry as it was before the addition.
pub proof fn law_remove_undoes_add(m: Map<u128, RegistryEntry>, local_id: u128, e: RegistryEntry, now: i128)
    requires
        e.id != local_id,
    ensures
        !register_one(m, local_id, e, now).remove(e.id).contains_key(e.id),
        register_one(m, local_id, e, now).remove(e.id) == m.remove(e.id),
{
    assert(register_one(m, local_id, e, now).remove(e.id) =~= m.remove(e.id));
}

/// A listing of the registry without gateway `x` never holds `x`.
pub proof fn law_listing_excludes(v: Seq<RegistryEntry>, m: Map<u128, RegistryEntry>, x: u128)
    requires
        lists_entries(v, m.remove(x)),
    ensures
        forall|i: int| 0 <= i < v.len() ==> #[trigger] v[i].id != x,
{
    assert forall|i: int| 0 <= i < v.len() implies #[trigger] v[i].id != x by {
        assert(m.remove(x).contains_key(v[i].id));
    }
}

/// Cleanup keeps a gateway seen at the time of the cleanup (for a timeout
/// that is not negative), removes only expired gateways, and leaves none
/// behind: a second cleanup at the same time removes nothing.
pub proof fn law_cleanup_is_exact(m: Map<u128, RegistryEntry>, now: i128, timeout_seconds: i64, k: u128)
    requires
        timeout_seconds >= 0,
    ensures
        m.contains_key(k) && m[k].last_seen >= now ==> m.remove_keys(
            expired_ids(m, now, timeout_seconds),
        ).contains_key(k),
        m.remove_keys(expired_ids(m, now, timeout_seconds)).contains_key(k) ==> !is_expired_entry(
            m[k],
            now,
            timeout_seconds,
        ),
        expired_ids(m.remove_keys(expired_ids(m, now, timeout_seconds)), now, timeout_seconds)
            == Set::<u128>::empty(),
{
    let after = m.remove_keys(expired_ids(m, now, timeout_seconds));
    assert(expired_ids(after, now, timeout_seconds) =~= Set::<u128>::empty());
}

/// A gateway that registered is listed, as last seen at its registration,
/// in the answer to any other gateway's query.
pub proof fn law_registered_gateway_is_listed(
    m: Map<u128, RegistryEntry>,
    local_id: u128,
    e: RegistryEntry,
    now: i128,
    requester: u128,
    v: Seq<RegistryEntry>,
)
    requires
        e.id != local_id,
        e.id != requester,
        lists_entries(v, register_one(m, local_id, e, now).remove(requester)),
    ensures
        exists|i: int| 0 <= i < v.len() && #[trigger] v[i] == seen_at(e, now),
{
    let listed = register_one(m, local_id, e, now).remove(requester);
    assert(listed.contains_key(e.id));
    let i = choose|i: int| 0 <= i < v.len() && v[i].id == e.id;
    assert(listed[v[i].id] == v[i]);
}

/// A heartbeat from a known gateway keeps it through a cleanup at the same
/// time, whatever the (non-negative) timeout.
pub proof fn law_heartbeat_keeps_gateway(
    m: Map<u128, RegistryEntry>,
    k: u128,
    now: i128,
    timeout_seconds: i64,
)
    requires
        m.contains_key(k),
        timeout_seconds >= 0,
    ensures
        ({
            let after = m.insert(k, seen_at(m[k], now));
            after.remove_keys(expired_ids(after, now, timeout_seconds)).contains_key(k)
        }),
{
    let after = m.insert(k, seen_at(m[k], now));
    assert(!expired_ids(after, now, timeout_seconds).contains(k));
}

/// Adding a gateway grows the registry by one exactly when the gateway is
/// new (and not the local one); otherwise the size stays.
pub proof fn law_add_changes_size(m: Map<u128, RegistryEntry>, local_id: u128, e: RegistryEntry, now: i128)
    requires
        m.dom().finite(),
    ensures
        register_one(m, local_id, e, now).dom().finite(),
        register_one(m, local_id, e, now).len() == m.len() + if e.id != local_id && !m.contains_key(e.id) {
            1int
        } else {
            0int
        },
{
}

/// A cleanup shrinks the registry by exactly the number of gateways it
/// reports as removed.
pub proof fn law_cleanup_changes_size(m: Map<u128, RegistryEntry>, now: i128, timeout_seconds: i64)
    requires
        m.dom().finite(),
    ensures
        m.remove_keys(expired_ids(m, now, timeout_seconds)).dom().finite(),
        m.remove_keys(expired_ids(m, now, timeout_seconds)).len() == m.len() - expired_ids(
            m,
            now,
            timeout_seconds,
        ).len(),
{
    let ex = expired_ids(m, now, timeout_seconds);
    assert(ex.subset_of(m.dom()));
    vstd::set_lib::lemma_len_subset(ex, m.dom());
    assert(m.remove_keys(ex).dom() =~= m.dom().difference(ex));
    vstd::set_lib::lemma_set_difference_len(m.dom(), ex);
    assert(m.dom().intersect(ex) =~= ex);
}

// ---------------------------------------------------------------------------
// Connections
// ---------------------------------------------------------------------------

/// After activity from a peer, the peer is known, with that activity time;
/// the peers stay distinct.
pub proof fn law_activity_registers_peer(cs: Seq<ConnectionState>, addr: GatewayAddr, now: i128)
    requires
        distinct_peers(cs),
    ensures
        distinct_peers(after_activity(cs, addr, now)),
        peer_index(after_activity(cs, addr, now), addr) matches Some(i) && after_activity(
            cs,
            addr,
            now,
        )[i].last_active == now,
{
    let post = after_activity(cs, addr, now);
    match peer_index(cs, addr) {
        Some(i) => {
            assert(post[i].remote_addr == addr);
            assert forall|a: int, b: int|
                0 <= a < b < post.len() implies #[trigger] post[a].remote_addr
                != #[trigger] post[b].remote_addr by {
                assert(cs[a].remote_addr != cs[b].remote_addr);
            }
            lemma_peer_index_is(post, addr, i);
        },
        None => {
            let n = cs.len() as int;
            assert(post[n].remote_addr == addr);
            assert forall|a: int, b: int|
                0 <= a < b < post.len() implies #[trigger] post[a].remote_addr
                != #[trigger] post[b].remote_addr by {
                if b < n {
                    assert(cs[a].remote_addr != cs[b].remote_addr);
                } else {
                    assert(post[a] == cs[a]);
                }
            }
            lemma_peer_index_is(post, addr, n);
        },
    }
}

/// Disconnecting a peer forgets it; a second disconnect finds nothing.
pub proof fn law_disconnect_forgets_peer(cs: Seq<ConnectionState>, addr: GatewayAddr)
    requires
        distinct_peers(cs),
    ensures
        peer_index(after_disconnect(cs, addr), addr) is None,
        after_disconnect(after_disconnect(cs, addr), addr) == after_disconnect(cs, addr),
{
    let post = after_disconnect(cs, addr);
    match peer_index(cs, addr) {
        Some(i) => {
            assert forall|j: int| 0 <= j < post.len() implies #[trigger] post[j].remote_addr != addr by {
                let j0 = if j < i { j } else { j + 1 };
                assert(post[j] == cs[j0]);
                if j0 < i {
                    assert(cs[j0].remote_addr != cs[i].remote_addr);
                } else {
                    assert(cs[i].remote_addr != cs[j0].remote_addr);
                }
            }
        },
        None => {},
    }
}

proof fn lemma_peer_index_is(cs: Seq<ConnectionState>, addr: GatewayAddr, i: int)
    requires
        distinct_peers(cs),
        0 <= i < cs.len(),
        cs[i].remote_addr == addr,
    ensures
        peer_index(cs, addr) == Some(i),
{
    let j = choose|j: int| 0 <= j < cs.len() && #[trigger] cs[j].remote_addr == addr;
    if j < i {
        assert(cs[j].remote_addr != cs[i].remote_addr);
    } else if i < j {
        assert(cs[i].remote_addr != cs[j].remote_addr);
    }
}

// ---------------------------------------------------------------------------
// Addresses
// ---------------------------------------------------------------------------

/// Every broadcast target uses the local port, the first one is the
/// limited broadcast address, and there are at most five.
pub proof fn law_broadcast_targets(local: GatewayAddr)
    ensures
        broadcast_addresses_for(local).len() >= 1,
        broadcast_addresses_for(local).len() <= 5,
        broadcast_addresses_for(local)[0] == (GatewayAddr::V4 {
            a: 255,
            b: 255,
            c: 255,
            d: 255,
            port: local.spec_port(),
        }),
        forall|i: int|
            0 <= i < broadcast_addresses_for(local).len() ==> #[trigger] broadcast_addresses_for(
                local,
            )[i].spec_port() == local.spec_port(),
{
}

// ---------------------------------------------------------------------------
// Paths
// ---------------------------------------------------------------------------

/// A path whose first step (after the root, for an absolute path) is `..`
/// is refused as a traversal.
pub proof fn law_leading_parent_is_traversal(cs: Seq<ComponentModel>)
    requires
        (cs.len() > 0 && cs[0] == ComponentModel::ParentDir) || (cs.len() > 1 && cs[0]
            == ComponentModel::RootDir && cs[1] == ComponentModel::ParentDir),
    ensures
        normalize_components(cs) == NormalizeModel::Traversal,
{
    let empty = Seq::<ComponentModel>::empty();
    assert(normalize_components(empty) == NormalizeModel::Normalized(false, Seq::<Seq<char>>::empty()));
    assert(cs.take(1).drop_last() =~= empty);
    assert(cs.take(1).last() == cs[0]);
    if cs[0] == ComponentModel::ParentDir {
        assert(normalize_components(cs.take(1)) == NormalizeModel::Traversal);
        lemma_normalize_failure_persists(cs, 1);
    } else {
        assert(normalize_components(cs.take(1)) == NormalizeModel::Normalized(true, Seq::<Seq<char>>::empty()));
        assert(cs.take(2).drop_last() =~= cs.take(1));
        assert(cs.take(2).last() == cs[1]);
        assert(normalize_components(cs.take(2)) == NormalizeModel::Traversal);
        lemma_normalize_failure_persists(cs, 2);
    }
}

/// A plain name: not empty, not `.` or `..`, without `/`.
pub open spec fn is_plain_name(n: Seq<char>) -> bool {
    &&& n.len() > 0
    &&& n != dot()
    &&& n != dot_dot()
    &&& !n.contains('/')
}

proof fn lemma_pieces_have_no_slash(s: Seq<char>)
    ensures
        forall|i: int| 0 <= i < split_slash(s).len() ==> !(#[trigger] split_slash(s)[i]).contains('/'),
        split_slash(s).len() >= 1,
    decreases s.len(),
{
    if s.len() > 0 {
        lemma_pieces_have_no_slash(s.drop_last());
        let prev = split_slash(s.drop_last());
        if s.last() != '/' {
            let last = prev.last().push(s.last());
            assert forall|i: int| 0 <= i < split_slash(s).len() implies !(#[trigger] split_slash(s)[i]).contains('/') by {
                if i == prev.len() - 1 {
                    assert(split_slash(s)[i] == last);
                    if last.contains('/') {
                        let j = choose|j: int| 0 <= j < last.len() && last[j] == '/';
                        if j < prev.last().len() {
                            assert(prev.last()[j] == '/');
                            assert(prev.last().contains('/'));
                        }
                    }
                } else {
                    assert(split_slash(s)[i] == prev[i]);
                }
            }
        } else {
            assert forall|i: int| 0 <= i < split_slash(s).len() implies !(#[trigger] split_slash(s)[i]).contains('/') by {
                if i < prev.len() {
                    assert(split_slash(s)[i] == prev[i]);
                } else {
                    assert(split_slash(s)[i] =~= Seq::<char>::empty());
                }
            }
        }
    }
}

proof fn lemma_piece_names_are_plain(pieces: Seq<Seq<char>>)
    requires
        forall|i: int| 0 <= i < pieces.len() ==> !(#[trigger] pieces[i]).contains('/'),
    ensures
        forall|i: int|
            0 <= i < pieces_components(pieces).len() && (#[trigger] pieces_components(pieces)[i]) is Normal
                ==> is_plain_name(pieces_components(pieces)[i]->Normal_0),
    decreases pieces.len(),
{
    if pieces.len() > 0 {
        let prev = pieces.drop_last();
        lemma_piece_names_are_plain(prev);
        let last = piece_component(pieces.last(), pieces.len() == 1);
        assert(pieces_components(pieces) == pieces_components(prev) + last);
        assert forall|i: int|
            0 <= i < pieces_components(pieces).len() && (#[trigger] pieces_components(pieces)[i]) is Normal
                implies is_plain_name(pieces_components(pieces)[i]->Normal_0) by {
            if i < pieces_components(prev).len() {
                assert(pieces_components(pieces)[i] == pieces_components(prev)[i]);
            } else {
                assert(!pieces[pieces.len() - 1].contains('/'));
            }
        }
    }
}

proof fn lemma_normalized_names(cs: Seq<ComponentModel>)
    requires
        forall|i: int| 0 <= i < cs.len() && (#[trigger] cs[i]) is Normal ==> is_plain_name(cs[i]->Normal_0),
    ensures
        normalize_components(cs) matches NormalizeModel::Normalized(_, names) ==> forall|j: int|
            0 <= j < names.len() ==> is_plain_name(#[trigger] names[j]) && !has_forbidden_char(names[j]),
    decreases cs.len(),
{
    if cs.len() > 0 {
        let prev = cs.drop_last();
        assert forall|i: int| 0 <= i < prev.len() && (#[trigger] prev[i]) is Normal implies is_plain_name(
            prev[i]->Normal_0,
        ) by {
            assert(prev[i] == cs[i]);
        }
        lemma_normalized_names(prev);
        assert(cs[cs.len() - 1] == cs.last());
    }
}

/// Normalisation leaves only plain names: none is empty, `.` or `..`, or
/// holds `/` or a forbidden character.
pub proof fn law_normalized_names_are_plain(path: Seq<char>)
    ensures
        normalize_components(components(path)) matches NormalizeModel::Normalized(_, names) ==> forall|j: int|
            0 <= j < names.len() ==> is_plain_name(#[trigger] names[j]) && !has_forbidden_char(names[j]),
{
    lemma_pieces_have_no_slash(path);
    lemma_piece_names_are_plain(split_slash(path));
    let cs = components(path);
    let root = root_components(path);
    let rest = pieces_components(split_slash(path));
    assert forall|i: int| 0 <= i < cs.len() && (#[trigger] cs[i]) is Normal implies is_plain_name(
        cs[i]->Normal_0,
    ) by {
        if i >= root.len() {
            assert(cs[i] == rest[i - root.len()]);
        }
    }
    lemma_normalized_names(cs);
}

proof fn lemma_split_concat(a: Seq<char>, b: Seq<char>)
    ensures
        split_slash(a + seq!['/'] + b) == split_slash(a) + split_slash(b),
    decreases b.len(),
{
    let s = a + seq!['/'] + b;
    if b.len() == 0 {
        assert(s.drop_last() =~= a);
        assert(split_slash(b) =~= seq![Seq::<char>::empty()]);
        assert(split_slash(s) =~= split_slash(a) + split_slash(b));
    } else {
        let b0 = b.drop_last();
        lemma_split_concat(a, b0);
        assert(s.drop_last() =~= a + seq!['/'] + b0);
        assert(s.last() == b.last());
        lemma_pieces_have_no_slash(b0);
        let prev = split_slash(a) + split_slash(b0);
        if b.last() == '/' {
            assert(split_slash(s) =~= prev.push(Seq::<char>::empty()));
            assert(split_slash(b) =~= split_slash(b0).push(Seq::<char>::empty()));
        } else {
            let sb0 = split_slash(b0);
            assert(prev.last() == sb0.last());
            assert(split_slash(b) =~= sb0.update(sb0.len() - 1, sb0.last().push(b.last())));
        }
        assert(split_slash(s) =~= split_slash(a) + split_slash(b));
    }
}

proof fn lemma_split_without_slash(y: Seq<char>)
    requires
        !y.contains('/'),
    ensures
        split_slash(y) == seq![y],
    decreases y.len(),
{
    if y.len() > 0 {
        let y0 = y.drop_last();
        assert(!y0.contains('/')) by {
            if y0.contains('/') {
                let j = choose|j: int| 0 <= j < y0.len() && y0[j] == '/';
                assert(y[j] == '/');
            }
        }
        lemma_split_without_slash(y0);
        assert(y.last() != '/') by {
            assert(y[y.len() - 1] == y.last());
        }
        assert(y0.push(y.last()) =~= y);
    } else {
        assert(y =~= Seq::<char>::empty());
    }
}

proof fn lemma_split_joined(names: Seq<Seq<char>>)
    requires
        names.len() >= 1,
        forall|i: int| 0 <= i < names.len() ==> !(#[trigger] names[i]).contains('/'),
    ensures
        split_slash(join_names(names)) == names,
    decreases names.len(),
{
    if names.len() == 1 {
        lemma_split_without_slash(names[0]);
        assert(seq![names[0]] =~= names);
    } else {
        let prev = names.drop_last();
        assert forall|i: int| 0 <= i < prev.len() implies !(#[trigger] prev[i]).contains('/') by {
            assert(prev[i] == names[i]);
        }
        lemma_split_joined(prev);
        lemma_split_concat(join_names(prev), names.last());
        lemma_split_without_slash(names.last());
        assert(prev + seq![names.last()] =~= names);
    }
}

proof fn lemma_join_starts_with_first(names: Seq<Seq<char>>)
    requires
        names.len() >= 1,
        names[0].len() > 0,
    ensures
        join_names(names).len() > 0,
        join_names(names)[0] == names[0][0],
    decreases names.len(),
{
    if names.len() > 1 {
        let prev = names.drop_last();
        assert(prev[0] == names[0]);
        lemma_join_starts_with_first(prev);
    }
}

/// The components plain names stand for.
spec fn normals(names: Seq<Seq<char>>) -> Seq<ComponentModel> {
    names.map_values(|n: Seq<char>| ComponentModel::Normal(n))
}

proof fn lemma_plain_pieces(lead: Seq<Seq<char>>, names: Seq<Seq<char>>)
    requires
        lead.len() <= 1,
        lead.len() == 1 ==> lead[0].len() == 0,
        forall|i: int| 0 <= i < names.len() ==> is_plain_name(#[trigger] names[i]),
    ensures
        pieces_components(lead + names) == normals(names),
    decreases names.len(),
{
    if names.len() == 0 {
        assert(lead + names =~= lead);
        if lead.len() == 1 {
            assert(lead.drop_last() =~= Seq::<Seq<char>>::empty());
            assert(pieces_components(lead.drop_last()) =~= Seq::<ComponentModel>::empty());
            assert(lead.last().len() == 0);
            assert(piece_component(lead.last(), true) =~= Seq::<ComponentModel>::empty());
            assert(pieces_components(lead) =~= Seq::<ComponentModel>::empty());
        }
        assert(normals(names) =~= Seq::<ComponentModel>::empty());
    } else {
        let prev = names.drop_last();
        assert forall|i: int| 0 <= i < prev.len() implies is_plain_name(#[trigger] prev[i]) by {
            assert(prev[i] == names[i]);
        }
        lemma_plain_pieces(lead, prev);
        let all = lead + names;
        assert(all.drop_last() =~= lead + prev);
        assert(all.last() == names[names.len() - 1]);
        assert(is_plain_name(names[names.len() - 1]));
        assert(piece_component(all.last(), all.len() == 1) =~= seq![ComponentModel::Normal(all.last())]);
        assert(normals(names) =~= normals(prev).push(ComponentModel::Normal(names.last())));
    }
}

proof fn lemma_normalize_normals(abs: bool, names: Seq<Seq<char>>)
    requires
        forall|i: int| 0 <= i < names.len() ==> !has_forbidden_char(#[trigger] names[i]),
    ensures
        normalize_components(
            (if abs { seq![ComponentModel::RootDir] } else { Seq::empty() }) + normals(names),
        ) == NormalizeModel::Normalized(abs, names),
    decreases names.len(),
{
    let lead: Seq<ComponentModel> = if abs { seq![ComponentModel::RootDir] } else { Seq::empty() };
    if names.len() == 0 {
        assert(normals(names) =~= Seq::<ComponentModel>::empty());
        assert(lead + normals(names) =~= lead);
        assert(names =~= Seq::<Seq<char>>::empty());
        let none = Seq::<ComponentModel>::empty();
        assert(normalize_components(none) == NormalizeModel::Normalized(false, Seq::<Seq<char>>::empty()));
        if abs {
            assert(lead.drop_last() =~= none);
            assert(lead.last() == ComponentModel::RootDir);
            assert(normalize_components(lead) == NormalizeModel::Normalized(true, Seq::<Seq<char>>::empty()));
        } else {
            assert(lead =~= none);
        }
    } else {
        let prev = names.drop_last();
        assert forall|i: int| 0 <= i < prev.len() implies !has_forbidden_char(#[trigger] prev[i]) by {
            assert(prev[i] == names[i]);
        }
        lemma_normalize_normals(abs, prev);
        let cs = lead + normals(names);
        assert(cs.drop_last() =~= lead + normals(prev));
        assert(cs.last() == ComponentModel::Normal(names[names.len() - 1]));
        assert(!has_forbidden_char(names[names.len() - 1]));
        assert(prev.push(names.last()) =~= names);
    }
}

/// Normalising a normalised path gives it back: its text has the same
/// components, and they normalise to the same names.
pub proof fn law_normalization_is_idempotent(path: Seq<char>)
    ensures
        normalize_components(components(path)) matches NormalizeModel::Normalized(abs, names)
            ==> normalize_components(components(render_path(abs, names))) == NormalizeModel::Normalized(
            abs,
            names,
        ),
{
    if let NormalizeModel::Normalized(abs, names) = normalize_components(components(path)) {
        law_normalized_names_are_plain(path);
        let text = render_path(abs, names);
        let empty = Seq::<char>::empty();
        // The pieces between slashes: the names, after an empty piece for
        // the leading `/`.
        let lead: Seq<Seq<char>> = if abs { seq![empty] } else { Seq::empty() };
        if names.len() > 0 {
            lemma_split_joined(names);
            if abs {
                lemma_split_concat(empty, join_names(names));
                assert(empty + seq!['/'] + join_names(names) =~= text);
                assert(split_slash(empty) =~= seq![empty]);
            }
            assert(split_slash(text) =~= lead + names);
        } else {
            if abs {
                assert(text =~= seq!['/']);
                assert(text.drop_last() =~= empty);
                assert(split_slash(empty) =~= seq![empty]);
                assert(split_slash(text.drop_last()) =~= seq![empty]);
                assert(text.last() == '/');
                assert(split_slash(text) =~= seq![empty, empty]);
            } else {
                assert(text =~= empty);
                assert(split_slash(text) =~= seq![empty]);
            }
            let none = Seq::<ComponentModel>::empty();
            let no_pieces = Seq::<Seq<char>>::empty();
            assert(pieces_components(no_pieces) =~= none);
            assert(piece_component(empty, true) =~= none);
            assert(piece_component(empty, false) =~= none);
            assert(seq![empty].drop_last() =~= no_pieces);
            assert(pieces_components(seq![empty]) =~= none);
            if abs {
                assert(seq![empty, empty].drop_last() =~= seq![empty]);
                assert(pieces_components(seq![empty, empty]) =~= none);
            }
            assert(pieces_components(split_slash(text)) =~= none);
            assert(normals(names) =~= Seq::<ComponentModel>::empty());
        }
        if names.len() > 0 {
            lemma_plain_pieces(lead, names);
        }
        assert(pieces_components(split_slash(text)) == normals(names));
        if abs {
            assert(text[0] == '/');
        } else if text.len() > 0 {
            lemma_join_starts_with_first(names);
            assert(names[0].len() > 0);
            assert(names[0][0] != '/') by {
                assert(!names[0].contains('/'));
            }
        }
        lemma_normalize_normals(abs, names);
    }
}

/// An accepted path lies under one of the allowed roots.
pub proof fn law_accepted_paths_are_within_roots(roots: Seq<Seq<char>>, path: &str)
    ensures
        validate_path(roots, path) matches PathVerdict::Accepted(p) ==> within_roots(roots, p),
{
}

/// The filtered search results are a bounded selection of allowed inputs.
pub proof fn law_filtered_results_are_allowed(patterns: Seq<Seq<char>>, max: nat, results: Seq<Seq<char>>)
    ensures
        filtered_results(patterns, max, results).len() <= max,
        forall|i: int|
            0 <= i < filtered_results(patterns, max, results).len() ==> path_allowed(
                patterns,
                #[trigger] filtered_results(patterns, max, results)[i],
            ) && results.contains(filtered_results(patterns, max, results)[i]),
{
    let pred = |p: Seq<char>| path_allowed(patterns, p);
    let f = results.filter(pred);
    broadcast use vstd::seq_lib::group_filter_ensures;
    let out = filtered_results(patterns, max, results);
    assert forall|i: int| 0 <= i < out.len() implies path_allowed(patterns, #[trigger] out[i]) && results.contains(
        out[i],
    ) by {
        assert(out[i] == f[i]);
        assert(pred(f[i]));
        assert(f.contains(f[i]));
        results.lemma_filter_contains_rev(pred, f[i]);
    }
}

proof fn lemma_filter_keeps_all<A>(s: Seq<A>, pred: spec_fn(A) -> bool)
    requires
        forall|i: int| 0 <= i < s.len() ==> pred(#[trigger] s[i]),
    ensures
        s.filter(pred) == s,
    decreases s.len(),
{
    reveal(Seq::filter);
    if s.len() > 0 {
        let prev = s.drop_last();
        assert forall|i: int| 0 <= i < prev.len() implies pred(#[trigger] prev[i]) by {
            assert(prev[i] == s[i]);
        }
        lemma_filter_keeps_all(prev, pred);
        assert(pred(s[s.len() - 1]));
        assert(prev.push(s.last()) =~= s);
    }
}

/// Filtering the filtered results again changes nothing.
pub proof fn law_filtering_twice_changes_nothing(patterns: Seq<Seq<char>>, max: nat, results: Seq<Seq<char>>)
    ensures
        filtered_results(patterns, max, filtered_results(patterns, max, results)) == filtered_results(
            patterns,
            max,
            results,
        ),
{
    let pred = |p: Seq<char>| path_allowed(patterns, p);
    let once = filtered_results(patterns, max, results);
    law_filtered_results_are_allowed(patterns, max, results);
    assert forall|i: int| 0 <= i < once.len() implies pred(#[trigger] once[i]) by {
        assert(path_allowed(patterns, once[i]));
    }
    lemma_filter_keeps_all(once, pred);
}

/// Every search result is the path of an indexed entry that matches a
/// keyword, ignoring case.
pub proof fn law_search_results_match(entries: Seq<DirectoryEntry>, keywords: Seq<Seq<char>>)
    ensures
        forall|i: int|
            0 <= i < search_entries(entries, keywords).len() ==> path_matches(
                #[trigger] search_entries(entries, keywords)[i],
                keywords,
            ) && entry_paths(entries).contains(search_entries(entries, keywords)[i]),
{
    let pred = |p: Seq<char>| path_matches(p, keywords);
    let f = entry_paths(entries).filter(pred);
    broadcast use vstd::seq_lib::group_filter_ensures;
    assert forall|i: int| 0 <= i < f.len() implies path_matches(#[trigger] f[i], keywords) && entry_paths(
        entries,
    ).contains(f[i]) by {
        assert(pred(f[i]));
        assert(f.contains(f[i]));
        entry_paths(entries).lemma_filter_contains_rev(pred, f[i]);
    }
}

// ---------------------------------------------------------------------------
// Counters
// ---------------------------------------------------------------------------

/// No event makes the active connections outnumber those established.
pub proof fn law_active_never_exceeds_total(
    active: u64,
    total: u64,
    failed: u64,
    timed_out: u64,
    event: ConnectionEvent,
)
    requires
        active <= total,
        event == ConnectionEvent::Connected ==> total < u64::MAX,
        event == ConnectionEvent::Failed ==> failed < u64::MAX,
        event == ConnectionEvent::Timeout ==> timed_out < u64::MAX,
    ensures
        counters_after(active, total, failed, timed_out, event).0 <= counters_after(
            active,
            total,
            failed,
            timed_out,
            event,
        ).1,
{
}

// ---------------------------------------------------------------------------
// Choice of sources
// ---------------------------------------------------------------------------

/// Two selections of the nearest sources that both meet `nearest_order`
/// agree on their first `p` positions.
proof fn lemma_nearest_orders_agree(d: Seq<u64>, k: nat, o1: Seq<usize>, o2: Seq<usize>, p: int)
    requires
        nearest_order(d, k, o1),
        nearest_order(d, k, o2),
        0 <= p <= k,
    ensures
        forall|q: int| 0 <= q < p ==> #[trigger] o1[q] == o2[q],
    decreases p,
{
    if p > 0 {
        lemma_nearest_orders_agree(d, k, o1, o2, p - 1);
        let x = p - 1;
        let a = o1[x];
        let b = o2[x];
        if a != b {
            // `a` comes before `b` in the first selection's eyes ...
            if o1.contains(b) {
                let q = choose|q: int| 0 <= q < o1.len() && o1[q] == b;
                if q < x {
                    assert(o2[q] == b);
                    assert(nearer(d, o2[q] as int, o2[x] as int));
                }
                assert(q != x);
                assert(nearer(d, o1[x] as int, o1[q] as int));
            } else {
                assert(nearer(d, o1[x] as int, b as int));
            }
            // ... and `b` before `a` in the second's.
            if o2.contains(a) {
                let q = choose|q: int| 0 <= q < o2.len() && o2[q] == a;
                if q < x {
                    assert(o1[q] == a);
                    assert(nearer(d, o1[q] as int, o1[x] as int));
                }
                assert(q != x);
                assert(nearer(d, o2[x] as int, o2[q] as int));
            } else {
                assert(nearer(d, o2[x] as int, a as int));
            }
            assert(false);
        }
    }
}

/// The nearest sources are determined: two selections that both list the
/// `k` nearest sources nearest first, ties in listed order, are the same.
pub proof fn law_nearest_order_is_unique(d: Seq<u64>, k: nat, o1: Seq<usize>, o2: Seq<usize>)
    requires
        nearest_order(d, k, o1),
        nearest_order(d, k, o2),
    ensures
        o1 == o2,
{
    lemma_nearest_orders_agree(d, k, o1, o2, k as int);
    assert(o1 =~= o2);
}

// ---------------------------------------------------------------------------
// What each operation is for
// ---------------------------------------------------------------------------

/// The hidden-file rule looks at the file name alone: a search result in
/// which no forbidden pattern occurs, and whose file name (its last
/// component) does not start with `.`, is allowed, whatever its
/// directories are called (`/home/user/.local/share/notes.txt` included).
pub proof fn law_only_the_file_name_can_be_hidden(patterns: Seq<Seq<char>>, path: Seq<char>)
    requires
        !hits_forbidden_pattern(patterns, path),
        forall|f: Seq<char>| file_name(path) == Some(f) ==> f.len() == 0 || f[0] != '.',
    ensures
        path_allowed(patterns, path),
{
}

/// Two search results with the same file name, in neither of which a
/// forbidden pattern occurs, are both allowed or both refused: the
/// directories on the path play no part.
pub proof fn law_directories_do_not_decide(patterns: Seq<Seq<char>>, p: Seq<char>, q: Seq<char>)
    requires
        !hits_forbidden_pattern(patterns, p),
        !hits_forbidden_pattern(patterns, q),
        file_name(p) == file_name(q),
    ensures
        path_allowed(patterns, p) == path_allowed(patterns, q),
{
}

/// With no allowed roots every path is within them, so a path that is not
/// too long and normalises without error is accepted, as its normal form.
pub proof fn law_no_roots_admit_every_path(path: &str)
    ensures
        within_roots(Seq::empty(), path@),
        path.len() <= MAX_PATH_LENGTH ==> match normalize_components(components(path@)) {
            NormalizeModel::Normalized(abs, names) => validate_path(Seq::empty(), path) == PathVerdict::Accepted(
                render_path(abs, names),
            ),
            _ => true,
        },
{
}

/// A measured source is ranked by its measured distance, whatever it is
/// (zero included), and only an unmeasured one counts as the farthest: of
/// two sources `i` and `j`, where `i` was measured nearer than `j` was
/// measured, or `i` was measured below the largest distance and `j` could
/// not be measured, `j` is asked only when `i` is, and after it.
pub proof fn law_measured_sources_come_first(
    distances: Seq<Option<u64>>,
    k: nat,
    order: Seq<usize>,
    i: usize,
    j: usize,
)
    requires
        nearest_order(measured(distances), k, order),
        i < distances.len(),
        j < distances.len(),
        distances[i as int] matches Some(a) && (distances[j as int] matches Some(b) && a < b
            || distances[j as int] is None && a < u64::MAX),
        order.contains(j),
    ensures
        exists|p: int, q: int| 0 <= p < q < order.len() && order[p] == i && order[q] == j,
{
    let d = measured(distances);
    assert(d.len() == distances.len());
    assert(d[i as int] < d[j as int]);
    let q = choose|q: int| 0 <= q < order.len() && order[q] == j;
    if !order.contains(i) {
        assert(nearer(d, order[q] as int, i as int));
        assert(false);
    }
    let p = choose|p: int| 0 <= p < order.len() && order[p] == i;
    if q < p {
        assert(nearer(d, order[q] as int, order[p] as int));
        assert(false);
    }
    assert(p != q);
    assert(0 <= p < q < order.len() && order[p] == i && order[q] == j);
}

proof fn lemma_disconnect_is_filter(cs: Seq<ConnectionState>, addr: GatewayAddr, i: int)
    requires
        distinct_peers(cs),
        0 <= i < cs.len(),
        cs[i].remote_addr == addr,
    ensures
        cs.remove(i) == cs.filter(|c: ConnectionState| c.remote_addr != addr),
    decreases cs.len(),
{
    let pred = |c: ConnectionState| c.remote_addr != addr;
    reveal(Seq::filter);
    let prev = cs.drop_last();
    assert(distinct_peers(prev)) by {
        assert forall|a: int, b: int| 0 <= a < b < prev.len() implies #[trigger] prev[a].remote_addr
            != #[trigger] prev[b].remote_addr by {
            assert(prev[a] == cs[a] && prev[b] == cs[b]);
        }
    }
    if i == cs.len() - 1 {
        assert forall|t: int| 0 <= t < prev.len() implies pred(#[trigger] prev[t]) by {
            assert(prev[t] == cs[t]);
            assert(cs[t].remote_addr != cs[i].remote_addr);
        }
        lemma_filter_keeps_all(prev, pred);
        assert(!pred(cs.last()));
        assert(cs.remove(i) =~= prev);
    } else {
        lemma_disconnect_is_filter(prev, addr, i);
        assert(cs.last().remote_addr != addr) by {
            assert(cs[i].remote_addr != cs[cs.len() - 1].remote_addr);
        }
        assert(cs.remove(i) =~= prev.remove(i).push(cs.last()));
    }
}

/// Disconnecting removes exactly the peer at `addr`: the connections
/// afterwards are those before without the ones at `addr`, in order; there
/// is one fewer when the peer was known, and none fewer otherwise.
pub proof fn law_disconnect_removes_only_that_peer(cs: Seq<ConnectionState>, addr: GatewayAddr)
    requires
        distinct_peers(cs),
    ensures
        after_disconnect(cs, addr) == cs.filter(|c: ConnectionState| c.remote_addr != addr),
        (exists|i: int| 0 <= i < cs.len() && #[trigger] cs[i].remote_addr == addr) ==> after_disconnect(
            cs,
            addr,
        ).len() == cs.len() - 1,
        (forall|i: int| 0 <= i < cs.len() ==> #[trigger] cs[i].remote_addr != addr) ==> after_disconnect(
            cs,
            addr,
        ) == cs,
{
    let pred = |c: ConnectionState| c.remote_addr != addr;
    match peer_index(cs, addr) {
        Some(i) => {
            lemma_disconnect_is_filter(cs, addr, i);
        },
        None => {
            lemma_filter_keeps_all(cs, pred);
        },
    }
}

} // verus!
