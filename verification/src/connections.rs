//! Bookkeeping of the peers a gateway hears from.

use vstd::prelude::*;

use crate::address::GatewayAddr;
use crate::registry::NANOS_PER_SECOND;
use crate::runtime::now_nanos;

verus! {

/// Connections idle for longer than this many seconds are dropped by the
/// periodic cleanup.
pub const CONNECTION_IDLE_TIMEOUT: i64 = 300;

/// `a / b` rounded toward zero, for `b > 0`.
pub open spec fn div_toward_zero(a: int, b: int) -> int {
    if a >= 0 {
        a / b
    } else {
        -((-a) / b)
    }
}

/// Whole seconds elapsed from `from` to `to` (nanosecond stamps), rounded
/// toward zero.
pub open spec fn whole_seconds_between(from: i128, to: i128) -> int {
    div_toward_zero(to - from, NANOS_PER_SECOND as int)
}

/// One peer and when it was last heard from.
#[derive(Clone, Copy, Debug)]
pub struct ConnectionState {
    /// The peer's address.
    pub remote_addr: GatewayAddr,
    /// Last activity, in nanoseconds since the Unix epoch.
    pub last_active: i128,
    /// When the peer was first heard from, in nanoseconds since the Unix epoch.
    pub established_at: i128,
}

impl ConnectionState {
    /// A connection first heard from now.
    pub fn new(remote_addr: GatewayAddr) -> (r: Self)
        ensures
            r.remote_addr == remote_addr,
            r.last_active == r.established_at,
    {
        ConnectionState::new_at(remote_addr, now_nanos())
    }

    /// A connection first heard from at `now`.
    pub fn new_at(remote_addr: GatewayAddr, now: i128) -> (r: Self)
        ensures
            r == (ConnectionState { remote_addr, last_active: now, established_at: now }),
    {
        ConnectionState { remote_addr, last_active: now, established_at: now }
    }

    /// Records activity now.
    pub fn update_activity(&mut self)
        ensures
            final(self).remote_addr == old(self).remote_addr,
            final(self).established_at == old(self).established_at,
    {
        let now = now_nanos();
        self.update_activity_at(now);
    }

    /// Records activity at `now`.
    pub fn update_activity_at(&mut self, now: i128)
        ensures
            *final(self) == (ConnectionState { last_active: now, ..*old(self) }),
    {
        self.last_active = now;
    }

    /// More than `timeout_seconds` whole seconds have passed since the last
    /// activity.
    pub fn is_expired(&self, timeout_seconds: i64) -> (r: bool)
        ensures
            exists|now: i128| r == (whole_seconds_between(self.last_active, now) > timeout_seconds),
    {
        let now = now_nanos();
        self.is_expired_at(now, timeout_seconds)
    }

    /// More than `timeout_seconds` whole seconds have passed from the last
    /// activity to `now`.
    pub fn is_expired_at(&self, now: i128, timeout_seconds: i64) -> (r: bool)
        ensures
            r == (whole_seconds_between(self.last_active, now) > timeout_seconds),
    {
        match now.checked_sub(self.last_active) {
            Some(diff) => {
                let seconds: i128 = if diff >= 0 {
                    diff / NANOS_PER_SECOND
                } else if diff > -NANOS_PER_SECOND {
                    0
                } else {
                    // `-diff` may not fit; `-(diff + 1 s)` does.
                    let rest = -(diff + NANOS_PER_SECOND);
                    assert(rest / NANOS_PER_SECOND + 1 == (-diff) / (NANOS_PER_SECOND as int)) by (nonlinear_arith)
                        requires
                            rest == -diff - 1_000_000_000,
                            rest >= 0,
                            NANOS_PER_SECOND == 1_000_000_000,
                    ;
                    -(rest / NANOS_PER_SECOND) - 1
                };
                seconds > (timeout_seconds as i128)
            },
            None => {
                // The difference lies beyond `i128`, so its whole seconds lie
                // beyond `i64`: past every timeout, or before every one.
                proof {
                    let d = now - self.last_active;
                    if d > 0 {
                        assert(d / 1_000_000_000 > i64::MAX) by (nonlinear_arith)
                            requires
                                d > 170141183460469231731687303715884105727int,
                        ;
                    } else {
                        assert((-d) / 1_000_000_000 > i64::MAX) by (nonlinear_arith)
                            requires
                                -d > 170141183460469231731687303715884105728int,
                        ;
                    }
                }
                now > self.last_active
            },
        }
    }
}

/// The connections of `cs` not idle for more than `timeout_seconds` at
/// time `now`, in order.
pub open spec fn still_active(cs: Seq<ConnectionState>, now: i128, timeout_seconds: i64) -> Seq<ConnectionState> {
    cs.filter(|c: ConnectionState| !(whole_seconds_between(c.last_active, now) > timeout_seconds))
}

/// No two connections share an address.
pub open spec fn distinct_peers(cs: Seq<ConnectionState>) -> bool {
    forall|i: int, j: int|
        0 <= i < j < cs.len() ==> #[trigger] cs[i].remote_addr != #[trigger] cs[j].remote_addr
}

/// The position of the connection with address `addr`, if any.
pub open spec fn peer_index(cs: Seq<ConnectionState>, addr: GatewayAddr) -> Option<int> {
    if exists|i: int| 0 <= i < cs.len() && #[trigger] cs[i].remote_addr == addr {
        Some(choose|i: int| 0 <= i < cs.len() && #[trigger] cs[i].remote_addr == addr)
    } else {
        None
    }
}

/// The connections after activity of the peer at `addr` at time `now`: a
/// known peer has its last activity moved to `now`, an unknown one is
/// appended.
pub open spec fn after_activity(cs: Seq<ConnectionState>, addr: GatewayAddr, now: i128) -> Seq<ConnectionState> {
    match peer_index(cs, addr) {
        Some(i) => cs.update(i, ConnectionState { last_active: now, ..cs[i] }),
        None => cs.push(ConnectionState { remote_addr: addr, last_active: now, established_at: now }),
    }
}

/// The connections after the one with address `addr`, if any, is dropped.
pub open spec fn after_disconnect(cs: Seq<ConnectionState>, addr: GatewayAddr) -> Seq<ConnectionState> {
    match peer_index(cs, addr) {
        Some(i) => cs.remove(i),
        None => cs,
    }
}

/// The connections known to a gateway, at most one per peer address, in
/// the order they were first heard from.
pub struct ConnectionTable {
    connections: Vec<ConnectionState>,
}

impl ConnectionTable {
    #[verifier::type_invariant]
    closed spec fn well_formed(self) -> bool {
        distinct_peers(self.connections@)
    }

    /// The connections, in the order they were first heard from.
    pub closed spec fn states(&self) -> Seq<ConnectionState> {
        self.connections@
    }

    /// An empty table.
    pub fn new() -> (r: Self)
        ensures
            r.states() == Seq::<ConnectionState>::empty(),
    {
        ConnectionTable { connections: Vec::new() }
    }

    fn find(&self, addr: &GatewayAddr) -> (r: Option<usize>)
        ensures
            match r {
                Some(i) => i < self.connections@.len() && self.connections@[i as int].remote_addr == *addr,
                None => forall|i: int|
                    0 <= i < self.connections@.len() ==> self.connections@[i].remote_addr != *addr,
            },
    {
        let n = self.connections.len();
        let mut i: usize = 0;
        while i < n
            invariant
                n == self.connections@.len(),
                i <= n,
                forall|j: int| 0 <= j < i ==> self.connections@[j].remote_addr != *addr,
            decreases n - i,
        {
            if self.connections[i].remote_addr == *addr {
                return Some(i);
            }
            i = i + 1;
        }
        None
    }

    /// Records activity of the peer at `addr` at time `now`: a known peer has
    /// its last activity moved to `now`, an unknown one is appended. Returns
    /// whether the peer was new (a connection was established).
    pub fn record_activity_at(&mut self, addr: GatewayAddr, now: i128) -> (r: bool)
        ensures
            r == (peer_index(old(self).states(), addr) is None),
            final(self).states() == after_activity(old(self).states(), addr, now),
    {
        proof {
            use_type_invariant(&*self);
        }
        let ghost s = self.connections@;
        match self.find(&addr) {
            Some(i) => {
                proof {
                    lemma_peer_index_unique(s, addr, i as int);
                }
                let mut conns = Vec::new();
                std::mem::swap(&mut conns, &mut self.connections);
                let mut c = conns[i];
                c.update_activity_at(now);
                conns.set(i, c);
                proof {
                    assert forall|a: int, b: int|
                        0 <= a < b < conns@.len() implies #[trigger] conns@[a].remote_addr
                        != #[trigger] conns@[b].remote_addr by {
                        assert(s[a].remote_addr != s[b].remote_addr);
                    }
                }
                self.connections = conns;
                false
            },
            None => {
                let mut conns = Vec::new();
                std::mem::swap(&mut conns, &mut self.connections);
                conns.push(ConnectionState::new_at(addr, now));
                proof {
                    assert forall|a: int, b: int|
                        0 <= a < b < conns@.len() implies #[trigger] conns@[a].remote_addr
                        != #[trigger] conns@[b].remote_addr by {
                        if b < s.len() {
                            assert(s[a].remote_addr != s[b].remote_addr);
                        }
                    }
                }
                self.connections = conns;
                true
            },
        }
    }

    /// Records activity of the peer at `addr` now; returns whether the peer
    /// was new.
    pub fn record_activity(&mut self, addr: GatewayAddr) -> (r: bool)
        ensures
            r == (peer_index(old(self).states(), addr) is None),
            exists|now: i128| final(self).states() == #[trigger] after_activity(old(self).states(), addr, now),
    {
        let now = now_nanos();
        self.record_activity_at(addr, now)
    }

    /// Drops the connections idle for more than `timeout_seconds` at time
    /// `now`, keeping the order of the others; returns how many were dropped.
    pub fn remove_expired_at(&mut self, now: i128, timeout_seconds: i64) -> (r: usize)
        ensures
            final(self).states() == still_active(old(self).states(), now, timeout_seconds),
            r == old(self).states().len() - final(self).states().len(),
    {
        proof {
            use_type_invariant(&*self);
        }
        let ghost s = self.connections@;
        let ghost keep = |c: ConnectionState| !(whole_seconds_between(c.last_active, now) > timeout_seconds);
        let n = self.connections.len();
        let mut kept: Vec<ConnectionState> = Vec::new();
        let mut i: usize = 0;
        assert(s.take(0) =~= Seq::<ConnectionState>::empty());
        assert(s.take(0).filter(keep) =~= Seq::<ConnectionState>::empty()) by {
            reveal(Seq::filter);
        }
        while i < n
            invariant
                n == s.len(),
                s == self.connections@,
                i <= n,
                keep == (|c: ConnectionState| !(whole_seconds_between(c.last_active, now) > timeout_seconds)),
                kept@ == s.take(i as int).filter(keep),
            decreases n - i,
        {
            let c = self.connections[i];
            assert(s.take(i as int + 1).drop_last() =~= s.take(i as int));
            assert(s.take(i as int + 1).filter(keep) == if keep(s[i as int]) {
                s.take(i as int).filter(keep).push(s[i as int])
            } else {
                s.take(i as int).filter(keep)
            }) by {
                reveal(Seq::filter);
            }
            if !c.is_expired_at(now, timeout_seconds) {
                kept.push(c);
            }
            i = i + 1;
        }
        assert(s.take(n as int) =~= s);
        proof {
            broadcast use vstd::seq_lib::group_filter_ensures;
            lemma_filter_keeps_distinct(s, keep);
        }
        let dropped = n - kept.len();
        self.connections = kept;
        dropped
    }

    /// Drops the connections idle for more than `timeout_seconds`; returns
    /// how many were dropped.
    pub fn remove_expired(&mut self, timeout_seconds: i64) -> (r: usize)
        ensures
            exists|now: i128|
                final(self).states() == #[trigger] still_active(old(self).states(), now, timeout_seconds),
            r == old(self).states().len() - final(self).states().len(),
    {
        let now = now_nanos();
        self.remove_expired_at(now, timeout_seconds)
    }

    /// Drops the connection with address `addr`; returns whether there was one.
    pub fn disconnect(&mut self, addr: &GatewayAddr) -> (r: bool)
        ensures
            r == (peer_index(old(self).states(), *addr) is Some),
            final(self).states() == after_disconnect(old(self).states(), *addr),
    {
        proof {
            use_type_invariant(&*self);
        }
        let ghost s = self.connections@;
        match self.find(addr) {
            Some(i) => {
                proof {
                    lemma_peer_index_unique(s, *addr, i as int);
                }
                let mut conns = Vec::new();
                std::mem::swap(&mut conns, &mut self.connections);
                conns.remove(i);
                proof {
                    assert forall|a: int, b: int|
                        0 <= a < b < conns@.len() implies #[trigger] conns@[a].remote_addr
                        != #[trigger] conns@[b].remote_addr by {
                        let a0 = if a < i { a } else { a + 1 };
                        let b0 = if b < i { b } else { b + 1 };
                        assert(conns@[a] == s[a0] && conns@[b] == s[b0]);
                        assert(s[a0].remote_addr != s[b0].remote_addr);
                    }
                }
                self.connections = conns;
                true
            },
            None => {
                proof {
                    assert(peer_index(s, *addr) is None);
                }
                false
            },
        }
    }

    /// The number of connections.
    pub fn len(&self) -> (r: usize)
        ensures
            r == self.states().len(),
    {
        self.connections.len()
    }

    /// A copy of all connections, in the order they were first heard from.
    pub fn all(&self) -> (r: Vec<ConnectionState>)
        ensures
            r@ == self.states(),
    {
        let n = self.connections.len();
        let mut out: Vec<ConnectionState> = Vec::new();
        let mut i: usize = 0;
        while i < n
            invariant
                n == self.connections@.len(),
                i <= n,
                out@ == self.connections@.take(i as int),
            decreases n - i,
        {
            out.push(self.connections[i]);
            assert(out@ =~= self.connections@.take(i as int + 1));
            i = i + 1;
        }
        assert(self.connections@.take(n as int) =~= self.connections@);
        out
    }

    /// Drops every connection.
    pub fn clear(&mut self)
        ensures
            final(self).states() == Seq::<ConnectionState>::empty(),
    {
        self.connections = Vec::new();
    }
}

proof fn lemma_peer_index_unique(s: Seq<ConnectionState>, addr: GatewayAddr, i: int)
    requires
        distinct_peers(s),
        0 <= i < s.len(),
        s[i].remote_addr == addr,
    ensures
        peer_index(s, addr) == Some(i),
{
    let j = choose|j: int| 0 <= j < s.len() && #[trigger] s[j].remote_addr == addr;
    if j < i {
        assert(s[j].remote_addr != s[i].remote_addr);
    } else if i < j {
        assert(s[i].remote_addr != s[j].remote_addr);
    }
}

proof fn lemma_filter_keeps_distinct(s: Seq<ConnectionState>, keep: spec_fn(ConnectionState) -> bool)
    requires
        distinct_peers(s),
    ensures
        distinct_peers(s.filter(keep)),
    decreases s.len(),
{
    reveal(Seq::filter);
    if s.len() > 0 {
        let prev = s.drop_last();
        assert(distinct_peers(prev));
        lemma_filter_keeps_distinct(prev, keep);
        if keep(s.last()) {
            let f = prev.filter(keep);
            broadcast use vstd::seq_lib::group_filter_ensures;
            assert forall|a: int| 0 <= a < f.len() implies f[a].remote_addr != s.last().remote_addr by {
                lemma_filter_member(prev, keep, a);
                let j = choose|j: int| 0 <= j < prev.len() && prev[j] == f[a];
                assert(s[j].remote_addr != s[s.len() - 1].remote_addr);
            }
            assert forall|a: int, b: int|
                0 <= a < b < f.push(s.last()).len() implies #[trigger] f.push(s.last())[a].remote_addr
                != #[trigger] f.push(s.last())[b].remote_addr by {
                if b < f.len() {
                    assert(f[a].remote_addr != f[b].remote_addr);
                }
            }
        }
    }
}

proof fn lemma_filter_member(s: Seq<ConnectionState>, keep: spec_fn(ConnectionState) -> bool, a: int)
    requires
        0 <= a < s.filter(keep).len(),
    ensures
        exists|j: int| 0 <= j < s.len() && s[j] == s.filter(keep)[a],
{
    assert(s.filter(keep).contains(s.filter(keep)[a]));
    s.lemma_filter_contains_rev(keep, s.filter(keep)[a]);
}

} // verus!
