//! The integer side of performance monitoring: benchmark settings, network
//! traffic counters and connection counters.

use vstd::prelude::*;

use crate::address::GatewayAddr;
use crate::registry::{expired_ids, register_one, Registry, RegistryEntry};
use crate::runtime::{new_uuid, now_nanos};
use crate::text::{decimal, decimal_string};

verus! {

/// Settings of a benchmark run.
#[derive(Debug, Clone, Copy)]
pub struct PerformanceTestSuite {
    /// Concurrent workers.
    pub concurrency: usize,
    /// Length of the run, in seconds.
    pub duration_seconds: u64,
    /// Packet size, in bytes.
    pub packet_size: usize,
    /// Pause between operations, in milliseconds.
    pub test_interval_ms: u64,
}

impl Default for PerformanceTestSuite {
    fn default() -> (r: Self)
        ensures
            r.concurrency == 10,
            r.duration_seconds == 30,
            r.packet_size == 1024,
            r.test_interval_ms == 10,
    {
        PerformanceTestSuite {
            concurrency: 10,
            duration_seconds: 30,
            packet_size: 1024,
            test_interval_ms: 10,
        }
    }
}

/// A change in a connection's life.
#[derive(Debug, Clone, Copy, PartialEq, Eq, Structural)]
pub enum ConnectionEvent {
    /// The connection was established.
    Connected,
    /// The connection was closed.
    Disconnected,
    /// The connection could not be established.
    Failed,
    /// The connection timed out.
    Timeout,
}

/// Traffic counters.
#[derive(Debug, Clone, Copy, PartialEq, Eq, Structural)]
pub struct NetworkCounters {
    pub bytes_sent: u64,
    pub bytes_received: u64,
    pub packets_sent: u64,
    pub packets_received: u64,
    pub send_errors: u64,
    pub receive_errors: u64,
}

impl NetworkCounters {
    /// All counters at zero.
    pub fn new() -> (r: Self)
        ensures
            r == (NetworkCounters {
                bytes_sent: 0,
                bytes_received: 0,
                packets_sent: 0,
                packets_received: 0,
                send_errors: 0,
                receive_errors: 0,
            }),
    {
        NetworkCounters {
            bytes_sent: 0,
            bytes_received: 0,
            packets_sent: 0,
            packets_received: 0,
            send_errors: 0,
            receive_errors: 0,
        }
    }

    /// One packet of `bytes` bytes was sent.
    pub fn record_send(&mut self, bytes: u64)
        requires
            old(self).bytes_sent + bytes <= u64::MAX,
            old(self).packets_sent < u64::MAX,
        ensures
            *final(self) == (NetworkCounters {
                bytes_sent: (old(self).bytes_sent + bytes) as u64,
                packets_sent: (old(self).packets_sent + 1) as u64,
                ..*old(self)
            }),
    {
        self.bytes_sent = self.bytes_sent + bytes;
        self.packets_sent = self.packets_sent + 1;
    }

    /// One packet of `bytes` bytes was received.
    pub fn record_receive(&mut self, bytes: u64)
        requires
            old(self).bytes_received + bytes <= u64::MAX,
            old(self).packets_received < u64::MAX,
        ensures
            *final(self) == (NetworkCounters {
                bytes_received: (old(self).bytes_received + bytes) as u64,
                packets_received: (old(self).packets_received + 1) as u64,
                ..*old(self)
            }),
    {
        self.bytes_received = self.bytes_received + bytes;
        self.packets_received = self.packets_received + 1;
    }

    /// A send (when `is_send`) or a receive failed.
    pub fn record_error(&mut self, is_send: bool)
        requires
            is_send ==> old(self).send_errors < u64::MAX,
            !is_send ==> old(self).receive_errors < u64::MAX,
        ensures
            is_send ==> *final(self) == (NetworkCounters {
                send_errors: (old(self).send_errors + 1) as u64,
                ..*old(self)
            }),
            !is_send ==> *final(self) == (NetworkCounters {
                receive_errors: (old(self).receive_errors + 1) as u64,
                ..*old(self)
            }),
    {
        if is_send {
            self.send_errors = self.send_errors + 1;
        } else {
            self.receive_errors = self.receive_errors + 1;
        }
    }
}

/// Connection counters. A connection is active from `Connected` until it is
/// closed or times out, so there are never more active connections than
/// connections established.
#[derive(Debug, Clone, Copy)]
pub struct ConnectionCounters {
    active: u64,
    total: u64,
    failed: u64,
    timed_out: u64,
}

/// The counters after `event`, as the monitor records it: an active count
/// never drops below zero.
pub open spec fn counters_after(
    active: u64,
    total: u64,
    failed: u64,
    timed_out: u64,
    event: ConnectionEvent,
) -> (u64, u64, u64, u64) {
    match event {
        ConnectionEvent::Connected => ((active + 1) as u64, (total + 1) as u64, failed, timed_out),
        ConnectionEvent::Disconnected => (
            if active > 0 { (active - 1) as u64 } else { active },
            total,
            failed,
            timed_out,
        ),
        ConnectionEvent::Failed => (active, total, (failed + 1) as u64, timed_out),
        ConnectionEvent::Timeout => (
            if active > 0 { (active - 1) as u64 } else { active },
            total,
            failed,
            (timed_out + 1) as u64,
        ),
    }
}

impl ConnectionCounters {
    #[verifier::type_invariant]
    closed spec fn well_formed(self) -> bool {
        self.active <= self.total
    }

    /// Connections currently active.
    pub closed spec fn active_count(&self) -> u64 {
        self.active
    }

    /// Connections established so far.
    pub closed spec fn total_count(&self) -> u64 {
        self.total
    }

    /// Connection attempts that failed.
    pub closed spec fn failed_count(&self) -> u64 {
        self.failed
    }

    /// Connections that timed out.
    pub closed spec fn timeout_count(&self) -> u64 {
        self.timed_out
    }

    /// All counters at zero.
    pub fn new() -> (r: Self)
        ensures
            r.active_count() == 0,
            r.total_count() == 0,
            r.failed_count() == 0,
            r.timeout_count() == 0,
    {
        ConnectionCounters { active: 0, total: 0, failed: 0, timed_out: 0 }
    }

    /// Records a connection event.
    pub fn record(&mut self, event: ConnectionEvent)
        requires
            event == ConnectionEvent::Connected ==> old(self).total_count() < u64::MAX,
            event == ConnectionEvent::Failed ==> old(self).failed_count() < u64::MAX,
            event == ConnectionEvent::Timeout ==> old(self).timeout_count() < u64::MAX,
        ensures
            (
                final(self).active_count(),
                final(self).total_count(),
                final(self).failed_count(),
                final(self).timeout_count(),
            ) == counters_after(
                old(self).active_count(),
                old(self).total_count(),
                old(self).failed_count(),
                old(self).timeout_count(),
                event,
            ),
            final(self).active_count() <= final(self).total_count(),
    {
        proof {
            use_type_invariant(&*self);
        }
        let mut active = self.active;
        let mut total = self.total;
        let mut failed = self.failed;
        let mut timed_out = self.timed_out;
        match event {
            ConnectionEvent::Connected => {
                active = active + 1;
                total = total + 1;
            },
            ConnectionEvent::Disconnected => {
                if active > 0 {
                    active = active - 1;
                }
            },
            ConnectionEvent::Failed => {
                failed = failed + 1;
            },
            ConnectionEvent::Timeout => {
                timed_out = timed_out + 1;
                if active > 0 {
                    active = active - 1;
                }
            },
        }
        *self = ConnectionCounters { active, total, failed, timed_out };
    }

    /// Connections currently active.
    pub fn active(&self) -> (r: u64)
        ensures
            r == self.active_count(),
    {
        self.active
    }

    /// Connections established so far.
    pub fn total(&self) -> (r: u64)
        ensures
            r == self.total_count(),
    {
        self.total
    }

    /// Connection attempts that failed.
    pub fn failed(&self) -> (r: u64)
        ensures
            r == self.failed_count(),
    {
        self.failed
    }

    /// Connections that timed out.
    pub fn timed_out(&self) -> (r: u64)
        ensures
            r == self.timeout_count(),
    {
        self.timed_out
    }

    /// Connections established and no longer active.
    pub fn closed(&self) -> (r: u64)
        ensures
            r == self.total_count() - self.active_count(),
    {
        proof {
            use_type_invariant(self);
        }
        self.total - self.active
    }

    /// Connection attempts so far, established or failed (`None` when the
    /// sum exceeds `u64`).
    pub fn attempts(&self) -> (r: Option<u64>)
        ensures
            r matches Some(n) ==> n == self.total_count() + self.failed_count(),
            r is None <==> self.total_count() + self.failed_count() > u64::MAX,
    {
        self.total.checked_add(self.failed)
    }
}

/// Memory readings, in bytes: the process's current and peak use and the
/// system's total and available memory. The peak is never below the
/// current use.
#[derive(Debug, Clone, Copy)]
pub struct MemoryCounters {
    current: u64,
    peak: u64,
    total: u64,
    available: u64,
}

impl MemoryCounters {
    #[verifier::type_invariant]
    closed spec fn well_formed(self) -> bool {
        self.current <= self.peak
    }

    /// The process's current memory use.
    pub closed spec fn current_usage(&self) -> u64 {
        self.current
    }

    /// The highest memory use seen.
    pub closed spec fn peak_usage(&self) -> u64 {
        self.peak
    }

    /// The system's total memory.
    pub closed spec fn system_total(&self) -> u64 {
        self.total
    }

    /// The system's available memory.
    pub closed spec fn system_available(&self) -> u64 {
        self.available
    }

    /// No reading yet: everything at zero.
    pub fn new() -> (r: Self)
        ensures
            r.current_usage() == 0,
            r.peak_usage() == 0,
            r.system_total() == 0,
            r.system_available() == 0,
    {
        MemoryCounters { current: 0, peak: 0, total: 0, available: 0 }
    }

    /// Records a reading given in KiB: the process's use when it could be
    /// read, and the system's total and available memory. The peak follows
    /// the highest use seen.
    pub fn record_sample(&mut self, process_kib: Option<u64>, total_kib: u64, available_kib: u64)
        requires
            process_kib matches Some(k) ==> k * 1024 <= u64::MAX,
            total_kib * 1024 <= u64::MAX,
            available_kib * 1024 <= u64::MAX,
        ensures
            match process_kib {
                Some(k) => {
                    &&& final(self).current_usage() == k * 1024
                    &&& final(self).peak_usage() == if k * 1024 > old(self).peak_usage() {
                        k * 1024
                    } else {
                        old(self).peak_usage() as int
                    }
                },
                None => {
                    &&& final(self).current_usage() == old(self).current_usage()
                    &&& final(self).peak_usage() == old(self).peak_usage()
                },
            },
            final(self).system_total() == total_kib * 1024,
            final(self).system_available() == available_kib * 1024,
            final(self).current_usage() <= final(self).peak_usage(),
    {
        proof {
            use_type_invariant(&*self);
        }
        let mut current = self.current;
        let mut peak = self.peak;
        if let Some(k) = process_kib {
            current = k * 1024;
            if current > peak {
                peak = current;
            }
        }
        *self = MemoryCounters { current, peak, total: total_kib * 1024, available: available_kib * 1024 };
    }

    /// The process's current memory use.
    pub fn current(&self) -> (r: u64)
        ensures
            r == self.current_usage(),
    {
        self.current
    }

    /// The highest memory use seen.
    pub fn peak(&self) -> (r: u64)
        ensures
            r == self.peak_usage(),
    {
        self.peak
    }

    /// The system's total memory.
    pub fn total(&self) -> (r: u64)
        ensures
            r == self.system_total(),
    {
        self.total
    }

    /// The system's available memory.
    pub fn available(&self) -> (r: u64)
        ensures
            r == self.system_available(),
    {
        self.available
    }
}

/// Every this many iterations the registry workload also runs a cleanup.
pub const WORKLOAD_CLEANUP_EVERY: u32 = 1000;

/// The registry operations `registry_workload` performs for `iterations`
/// iterations: an addition and a lookup each, and a cleanup on every
/// iteration whose number is a multiple of `WORKLOAD_CLEANUP_EVERY`.
pub open spec fn workload_operations(iterations: nat) -> nat {
    2 * iterations + (iterations + (WORKLOAD_CLEANUP_EVERY - 1)) as nat / (WORKLOAD_CLEANUP_EVERY as nat)
}

/// Gateways silent for more than this many seconds are dropped by the
/// cleanups of the registry workload.
pub const WORKLOAD_TIMEOUT_SECONDS: i64 = 300;

/// `e` is the gateway iteration `i` of the registry workload adds: named
/// `test_gateway_<i>`, at `192.168.1.(i mod 255)`, port `55555 + i mod 1000`.
pub open spec fn workload_entry_is(e: RegistryEntry, i: nat) -> bool {
    &&& e.name@ == "test_gateway_"@ + decimal(i)
    &&& e.address == (GatewayAddr::V4 {
        a: 192,
        b: 168,
        c: 1,
        d: (i % 255) as u8,
        port: (55555 + i % 1000) as u16,
    })
}

/// Every entry of `es` is the gateway its iteration adds.
pub open spec fn workload_entries(es: Seq<RegistryEntry>) -> bool {
    forall|i: int| 0 <= i < es.len() ==> #[trigger] workload_entry_is(es[i], i as nat)
}

/// The registry entries after iteration `i` of the workload: `e` is added
/// at `add_time`, and on every `WORKLOAD_CLEANUP_EVERY`-th iteration the
/// gateways expired at `cleanup_time` are dropped.
pub open spec fn workload_round(
    m: Map<u128, RegistryEntry>,
    local_id: u128,
    e: RegistryEntry,
    i: nat,
    add_time: i128,
    cleanup_time: i128,
) -> Map<u128, RegistryEntry> {
    let added = register_one(m, local_id, e, add_time);
    if i % (WORKLOAD_CLEANUP_EVERY as nat) == 0 {
        added.remove_keys(expired_ids(added, cleanup_time, WORKLOAD_TIMEOUT_SECONDS))
    } else {
        added
    }
}

/// The registry entries after the workload's iterations, iteration `i`
/// adding `es[i]` at `adds[i]` and cleaning up at `cleanups[i]`.
pub open spec fn workload_after(
    m: Map<u128, RegistryEntry>,
    local_id: u128,
    es: Seq<RegistryEntry>,
    adds: Seq<i128>,
    cleanups: Seq<i128>,
) -> Map<u128, RegistryEntry>
    decreases es.len(),
{
    if es.len() == 0 {
        m
    } else {
        workload_round(
            workload_after(m, local_id, es.drop_last(), adds.drop_last(), cleanups.drop_last()),
            local_id,
            es.last(),
            (es.len() - 1) as nat,
            adds.last(),
            cleanups.last(),
        )
    }
}

/// Iteration `i` of the registry workload: adds the gateway `id` of this
/// iteration at `add_time`, looks it up by address, and on every
/// `WORKLOAD_CLEANUP_EVERY`-th iteration drops the gateways expired at
/// `cleanup_time`. Returns the entry added.
fn workload_step(registry: &mut Registry, i: u32, id: u128, add_time: i128, cleanup_time: i128) -> (e: Ghost<
    RegistryEntry,
>)
    ensures
        final(registry).local() == old(registry).local(),
        e@.id == id,
        workload_entry_is(e@, i as nat),
        final(registry).entries() == workload_round(
            old(registry).entries(),
            old(registry).local().id,
            e@,
            i as nat,
            add_time,
            cleanup_time,
        ),
{
    let mut name = String::from_str("test_gateway_");
    let number = decimal_string(i as u64);
    name.append(number.as_str());
    let host = (i % 255) as u8;
    let port = 55555u16 + (i % 1000) as u16;
    let entry = RegistryEntry::with_id(id, name, GatewayAddr::v4(192, 168, 1, host, port), add_time);
    let ghost added = entry;
    let address = entry.address;
    registry.add_or_update_at(entry, add_time);
    let _ = registry.get_by_address(&address);
    if i % WORKLOAD_CLEANUP_EVERY == 0 {
        registry.cleanup_expired_at(cleanup_time, WORKLOAD_TIMEOUT_SECONDS);
    }
    Ghost(added)
}

proof fn lemma_workload_operations_step(i: u32)
    ensures
        workload_operations(i as nat + 1) == workload_operations(i as nat) + if i % WORKLOAD_CLEANUP_EVERY
            == 0 {
            3int
        } else {
            2int
        },
{
    assert((i + 1 + 999) / 1000 == (i + 999) / 1000 + if i % 1000 == 0 { 1int } else { 0int })
        by (nonlinear_arith);
}

/// The registry workload with given identifiers and times: iteration `i`
/// adds the gateway `test_gateway_<i>` with identifier `ids[i]` at
/// `192.168.1.(i mod 255)`, port `55555 + i mod 1000`, marked seen at
/// `add_times[i]`, looks it up by address, and every
/// `WORKLOAD_CLEANUP_EVERY` iterations (from the first) drops the gateways
/// expired at `cleanup_times[i]`. Returns how many registry operations were
/// performed.
pub fn registry_workload_at(
    registry: &mut Registry,
    ids: &Vec<u128>,
    add_times: &Vec<i128>,
    cleanup_times: &Vec<i128>,
) -> (ops: u64)
    requires
        ids@.len() <= u32::MAX,
        add_times@.len() == ids@.len(),
        cleanup_times@.len() == ids@.len(),
    ensures
        ops == workload_operations(ids@.len()),
        final(registry).local() == old(registry).local(),
        exists|es: Seq<RegistryEntry>|
            {
                &&& es.len() == ids@.len()
                &&& workload_entries(es)
                &&& forall|i: int| 0 <= i < es.len() ==> (#[trigger] es[i]).id == ids@[i]
                &&& final(registry).entries() == #[trigger] workload_after(
                    old(registry).entries(),
                    old(registry).local().id,
                    es,
                    add_times@,
                    cleanup_times@,
                )
            },
{
    let ghost start = registry.entries();
    let ghost local_id = registry.local().id;
    let ghost mut es: Seq<RegistryEntry> = Seq::empty();
    let n = ids.len();
    let mut ops: u64 = 0;
    let mut i: usize = 0;
    assert(add_times@.take(0) =~= Seq::<i128>::empty());
    assert(cleanup_times@.take(0) =~= Seq::<i128>::empty());
    while i < n
        invariant
            n == ids@.len(),
            n <= u32::MAX,
            add_times@.len() == n,
            cleanup_times@.len() == n,
            i <= n,
            ops == workload_operations(i as nat),
            registry.local() == old(registry).local(),
            local_id == old(registry).local().id,
            start == old(registry).entries(),
            es.len() == i,
            workload_entries(es),
            forall|j: int| 0 <= j < es.len() ==> (#[trigger] es[j]).id == ids@[j],
            registry.entries() == workload_after(
                start,
                local_id,
                es,
                add_times@.take(i as int),
                cleanup_times@.take(i as int),
            ),
        decreases n - i,
    {
        let e = workload_step(registry, i as u32, ids[i], add_times[i], cleanup_times[i]);
        proof {
            lemma_workload_operations_step(i as u32);
            let next = es.push(e@);
            assert(next.drop_last() =~= es);
            assert(add_times@.take(i as int + 1).drop_last() =~= add_times@.take(i as int));
            assert(cleanup_times@.take(i as int + 1).drop_last() =~= cleanup_times@.take(i as int));
            assert forall|j: int| 0 <= j < next.len() implies #[trigger] workload_entry_is(next[j], j as nat) by {
                if j < es.len() {
                    assert(next[j] == es[j]);
                }
            }
            assert forall|j: int| 0 <= j < next.len() implies (#[trigger] next[j]).id == ids@[j] by {
                if j < es.len() {
                    assert(next[j] == es[j]);
                }
            }
            es = next;
        }
        if i % 1000 == 0 {
            ops = ops + 3;
        } else {
            ops = ops + 2;
        }
        i = i + 1;
    }
    assert(add_times@.take(n as int) =~= add_times@);
    assert(cleanup_times@.take(n as int) =~= cleanup_times@);
    ops
}

/// Exercises the registry as `registry_workload_at` does, for `iterations`
/// iterations, with fresh random identifiers and the clock's times: the
/// registry ends as the workload leaves it for some identifiers (each a
/// version-4 UUID) and some times. Returns how many registry operations
/// were performed.
pub fn registry_workload(registry: &mut Registry, iterations: u32) -> (ops: u64)
    ensures
        ops == workload_operations(iterations as nat),
        final(registry).local() == old(registry).local(),
        exists|es: Seq<RegistryEntry>, adds: Seq<i128>, cleanups: Seq<i128>|
            {
                &&& es.len() == iterations
                &&& adds.len() == iterations
                &&& cleanups.len() == iterations
                &&& workload_entries(es)
                &&& forall|i: int|
                    0 <= i < es.len() ==> (#[trigger] es[i]).id >> 76u128 & 0xfu128 == 4 && es[i].id
                        >> 62u128 & 0x3u128 == 2
                &&& final(registry).entries() == #[trigger] workload_after(
                    old(registry).entries(),
                    old(registry).local().id,
                    es,
                    adds,
                    cleanups,
                )
            },
{
    let ghost start = registry.entries();
    let ghost local_id = registry.local().id;
    let ghost mut es: Seq<RegistryEntry> = Seq::empty();
    let ghost mut adds: Seq<i128> = Seq::empty();
    let ghost mut cleanups: Seq<i128> = Seq::empty();
    let mut ops: u64 = 0;
    let mut i: u32 = 0;
    while i < iterations
        invariant
            i <= iterations,
            ops == workload_operations(i as nat),
            registry.local() == old(registry).local(),
            local_id == old(registry).local().id,
            start == old(registry).entries(),
            es.len() == i,
            adds.len() == i,
            cleanups.len() == i,
            workload_entries(es),
            forall|j: int|
                0 <= j < es.len() ==> (#[trigger] es[j]).id >> 76u128 & 0xfu128 == 4 && es[j].id >> 62u128
                    & 0x3u128 == 2,
            registry.entries() == workload_after(start, local_id, es, adds, cleanups),
        decreases iterations - i,
    {
        let id = new_uuid();
        let add_time = now_nanos();
        let cleanup_time = if i % WORKLOAD_CLEANUP_EVERY == 0 {
            now_nanos()
        } else {
            0
        };
        let e = workload_step(registry, i, id, add_time, cleanup_time);
        proof {
            lemma_workload_operations_step(i);
            let next = es.push(e@);
            assert(next.drop_last() =~= es);
            assert(adds.push(add_time).drop_last() =~= adds);
            assert(cleanups.push(cleanup_time).drop_last() =~= cleanups);
            assert forall|j: int| 0 <= j < next.len() implies #[trigger] workload_entry_is(next[j], j as nat) by {
                if j < es.len() {
                    assert(next[j] == es[j]);
                }
            }
            assert forall|j: int|
                0 <= j < next.len() implies (#[trigger] next[j]).id >> 76u128 & 0xfu128 == 4 && next[j].id
                >> 62u128 & 0x3u128 == 2 by {
                if j < es.len() {
                    assert(next[j] == es[j]);
                }
            }
            es = next;
            adds = adds.push(add_time);
            cleanups = cleanups.push(cleanup_time);
        }
        if i % WORKLOAD_CLEANUP_EVERY == 0 {
            ops = ops + 3;
        } else {
            ops = ops + 2;
        }
        i = i + 1;
    }
    ops
}

} // verus!
