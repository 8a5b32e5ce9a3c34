//! The gateway registry: what a gateway knows of the other gateways in its
//! network.

use std::collections::HashMap;

use vstd::prelude::*;
use vstd::std_specs::iter::IteratorSpec;

use crate::address::GatewayAddr;
use crate::runtime::{new_uuid, now_nanos};

verus! {

broadcast use vstd::std_specs::hash::group_hash_axioms;

/// Nanoseconds per second.
pub const NANOS_PER_SECOND: i128 = 1_000_000_000;

/// One gateway as the registry records it.
#[derive(Debug)]
pub struct RegistryEntry {
    /// Unique identifier (the 128 bits of a UUID).
    pub id: u128,
    /// Gateway name.
    pub name: String,
    /// Socket address.
    pub address: GatewayAddr,
    /// When the gateway was last seen, in nanoseconds since the Unix epoch.
    pub last_seen: i128,
}

impl Clone for RegistryEntry {
    fn clone(&self) -> (r: Self)
        ensures
            r == *self,
    {
        RegistryEntry {
            id: self.id,
            name: self.name.clone(),
            address: self.address,
            last_seen: self.last_seen,
        }
    }
}

/// `e` as last seen at time `now`.
pub open spec fn seen_at(e: RegistryEntry, now: i128) -> RegistryEntry {
    RegistryEntry { last_seen: now, ..e }
}

impl RegistryEntry {
    /// An entry with a fresh random identifier, last seen now.
    pub fn new(name: String, address: GatewayAddr) -> (r: Self)
        ensures
            r.name == name,
            r.address == address,
            (r.id >> 76u128) & 0xfu128 == 4,
            (r.id >> 62u128) & 0x3u128 == 2,
    {
        let id = new_uuid();
        let now = now_nanos();
        RegistryEntry::with_id(id, name, address, now)
    }

    /// An entry with the given identifier and time of last sight.
    pub fn with_id(id: u128, name: String, address: GatewayAddr, last_seen: i128) -> (r: Self)
        ensures
            r == (RegistryEntry { id, name, address, last_seen }),
    {
        RegistryEntry { id, name, address, last_seen }
    }

    /// Records that the gateway was seen now.
    pub fn update_last_seen(&mut self)
        ensures
            exists|now: i128| *final(self) == #[trigger] seen_at(*old(self), now),
    {
        let now = now_nanos();
        self.update_last_seen_at(now);
    }

    /// Records that the gateway was seen at `now`.
    pub fn update_last_seen_at(&mut self, now: i128)
        ensures
            *final(self) == seen_at(*old(self), now),
    {
        self.last_seen = now;
    }
}

/// `m` with `e` added at `now`, unless `e` is the local gateway.
pub open spec fn register_one(m: Map<u128, RegistryEntry>, local_id: u128, e: RegistryEntry, now: i128) -> Map<
    u128,
    RegistryEntry,
> {
    if e.id == local_id {
        m
    } else {
        m.insert(e.id, seen_at(e, now))
    }
}

/// An entry last seen before `now - timeout_seconds` has expired.
pub open spec fn is_expired_entry(e: RegistryEntry, now: i128, timeout_seconds: i64) -> bool {
    e.last_seen < now - timeout_seconds * NANOS_PER_SECOND
}

/// The identifiers of the expired entries of `m`.
pub open spec fn expired_ids(m: Map<u128, RegistryEntry>, now: i128, timeout_seconds: i64) -> Set<u128> {
    Set::new(|k: u128| m.contains_key(k) && is_expired_entry(m[k], now, timeout_seconds))
}

/// `v` holds exactly the entries of `m`, each once.
pub open spec fn lists_entries(v: Seq<RegistryEntry>, m: Map<u128, RegistryEntry>) -> bool {
    &&& v.len() == m.dom().len()
    &&& forall|i: int|
        0 <= i < v.len() ==> m.contains_key(#[trigger] v[i].id) && m[v[i].id] == v[i]
    &&& forall|k: u128| #[trigger] m.contains_key(k) ==> exists|i: int| 0 <= i < v.len() && v[i].id == k
    &&& forall|i: int, j: int| 0 <= i < j < v.len() ==> #[trigger] v[i].id != #[trigger] v[j].id
}

/// The registry of known gateways. The local gateway is kept apart and never
/// appears among the entries; each entry is filed under its own identifier.
pub struct Registry {
    entries: HashMap<u128, RegistryEntry>,
    local_entry: RegistryEntry,
}

impl Registry {
    #[verifier::type_invariant]
    closed spec fn well_formed(self) -> bool {
        &&& forall|k: u128| #[trigger]
            self.entries@.contains_key(k) ==> self.entries@[k].id == k
        &&& !self.entries@.contains_key(self.local_entry.id)
    }

    /// The known gateways, by identifier.
    pub closed spec fn entries(&self) -> Map<u128, RegistryEntry> {
        self.entries@
    }

    /// The local gateway.
    pub closed spec fn local(&self) -> RegistryEntry {
        self.local_entry
    }

    /// An empty registry for a local gateway with a fresh identifier.
    pub fn new(local_name: String, local_address: GatewayAddr) -> (r: Self)
        ensures
            r.entries() == Map::<u128, RegistryEntry>::empty(),
            r.local().name == local_name,
            r.local().address == local_address,
            (r.local().id >> 76u128) & 0xfu128 == 4,
            (r.local().id >> 62u128) & 0x3u128 == 2,
    {
        Registry::with_local_entry(RegistryEntry::new(local_name, local_address))
    }

    /// An empty registry for the given local gateway.
    pub fn with_local_entry(local_entry: RegistryEntry) -> (r: Self)
        ensures
            r.entries() == Map::<u128, RegistryEntry>::empty(),
            r.local() == local_entry,
    {
        Registry { entries: HashMap::new(), local_entry }
    }

    /// The local gateway.
    pub fn local_entry(&self) -> (r: &RegistryEntry)
        ensures
            *r == self.local(),
    {
        &self.local_entry
    }

    /// Adds a gateway, or refreshes it when it is known, marking it seen now.
    /// The local gateway is never added. Returns whether the gateway is new.
    pub fn add_or_update(&mut self, entry: RegistryEntry) -> (r: bool)
        ensures
            final(self).local() == old(self).local(),
            r == (entry.id != old(self).local().id && !old(self).entries().contains_key(entry.id)),
            exists|now: i128|
                final(self).entries() == #[trigger] register_one(
                    old(self).entries(),
                    old(self).local().id,
                    entry,
                    now,
                ),
    {
        let now = now_nanos();
        self.add_or_update_at(entry, now)
    }

    /// Adds a gateway, or refreshes it when it is known, marking it seen at
    /// `now`. The local gateway is never added. Returns whether the gateway
    /// is new.
    pub fn add_or_update_at(&mut self, entry: RegistryEntry, now: i128) -> (r: bool)
        ensures
            final(self).local() == old(self).local(),
            r == (entry.id != old(self).local().id && !old(self).entries().contains_key(entry.id)),
            final(self).entries() == register_one(old(self).entries(), old(self).local().id, entry, now),
    {
        proof {
            use_type_invariant(&*self);
        }
        if entry.id == self.local_entry.id {
            return false;
        }
        let mut entry = entry;
        entry.update_last_seen_at(now);
        let is_new = !self.entries.contains_key(&entry.id);
        let id = entry.id;
        let mut entries = HashMap::new();
        std::mem::swap(&mut entries, &mut self.entries);
        entries.insert(id, entry);
        self.entries = entries;
        is_new
    }

    /// The gateway with identifier `id`, if it is known.
    pub fn get(&self, id: &u128) -> (r: Option<&RegistryEntry>)
        ensures
            r is Some <==> self.entries().contains_key(*id),
            r matches Some(e) ==> *e == self.entries()[*id] && e.id == *id && *id != self.local().id,
    {
        proof {
            use_type_invariant(self);
        }
        self.entries.get(id)
    }

    /// A known gateway at `address`, if there is one. When several share
    /// the address, which one is returned is left open.
    pub fn get_by_address(&self, address: &GatewayAddr) -> (r: Option<&RegistryEntry>)
        ensures
            r is None <==> !exists|k: u128|
                #[trigger] self.entries().contains_key(k) && self.entries()[k].address == *address,
            r matches Some(e) ==> {
                &&& self.entries().contains_key(e.id)
                &&& self.entries()[e.id] == *e
                &&& e.address == *address
            },
    {
        proof {
            use_type_invariant(self);
        }
        let ghost m = self.entries@;
        let ks = self.key_list();
        let n = ks.len();
        let mut i: usize = 0;
        while i < n
            invariant
                m == self.entries@,
                n == ks.len(),
                i <= n,
                ks@.to_set() == m.dom(),
                forall|k: u128| #[trigger] m.contains_key(k) ==> m[k].id == k,
                forall|j: int| 0 <= j < i ==> m[#[trigger] ks@[j]].address != *address,
            decreases n - i,
        {
            assert(ks@.to_set().contains(ks@[i as int]));
            let e = self.entries.get(&ks[i]).unwrap();
            if e.address == *address {
                assert(m.contains_key(e.id));
                return Some(e);
            }
            i = i + 1;
        }
        assert forall|k: u128| #[trigger] m.contains_key(k) implies m[k].address != *address by {
            assert(ks@.to_set().contains(k));
            let j = choose|j: int| 0 <= j < ks@.len() && ks@[j] == k;
            assert(m[ks@[j]].address != *address);
        }
        None
    }

    /// Removes the gateway with identifier `id`; returns whether it was known.
    pub fn remove(&mut self, id: &u128) -> (r: bool)
        ensures
            r == old(self).entries().contains_key(*id),
            final(self).entries() == old(self).entries().remove(*id),
            final(self).local() == old(self).local(),
    {
        proof {
            use_type_invariant(&*self);
        }
        let mut entries = HashMap::new();
        std::mem::swap(&mut entries, &mut self.entries);
        let removed = entries.remove(id).is_some();
        self.entries = entries;
        removed
    }

    /// All known gateways (the local one is not among them), each once.
    pub fn all_entries(&self) -> (r: Vec<RegistryEntry>)
        ensures
            lists_entries(r@, self.entries()),
            forall|i: int| 0 <= i < r@.len() ==> #[trigger] r@[i].id != self.local().id,
    {
        proof {
            use_type_invariant(self);
        }
        self.entries_except_inner(None)
    }

    /// All known gateways except the one with identifier `exclude_id`.
    pub fn entries_except(&self, exclude_id: &u128) -> (r: Vec<RegistryEntry>)
        ensures
            lists_entries(r@, self.entries().remove(*exclude_id)),
            forall|i: int| 0 <= i < r@.len() ==> #[trigger] r@[i].id != self.local().id,
    {
        proof {
            use_type_invariant(self);
        }
        self.entries_except_inner(Some(*exclude_id))
    }

    /// The identifiers of the known gateways, each once.
    fn key_list(&self) -> (ks: Vec<u128>)
        ensures
            ks@.no_duplicates(),
            ks@.to_set() == self.entries@.dom(),
            ks@.len() == self.entries@.dom().len(),
    {
        let ghost v = vstd::std_specs::hash::spec_keys_iter(&self.entries).remaining();
        let mut ks: Vec<u128> = Vec::new();
        let ghost mut count: int = 0;
        for k in it: self.entries.keys()
            invariant
                it.seq() == v,
                count == it.index(),
                ks@ == v.unref().take(it.index() as int),
        {
            ks.push(*k);
            proof {
                count = count + 1;
                assert(ks@ =~= v.unref().take(it.index() as int + 1));
            }
        }
        assert(ks@ =~= v.unref());
        proof {
            assert forall|i: int, j: int| 0 <= i < ks@.len() && 0 <= j < ks@.len() && i != j implies ks@[i]
                != ks@[j] by {
                assert(v[i] != v[j]);
            }
        }
        ks
    }

    fn entries_except_inner(&self, exclude: Option<u128>) -> (r: Vec<RegistryEntry>)
        requires
            forall|k: u128| #[trigger] self.entries@.contains_key(k) ==> self.entries@[k].id == k,
        ensures
            lists_entries(
                r@,
                match exclude {
                    Some(x) => self.entries@.remove(x),
                    None => self.entries@,
                },
            ),
    {
        let ghost m = self.entries@;
        let ghost target = match exclude {
            Some(x) => m.remove(x),
            None => m,
        };
        let ks = self.key_list();
        let n = ks.len();
        let mut out: Vec<RegistryEntry> = Vec::new();
        let mut i: usize = 0;
        assert(ks@.take(0).to_set() =~= Set::<u128>::empty());
        assert(entry_ids(out@).to_set() =~= Set::<u128>::empty());
        while i < n
            invariant
                m == self.entries@,
                forall|k: u128| #[trigger] m.contains_key(k) ==> m[k].id == k,
                target == (match exclude {
                    Some(x) => m.remove(x),
                    None => m,
                }),
                n == ks.len(),
                i <= n,
                ks@.no_duplicates(),
                ks@.to_set() == m.dom(),
                entry_ids(out@).no_duplicates(),
                entry_ids(out@).to_set() == ks@.take(i as int).to_set().filter(
                    |k: u128| target.contains_key(k),
                ),
                forall|a: int|
                    0 <= a < out@.len() ==> target.contains_key(#[trigger] out@[a].id)
                        && target[out@[a].id] == out@[a],
            decreases n - i,
        {
            let k = ks[i];
            assert(ks@.to_set().contains(k));
            let keep = match exclude {
                Some(x) => k != x,
                None => true,
            };
            let ghost before = out@;
            proof {
                lemma_take_push_to_set(ks@, i as int);
                assert(!ks@.take(i as int).to_set().contains(k)) by {
                    if ks@.take(i as int).to_set().contains(k) {
                        let j = choose|j: int| 0 <= j < i && ks@.take(i as int)[j] == k;
                        assert(ks@[j] == ks@[i as int]);
                    }
                }
            }
            if keep {
                let e = self.entries.get(&k).unwrap().clone();
                out.push(e);
                proof {
                    assert(entry_ids(out@) =~= entry_ids(before).push(k));
                    entry_ids(before).lemma_push_to_set_commute(k);
                    assert(!entry_ids(before).to_set().contains(k));
                    lemma_push_no_duplicates(entry_ids(before), k);
                }
            }
            assert(entry_ids(out@).to_set() =~= ks@.take(i as int + 1).to_set().filter(
                |k: u128| target.contains_key(k),
            ));
            i = i + 1;
        }
        proof {
            assert(ks@.take(n as int) =~= ks@);
            assert(entry_ids(out@).to_set() =~= target.dom());
            lemma_listing_from_ids(out@, target);
        }
        out
    }

    /// Removes the gateways not seen for more than `timeout_seconds`
    /// seconds; returns how many were removed.
    pub fn cleanup_expired(&mut self, timeout_seconds: i64) -> (r: usize)
        requires
            -(i64::MAX / 1000) <= timeout_seconds <= i64::MAX / 1000,
        ensures
            final(self).local() == old(self).local(),
            exists|now: i128| {
                &&& final(self).entries() == old(self).entries().remove_keys(
                    #[trigger] expired_ids(old(self).entries(), now, timeout_seconds),
                )
                &&& r == expired_ids(old(self).entries(), now, timeout_seconds).len()
            },
    {
        let now = now_nanos();
        self.cleanup_expired_at(now, timeout_seconds)
    }

    /// Removes the gateways last seen before `now - timeout_seconds`;
    /// returns how many were removed.
    pub fn cleanup_expired_at(&mut self, now: i128, timeout_seconds: i64) -> (r: usize)
        ensures
            final(self).local() == old(self).local(),
            final(self).entries() == old(self).entries().remove_keys(
                expired_ids(old(self).entries(), now, timeout_seconds),
            ),
            r == expired_ids(old(self).entries(), now, timeout_seconds).len(),
    {
        proof {
            use_type_invariant(&*self);
        }
        let ghost m = self.entries@;
        let ghost expired = expired_ids(m, now, timeout_seconds);
        assert(-9223372036854775808 * 1000000000 <= timeout_seconds * 1000000000 <= 9223372036854775807
            * 1000000000) by (nonlinear_arith)
            requires
                -9223372036854775808 <= timeout_seconds <= 9223372036854775807,
        ;
        let shift: i128 = (timeout_seconds as i128) * NANOS_PER_SECOND;
        // The cutoff `now - shift`, when it fits in `i128`; when it does not,
        // every entry lies after it (a positive shift) or before it.
        let cutoff: Option<i128> = now.checked_sub(shift);
        let ks = self.key_list();
        let nk = ks.len();
        let mut ids: Vec<u128> = Vec::new();
        let mut j: usize = 0;
        assert(ks@.take(0).to_set() =~= Set::<u128>::empty());
        assert(ids@.to_set() =~= Set::<u128>::empty());
        while j < nk
            invariant
                m == self.entries@,
                expired == expired_ids(m, now, timeout_seconds),
                shift == timeout_seconds * NANOS_PER_SECOND,
                cutoff matches Some(c) ==> c == now - shift,
                cutoff is None ==> (now - shift < i128::MIN || now - shift > i128::MAX),
                nk == ks.len(),
                j <= nk,
                ks@.no_duplicates(),
                ks@.to_set() == m.dom(),
                ids@.no_duplicates(),
                ids@.to_set() == ks@.take(j as int).to_set().filter(|k: u128| expired.contains(k)),
            decreases nk - j,
        {
            let k = ks[j];
            assert(ks@.to_set().contains(k));
            let e = self.entries.get(&k).unwrap();
            let ghost before = ids@;
            proof {
                lemma_take_push_to_set(ks@, j as int);
                assert(!ks@.take(j as int).to_set().contains(k)) by {
                    if ks@.take(j as int).to_set().contains(k) {
                        let t = choose|t: int| 0 <= t < j && ks@.take(j as int)[t] == k;
                        assert(ks@[t] == ks@[j as int]);
                    }
                }
            }
            let stale = match cutoff {
                Some(c) => e.last_seen < c,
                None => shift < 0,
            };
            if stale {
                ids.push(k);
                proof {
                    before.lemma_push_to_set_commute(k);
                    assert(!before.to_set().contains(k));
                    lemma_push_no_duplicates(before, k);
                }
            }
            assert(ids@.to_set() =~= ks@.take(j as int + 1).to_set().filter(|k: u128| expired.contains(k)));
            j = j + 1;
        }
        proof {
            assert(ks@.take(nk as int) =~= ks@);
            assert(ids@.to_set() =~= expired);
            ids@.unique_seq_to_set();
        }
        let mut entries = HashMap::new();
        std::mem::swap(&mut entries, &mut self.entries);
        let n = ids.len();
        let mut i: usize = 0;
        assert(ids@.take(0).to_set() =~= Set::<u128>::empty());
        assert(entries@ =~= m.remove_keys(ids@.take(0).to_set()));
        while i < n
            invariant
                n == ids.len(),
                i <= n,
                entries@ == m.remove_keys(ids@.take(i as int).to_set()),
            decreases n - i,
        {
            entries.remove(&ids[i]);
            proof {
                assert(ids@.take(i as int + 1) =~= ids@.take(i as int).push(ids@[i as int]));
                ids@.take(i as int).lemma_push_to_set_commute(ids@[i as int]);
            }
            assert(entries@ =~= m.remove_keys(ids@.take(i as int + 1).to_set()));
            i = i + 1;
        }
        assert(ids@.take(n as int) =~= ids@);
        self.entries = entries;
        n
    }

    /// The number of known gateways.
    pub fn size(&self) -> (r: usize)
        ensures
            self.entries().dom().finite(),
            r == self.entries().len(),
    {
        proof {
            use_type_invariant(self);
        }
        self.entries.len()
    }

    /// No gateway is known.
    pub fn is_empty(&self) -> (r: bool)
        ensures
            r == (self.entries().len() == 0),
    {
        self.entries.is_empty()
    }
}

/// The identifiers of a list of entries.
pub open spec fn entry_ids(v: Seq<RegistryEntry>) -> Seq<u128> {
    v.map_values(|e: RegistryEntry| e.id)
}

proof fn lemma_take_push_to_set(s: Seq<u128>, i: int)
    requires
        0 <= i < s.len(),
    ensures
        s.take(i + 1).to_set() == s.take(i).to_set().insert(s[i]),
{
    assert(s.take(i + 1) =~= s.take(i).push(s[i]));
    s.take(i).lemma_push_to_set_commute(s[i]);
}

proof fn lemma_push_no_duplicates(s: Seq<u128>, x: u128)
    requires
        s.no_duplicates(),
        !s.contains(x),
    ensures
        s.push(x).no_duplicates(),
{
    assert forall|a: int, b: int| 0 <= a < s.push(x).len() && 0 <= b < s.push(x).len() && a != b implies s.push(
        x,
    )[a] != s.push(x)[b] by {
        if a < s.len() && b < s.len() {
        } else if a < s.len() {
            assert(s.contains(s[a]));
        } else {
            assert(s.contains(s[b]));
        }
    }
}

/// A list of entries of `target` whose identifiers are distinct and cover
/// `target` lists it.
proof fn lemma_listing_from_ids(v: Seq<RegistryEntry>, target: Map<u128, RegistryEntry>)
    requires
        entry_ids(v).no_duplicates(),
        entry_ids(v).to_set() == target.dom(),
        forall|a: int| 0 <= a < v.len() ==> target.contains_key(#[trigger] v[a].id) && target[v[a].id] == v[a],
    ensures
        lists_entries(v, target),
{
    let ids = entry_ids(v);
    ids.unique_seq_to_set();
    assert forall|k: u128| #[trigger] target.contains_key(k) implies exists|i: int| 0 <= i < v.len() && v[i].id == k by {
        assert(ids.to_set().contains(k));
        let i = choose|i: int| 0 <= i < ids.len() && ids[i] == k;
        assert(v[i].id == k);
    }
    assert forall|i: int, j: int| 0 <= i < j < v.len() implies #[trigger] v[i].id != #[trigger] v[j].id by {
        assert(ids[i] != ids[j]);
    }
}

} // verus!
