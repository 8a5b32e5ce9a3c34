//! Choosing which gateways to ask for a cached file: the nearest few, by
//! measured network distance.

use vstd::prelude::*;
use vstd::set_lib::*;

use crate::address::GatewayAddr;
use crate::tokens::{file_request, UdpToken};

verus! {

/// At most this many sources are asked for one cached file.
pub const MAX_FILE_SOURCES: usize = 3;

/// Source `i` comes before source `j`: it is nearer, or as near and listed
/// earlier.
pub open spec fn nearer(d: Seq<u64>, i: int, j: int) -> bool {
    d[i] < d[j] || (d[i] == d[j] && i < j)
}

/// `order` lists the `k` sources nearest by `d`, nearest first, ties kept
/// in the order the sources were listed.
pub open spec fn nearest_order(d: Seq<u64>, k: nat, order: Seq<usize>) -> bool {
    &&& order.len() == k
    &&& forall|p: int| 0 <= p < order.len() ==> #[trigger] order[p] < d.len()
    &&& forall|p: int, q: int|
        0 <= p < q < order.len() ==> nearer(d, #[trigger] order[p] as int, #[trigger] order[q] as int)
    &&& forall|p: int, j: usize|
        #![trigger order[p], order.contains(j)]
        0 <= p < order.len() && j < d.len() && !order.contains(j) ==> nearer(d, order[p] as int, j as int)
}

/// A repetition-free sequence of fewer than `n` indices below `n` misses
/// one of them.
proof fn lemma_some_index_missing(order: Seq<usize>, n: nat)
    requires
        order.no_duplicates(),
        order.len() < n,
        n <= usize::MAX,
        forall|p: int| 0 <= p < order.len() ==> #[trigger] order[p] < n,
    ensures
        exists|j: usize| j < n && !order.contains(j),
{
    let ints = order.map_values(|x: usize| x as int);
    if forall|j: usize| j < n ==> #[trigger] order.contains(j) {
        assert forall|j: int| #[trigger] set_int_range(0, n as int).contains(j) implies ints.to_set().contains(j) by {
            assert(0 <= j < n);
            assert(order.contains(j as usize));
            let p = choose|p: int| 0 <= p < order.len() && order[p] == j as usize;
            assert(ints[p] == j);
        }
        assert(ints.no_duplicates()) by {
            assert forall|p: int, q: int| 0 <= p < ints.len() && 0 <= q < ints.len() && p != q implies ints[p]
                != ints[q] by {
                assert(order[p] != order[q]);
            }
        }
        ints.unique_seq_to_set();
        lemma_int_range(0, n as int);
        lemma_len_subset(set_int_range(0, n as int), ints.to_set());
    }
}

/// The positions of the `min(max, n)` sources nearest by `distances`,
/// nearest first; of two sources as near, the one listed first comes first.
pub fn nearest_sources(distances: &Vec<u64>, max: usize) -> (r: Vec<usize>)
    ensures
        nearest_order(distances@, if max < distances@.len() { max as nat } else { distances@.len() }, r@),
{
    let n = distances.len();
    let k = if max < n { max } else { n };
    let mut order: Vec<usize> = Vec::new();
    while order.len() < k
        invariant
            n == distances@.len(),
            k <= n,
            order.len() <= k,
            order@.no_duplicates(),
            forall|p: int| 0 <= p < order.len() ==> #[trigger] order@[p] < n,
            forall|p: int, q: int|
                0 <= p < q < order.len() ==> nearer(distances@, #[trigger] order@[p] as int, #[trigger] order@[q] as int),
            forall|p: int, j: usize|
                #![trigger order@[p], order@.contains(j)]
                0 <= p < order.len() && j < n && !order@.contains(j) ==> nearer(
                    distances@,
                    order@[p] as int,
                    j as int,
                ),
        decreases k - order.len(),
    {
        proof {
            lemma_some_index_missing(order@, n as nat);
        }
        let ghost missing = choose|j: usize| j < n && !order@.contains(j);
        // The unchosen sources are those after the last one chosen.
        let mut best: Option<usize> = None;
        let mut j: usize = 0;
        while j < n
            invariant
                n == distances@.len(),
                j <= n,
                missing < n,
                !order@.contains(missing),
                order@.no_duplicates(),
                forall|p: int| 0 <= p < order.len() ==> #[trigger] order@[p] < n,
                forall|p: int, q: int|
                    0 <= p < q < order.len() ==> nearer(distances@, #[trigger] order@[p] as int, #[trigger] order@[q] as int),
                forall|p: int, i: usize|
                    #![trigger order@[p], order@.contains(i)]
                    0 <= p < order.len() && i < n && !order@.contains(i) ==> nearer(
                        distances@,
                        order@[p] as int,
                        i as int,
                    ),
                match best {
                    Some(b) => b < j && !order@.contains(b) && forall|i: usize|
                        i < j && #[trigger] order@.contains(i) == false && i != b ==> nearer(
                            distances@,
                            b as int,
                            i as int,
                        ),
                    None => forall|i: usize| i < j ==> #[trigger] order@.contains(i),
                },
            decreases n - j,
        {
            let unchosen = if order.len() == 0 {
                true
            } else {
                let last = order[order.len() - 1];
                distances[last] < distances[j] || (distances[last] == distances[j] && last < j)
            };
            proof {
                if order.len() > 0 {
                    let last = order@[order.len() - 1];
                    if order@.contains(j) {
                        let p = choose|p: int| 0 <= p < order.len() && order@[p] == j;
                        if p < order.len() - 1 {
                            assert(nearer(distances@, order@[p] as int, order@[order.len() - 1] as int));
                        }
                        assert(!unchosen);
                    } else {
                        assert(nearer(distances@, order@[order.len() - 1] as int, j as int));
                    }
                } else {
                    assert(!order@.contains(j));
                }
            }
            assert(unchosen == !order@.contains(j));
            if unchosen {
                match best {
                    Some(b) => {
                        if distances[j] < distances[b] {
                            best = Some(j);
                        }
                    },
                    None => {
                        best = Some(j);
                    },
                }
            }
            j = j + 1;
        }
        assert(best is Some) by {
            if best is None {
                assert(order@.contains(missing));
            }
        }
        let b = best.unwrap();
        let ghost old_order = order@;
        order.push(b);
        proof {
            assert(order@ == old_order.push(b));
            assert forall|x: usize| #[trigger] order@.contains(x) <==> (old_order.contains(x) || x == b) by {
                if order@.contains(x) {
                    let p = choose|p: int| 0 <= p < order@.len() && order@[p] == x;
                    if p < old_order.len() {
                        assert(old_order[p] == x);
                    }
                }
                if old_order.contains(x) {
                    let p = choose|p: int| 0 <= p < old_order.len() && old_order[p] == x;
                    assert(order@[p] == x);
                }
                if x == b {
                    assert(order@[old_order.len() as int] == x);
                }
            }
            assert forall|p: int, q: int| 0 <= p < q < order.len() implies nearer(
                distances@,
                #[trigger] order@[p] as int,
                #[trigger] order@[q] as int,
            ) by {
                if q == old_order.len() {
                    assert(old_order[p] == order@[p]);
                } else {
                    assert(old_order[p] == order@[p] && old_order[q] == order@[q]);
                }
            }
            assert forall|p: int, i: usize|
                #![trigger order@[p], order@.contains(i)]
                0 <= p < order.len() && i < n && !order@.contains(i) implies nearer(
                distances@,
                order@[p] as int,
                i as int,
            ) by {
                assert(!old_order.contains(i) && i != b);
                if p < old_order.len() {
                    assert(old_order[p] == order@[p]);
                }
            }
        }
    }
    order
}

/// The distances as the selection uses them: a source whose distance could
/// not be measured counts as the farthest possible.
pub open spec fn measured(distances: Seq<Option<u64>>) -> Seq<u64> {
    distances.map_values(|d: Option<u64>| match d {
        Some(x) => x,
        None => u64::MAX,
    })
}

/// How many of `n` sources are asked for one file.
pub open spec fn source_count(n: nat) -> nat {
    if n < MAX_FILE_SOURCES {
        n
    } else {
        MAX_FILE_SOURCES as nat
    }
}

/// The file requests to send for the cached file `file_hash`, one to each
/// of the nearest sources (at most `MAX_FILE_SOURCES`), nearest first.
/// `distances[i]` is the measured distance to `sources[i]`, or `None` when
/// it could not be measured. Each request asks for `file_hash` on behalf of
/// `requester_id`, under a fresh request identifier.
pub fn plan_file_requests(
    requester_id: u128,
    file_hash: &str,
    sources: &Vec<GatewayAddr>,
    distances: &Vec<Option<u64>>,
) -> (r: Vec<(GatewayAddr, UdpToken)>)
    requires
        sources@.len() == distances@.len(),
    ensures
        exists|order: Seq<usize>|
            {
                &&& #[trigger] nearest_order(measured(distances@), source_count(sources@.len()), order)
                &&& r@.len() == order.len()
                &&& forall|p: int|
                    0 <= p < r@.len() ==> (#[trigger] r@[p]).0 == sources@[order[p] as int] && (r@[p].1 matches UdpToken::FileRequest { requester_id: q, file_path, .. } && q == requester_id && file_path@ == file_hash@)
            },
{
    let mut flat: Vec<u64> = Vec::new();
    let mut i: usize = 0;
    while i < distances.len()
        invariant
            i <= distances@.len(),
            flat@ == measured(distances@).take(i as int),
        decreases distances@.len() - i,
    {
        let d = match distances[i] {
            Some(x) => x,
            None => u64::MAX,
        };
        flat.push(d);
        i = i + 1;
        assert(flat@ =~= measured(distances@).take(i as int));
    }
    assert(flat@ =~= measured(distances@));
    let order = nearest_sources(&flat, MAX_FILE_SOURCES);
    assert(nearest_order(flat@, source_count(sources@.len()), order@));
    let mut r: Vec<(GatewayAddr, UdpToken)> = Vec::new();
    let mut p: usize = 0;
    while p < order.len()
        invariant
            p <= order@.len(),
            flat@ == measured(distances@),
            nearest_order(flat@, source_count(sources@.len()), order@),
            sources@.len() == flat@.len(),
            forall|x: int| 0 <= x < order@.len() ==> #[trigger] order@[x] < flat@.len(),
            r@.len() == p,
            forall|x: int|
                0 <= x < p ==> (#[trigger] r@[x]).0 == sources@[order@[x] as int] && (r@[x].1 matches UdpToken::FileRequest { requester_id: q, file_path, .. } && q == requester_id && file_path@ == file_hash@),
        decreases order@.len() - p,
    {
        let source = sources[order[p]];
        let request = file_request(requester_id, file_hash.to_owned());
        r.push((source, request));
        p = p + 1;
    }
    assert(nearest_order(measured(distances@), source_count(sources@.len()), order@));
    r
}

} // verus!
