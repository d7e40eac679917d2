//! The shared XOR metric space: addresses, peers, distance, and the
//! close-group computation every replication decision is built on.

use vstd::prelude::*;
use vstd::math::min;
use vstd::relations::{sorted_by, total_ordering};
use vstd::seq_lib::lemma_sorted_unique;

verus! {

/// Number of peers that form a record's close group.
pub const CLOSE_GROUP_SIZE: usize = 5;

/// Size of a full routing-table bucket; the default peer-count
/// threshold below which replication is skipped.
pub const K_VALUE: usize = 20;

/// A point of the metric space. Record keys, peer addresses and spend
/// addresses are all placed here and compared by XOR distance.
#[derive(Clone, Copy, PartialEq, Eq, Structural, Debug)]
pub struct NetworkAddress(pub u64);

/// Identity of a peer, placed in the same metric space as record keys.
#[derive(Clone, Copy, PartialEq, Eq, Structural, Debug)]
pub struct PeerId(pub u64);

impl NetworkAddress {
    /// The point of the metric space a peer occupies.
    pub fn from_peer(peer: PeerId) -> (a: NetworkAddress)
        ensures
            a == NetworkAddress(peer.0),
    {
        NetworkAddress(peer.0)
    }
}

/// XOR distance between two points of the metric space.
pub open spec fn xor_dist(a: u64, t: u64) -> u64 {
    a ^ t
}

/// "No farther from `t` than": the relation the close group is sorted by.
pub open spec fn peer_leq(t: NetworkAddress) -> spec_fn(PeerId, PeerId) -> bool {
    |a: PeerId, b: PeerId| xor_dist(a.0, t.0) <= xor_dist(b.0, t.0)
}

/// For a fixed target, equal XOR distances force equal peers, so
/// comparing distances to the target is a total order on peers.
pub proof fn lemma_peer_leq_total_ordering(t: NetworkAddress)
    ensures
        total_ordering(peer_leq(t)),
{
    let leq = peer_leq(t);
    assert forall|a: PeerId| #[trigger] leq(a, a) by {}
    assert forall|a: PeerId, b: PeerId| #[trigger] leq(a, b) && #[trigger] leq(b, a) implies a == b by {
        let x = a.0;
        let y = b.0;
        let tt = t.0;
        assert(x == y) by (bit_vector)
            requires
                (x ^ tt) <= (y ^ tt),
                (y ^ tt) <= (x ^ tt),
        ;
    }
    assert forall|a: PeerId, b: PeerId, c: PeerId|
        #[trigger] leq(a, b) && #[trigger] leq(b, c) implies leq(a, c) by {}
    assert forall|a: PeerId, b: PeerId| !(#[trigger] leq(a, b)) implies #[trigger] leq(b, a) by {}
}

/// All peers, ordered ascending by XOR distance to `t`.
pub open spec fn sorted_peers(peers: Seq<PeerId>, t: NetworkAddress) -> Seq<PeerId> {
    peers.sort_by(peer_leq(t))
}

/// The close group of `t`: the `k` known peers nearest to `t`,
/// nearest first (all of them, if fewer than `k` are known).
pub open spec fn close_group(peers: Seq<PeerId>, t: NetworkAddress, k: int) -> Seq<PeerId> {
    sorted_peers(peers, t).take(min(k, peers.len() as int))
}

/// The close group holds `k` peers, or every known peer when fewer than
/// `k` are known.
pub proof fn lemma_close_group_len(peers: Seq<PeerId>, t: NetworkAddress, k: int)
    requires
        0 <= k,
    ensures
        close_group(peers, t, k).len() == min(k, peers.len() as int),
{
    broadcast use vstd::seq_lib::group_to_multiset_ensures;

    lemma_peer_leq_total_ordering(t);
    peers.lemma_sort_by_ensures(peer_leq(t));
    assert(sorted_peers(peers, t).to_multiset().len() == peers.to_multiset().len());
    assert(sorted_peers(peers, t).len() == peers.len());
}

/// Law: the close group really is the nearest peers. Its members come from
/// the peer view and are ordered nearest first, and every known peer left
/// out of it is at least as far from the target as every member.
pub proof fn lemma_close_group_nearest(peers: Seq<PeerId>, t: NetworkAddress, k: int)
    requires
        0 <= k,
    ensures
        forall|i: int|
            0 <= i < close_group(peers, t, k).len() ==> peers.contains(
                #[trigger] close_group(peers, t, k)[i],
            ),
        sorted_by(close_group(peers, t, k), peer_leq(t)),
        forall|p: PeerId|
            #![trigger peers.contains(p)]
            peers.contains(p) && !close_group(peers, t, k).contains(p) ==> forall|i: int|
                0 <= i < close_group(peers, t, k).len() ==> peer_leq(t)(
                    #[trigger] close_group(peers, t, k)[i],
                    p,
                ),
{
    broadcast use vstd::seq_lib::group_to_multiset_ensures;

    lemma_peer_leq_total_ordering(t);
    peers.lemma_sort_by_ensures(peer_leq(t));
    let s = sorted_peers(peers, t);
    let cg = close_group(peers, t, k);
    assert(s.to_multiset().len() == peers.to_multiset().len());
    assert(s.len() == peers.len());
    assert forall|i: int| 0 <= i < cg.len() implies peers.contains(#[trigger] cg[i]) by {
        assert(s.contains(s[i]));
        assert(s.to_multiset().contains(s[i]));
        assert(peers.to_multiset().contains(s[i]));
    }
    assert forall|p: PeerId|
        #![trigger peers.contains(p)]
        peers.contains(p) && !cg.contains(p) implies forall|i: int|
        0 <= i < cg.len() ==> peer_leq(t)(#[trigger] cg[i], p) by {
        assert(peers.to_multiset().contains(p));
        assert(s.to_multiset().contains(p));
        assert(s.contains(p));
        let j = choose|j: int| 0 <= j < s.len() && s[j] == p;
        assert(j >= min(k, peers.len() as int)) by {
            if j < min(k, peers.len() as int) {
                assert(cg[j] == p);
            }
        }
        assert forall|i: int| 0 <= i < cg.len() implies peer_leq(t)(#[trigger] cg[i], p) by {
            assert(cg[i] == s[i]);
            assert(peer_leq(t)(s[i], s[j]));
        }
    }
}

/// Sorts `peers` ascending by XOR distance to `target` and truncates the
/// result to the `expected_entries` nearest: the close-group computation.
pub fn sort_peers_by_address(
    peers: &Vec<PeerId>,
    target: &NetworkAddress,
    expected_entries: usize,
) -> (sorted: Vec<PeerId>)
    ensures
        sorted@ == close_group(peers@, *target, expected_entries as int),
        sorted@.len() == min(expected_entries as int, peers@.len() as int),
{
    let t = *target;
    let mut work: Vec<PeerId> = Vec::new();
    let mut i: usize = 0;
    while i < peers.len()
        invariant
            i <= peers.len(),
            work@ == peers@.take(i as int),
        decreases peers.len() - i,
    {
        let p = peers[i];
        work.push(p);
        proof {
            assert(peers@.take(i as int).push(peers@[i as int]) =~= peers@.take(i + 1));
        }
        i += 1;
    }
    proof {
        assert(peers@.take(peers@.len() as int) =~= peers@);
    }

    let mut out: Vec<PeerId> = Vec::new();
    proof {
        broadcast use vstd::seq_lib::group_to_multiset_ensures;
        broadcast use vstd::multiset::group_multiset_axioms;

        assert(out@.to_multiset().add(work@.to_multiset()) =~= peers@.to_multiset());
    }
    while work.len() > 0
        invariant
            out@.to_multiset().add(work@.to_multiset()) == peers@.to_multiset(),
            sorted_by(out@, peer_leq(t)),
            forall|a: int, b: int|
                0 <= a < out@.len() && 0 <= b < work@.len() ==> #[trigger] peer_leq(t)(
                    out@[a],
                    work@[b],
                ),
        decreases work.len(),
    {
        let ghost leq = peer_leq(t);
        let mut m: usize = 0;
        let mut j: usize = 1;
        while j < work.len()
            invariant
                0 < work@.len(),
                m < j,
                j <= work@.len(),
                forall|k: int| 0 <= k < j ==> #[trigger] peer_leq(t)(work@[m as int], work@[k]),
            decreases work.len() - j,
        {
            if (work[j].0 ^ t.0) < (work[m].0 ^ t.0) {
                proof {
                    assert forall|k: int| 0 <= k < j + 1 implies #[trigger] peer_leq(t)(
                        work@[j as int],
                        work@[k],
                    ) by {
                        if k < j {
                            assert(peer_leq(t)(work@[m as int], work@[k]));
                        }
                    }
                }
                m = j;
            } else {
                proof {
                    assert(peer_leq(t)(work@[m as int], work@[j as int]));
                }
            }
            j += 1;
        }
        let ghost old_out = out@;
        let ghost old_work = work@;
        let x = work.remove(m);
        out.push(x);
        proof {
            broadcast use vstd::seq_lib::group_to_multiset_ensures;
            broadcast use vstd::multiset::group_multiset_axioms;

            assert(out@.to_multiset().add(work@.to_multiset()) =~= peers@.to_multiset());
            assert forall|a: int, b: int|
                0 <= a < out@.len() && 0 <= b < work@.len() implies #[trigger] leq(
                out@[a],
                work@[b],
            ) by {
                assert(work@[b] == old_work.remove(m as int)[b]);
                assert(work@[b] == if b < m { old_work[b] } else { old_work[b + 1] });
                if a < old_out.len() {
                    assert(leq(old_out[a], old_work[m as int]));
                }
            }
            assert forall|a: int, b: int| 0 <= a < b < out@.len() implies #[trigger] leq(
                out@[a],
                out@[b],
            ) by {
                if b == out@.len() - 1 {
                    assert(leq(old_out[a], old_work[m as int]));
                }
            }
        }
    }
    proof {
        broadcast use vstd::seq_lib::group_to_multiset_ensures;
        broadcast use vstd::multiset::group_multiset_axioms;

        lemma_peer_leq_total_ordering(t);
        peers@.lemma_sort_by_ensures(peer_leq(t));
        assert(work@ =~= Seq::<PeerId>::empty());
        assert(out@.to_multiset() =~= peers@.to_multiset());
        lemma_sorted_unique(out@, peers@.sort_by(peer_leq(t)), peer_leq(t));
        assert(out@ == sorted_peers(peers@, t));
        assert(out@.to_multiset().len() == peers@.to_multiset().len());
        assert(out@.len() == peers@.len());
    }
    let mut sorted = out;
    sorted.truncate(expected_entries);
    proof {
        if expected_entries <= peers@.len() {
            assert(sorted@ =~= close_group(peers@, t, expected_entries as int));
        } else {
            assert(sorted_peers(peers@, t).take(peers@.len() as int) =~= sorted_peers(peers@, t));
            assert(sorted@ =~= close_group(peers@, t, expected_entries as int));
        }
    }
    sorted
}

/// Copies a vector of plain values.
pub fn copy_vec<T: Copy>(v: &Vec<T>) -> (r: Vec<T>)
    ensures
        r@ == v@,
{
    let mut r: Vec<T> = Vec::new();
    let mut i: usize = 0;
    while i < v.len()
        invariant
            i <= v.len(),
            r@ == v@.take(i as int),
        decreases v.len() - i,
    {
        let x = v[i];
        r.push(x);
        proof {
            assert(v@.take(i as int).push(v@[i as int]) =~= v@.take(i + 1));
        }
        i += 1;
    }
    proof {
        assert(v@.take(v@.len() as int) =~= v@);
    }
    r
}

/// Whether `p` is among the given peers.
pub fn peers_contain(peers: &Vec<PeerId>, p: PeerId) -> (r: bool)
    ensures
        r == peers@.contains(p),
{
    let mut i: usize = 0;
    while i < peers.len()
        invariant
            i <= peers.len(),
            forall|k: int| 0 <= k < i ==> peers@[k] != p,
        decreases peers.len() - i,
    {
        if peers[i].0 == p.0 {
            proof {
                assert(peers@[i as int] == p);
            }
            return true;
        }
        i += 1;
    }
    false
}

} // verus!
