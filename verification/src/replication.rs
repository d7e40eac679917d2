//! Replication target selection: on every membership change, decide which
//! locally held records must be offered to which peer so that each record
//! stays with its close group, and, independently of churn, the periodic
//! anti-entropy sweep that offers the whole local record set to the peers
//! around the local address.

use vstd::prelude::*;
use crate::address::{
    close_group, copy_vec, peers_contain, sort_peers_by_address, NetworkAddress, PeerId,
    CLOSE_GROUP_SIZE,
};

verus! {

/// Replication decision for one record on a peer-added event: the new peer
/// itself is the target exactly when it lies in the record's extended close
/// group without being its farthest member (the farthest-ranked member is
/// excluded as a cheap cutoff, so the policy under-replicates rather than
/// over-replicates).
pub open spec fn addition_target(
    peers: Seq<PeerId>,
    added: PeerId,
    key: NetworkAddress,
) -> Option<PeerId> {
    let cg = close_group(peers, key, (CLOSE_GROUP_SIZE + 1) as int);
    if cg.contains(added) && cg.last() != added {
        Some(added)
    } else {
        None
    }
}

/// Replication decision for one record on a peer-removed event: only when
/// the departed peer was the farthest member of the record's then-current
/// close group does the record move, and then to the farthest member of the
/// close group recomputed without the departed peer — the peer that now
/// carries the responsibility vacated by the departure.
pub open spec fn removal_target(
    peers: Seq<PeerId>,
    removed: PeerId,
    key: NetworkAddress,
) -> Option<PeerId> {
    let prev = close_group(peers.push(removed), key, CLOSE_GROUP_SIZE as int);
    let next = close_group(peers, key, CLOSE_GROUP_SIZE as int);
    if prev.len() > 0 && prev.last() == removed && next.len() > 0 {
        Some(next.last())
    } else {
        None
    }
}

/// Replication decision for one record on a churn event.
pub open spec fn churn_target(
    peers: Seq<PeerId>,
    churned: PeerId,
    is_removal: bool,
    key: NetworkAddress,
) -> Option<PeerId> {
    if is_removal {
        removal_target(peers, churned, key)
    } else {
        addition_target(peers, churned, key)
    }
}

/// The records among `records` that a churn event sends to peer `p`,
/// in their original order.
pub open spec fn plan_keys_for(
    records: Seq<NetworkAddress>,
    peers: Seq<PeerId>,
    churned: PeerId,
    is_removal: bool,
    p: PeerId,
) -> Seq<NetworkAddress>
    decreases records.len(),
{
    if records.len() == 0 {
        Seq::empty()
    } else {
        let prefix = plan_keys_for(records.drop_last(), peers, churned, is_removal, p);
        if churn_target(peers, churned, is_removal, records.last()) == Some(p) {
            prefix.push(records.last())
        } else {
            prefix
        }
    }
}

/// A record is in a peer's share of the plan exactly when it is a known
/// record and the per-record churn decision picked that peer.
pub proof fn lemma_plan_keys_for_membership(
    records: Seq<NetworkAddress>,
    peers: Seq<PeerId>,
    churned: PeerId,
    is_removal: bool,
    p: PeerId,
    k: NetworkAddress,
)
    ensures
        plan_keys_for(records, peers, churned, is_removal, p).contains(k) <==> (records.contains(k)
            && churn_target(peers, churned, is_removal, k) == Some(p)),
    decreases records.len(),
{
    if records.len() == 0 {
    } else {
        lemma_plan_keys_for_membership(records.drop_last(), peers, churned, is_removal, p, k);
        let prefix = plan_keys_for(records.drop_last(), peers, churned, is_removal, p);
        assert(records =~= records.drop_last().push(records.last()));
        if records.contains(k) && churn_target(peers, churned, is_removal, k) == Some(p) {
            if records.drop_last().contains(k) {
                assert(plan_keys_for(records, peers, churned, is_removal, p).contains(k)) by {
                    let i = choose|i: int| 0 <= i < prefix.len() && prefix[i] == k;
                    assert(plan_keys_for(records, peers, churned, is_removal, p)[i] == k);
                }
            } else {
                assert(records.last() == k);
                let full = plan_keys_for(records, peers, churned, is_removal, p);
                assert(full[full.len() - 1] == k);
            }
        }
        if plan_keys_for(records, peers, churned, is_removal, p).contains(k) {
            let full = plan_keys_for(records, peers, churned, is_removal, p);
            let i = choose|i: int| 0 <= i < full.len() && full[i] == k;
            if churn_target(peers, churned, is_removal, records.last()) == Some(p) {
                if i < full.len() - 1 {
                    assert(prefix.contains(k));
                } else {
                    assert(k == records.last());
                }
            } else {
                assert(prefix.contains(k));
            }
        }
    }
}

/// A peer has a nonempty share of the plan exactly when some known record's
/// churn decision picked it.
pub proof fn lemma_plan_keys_for_nonempty(
    records: Seq<NetworkAddress>,
    peers: Seq<PeerId>,
    churned: PeerId,
    is_removal: bool,
    p: PeerId,
)
    ensures
        plan_keys_for(records, peers, churned, is_removal, p).len() > 0 <==> (exists|r: int|
            0 <= r < records.len() && churn_target(peers, churned, is_removal, #[trigger] records[r])
                == Some(p)),
    decreases records.len(),
{
    if records.len() == 0 {
    } else {
        lemma_plan_keys_for_nonempty(records.drop_last(), peers, churned, is_removal, p);
        if churn_target(peers, churned, is_removal, records.last()) == Some(p) {
            assert(churn_target(peers, churned, is_removal, records[records.len() - 1]) == Some(p));
        } else {
            if exists|r: int|
                0 <= r < records.len() && churn_target(
                    peers,
                    churned,
                    is_removal,
                    #[trigger] records[r],
                ) == Some(p) {
                let r = choose|r: int|
                    0 <= r < records.len() && churn_target(
                        peers,
                        churned,
                        is_removal,
                        #[trigger] records[r],
                    ) == Some(p);
                assert(r < records.len() - 1);
                assert(records.drop_last()[r] == records[r]);
            }
        }
    }
}

/// Computes the churn decision for one record key.
pub fn compute_churn_target(
    all_peers: &Vec<PeerId>,
    churned: PeerId,
    is_removal: bool,
    key: NetworkAddress,
) -> (target: Option<PeerId>)
    ensures
        target == churn_target(all_peers@, churned, is_removal, key),
{
    if is_removal {
        let mut with_churned = copy_vec(all_peers);
        with_churned.push(churned);
        let prev = sort_peers_by_address(&with_churned, &key, CLOSE_GROUP_SIZE);
        let next = sort_peers_by_address(all_peers, &key, CLOSE_GROUP_SIZE);
        if prev.len() > 0 && next.len() > 0 {
            let last_prev = prev[prev.len() - 1];
            if last_prev == churned {
                Some(next[next.len() - 1])
            } else {
                None
            }
        } else {
            None
        }
    } else {
        let cg = sort_peers_by_address(all_peers, &key, CLOSE_GROUP_SIZE + 1);
        if peers_contain(&cg, churned) {
            proof {
                assert(cg@.len() > 0);
            }
            let last = cg[cg.len() - 1];
            if last == churned {
                None
            } else {
                Some(churned)
            }
        } else {
            None
        }
    }
}

/// Collects, in record order, the keys a churn event sends to peer `p`.
fn collect_keys_for(
    all_records: &Vec<NetworkAddress>,
    all_peers: &Vec<PeerId>,
    churned: PeerId,
    is_removal: bool,
    p: PeerId,
) -> (keys: Vec<NetworkAddress>)
    ensures
        keys@ == plan_keys_for(all_records@, all_peers@, churned, is_removal, p),
{
    let mut keys: Vec<NetworkAddress> = Vec::new();
    let mut r: usize = 0;
    while r < all_records.len()
        invariant
            r <= all_records@.len(),
            keys@ == plan_keys_for(all_records@.take(r as int), all_peers@, churned, is_removal, p),
        decreases all_records.len() - r,
    {
        let key = all_records[r];
        let target = compute_churn_target(all_peers, churned, is_removal, key);
        proof {
            assert(all_records@.take(r + 1).drop_last() =~= all_records@.take(r as int));
            assert(all_records@.take(r + 1).last() == all_records@[r as int]);
        }
        if let Some(tp) = target {
            if tp == p {
                keys.push(key);
            }
        }
        r += 1;
    }
    proof {
        assert(all_records@.take(all_records@.len() as int) =~= all_records@);
    }
    keys
}

/// Computes the replication plan for one churn event: one entry per target
/// peer, holding every locally known record key whose close group the event
/// placed in (or vacated to) that peer. When fewer than `min_peers` peers
/// are known, the view of the network is considered too incomplete and the
/// plan is empty.
pub fn churn_replication_plan(
    all_peers: &Vec<PeerId>,
    churned: PeerId,
    is_removal: bool,
    all_records: &Vec<NetworkAddress>,
    min_peers: usize,
) -> (plan: Vec<(PeerId, Vec<NetworkAddress>)>)
    ensures
        all_peers@.len() < min_peers ==> plan@.len() == 0,
        all_peers@.len() >= min_peers ==> forall|i: int|
            0 <= i < plan@.len() ==> (#[trigger] plan@[i]).1@ == plan_keys_for(
                all_records@,
                all_peers@,
                churned,
                is_removal,
                plan@[i].0,
            ) && plan@[i].1@.len() > 0,
        forall|i: int, j: int| 0 <= i < j < plan@.len() ==> (#[trigger] plan@[i]).0 != (
        #[trigger] plan@[j]).0,
        all_peers@.len() >= min_peers ==> forall|p: PeerId|
            #[trigger] plan_keys_for(all_records@, all_peers@, churned, is_removal, p).len() > 0
                ==> exists|i: int| 0 <= i < plan@.len() && (#[trigger] plan@[i]).0 == p,
{
    let mut plan: Vec<(PeerId, Vec<NetworkAddress>)> = Vec::new();
    if all_peers.len() < min_peers {
        return plan;
    }
    let mut r: usize = 0;
    while r < all_records.len()
        invariant
            r <= all_records@.len(),
            forall|i: int|
                0 <= i < plan@.len() ==> (#[trigger] plan@[i]).1@ == plan_keys_for(
                    all_records@,
                    all_peers@,
                    churned,
                    is_removal,
                    plan@[i].0,
                ) && plan@[i].1@.len() > 0,
            forall|i: int, j: int| 0 <= i < j < plan@.len() ==> (#[trigger] plan@[i]).0 != (
            #[trigger] plan@[j]).0,
            forall|q: int|
                0 <= q < r && (#[trigger] churn_target(
                    all_peers@,
                    churned,
                    is_removal,
                    all_records@[q],
                )) is Some ==> exists|i: int|
                    0 <= i < plan@.len() && (#[trigger] plan@[i]).0 == churn_target(
                        all_peers@,
                        churned,
                        is_removal,
                        all_records@[q],
                    ).unwrap(),
        decreases all_records.len() - r,
    {
        let ghost plan0 = plan@;
        let key = all_records[r];
        let target = compute_churn_target(all_peers, churned, is_removal, key);
        if let Some(tp) = target {
            let mut present = false;
            let mut i: usize = 0;
            while i < plan.len()
                invariant
                    i <= plan@.len(),
                    present <==> exists|j: int| 0 <= j < i && (#[trigger] plan@[j]).0 == tp,
                decreases plan.len() - i,
            {
                if plan[i].0 == tp {
                    present = true;
                    proof {
                        assert((plan@[i as int]).0 == tp);
                    }
                }
                i += 1;
            }
            if !present {
                let keys = collect_keys_for(all_records, all_peers, churned, is_removal, tp);
                proof {
                    lemma_plan_keys_for_nonempty(all_records@, all_peers@, churned, is_removal, tp);
                    assert(churn_target(all_peers@, churned, is_removal, all_records@[r as int])
                        == Some(tp));
                }
                plan.push((tp, keys));
            }
            proof {
                assert forall|q: int|
                    0 <= q < r + 1 && (#[trigger] churn_target(
                        all_peers@,
                        churned,
                        is_removal,
                        all_records@[q],
                    )) is Some implies exists|i: int|
                    0 <= i < plan@.len() && (#[trigger] plan@[i]).0 == churn_target(
                        all_peers@,
                        churned,
                        is_removal,
                        all_records@[q],
                    ).unwrap() by {
                    let pq = churn_target(all_peers@, churned, is_removal, all_records@[q]).unwrap();
                    if q < r {
                        let i0 = choose|i: int|
                            0 <= i < plan0.len() && (#[trigger] plan0[i]).0 == churn_target(
                                all_peers@,
                                churned,
                                is_removal,
                                all_records@[q],
                            ).unwrap();
                        assert(plan@[i0].0 == pq);
                    } else {
                        assert(pq == tp);
                        if present {
                            let j = choose|j: int|
                                0 <= j < plan0.len() && (#[trigger] plan0[j]).0 == tp;
                            assert(plan@[j].0 == tp);
                        } else {
                            assert(plan@[plan@.len() - 1].0 == tp);
                        }
                    }
                }
            }
        }
        r += 1;
    }
    proof {
        assert forall|p: PeerId|
            #[trigger] plan_keys_for(all_records@, all_peers@, churned, is_removal, p).len() > 0
                implies exists|i: int| 0 <= i < plan@.len() && (#[trigger] plan@[i]).0 == p by {
            lemma_plan_keys_for_nonempty(all_records@, all_peers@, churned, is_removal, p);
            let q = choose|q: int|
                0 <= q < all_records@.len() && churn_target(
                    all_peers@,
                    churned,
                    is_removal,
                    #[trigger] all_records@[q],
                ) == Some(p);
            assert(churn_target(all_peers@, churned, is_removal, all_records@[q]) is Some);
        }
    }
    plan
}

/// The periodic anti-entropy sweep: when at least `group_size` peers are
/// known, the entire local record address set is offered to every peer of
/// the close group around the local peer's own address; with fewer known
/// peers the view is considered too incomplete and nothing is sent. This
/// bounds staleness independently of any churn history.
pub fn interval_replication_plan(
    all_peers: &Vec<PeerId>,
    our_address: NetworkAddress,
    all_records: &Vec<NetworkAddress>,
    group_size: usize,
) -> (plan: Vec<(PeerId, Vec<NetworkAddress>)>)
    ensures
        all_peers@.len() < group_size ==> plan@.len() == 0,
        all_peers@.len() >= group_size ==> plan@.len() == close_group(
            all_peers@,
            our_address,
            group_size as int,
        ).len(),
        all_peers@.len() >= group_size ==> forall|i: int|
            0 <= i < plan@.len() ==> (#[trigger] plan@[i]).0 == close_group(
                all_peers@,
                our_address,
                group_size as int,
            )[i] && plan@[i].1@ == all_records@,
{
    let mut plan: Vec<(PeerId, Vec<NetworkAddress>)> = Vec::new();
    let closest_to_us = sort_peers_by_address(all_peers, &our_address, group_size);
    if closest_to_us.len() < group_size {
        return plan;
    }
    let mut i: usize = 0;
    while i < closest_to_us.len()
        invariant
            i <= closest_to_us@.len(),
            plan@.len() == i,
            forall|j: int|
                0 <= j < i ==> (#[trigger] plan@[j]).0 == closest_to_us@[j] && plan@[j].1@
                    == all_records@,
        decreases closest_to_us.len() - i,
    {
        let p = closest_to_us[i];
        let keys = copy_vec(all_records);
        plan.push((p, keys));
        i += 1;
    }
    plan
}

/// Law: on a peer-added event the selector is conservative. A record whose
/// extended close group does not gain the new peer, or gains it only as
/// the farthest member, appears in nobody's share of the plan; a record
/// whose extended close group gains the new peer as any closer member goes
/// to exactly that peer.
pub proof fn lemma_addition_is_conservative(
    peers: Seq<PeerId>,
    added: PeerId,
    key: NetworkAddress,
    records: Seq<NetworkAddress>,
)
    ensures
        !close_group(peers, key, (CLOSE_GROUP_SIZE + 1) as int).contains(added) ==> churn_target(
            peers,
            added,
            false,
            key,
        ) == None::<PeerId>,
        close_group(peers, key, (CLOSE_GROUP_SIZE + 1) as int).contains(added) && close_group(
            peers,
            key,
            (CLOSE_GROUP_SIZE + 1) as int,
        ).last() == added ==> churn_target(peers, added, false, key) == None::<PeerId>,
        close_group(peers, key, (CLOSE_GROUP_SIZE + 1) as int).contains(added) && close_group(
            peers,
            key,
            (CLOSE_GROUP_SIZE + 1) as int,
        ).last() != added ==> churn_target(peers, added, false, key) == Some(added),
        churn_target(peers, added, false, key) == None::<PeerId> ==> forall|p: PeerId|
            !(#[trigger] plan_keys_for(records, peers, added, false, p)).contains(key),
        churn_target(peers, added, false, key) == Some(added) ==> forall|p: PeerId|
            (#[trigger] plan_keys_for(records, peers, added, false, p)).contains(key) <==> (
            records.contains(key) && p == added),
{
    assert forall|p: PeerId|
        plan_keys_for(records, peers, added, false, p).contains(key) <==> (records.contains(key)
            && churn_target(peers, added, false, key) == Some(p)) by {
        lemma_plan_keys_for_membership(records, peers, added, false, p, key);
    }
}

/// Law: on a peer-removed event a record moves only when the departed peer
/// was the farthest member of its then-current close group (computed with
/// the departed peer still present) — then it appears in exactly one share
/// of the plan, that of the farthest member of the close group recomputed
/// without the departed peer; otherwise it appears in nobody's share.
pub proof fn lemma_removal_is_conservative(
    peers: Seq<PeerId>,
    removed: PeerId,
    key: NetworkAddress,
    records: Seq<NetworkAddress>,
)
    requires
        peers.len() > 0,
    ensures
        close_group(peers.push(removed), key, CLOSE_GROUP_SIZE as int).last() != removed
            ==> churn_target(peers, removed, true, key) == None::<PeerId>,
        close_group(peers.push(removed), key, CLOSE_GROUP_SIZE as int).last() == removed
            ==> churn_target(peers, removed, true, key) == Some(
            close_group(peers, key, CLOSE_GROUP_SIZE as int).last(),
        ),
        churn_target(peers, removed, true, key) == None::<PeerId> ==> forall|p: PeerId|
            !(#[trigger] plan_keys_for(records, peers, removed, true, p)).contains(key),
        close_group(peers.push(removed), key, CLOSE_GROUP_SIZE as int).last() == removed
            ==> forall|p: PeerId|
            (#[trigger] plan_keys_for(records, peers, removed, true, p)).contains(key) <==> (
            records.contains(key) && p == close_group(peers, key, CLOSE_GROUP_SIZE as int).last()),
{
    assert(close_group(peers.push(removed), key, CLOSE_GROUP_SIZE as int).len() > 0) by {
        crate::address::lemma_close_group_len(peers.push(removed), key, CLOSE_GROUP_SIZE as int);
    }
    assert(close_group(peers, key, CLOSE_GROUP_SIZE as int).len() > 0) by {
        crate::address::lemma_close_group_len(peers, key, CLOSE_GROUP_SIZE as int);
    }
    assert forall|p: PeerId|
        plan_keys_for(records, peers, removed, true, p).contains(key) <==> (records.contains(key)
            && churn_target(peers, removed, true, key) == Some(p)) by {
        lemma_plan_keys_for_membership(records, peers, removed, true, p, key);
    }
}

} // verus!
