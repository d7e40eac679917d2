use sn_replication::address::{
    peers_contain, sort_peers_by_address, NetworkAddress, PeerId, CLOSE_GROUP_SIZE, K_VALUE,
};
use sn_replication::replication::{
    churn_replication_plan, compute_churn_target, interval_replication_plan,
};

fn peers(ids: &[u64]) -> Vec<PeerId> {
    ids.iter().map(|&b| PeerId(b)).collect()
}

fn records(keys: &[u64]) -> Vec<NetworkAddress> {
    keys.iter().map(|&b| NetworkAddress(b)).collect()
}

#[test]
fn sort_orders_by_xor_distance_and_truncates() {
    let ps = peers(&[5, 1, 9, 12]);
    let target = NetworkAddress(3);
    // Distances to 3: 5 -> 6, 1 -> 2, 9 -> 10, 12 -> 15.
    let all = sort_peers_by_address(&ps, &target, 10);
    assert_eq!(all, peers(&[1, 5, 9, 12]));
    let two = sort_peers_by_address(&ps, &target, 2);
    assert_eq!(two, peers(&[1, 5]));
}

#[test]
fn peers_contain_scans_the_view() {
    let ps = peers(&[4, 7]);
    assert!(peers_contain(&ps, PeerId(7)));
    assert!(!peers_contain(&ps, PeerId(8)));
}

#[test]
fn constants_match_the_network_parameters() {
    assert_eq!(CLOSE_GROUP_SIZE, 5);
    assert_eq!(K_VALUE, 20);
}

#[test]
fn added_peer_that_is_farthest_is_not_targeted() {
    // Close group of key 0 (size 6) is all six peers; 32 is its farthest
    // member, so the conservative cutoff skips it.
    let ps = peers(&[1, 2, 3, 4, 5, 32]);
    let key = NetworkAddress(0);
    assert_eq!(compute_churn_target(&ps, PeerId(32), false, key), None);
    let plan = churn_replication_plan(&ps, PeerId(32), false, &records(&[0]), 4);
    assert!(plan.is_empty());
}

#[test]
fn added_peer_that_is_closer_is_targeted_itself() {
    let ps = peers(&[1, 2, 3, 4, 5, 32]);
    let key = NetworkAddress(0);
    assert_eq!(
        compute_churn_target(&ps, PeerId(3), false, key),
        Some(PeerId(3))
    );
    let plan = churn_replication_plan(&ps, PeerId(3), false, &records(&[0]), 4);
    assert_eq!(plan.len(), 1);
    assert_eq!(plan[0].0, PeerId(3));
    assert_eq!(plan[0].1, records(&[0]));
}

#[test]
fn added_peer_outside_close_group_is_not_targeted() {
    // Seven peers: the close group of key 0 holds six, and 64 is not among
    // them.
    let ps = peers(&[1, 2, 3, 4, 5, 6, 64]);
    let key = NetworkAddress(0);
    assert_eq!(compute_churn_target(&ps, PeerId(64), false, key), None);
}

#[test]
fn removed_farthest_member_hands_duty_to_new_farthest() {
    // Before removal the close group of key 0 was [1,2,3,4,5]; the removed
    // peer 5 was its farthest member, so 16 — the farthest of the
    // recomputed group — takes over.
    let remaining = peers(&[1, 2, 3, 4, 16]);
    let key = NetworkAddress(0);
    assert_eq!(
        compute_churn_target(&remaining, PeerId(5), true, key),
        Some(PeerId(16))
    );
    let plan = churn_replication_plan(&remaining, PeerId(5), true, &records(&[0]), 4);
    assert_eq!(plan.len(), 1);
    assert_eq!(plan[0].0, PeerId(16));
    assert_eq!(plan[0].1, records(&[0]));
}

#[test]
fn removed_closer_member_triggers_no_replication() {
    // The removed peer 2 was in the close group of key 0 but not its
    // farthest member: no action.
    let remaining = peers(&[1, 3, 4, 5, 16]);
    let key = NetworkAddress(0);
    assert_eq!(compute_churn_target(&remaining, PeerId(2), true, key), None);
    let plan = churn_replication_plan(&remaining, PeerId(2), true, &records(&[0]), 4);
    assert!(plan.is_empty());
}

#[test]
fn removed_peer_outside_close_group_triggers_no_replication() {
    let remaining = peers(&[1, 2, 3, 4, 5]);
    let key = NetworkAddress(0);
    assert_eq!(
        compute_churn_target(&remaining, PeerId(16), true, key),
        None
    );
}

#[test]
fn churn_plan_skips_on_incomplete_peer_view() {
    let ps = peers(&[1, 2, 3]);
    let plan = churn_replication_plan(&ps, PeerId(1), false, &records(&[0, 7]), 20);
    assert!(plan.is_empty());
}

#[test]
fn churn_plan_groups_keys_per_target_peer() {
    // Keys 0 and 1 both gain the added peer 3 in their close groups.
    let ps = peers(&[1, 2, 3, 4, 5, 32]);
    let plan = churn_replication_plan(&ps, PeerId(3), false, &records(&[0, 1]), 4);
    assert_eq!(plan.len(), 1);
    assert_eq!(plan[0].0, PeerId(3));
    assert_eq!(plan[0].1, records(&[0, 1]));
}

#[test]
fn interval_sweep_offers_all_records_to_every_group_member() {
    let ps = peers(&[1, 2, 3, 4, 5]);
    let our_address = NetworkAddress(0);
    let keys = records(&[7, 9]);
    let plan = interval_replication_plan(&ps, our_address, &keys, 4);
    assert_eq!(plan.len(), 4);
    let expected = peers(&[1, 2, 3, 4]);
    for (i, (peer, sent)) in plan.iter().enumerate() {
        assert_eq!(*peer, expected[i]);
        assert_eq!(*sent, keys);
    }
}

#[test]
fn interval_sweep_skips_on_incomplete_peer_view() {
    let ps = peers(&[1, 2, 3]);
    let plan = interval_replication_plan(&ps, NetworkAddress(0), &records(&[7]), 4);
    assert!(plan.is_empty());
}

#[test]
fn joining_peer_close_to_a_record_gets_exactly_one_notice() {
    // Peers A=8, B=9, C=10 hold record k=0. D=1 joins: D is closer to k
    // than the farthest holder and is not itself the farthest member of
    // the new close group, so exactly one notice targets D, naming k.
    let view_with_d = peers(&[8, 9, 10, 1]);
    let k = records(&[0]);
    let plan = churn_replication_plan(&view_with_d, PeerId(1), false, &k, 4);
    assert_eq!(plan.len(), 1);
    assert_eq!(plan[0].0, PeerId(1));
    assert_eq!(plan[0].1, k);
}
