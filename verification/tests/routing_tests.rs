//! Peers, bounded lists of peers, and the routing table.

use std::collections::VecDeque;

use auth_kademlia::bucket::now_secs;
use auth_kademlia::node::Node;
use auth_kademlia::node::NodeHeap;
use auth_kademlia::routing::KBucket;
use auth_kademlia::routing::RoutingTable;
use auth_kademlia::routing::TableTraverser;
use auth_kademlia::utils::digest;

fn make_node(label: &str) -> Node {
    Node::from_id(digest(label))
}

fn make_node_with_addr(label: &str, ip: &str, port: u16) -> Node {
    Node::new(digest(label), Some(ip.to_string()), Some(port))
}

fn node_at(first: u8, last: u8) -> Node {
    let mut id = [0u8; 20];
    id[0] = first;
    id[15] = last;
    Node::from_id(id)
}

#[test]
fn heap_respects_maxsize() {
    let pivot = make_node("pivot");
    let mut heap = NodeHeap::new(pivot, 3);
    for i in 0..10 {
        heap.push_one(make_node(&i.to_string()));
    }
    assert!(heap.heap.len() <= 3);
}

#[test]
fn heap_no_duplicates() {
    let pivot = make_node("pivot");
    let mut heap = NodeHeap::new(pivot, 10);
    let node = make_node("a");
    heap.push_one(node.clone());
    heap.push_one(node);
    assert_eq!(heap.heap.len(), 1);
}

#[test]
fn contacted_tracking() {
    let pivot = make_node("pivot");
    let mut heap = NodeHeap::new(pivot, 10);
    let node = make_node("peer");
    heap.push_one(node.clone());
    assert!(!heap.have_contacted_all());
    heap.mark_contacted(&node);
    assert!(heap.have_contacted_all());
}

#[test]
fn add_and_find() {
    let local = make_node("local");
    let mut rt = RoutingTable::new(local.clone(), 3);
    let peer = make_node("peer");
    rt.add_contact(peer.clone());
    let found = rt.find_neighbors(&make_node("target"), None);
    assert!(!found.is_empty());
    assert!(found.iter().any(|n| n.id == peer.id));
}

#[test]
fn ignores_self() {
    let local = make_node("local");
    let mut rt = RoutingTable::new(local.clone(), 3);
    rt.add_contact(local.clone());
    let found = rt.find_neighbors(&local, None);
    assert!(!found.iter().any(|n| n.id == local.id));
}

#[test]
fn remove_contact() {
    let local = make_node("local");
    let mut rt = RoutingTable::new(local.clone(), 20);
    let peer = make_node("peer");
    rt.add_contact(peer.clone());
    rt.remove_contact(&peer);
    assert!(rt.find_neighbors(&peer, None).is_empty());
}

#[test]
fn replacement_node_promoted_on_eviction() {
    let local = make_node("local");
    let ksize = 1;
    let mut rt = RoutingTable::new(local.clone(), ksize);
    let peer_a = make_node("peer_a");
    let peer_b = make_node("peer_b");
    rt.add_contact(peer_a.clone());
    rt.add_contact(peer_b.clone());
    rt.remove_contact(&peer_a);
    let found = rt.find_neighbors(&make_node("target"), None);
    assert!(found.iter().any(|n| n.id == peer_b.id));
}

#[test]
fn bucket_splits_on_overflow() {
    let local = make_node("local");
    let ksize = 2;
    let mut rt = RoutingTable::new(local.clone(), ksize);
    for i in 0..20 {
        rt.add_contact(make_node(&format!("peer{}", i)));
    }
    let found = rt.find_neighbors(&make_node("target"), None);
    assert!(found.len() <= ksize);
}

#[test]
fn find_neighbors_excludes_target() {
    let local = make_node("local");
    let mut rt = RoutingTable::new(local.clone(), 20);
    let target = make_node("target");
    rt.add_contact(target.clone());
    for i in 0..5 {
        rt.add_contact(make_node(&format!("peer{}", i)));
    }
    let found = rt.find_neighbors(&target, None);
    assert!(!found.iter().any(|n| n.id == target.id));
}

#[test]
fn touch_last_updated_prevents_lonely() {
    let local = make_node("local");
    let rt = RoutingTable::new(local.clone(), 3);
    assert!(rt.lonely_buckets().is_empty());
}

#[test]
fn add_node_does_not_reset_lonely_timer() {
    let mut b = KBucket::new(0..=u128::MAX, 20);
    let t_before = b.last_updated;
    b.add_node(make_node("x"));
    let t_after = b.last_updated;
    assert_eq!(t_before, t_after);
}

#[test]
fn touch_last_updated_resets_timer() {
    let mut b = KBucket::new(0..=u128::MAX, 20);
    let t_before = b.last_updated;
    while now_secs() <= t_before {}
    b.touch_last_updated();
    let t_after = b.last_updated;
    assert!(t_after > t_before);
}

#[test]
fn traverser_visits_all_buckets() {
    let local = make_node("local");
    let ksize = 20;
    let mut rt = RoutingTable::new(local.clone(), ksize);
    for i in 0..15 {
        rt.add_contact(make_node(&format!("peer{}", i)));
    }
    let target = make_node("target");
    let found = rt.find_neighbors(&target, None);
    assert!(!found.is_empty());
    assert!(found.len() <= ksize);
}

#[test]
fn test_local_node_never_added() {
    let local = make_node("local");
    let mut rt = RoutingTable::new(local.clone(), 20);
    rt.add_contact(local.clone());
    let found = rt.find_neighbors(&local, None);
    assert!(
        !found.iter().any(|n| n.id == local.id),
        "local node must not appear in its own routing table"
    );
}

#[test]
fn test_find_neighbors_capped_at_k() {
    let ksize = 5;
    let local = make_node("local");
    let mut rt = RoutingTable::new(local.clone(), ksize);
    for i in 0..50 {
        rt.add_contact(make_node(&format!("p{}", i)));
    }
    let found = rt.find_neighbors(&make_node("target"), None);
    assert!(
        found.len() <= ksize,
        "find_neighbors must return at most k={} nodes, got {}",
        ksize,
        found.len()
    );
}

#[test]
fn test_find_neighbors_sorted_by_xor_distance() {
    let local = make_node("local");
    let target = make_node("target");
    let mut rt = RoutingTable::new(local.clone(), 20);
    for i in 0..10 {
        rt.add_contact(make_node(&format!("node{}", i)));
    }
    let found = rt.find_neighbors(&target, None);
    let distances: Vec<u128> = found.iter().map(|n| n.distance_to(&target)).collect();
    let mut sorted = distances.clone();
    sorted.sort_unstable();
    assert_eq!(distances, sorted, "results must be in ascending XOR-distance order");
}

#[test]
fn test_find_neighbors_exclusion_filter() {
    let local = make_node("local");
    let mut rt = RoutingTable::new(local.clone(), 20);
    let excluded = make_node("excluded");
    rt.add_contact(excluded.clone());
    rt.add_contact(make_node("other1"));
    rt.add_contact(make_node("other2"));
    let found = rt.find_neighbors(&make_node("target"), Some(&excluded));
    assert!(
        !found.iter().any(|n| n.id == excluded.id),
        "excluded peer must not appear in results"
    );
}

#[test]
fn test_remove_contact() {
    let local = make_node("local");
    let mut rt = RoutingTable::new(local.clone(), 20);
    let peer = make_node("remove_me");
    rt.add_contact(peer.clone());
    rt.remove_contact(&peer);
    let found = rt.find_neighbors(&peer, None);
    assert!(
        !found.iter().any(|n| n.id == peer.id),
        "removed peer must not appear in routing table"
    );
}

#[test]
fn test_is_new_node_detection() {
    let local = make_node("local");
    let mut rt = RoutingTable::new(local.clone(), 20);
    let peer = make_node("known");
    assert!(rt.is_new_node(&peer), "peer should be new before insertion");
    rt.add_contact(peer.clone());
    assert!(!rt.is_new_node(&peer), "peer should be known after insertion");
}

#[test]
fn test_bucket_splits_on_overflow() {
    let ksize = 3;
    let local = make_node("local_split");
    let mut rt = RoutingTable::new(local.clone(), ksize);
    for i in 0..30 {
        rt.add_contact(make_node(&format!("s{}", i)));
    }
    let found = rt.find_neighbors(&make_node("any_target"), None);
    assert!(
        found.len() <= ksize,
        "after splits, find_neighbors must still return at most k={} nodes",
        ksize
    );
    assert!(
        rt.buckets().len() > 1,
        "overflow near local node should trigger at least one bucket split"
    );
}

#[test]
fn test_bucket_not_lonely_when_half_full() {
    let ksize = 4;
    let local = make_node("local_full");
    let mut rt = RoutingTable::new(local.clone(), ksize);
    rt.add_contact(make_node("p1"));
    rt.add_contact(make_node("p2"));
    let found = rt.find_neighbors(&make_node("any"), None);
    assert!(found.len() >= 2);
}

#[test]
fn test_distance_to_self_is_zero() {
    let n = make_node("x");
    assert_eq!(n.distance_to(&n), 0);
}

#[test]
fn test_distance_is_symmetric() {
    let a = make_node("alpha");
    let b = make_node("beta");
    assert_eq!(a.distance_to(&b), b.distance_to(&a));
}

#[test]
fn test_distinct_nodes_have_nonzero_distance() {
    let a = make_node("node_a");
    let b = make_node("node_b");
    assert_ne!(a.distance_to(&b), 0, "distinct nodes should have non-zero XOR distance");
}

#[test]
fn test_node_address() {
    let with_addr = make_node_with_addr("n", "10.0.0.1", 1234);
    assert_eq!(with_addr.address(), Some(("10.0.0.1".to_string(), 1234)));
    let no_addr = make_node("no_addr");
    assert_eq!(no_addr.address(), None);
}

#[test]
fn test_nodeheap_maxsize_enforced() {
    let pivot = make_node("pivot");
    let mut heap = NodeHeap::new(pivot.clone(), 3);
    for i in 0..20 {
        heap.push_one(make_node(&format!("h{}", i)));
    }
    assert!(heap.len() <= 3, "heap must not exceed maxsize, got {} nodes", heap.len());
}

#[test]
fn test_nodeheap_no_duplicates() {
    let pivot = make_node("pivot");
    let mut heap = NodeHeap::new(pivot, 10);
    let node = make_node("dup");
    heap.push_one(node.clone());
    heap.push_one(node);
    assert_eq!(heap.len(), 1, "duplicate insertion must be ignored");
}

#[test]
fn test_nodeheap_iter_distance_order() {
    let pivot = make_node("pivot_ord");
    let mut heap = NodeHeap::new(pivot.clone(), 10);
    for i in 0..5 {
        heap.push_one(make_node(&format!("ord{}", i)));
    }
    let nodes = heap.to_vec();
    let distances: Vec<u128> = nodes.iter().map(|n| n.distance_to(&pivot)).collect();
    let mut sorted = distances.clone();
    sorted.sort_unstable();
    assert_eq!(distances, sorted, "heap iteration must yield nodes in ascending distance order");
}

#[test]
fn test_nodeheap_contact_tracking() {
    let pivot = make_node("pivot_ct");
    let mut heap = NodeHeap::new(pivot, 10);
    let peer = make_node("ct_peer");
    heap.push_one(peer.clone());
    assert!(!heap.have_contacted_all(), "should have at least one uncontacted node");
    heap.mark_contacted(&peer);
    assert!(heap.have_contacted_all(), "after marking, all nodes should be contacted");
}

#[test]
fn test_nodeheap_get_uncontacted_filters_correctly() {
    let pivot = make_node("pivot_uc");
    let mut heap = NodeHeap::new(pivot, 10);
    let a = make_node("uc_a");
    let b = make_node("uc_b");
    heap.push_one(a.clone());
    heap.push_one(b.clone());
    heap.mark_contacted(&a);
    let uncontacted = heap.get_uncontacted();
    assert_eq!(uncontacted.len(), 1);
    assert_eq!(uncontacted[0].id, b.id);
}

#[test]
fn test_nodeheap_remove() {
    let pivot = make_node("pivot_rm");
    let mut heap = NodeHeap::new(pivot, 10);
    let a = make_node("rm_a");
    let b = make_node("rm_b");
    heap.push_one(a.clone());
    heap.push_one(b.clone());
    heap.remove(&[a.id]);
    assert!(!heap.contains(&a), "removed node must not be in heap");
    assert!(heap.contains(&b), "non-removed node must still be in heap");
}

#[test]
fn an_id_is_folded_into_128_bits() {
    let mut id = [0u8; 20];
    id[0] = 0x80;
    id[15] = 1;
    id[16] = 0x40;
    id[19] = 2;
    assert_eq!(Node::from_id(id).long_id, (0xC000_0002u128 << 96) | 1);
    assert_eq!(Node::from_id([0xFF; 20]).long_id, u128::MAX >> 32);
    assert_eq!(Node::from_id([0; 20]).long_id, 0);
}

#[test]
fn a_random_node_has_no_address() {
    let a = Node::random();
    let b = Node::random();
    assert!(a.ip.is_none() && a.port.is_none());
    assert_ne!(a.id, b.id);
    assert_eq!(a.long_id, Node::from_id(a.id).long_id);
}

#[test]
fn peers_and_lists_have_labels() {
    let a = make_node_with_addr("a", "10.0.0.1", 1234);
    let mut nameless = make_node("b");
    assert_eq!(a.display(), "10.0.0.1:1234");
    assert_eq!(nameless.display(), "None:None");
    nameless.port = Some(65535);
    assert_eq!(nameless.display(), "None:65535");
    let mut heap = NodeHeap::new(a.clone(), 5);
    assert_eq!(heap.display(), "[]");
    heap.push(vec![nameless.clone(), a.clone()]);
    assert_eq!(heap.display(), "[10.0.0.1:1234, None:65535]");
}

#[test]
fn same_home_compares_ip_and_port() {
    let a = make_node_with_addr("a", "10.0.0.1", 1234);
    let b = make_node_with_addr("b", "10.0.0.1", 1234);
    let c = make_node_with_addr("c", "10.0.0.1", 1235);
    let d = make_node_with_addr("d", "10.0.0.2", 1234);
    assert!(a.same_home_as(&b));
    assert!(!a.same_home_as(&c));
    assert!(!a.same_home_as(&d));
    assert!(!a.same_home_as(&make_node("e")));
    assert!(make_node("e").same_home_as(&make_node("f")));
}

#[test]
fn a_heap_keeps_the_nearest_and_pops_them_in_order() {
    let mut heap = NodeHeap::new(node_at(0, 0), 3);
    heap.push(vec![node_at(0, 9), node_at(0, 3), node_at(0, 7), node_at(0, 1), node_at(0, 3)]);
    let lasts: Vec<u8> = heap.iter().iter().map(|n| n.id[15]).collect();
    assert_eq!(lasts, vec![1, 3, 7]);
    assert_eq!(heap.get_ids().len(), 3);
    assert_eq!(heap.get_node(&node_at(0, 7).id).map(|n| n.id[15]), Some(7));
    assert!(heap.get_node(&node_at(0, 9).id).is_none());
    assert_eq!(heap.popleft().map(|n| n.id[15]), Some(1));
    assert_eq!(heap.popleft().map(|n| n.id[15]), Some(3));
    assert_eq!(heap.popleft().map(|n| n.id[15]), Some(7));
    assert!(heap.popleft().is_none());
    assert!(heap.is_empty());
}

#[test]
fn a_full_bucket_keeps_newcomers_as_spares() {
    let mut bucket = KBucket::new(0..=u128::MAX, 2);
    assert!(bucket.add_node(node_at(1, 0)));
    assert!(bucket.add_node(node_at(2, 0)));
    assert!(!bucket.add_node(node_at(3, 0)));
    assert!(!bucket.add_node(node_at(4, 0)));
    assert!(!bucket.add_node(node_at(3, 0)));
    assert_eq!(bucket.len(), 2);
    assert_eq!(bucket.replacement_nodes.iter().map(|n| n.id[0]).collect::<Vec<u8>>(), vec![4, 3]);
    assert!(bucket.add_node(node_at(1, 0)));
    assert_eq!(bucket.head().map(|n| n.id[0]), Some(2));
    bucket.remove_node(&node_at(2, 0));
    assert!(!bucket.contains(&node_at(2, 0)));
    let left: &VecDeque<Node> = bucket.nodes();
    assert_eq!(left.iter().map(|n| n.id[0]).collect::<Vec<u8>>(), vec![1, 3]);
    assert!(!bucket.is_empty());
}

#[test]
fn spares_are_capped_at_five_per_contact() {
    let mut bucket = KBucket::new(0..=u128::MAX, 1);
    for i in 0..9 {
        bucket.add_node(node_at(i, 0));
    }
    assert_eq!(
        bucket.replacement_nodes.iter().map(|n| n.id[0]).collect::<Vec<u8>>(),
        vec![4, 5, 6, 7, 8]
    );
}

#[test]
fn a_split_deals_contacts_and_spares_to_the_halves() {
    let mut bucket = KBucket::new(0..=u128::MAX, 2);
    for first in [0x10u8, 0x90, 0x20, 0xA0, 0x30] {
        bucket.add_node(node_at(first, 0));
    }
    let (low, high) = bucket.split();
    assert_eq!(low.nodes().iter().map(|n| n.id[0]).collect::<Vec<u8>>(), vec![0x10, 0x20]);
    assert_eq!(low.replacement_nodes.iter().map(|n| n.id[0]).collect::<Vec<u8>>(), vec![0x30]);
    assert_eq!(high.nodes().iter().map(|n| n.id[0]).collect::<Vec<u8>>(), vec![0x90, 0xA0]);
    assert!(low.covers(u128::MAX / 2));
    assert!(!low.covers(u128::MAX / 2 + 1));
    assert!(high.covers(u128::MAX / 2 + 1));
    assert!(high.covers(u128::MAX));
}

#[test]
fn depth_counts_shared_bits() {
    let mut bucket = KBucket::new(0..=u128::MAX, 4);
    assert_eq!(bucket.depth(), 0);
    bucket.add_node(node_at(0b1010_0000, 0));
    assert_eq!(bucket.depth(), 160);
    bucket.add_node(node_at(0b1011_0000, 0));
    assert_eq!(bucket.depth(), 3);
    bucket.add_node(node_at(0b0011_0000, 0));
    assert_eq!(bucket.depth(), 0);
}

#[test]
fn a_bucket_is_lonely_after_an_hour() {
    let bucket = KBucket::new_at(0..=u128::MAX, 4, 10_000);
    assert!(!bucket.is_lonely_at(10_000));
    assert!(!bucket.is_lonely_at(13_600));
    assert!(bucket.is_lonely_at(13_601));
    assert!(!bucket.is_lonely_at(0));
    assert!(!KBucket::new(0..=u128::MAX, 4).is_lonely());
    assert!(KBucket::new_at(0..=u128::MAX, 4, 0).is_lonely());
}

#[test]
fn lookups_touch_the_bucket_of_the_target() {
    let mut rt = RoutingTable::new_at(make_node("local"), 3, 0);
    assert_eq!(rt.lonely_buckets_at(5000).len(), 1);
    rt.find_neighbors_at(&make_node("target"), None, 5000);
    assert!(rt.lonely_buckets_at(5000).is_empty());
}

#[test]
fn a_full_bucket_away_from_home_hands_out_its_oldest_contact() {
    let mut rt = RoutingTable::new_at(node_at(0, 1), 1, 0);
    assert!(rt.add_contact(node_at(0x80, 0)).is_none());
    let ping = rt.add_contact(node_at(0x80, 1));
    assert_eq!(ping.map(|n| n.id), Some(node_at(0x80, 0).id));
    assert!(rt.is_new_node(&node_at(0x80, 1)));
    rt.remove_contact(&node_at(0x80, 0));
    assert!(!rt.is_new_node(&node_at(0x80, 1)));
}

#[test]
fn contacts_survive_splits() {
    let mut rt = RoutingTable::new(node_at(0, 1), 4);
    for first in [0x80u8, 0x40, 0x20, 0x10] {
        assert!(rt.add_contact(node_at(first, 0)).is_none());
    }
    assert!(rt.add_contact(node_at(0x08, 0)).is_none());
    assert!(rt.buckets().len() > 1);
    for first in [0x80u8, 0x40, 0x20, 0x10, 0x08] {
        assert!(!rt.is_new_node(&node_at(first, 0)));
    }
}

#[test]
fn the_nearest_bucket_on_either_side_is_visited_first() {
    let mut rt = RoutingTable::new(node_at(0xFF, 1), 1);
    for first in [0x00u8, 0x80, 0xC0, 0xE0] {
        rt.add_contact(node_at(first, 7));
    }
    assert!(rt.buckets().len() >= 4);
    let found = rt.find_neighbors(&node_at(0xE0, 7), None);
    assert_eq!(found.iter().map(|n| n.id[0]).collect::<Vec<u8>>(), vec![0xC0]);
}

#[test]
fn distances_obey_the_triangle_and_tell_peers_apart() {
    let labels = ["a", "b", "c", "d", "e", "f"];
    for x in labels {
        for y in labels {
            for z in labels {
                let (x, y, z) = (make_node(x), make_node(y), make_node(z));
                let detour = x.distance_to(&y).saturating_add(y.distance_to(&z));
                assert!(x.distance_to(&z) <= detour);
                if x.distance_to(&y) == x.distance_to(&z) {
                    assert_eq!(y.long_id, z.long_id);
                }
            }
        }
    }
}

#[test]
fn buckets_partition_the_keyspace_after_many_contacts() {
    let local = make_node("local");
    let mut rt = RoutingTable::new(local.clone(), 2);
    for i in 0..200 {
        rt.add_contact(make_node(&format!("peer{}", i)));
    }
    let buckets = rt.buckets();
    assert_eq!(*buckets[0].range.start(), 0);
    assert_eq!(*buckets[buckets.len() - 1].range.end(), u128::MAX);
    for pair in buckets.windows(2) {
        assert_eq!(*pair[0].range.end() + 1, *pair[1].range.start());
    }
    for bucket in buckets {
        assert!(bucket.len() <= 2);
        assert!(bucket.replacement_nodes.len() <= 10);
        for node in bucket.nodes().iter().chain(bucket.replacement_nodes.iter()) {
            assert!(bucket.covers(node.long_id));
            assert_ne!(node.id, local.id);
        }
    }
}

#[test]
fn contacts_of_the_targets_own_bucket_come_first() {
    let mut rt = RoutingTable::new(node_at(0, 1), 3);
    for first in [0x80u8, 0x81, 0x82, 0x40, 0x41, 0x20] {
        rt.add_contact(node_at(first, 0));
    }
    let found = rt.find_neighbors(&node_at(0x83, 0), None);
    assert_eq!(found.iter().map(|n| n.id[0]).collect::<Vec<u8>>(), vec![0x82, 0x81, 0x80]);
}

#[test]
fn a_walk_goes_left_and_right_by_turns() {
    let mut buckets = Vec::new();
    for i in 0u8..6 {
        let lo = (i as u128) << 120;
        let hi = if i == 5 { u128::MAX } else { lo + (1 << 120) - 1 };
        let mut bucket = KBucket::new(lo..=hi, 2);
        bucket.add_node(node_at(i, 1));
        bucket.add_node(node_at(i, 2));
        buckets.push(bucket);
    }
    let walk = |center: usize| {
        let mut traverser = TableTraverser::new(&buckets, center);
        let mut met = Vec::new();
        while let Some(node) = traverser.next() {
            met.push((node.id[0], node.id[15]));
        }
        assert!(traverser.next().is_none());
        met
    };
    let in_turn = |order: [u8; 6]| {
        order.iter().flat_map(|i| [(*i, 2u8), (*i, 1u8)]).collect::<Vec<(u8, u8)>>()
    };
    assert_eq!(walk(2), in_turn([2, 1, 3, 0, 4, 5]));
    assert_eq!(walk(4), in_turn([4, 3, 5, 2, 1, 0]));
    assert_eq!(walk(0), in_turn([0, 1, 2, 3, 4, 5]));
    assert_eq!(walk(5), in_turn([5, 4, 3, 2, 1, 0]));
}

#[test]
fn a_contact_to_ping_is_from_a_bucket_that_may_not_be_split() {
    let local = make_node("local");
    let mut rt = RoutingTable::new(local.clone(), 2);
    let mut pings = 0;
    for i in 0..300 {
        let peer = make_node(&format!("peer{}", i));
        if let Some(head) = rt.add_contact(peer.clone()) {
            pings += 1;
            let bucket = rt.buckets.iter().find(|b| b.covers(peer.long_id)).unwrap();
            assert_eq!(bucket.nodes.len(), 2);
            assert_eq!(bucket.nodes[0].id, head.id);
            assert!(!bucket.covers(local.long_id));
            assert_eq!(bucket.depth() % 5, 0);
            assert!(rt.is_new_node(&peer));
        } else {
            assert!(!rt.is_new_node(&peer));
        }
    }
    assert!(pings > 0);
    let mut ids: Vec<[u8; 20]> = Vec::new();
    for bucket in &rt.buckets {
        ids.extend(bucket.nodes.iter().map(|n| n.id));
        ids.extend(bucket.replacement_nodes.iter().map(|n| n.id));
    }
    let count = ids.len();
    ids.sort();
    ids.dedup();
    assert_eq!(ids.len(), count);
    assert!(!ids.contains(&local.id));
}

#[test]
fn random_ids_differ() {
    assert_ne!(Node::random().id, Node::random().id);
    assert_eq!(Node::random().ip, None);
}
