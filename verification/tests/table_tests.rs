use kademlia_node::node_id::NodeId;
use kademlia_node::table::{NodeState, Slot, SlotRef, Table};

/// An identifier sharing exactly `prefix` leading bits with the all-zero
/// local identifier, distinguished by `salt` in its tail.
fn id_at_depth(prefix: usize, salt: u8) -> NodeId {
    let mut b = [0u8; 20];
    // set the bit at position `prefix` so the shared prefix length is exact
    b[prefix / 8] |= 1 << (7 - (prefix % 8));
    b[19] ^= salt;
    NodeId(b)
}

fn local() -> NodeId {
    NodeId([0u8; 20])
}

fn occupied_nodes(table: &Table, bucket: usize) -> Vec<(NodeId, NodeState)> {
    let mut found = Vec::new();
    for slot in 0..8 {
        if let Slot::Node(id, st) = table.get_slot(SlotRef { bucket, slot }) {
            found.push((id, st));
        }
    }
    found
}

#[test]
fn new_table_has_one_empty_bucket() {
    let t = Table::new(local());
    assert_eq!(t.bucket_count(), 1);
    assert!(occupied_nodes(&t, 0).is_empty());
    assert_eq!(*t.our_id(), local());
}

#[test]
fn allocate_returns_an_empty_slot_and_set_slot_fills_it() {
    let mut t = Table::new(local());
    let id = id_at_depth(0, 1);
    let r = t.allocate(&id).expect("room in a fresh table");
    assert!(matches!(t.get_slot(r), Slot::Empty));
    t.set_slot(r, &id, NodeState::Good);
    match t.get_slot(r) {
        Slot::Node(got, NodeState::Good) => assert_eq!(got, id),
        other => panic!("expected the node, got {:?}", other),
    }
}

#[test]
fn allocate_twice_returns_the_same_slot() {
    let mut t = Table::new(local());
    let id = id_at_depth(0, 9);
    let first = t.allocate(&id).unwrap();
    t.set_slot(first, &id, NodeState::Pinging);
    let second = t.allocate(&id).unwrap();
    assert_eq!(first, second);
    let third = t.allocate(&id).unwrap();
    assert_eq!(first, third);
    // still exactly one copy of the node in that bucket
    let nodes = occupied_nodes(&t, first.bucket);
    assert_eq!(nodes.iter().filter(|(n, _)| *n == id).count(), 1);
}

#[test]
fn ninth_shallow_node_is_dropped_without_a_split() {
    let mut t = Table::new(local());
    // eight distinct nodes sharing no prefix bit with the local id
    for salt in 0..8u8 {
        let id = id_at_depth(0, salt);
        let r = t.allocate(&id).expect("bucket not full yet");
        t.set_slot(r, &id, NodeState::Good);
    }
    assert_eq!(t.bucket_count(), 1);
    // a ninth node at depth 0 cannot trigger a split: its prefix length
    // does not reach past the existing buckets, so it is silently dropped
    let ninth = id_at_depth(0, 8);
    assert!(t.allocate(&ninth).is_none());
    assert_eq!(t.bucket_count(), 1);
}

#[test]
fn overflow_at_a_new_depth_splits_and_keeps_bucket_zero_shallow() {
    let mut t = Table::new(local());
    // bucket 0 fills up with eight depth-0 nodes
    for salt in 0..8u8 {
        let id = id_at_depth(0, salt);
        let r = t.allocate(&id).expect("bucket not full yet");
        t.set_slot(r, &id, NodeState::Good);
    }
    // the ninth node reaches one bit deeper, which forces a split
    let ninth = id_at_depth(1, 0);
    let r = t.allocate(&ninth).expect("the new bucket has room");
    t.set_slot(r, &ninth, NodeState::Pinging);
    assert!(t.bucket_count() >= 2);
    // bucket 0 holds no node whose shared prefix length is 1 or more
    let shallow = occupied_nodes(&t, 0);
    assert_eq!(shallow.len(), 8);
    for (id, _) in shallow {
        let d = kademlia_node::table::Distance::between(&local(), &id);
        assert_eq!(d.count_zeros(), 0);
    }
    assert_eq!(occupied_nodes(&t, 1).len(), 1);
}

#[test]
fn split_moves_deeper_nodes_into_the_new_bucket() {
    let mut t = Table::new(local());
    // a depth-2 node splits the fresh table once and lands in the catch-all
    let x = id_at_depth(2, 0);
    let r = t.allocate(&x).unwrap();
    t.set_slot(r, &x, NodeState::Good);
    assert_eq!(t.bucket_count(), 2);
    // a depth-1 node joins it there without another split
    let y = id_at_depth(1, 1);
    let r = t.allocate(&y).unwrap();
    assert_eq!(r.bucket, 1);
    t.set_slot(r, &y, NodeState::Good);
    assert_eq!(t.bucket_count(), 2);
    // a second depth-2 node splits the catch-all: the depth-2 node moves to
    // the new bucket, the depth-1 node stays behind
    let z = id_at_depth(2, 7);
    let r = t.allocate(&z).unwrap();
    assert_eq!(t.bucket_count(), 3);
    assert_eq!(r.bucket, 2);
    t.set_slot(r, &z, NodeState::Pinging);
    let b1 = occupied_nodes(&t, 1);
    assert_eq!(b1.len(), 1);
    assert_eq!(b1[0].0, y);
    let b2 = occupied_nodes(&t, 2);
    assert_eq!(b2.len(), 2);
    assert!(b2.iter().any(|(n, _)| *n == x));
    assert!(b2.iter().any(|(n, _)| *n == z));
}

#[test]
fn growth_is_one_bucket_per_triggering_call() {
    let mut t = Table::new(local());
    // fill depth 0 so deeper allocations keep splitting
    for salt in 0..8u8 {
        let id = id_at_depth(0, salt);
        let r = t.allocate(&id).unwrap();
        t.set_slot(r, &id, NodeState::Good);
    }
    let mut expected = 1;
    for depth in 1..6usize {
        let id = id_at_depth(depth, 0);
        let before = t.bucket_count();
        let r = t.allocate(&id);
        let after = t.bucket_count();
        // exactly one new bucket per overflowing call, never more
        assert_eq!(after, before + 1);
        expected += 1;
        assert_eq!(after, expected);
        if let Some(slot) = r {
            t.set_slot(slot, &id, NodeState::Good);
        }
    }
}

