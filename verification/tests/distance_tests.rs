use kademlia_node::messages::DecodeError;
use kademlia_node::node_id::NodeId;
use kademlia_node::table::Distance;

fn id_from(byte0: u8) -> NodeId {
    let mut b = [0u8; 20];
    b[0] = byte0;
    NodeId(b)
}

#[test]
fn distance_to_self_is_all_zero() {
    let a = NodeId([0xAB; 20]);
    let d = Distance::between(&a, &a);
    assert_eq!(d.count_zeros(), 160);
}

#[test]
fn shared_prefix_is_160_only_for_equal_ids() {
    let a = id_from(1);
    let b = id_from(2);
    assert!(Distance::between(&a, &b).count_zeros() < 160);
    let c = id_from(1);
    assert_eq!(Distance::between(&a, &c).count_zeros(), 160);
}

#[test]
fn distance_is_symmetric() {
    let a = NodeId([0x5A; 20]);
    let mut other = [0x5A; 20];
    other[7] = 0x13;
    other[19] = 0xF0;
    let b = NodeId(other);
    assert_eq!(
        Distance::between(&a, &b).count_zeros(),
        Distance::between(&b, &a).count_zeros()
    );
}

#[test]
fn count_zeros_counts_leading_zero_bits() {
    // first differing bit is the most significant bit of byte 0
    let a = id_from(0x80);
    let zero = NodeId([0u8; 20]);
    assert_eq!(Distance::between(&a, &zero).count_zeros(), 0);

    // 0x01: seven zero bits before the first set bit
    let b = id_from(0x01);
    assert_eq!(Distance::between(&b, &zero).count_zeros(), 7);

    // 0x10: three zero bits before the first set bit
    let c = id_from(0x10);
    assert_eq!(Distance::between(&c, &zero).count_zeros(), 3);

    // first set bit in byte 2
    let mut deep = [0u8; 20];
    deep[2] = 0x40;
    assert_eq!(Distance::between(&NodeId(deep), &zero).count_zeros(), 17);
}

#[test]
fn node_id_bit_indexes_from_most_significant() {
    let a = id_from(0x80);
    assert!(a.bit(0));
    assert!(!a.bit(1));
    let b = id_from(0x01);
    assert!(b.bit(7));
    assert!(!b.bit(6));
}

#[test]
fn from_slice_requires_twenty_bytes() {
    let ok = NodeId::from_slice(&[7u8; 20]).unwrap();
    assert_eq!(ok, NodeId([7u8; 20]));
    assert_eq!(NodeId::from_slice(&[7u8; 19]), Err(DecodeError::WrongLength));
    assert_eq!(NodeId::from_slice(&[7u8; 21]), Err(DecodeError::WrongLength));
}

#[test]
fn random_ids_are_distinct() {
    let a = NodeId::random();
    let b = NodeId::random();
    // two fresh 160-bit identifiers colliding is beyond unlikely
    assert_ne!(a, b);
}
