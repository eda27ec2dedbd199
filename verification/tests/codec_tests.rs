use kademlia_node::messages::{
    encode_query, decode_message, ipv4_is_global, DecodeError, DhtMessage, FullQuery, Node4Info,
    Peer4Info, Query, TxId, WireFault, WireKey,
};
use kademlia_node::node_id::NodeId;

fn sender() -> NodeId {
    NodeId(*b"abcdefghij0123456789")
}

fn target() -> NodeId {
    NodeId(*b"mnopqrstuvwxyz012345")
}

fn tx(bytes: &[u8; 2]) -> TxId {
    TxId::Short(*bytes)
}

#[test]
fn ping_query_encodes_to_expected_bytes() {
    let q = FullQuery { query: Query::Ping, sender_id: sender(), tx_id: tx(b"aa") };
    let bytes = encode_query(&q);
    assert_eq!(
        bytes.as_slice(),
        &b"d1:ad2:id20:abcdefghij0123456789e1:q4:ping1:t2:aa1:y1:qe"[..]
    );
}

#[test]
fn find_node_query_encodes_to_expected_bytes() {
    let q = FullQuery { query: Query::FindNode(target()), sender_id: sender(), tx_id: tx(b"ab") };
    let bytes = encode_query(&q);
    assert_eq!(
        bytes.as_slice(),
        &b"d1:ad2:id20:abcdefghij01234567896:target20:mnopqrstuvwxyz012345e1:q9:find_node1:t2:ab1:y1:qe"[..]
    );
}

#[test]
fn ping_query_round_trips_through_the_wire() {
    let q = FullQuery { query: Query::Ping, sender_id: sender(), tx_id: tx(b"xy") };
    let bytes = encode_query(&q);
    match decode_message(&bytes).unwrap() {
        DhtMessage::Query(back) => {
            assert!(matches!(back.query, Query::Ping));
            assert_eq!(back.sender_id, sender());
            assert_eq!(back.tx_id, tx(b"xy"));
            // short in, short out
            assert!(matches!(back.tx_id, TxId::Short(_)));
        }
        other => panic!("expected a query, got {:?}", other),
    }
}

#[test]
fn two_byte_arbitrary_tx_id_normalizes_to_short_on_the_way_back() {
    let q = FullQuery {
        query: Query::Ping,
        sender_id: sender(),
        tx_id: TxId::Arbitrary(b"ab".to_vec()),
    };
    let bytes = encode_query(&q);
    match decode_message(&bytes).unwrap() {
        DhtMessage::Query(back) => {
            assert_eq!(back.tx_id, TxId::Short(*b"ab"));
            assert!(matches!(back.tx_id, TxId::Short(_)));
        }
        other => panic!("expected a query, got {:?}", other),
    }
}

#[test]
fn global_address_check_covers_the_special_ranges() {
    assert!(ipv4_is_global(&[8, 8, 8, 8]));
    assert!(ipv4_is_global(&[93, 184, 216, 34]));
    assert!(!ipv4_is_global(&[0, 0, 0, 0]));
    assert!(!ipv4_is_global(&[10, 1, 2, 3]));
    assert!(!ipv4_is_global(&[172, 16, 0, 1]));
    assert!(!ipv4_is_global(&[172, 31, 255, 255]));
    assert!(ipv4_is_global(&[172, 32, 0, 1]));
    assert!(!ipv4_is_global(&[192, 168, 0, 1]));
    assert!(!ipv4_is_global(&[127, 0, 0, 1]));
    assert!(!ipv4_is_global(&[169, 254, 0, 1]));
    assert!(!ipv4_is_global(&[255, 255, 255, 255]));
    assert!(!ipv4_is_global(&[192, 0, 2, 1]));
    assert!(!ipv4_is_global(&[198, 51, 100, 1]));
    assert!(!ipv4_is_global(&[203, 0, 113, 1]));
}

#[test]
fn find_node_query_round_trips_through_the_wire() {
    let q = FullQuery { query: Query::FindNode(target()), sender_id: sender(), tx_id: tx(b"zz") };
    let bytes = encode_query(&q);
    match decode_message(&bytes).unwrap() {
        DhtMessage::Query(back) => {
            match back.query {
                Query::FindNode(t) => assert_eq!(t, target()),
                other => panic!("expected find_node, got {:?}", other),
            }
            assert_eq!(back.sender_id, sender());
            assert_eq!(back.tx_id, tx(b"zz"));
        }
        other => panic!("expected a query, got {:?}", other),
    }
}

#[test]
fn garbage_fails_the_bencode_parse() {
    match decode_message(b"not bencode at all") {
        Err(WireFault::Parse(_)) => {}
        other => panic!("expected a parse fault, got {:?}", other),
    }
}

fn expect_parse_fault(bytes: &[u8]) {
    match decode_message(bytes) {
        Err(WireFault::Parse(_)) => {}
        other => panic!("expected a parse fault, got {:?}", other),
    }
}

#[test]
fn unterminated_containers_are_dropped_without_crashing() {
    expect_parse_fault(b"l");
    expect_parse_fault(b"d");
    expect_parse_fault(b"d3:fooi1e");
    expect_parse_fault(b"lli1ee");
    expect_parse_fault(b"d1:y1:q");
}

#[test]
fn oversized_numbers_and_lengths_are_dropped_without_crashing() {
    // a number too wide for a 64-bit signed integer
    expect_parse_fault(b"i99999999999999999999e");
    expect_parse_fault(b"li99999999999999999999ee");
    // a byte string claiming far more content than the datagram carries
    expect_parse_fault(b"999999999:x");
    expect_parse_fault(b"99999999999999999999:x");
}

#[test]
fn truncated_strings_and_trailing_values_are_dropped() {
    expect_parse_fault(b"5:ab");
    expect_parse_fault(b"i1ei2e");
    expect_parse_fault(b"i1eZ");
}

fn decode_err(bytes: &[u8]) -> DecodeError {
    match decode_message(bytes) {
        Err(WireFault::Decode(e)) => e,
        other => panic!("expected a decode error, got {:?}", other),
    }
}

#[test]
fn missing_y_key_is_reported() {
    assert_eq!(decode_err(b"de"), DecodeError::KeyMissing(WireKey::Y));
}

#[test]
fn non_dict_top_level_is_wrong_type() {
    assert_eq!(decode_err(b"i42e"), DecodeError::WrongType);
}

#[test]
fn unknown_message_class_is_invalid_discrim() {
    assert_eq!(decode_err(b"d1:y1:ze"), DecodeError::InvalidDiscrim);
}

#[test]
fn query_without_args_is_reported() {
    assert_eq!(decode_err(b"d1:y1:qe"), DecodeError::KeyMissing(WireKey::A));
}

#[test]
fn query_without_sender_id_is_reported() {
    assert_eq!(decode_err(b"d1:ade1:y1:qe"), DecodeError::KeyMissing(WireKey::Id));
}

#[test]
fn query_with_short_sender_id_is_wrong_length() {
    assert_eq!(decode_err(b"d1:ad2:id3:abce1:y1:qe"), DecodeError::WrongLength);
}

#[test]
fn query_without_tx_is_reported() {
    assert_eq!(
        decode_err(b"d1:ad2:id20:abcdefghij0123456789e1:y1:qe"),
        DecodeError::KeyMissing(WireKey::T)
    );
}

#[test]
fn query_with_unknown_name_is_invalid_discrim() {
    assert_eq!(
        decode_err(b"d1:ad2:id20:abcdefghij0123456789e1:q9:get_peers1:t2:aa1:y1:qe"),
        DecodeError::InvalidDiscrim
    );
}

#[test]
fn find_node_without_target_is_reported() {
    assert_eq!(
        decode_err(b"d1:ad2:id20:abcdefghij0123456789e1:q9:find_node1:t2:aa1:y1:qe"),
        DecodeError::KeyMissing(WireKey::Target)
    );
}

#[test]
fn pong_response_decodes() {
    let bytes = b"d1:rd2:id20:abcdefghij0123456789e1:t2:aa1:y1:re";
    match decode_message(bytes).unwrap() {
        DhtMessage::Response(resp) => {
            assert!(matches!(
                resp.response,
                kademlia_node::messages::Response::Pong
            ));
            assert_eq!(resp.sender_id, sender());
            assert_eq!(resp.tx_id, tx(b"aa"));
        }
        other => panic!("expected a response, got {:?}", other),
    }
}

#[test]
fn get_peers_token_is_unsupported() {
    let bytes = b"d1:rd2:id20:abcdefghij01234567895:token4:opaqe1:t2:aa1:y1:re";
    assert_eq!(decode_err(bytes), DecodeError::TokenUnsupported);
}

#[test]
fn found_nodes_response_decodes_contacts() {
    // one 26-byte record: 20 id bytes, 8.8.4.4, port 0x1ae1 = 6881
    let mut body: Vec<u8> = Vec::new();
    body.extend_from_slice(b"d1:rd2:id20:abcdefghij01234567895:nodes26:");
    body.extend_from_slice(b"mnopqrstuvwxyz012345");
    body.extend_from_slice(&[8, 8, 4, 4, 0x1a, 0xe1]);
    body.extend_from_slice(b"e1:t2:aa1:y1:re");
    match decode_message(&body).unwrap() {
        DhtMessage::Response(resp) => match resp.response {
            kademlia_node::messages::Response::FoundNodes { nodes4 } => {
                assert_eq!(nodes4.len(), 1);
                assert_eq!(nodes4[0].id, target());
                assert_eq!(nodes4[0].peer, Peer4Info { ip: [8, 8, 4, 4], port: 6881 });
            }
            other => panic!("expected found nodes, got {:?}", other),
        },
        other => panic!("expected a response, got {:?}", other),
    }
}

#[test]
fn found_nodes_with_ragged_length_is_wrong_length() {
    let mut body: Vec<u8> = Vec::new();
    body.extend_from_slice(b"d1:rd2:id20:abcdefghij01234567895:nodes27:");
    body.extend_from_slice(b"mnopqrstuvwxyz012345");
    body.extend_from_slice(&[8, 8, 4, 4, 0x1a, 0xe1, 0]);
    body.extend_from_slice(b"e1:t2:aa1:y1:re");
    assert_eq!(decode_err(&body), DecodeError::WrongLength);
}

#[test]
fn contact_record_round_trips() {
    let mut record: Vec<u8> = Vec::new();
    record.extend_from_slice(b"mnopqrstuvwxyz012345");
    record.extend_from_slice(&[93, 184, 216, 34, 0x1a, 0xe1]);
    let n = Node4Info::parse(&record).unwrap();
    assert_eq!(n.id, target());
    assert_eq!(n.peer.ip, [93, 184, 216, 34]);
    assert_eq!(n.peer.port, 6881);
    assert_eq!(n.encode(), record);
}

#[test]
fn contact_with_unspecified_address_fails() {
    let mut record: Vec<u8> = Vec::new();
    record.extend_from_slice(b"mnopqrstuvwxyz012345");
    record.extend_from_slice(&[0, 0, 0, 0, 0x1a, 0xe1]);
    assert_eq!(
        Node4Info::parse(&record),
        Err(DecodeError::InvalidAddress(0, 0, 0, 0))
    );
}

#[test]
fn contact_with_private_address_fails() {
    let mut record: Vec<u8> = Vec::new();
    record.extend_from_slice(b"mnopqrstuvwxyz012345");
    record.extend_from_slice(&[192, 168, 1, 2, 0x1a, 0xe1]);
    assert_eq!(
        Node4Info::parse(&record),
        Err(DecodeError::InvalidAddress(192, 168, 1, 2))
    );
}

#[test]
fn contact_with_port_zero_fails() {
    let mut record: Vec<u8> = Vec::new();
    record.extend_from_slice(b"mnopqrstuvwxyz012345");
    record.extend_from_slice(&[8, 8, 4, 4, 0, 0]);
    assert_eq!(Node4Info::parse(&record), Err(DecodeError::OutOfRange));
}

#[test]
fn peer_error_message_decodes() {
    let bytes = b"d1:eli201e13:generic errore1:t2:aa1:y1:ee";
    match decode_message(bytes).unwrap() {
        DhtMessage::Error(e) => {
            assert_eq!(e.code, 201);
            assert_eq!(e.message, "generic error");
            assert_eq!(e.tx_id, tx(b"aa"));
        }
        other => panic!("expected an error message, got {:?}", other),
    }
}

#[test]
fn peer_error_with_invalid_text_is_replaced_not_rejected() {
    let mut bytes: Vec<u8> = Vec::new();
    bytes.extend_from_slice(b"d1:eli201e3:");
    bytes.extend_from_slice(&[b'a', 0xFF, b'b']);
    bytes.extend_from_slice(b"e1:t2:aa1:y1:ee");
    match decode_message(&bytes).unwrap() {
        DhtMessage::Error(e) => assert_eq!(e.message, "a\u{FFFD}b"),
        other => panic!("expected an error message, got {:?}", other),
    }
}

#[test]
fn peer_error_code_out_of_range_is_reported() {
    let bytes = b"d1:eli-1e13:generic errore1:t2:aa1:y1:ee";
    assert_eq!(decode_err(bytes), DecodeError::OutOfRange);
}

#[test]
fn peer_error_with_wrong_arity_is_wrong_length() {
    let bytes = b"d1:eli201ee1:t2:aa1:y1:ee";
    assert_eq!(decode_err(bytes), DecodeError::WrongLength);
}

#[test]
fn decode_errors_describe_themselves() {
    assert_eq!(DecodeError::WrongType.description(), "wrong type");
    assert_eq!(DecodeError::KeyMissing(WireKey::Y).description(), "required key missing");
    assert_eq!(DecodeError::OutOfRange.description(), "number out of range");
    assert_eq!(DecodeError::WrongLength.description(), "wrong array/value length");
}

#[test]
fn two_byte_tx_ids_compare_by_content_across_forms() {
    let short = TxId::Short(*b"ab");
    let arbitrary = TxId::Arbitrary(b"ab".to_vec());
    assert_eq!(short, arbitrary);
    assert_ne!(short, TxId::Short(*b"ba"));
}

#[test]
fn random_tx_ids_are_alphabetic() {
    for _ in 0..50 {
        let t = TxId::random();
        let s = t.as_slice();
        assert_eq!(s.len(), 2);
        for &c in s {
            assert!(c.is_ascii_alphabetic());
        }
    }
}
