use kademlia_node::engine::{Directive, Engine, Outcome, PongResult};
use kademlia_node::messages::{
    DhtMessage, FullResponse, Node4Info, Peer4Info, Query, Response, TxId,
};
use kademlia_node::node_id::NodeId;
use kademlia_node::table::{NodeState, Slot, SlotRef};

fn bootstrap_addr() -> Peer4Info {
    Peer4Info { ip: [212, 129, 33, 50], port: 6881 }
}

fn local() -> NodeId {
    NodeId([0u8; 20])
}

fn contact_id(salt: u8) -> NodeId {
    let mut b = [0u8; 20];
    b[0] = 0x80;
    b[19] = salt;
    NodeId(b)
}

fn bucket0_nodes(eng: &Engine) -> Vec<(NodeId, NodeState)> {
    let mut found = Vec::new();
    for slot in 0..8 {
        if let Slot::Node(id, st) = eng.table().get_slot(SlotRef { bucket: 0, slot }) {
            found.push((id, st));
        }
    }
    found
}

/// Bootstrap: ping the well-known node, get a pong back from that exact
/// address, gain one Good slot for it, and ask it for more nodes.
#[test]
fn bootstrap_pong_adds_good_node_and_sends_find_node() {
    let mut eng = Engine::new(local());
    let dest = bootstrap_addr();
    let pkt = eng.begin_query(&dest, Query::Ping).unwrap();
    assert_eq!(pkt.dest, dest);
    // the event loop transmits pkt.bytes in full, then arms timeout 1
    assert!(eng.confirm_sent(pkt.tx_id.clone(), dest, 1));
    assert_eq!(eng.pending_count(), 1);

    let bootstrap_id = NodeId([0xAA; 20]);
    let pong = DhtMessage::Response(FullResponse {
        response: Response::Pong,
        sender_id: bootstrap_id,
        tx_id: pkt.tx_id.clone(),
    });
    let (outcome, dirs) = eng.on_message(pong, &dest);
    assert!(matches!(outcome, Outcome::PongHandled(PongResult::Inserted)));
    assert_eq!(eng.pending_count(), 0);
    assert_eq!(dirs.len(), 2);
    assert!(matches!(dirs[0], Directive::CancelTimeout(1)));
    match dirs[1] {
        Directive::SendQuery(Query::FindNode(_), a) => assert_eq!(a, dest),
        other => panic!("expected a find_node to the peer, got {:?}", other),
    }
    let nodes = bucket0_nodes(&eng);
    assert_eq!(nodes.len(), 1);
    assert_eq!(nodes[0].0, bootstrap_id);
    assert_eq!(nodes[0].1, NodeState::Good);
}

/// A pong whose source address differs from the pinged address is rejected
/// and the table slot stays untouched.
#[test]
fn pong_from_wrong_address_is_rejected() {
    let mut eng = Engine::new(local());
    let dest = bootstrap_addr();
    let pkt = eng.begin_query(&dest, Query::Ping).unwrap();
    assert!(eng.confirm_sent(pkt.tx_id.clone(), dest, 2));

    let pong = DhtMessage::Response(FullResponse {
        response: Response::Pong,
        sender_id: NodeId([0xAA; 20]),
        tx_id: pkt.tx_id.clone(),
    });
    let imposter = Peer4Info { ip: [9, 9, 9, 9], port: 1234 };
    let (outcome, dirs) = eng.on_message(pong, &imposter);
    assert!(matches!(outcome, Outcome::WrongAddress));
    assert!(dirs.is_empty());
    // the transaction was consumed, but no slot was written
    assert_eq!(eng.pending_count(), 0);
    assert!(bucket0_nodes(&eng).is_empty());
}

/// Three previously unknown contacts yield exactly three outbound pings,
/// each with a fresh, mutually distinct transaction identifier.
#[test]
fn three_unknown_contacts_get_three_distinct_pings() {
    let mut eng = Engine::new(local());
    let dest = bootstrap_addr();
    let pkt = eng.begin_query(&dest, Query::FindNode(NodeId([1u8; 20]))).unwrap();
    assert!(eng.confirm_sent(pkt.tx_id.clone(), dest, 3));

    let contacts = vec![
        Node4Info { id: contact_id(1), peer: Peer4Info { ip: [8, 8, 8, 8], port: 1001 } },
        Node4Info { id: contact_id(2), peer: Peer4Info { ip: [8, 8, 4, 4], port: 1002 } },
        Node4Info { id: contact_id(3), peer: Peer4Info { ip: [1, 1, 1, 1], port: 1003 } },
    ];
    let resp = DhtMessage::Response(FullResponse {
        response: Response::FoundNodes { nodes4: contacts },
        sender_id: NodeId([0xAA; 20]),
        tx_id: pkt.tx_id.clone(),
    });
    let (outcome, dirs) = eng.on_message(resp, &dest);
    assert!(matches!(outcome, Outcome::NodesHandled(3)));
    assert_eq!(dirs.len(), 4);
    assert!(matches!(dirs[0], Directive::CancelTimeout(3)));

    // drive the pings the way the event loop would, confirming each send
    let mut tx_ids: Vec<TxId> = Vec::new();
    for d in &dirs[1..] {
        match d {
            Directive::SendQuery(Query::Ping, addr) => {
                let p = eng.begin_query(addr, Query::Ping).unwrap();
                assert!(eng.confirm_sent(p.tx_id.clone(), *addr, 4));
                tx_ids.push(p.tx_id);
            }
            other => panic!("expected a ping, got {:?}", other),
        }
    }
    assert_eq!(tx_ids.len(), 3);
    assert!(tx_ids[0] != tx_ids[1]);
    assert!(tx_ids[0] != tx_ids[2]);
    assert!(tx_ids[1] != tx_ids[2]);
    assert_eq!(eng.pending_count(), 3);

    // the three contacts now sit in the table as Pinging
    let nodes = bucket0_nodes(&eng);
    assert_eq!(nodes.len(), 3);
    for (_, st) in nodes {
        assert_eq!(st, NodeState::Pinging);
    }
}

/// Contacts already in the table are not pinged again.
#[test]
fn known_contacts_are_not_pinged_again() {
    let mut eng = Engine::new(local());
    let dest = bootstrap_addr();
    let contact = Node4Info { id: contact_id(1), peer: Peer4Info { ip: [8, 8, 8, 8], port: 1001 } };

    for round in 0..2u64 {
        let pkt = eng.begin_query(&dest, Query::FindNode(NodeId([1u8; 20]))).unwrap();
        assert!(eng.confirm_sent(pkt.tx_id.clone(), dest, round));
        let resp = DhtMessage::Response(FullResponse {
            response: Response::FoundNodes { nodes4: vec![contact] },
            sender_id: NodeId([0xAA; 20]),
            tx_id: pkt.tx_id.clone(),
        });
        let (outcome, dirs) = eng.on_message(resp, &dest);
        if round == 0 {
            assert!(matches!(outcome, Outcome::NodesHandled(1)));
            assert_eq!(dirs.len(), 2);
        } else {
            assert!(matches!(outcome, Outcome::NodesHandled(0)));
            assert_eq!(dirs.len(), 1);
        }
    }
}

/// A pong that resolves a contact we pinged promotes its slot to Good.
#[test]
fn pong_promotes_a_pinging_slot() {
    let mut eng = Engine::new(local());
    let dest = bootstrap_addr();
    let contact_addr = Peer4Info { ip: [8, 8, 8, 8], port: 1001 };
    let contact = Node4Info { id: contact_id(1), peer: contact_addr };

    let pkt = eng.begin_query(&dest, Query::FindNode(NodeId([1u8; 20]))).unwrap();
    assert!(eng.confirm_sent(pkt.tx_id.clone(), dest, 0));
    let resp = DhtMessage::Response(FullResponse {
        response: Response::FoundNodes { nodes4: vec![contact] },
        sender_id: NodeId([0xAA; 20]),
        tx_id: pkt.tx_id,
    });
    let (_, dirs) = eng.on_message(resp, &dest);
    assert_eq!(dirs.len(), 2);

    // send the ping and let the contact answer from its own address
    let ping = eng.begin_query(&contact_addr, Query::Ping).unwrap();
    assert!(eng.confirm_sent(ping.tx_id.clone(), contact_addr, 1));
    let pong = DhtMessage::Response(FullResponse {
        response: Response::Pong,
        sender_id: contact_id(1),
        tx_id: ping.tx_id,
    });
    let (outcome, _) = eng.on_message(pong, &contact_addr);
    assert!(matches!(outcome, Outcome::PongHandled(PongResult::Promoted)));
    let nodes = bucket0_nodes(&eng);
    assert_eq!(nodes.len(), 1);
    assert_eq!(nodes[0].1, NodeState::Good);
}

#[test]
fn response_with_unknown_tx_is_reported() {
    let mut eng = Engine::new(local());
    let pong = DhtMessage::Response(FullResponse {
        response: Response::Pong,
        sender_id: NodeId([0xAA; 20]),
        tx_id: TxId::Short(*b"zz"),
    });
    let (outcome, dirs) = eng.on_message(pong, &bootstrap_addr());
    assert!(matches!(outcome, Outcome::UnknownTx(_)));
    assert!(dirs.is_empty());
    assert!(bucket0_nodes(&eng).is_empty());
}

#[test]
fn timeout_drops_the_transaction_once() {
    let mut eng = Engine::new(local());
    let dest = bootstrap_addr();
    let pkt = eng.begin_query(&dest, Query::Ping).unwrap();
    assert!(eng.confirm_sent(pkt.tx_id.clone(), dest, 5));
    assert_eq!(eng.pending_count(), 1);
    assert!(eng.on_timeout(&pkt.tx_id));
    assert_eq!(eng.pending_count(), 0);
    // resolving the same transaction twice is a benign no-op
    assert!(!eng.on_timeout(&pkt.tx_id));
}

#[test]
fn confirm_sent_refuses_a_duplicate_tx_id() {
    let mut eng = Engine::new(local());
    let dest = bootstrap_addr();
    let id = TxId::Short(*b"qq");
    assert!(eng.confirm_sent(id.clone(), dest, 1));
    assert!(!eng.confirm_sent(id, dest, 2));
    assert_eq!(eng.pending_count(), 1);
}

/// A raw datagram drives the same path: bencode parse, decode, dispatch.
#[test]
fn raw_pong_datagram_is_handled_end_to_end() {
    let mut eng = Engine::new(local());
    let dest = bootstrap_addr();
    let pkt = eng.begin_query(&dest, Query::Ping).unwrap();
    assert!(eng.confirm_sent(pkt.tx_id.clone(), dest, 1));

    let mut datagram: Vec<u8> = Vec::new();
    datagram.extend_from_slice(b"d1:rd2:id20:");
    datagram.extend_from_slice(&[0xAA; 20]);
    datagram.extend_from_slice(b"e1:t2:");
    datagram.extend_from_slice(pkt.tx_id.as_slice());
    datagram.extend_from_slice(b"1:y1:re");
    let (outcome, dirs) = eng.on_datagram(&datagram, &dest);
    assert!(matches!(outcome, Outcome::PongHandled(PongResult::Inserted)));
    assert_eq!(dirs.len(), 2);

    let (bad, no_dirs) = eng.on_datagram(b"definitely not bencode", &dest);
    assert!(matches!(bad, Outcome::ParseFailed(_)));
    assert!(no_dirs.is_empty());
}
