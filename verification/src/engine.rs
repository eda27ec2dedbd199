//! The protocol driver: outstanding transactions, outgoing queries, and the
//! handling of inbound messages and timeouts.

use vstd::prelude::*;
use crate::messages::{Query, QueryV, FullQuery, FullQueryV, FullResponse, Response, ResponseV,
    DhtMessage, DhtMessageV, DhtError, DecodeError, TxId, Peer4Info, PeerV, Node4V, nodes_v,
    spec_query_bvalue, spec_decode_message};
use crate::node_id::NodeId;
use crate::table::{Table, TableV, table_wf, alloc_table, alloc_slot, Slot, SlotV, NodeState};
use crate::wire::{ParseFault, bencoded, bdecoded};

verus! {

/// One outstanding transaction: the address the first ping went to and the
/// timer handle armed for it.
#[derive(Debug, Clone, Copy)]
pub enum Tx {
    FirstPing(Peer4Info, u64),
}

pub ghost enum TxV {
    FirstPing(PeerV, u64),
}

impl View for Tx {
    type V = TxV;

    open spec fn view(&self) -> TxV {
        match *self {
            Tx::FirstPing(dest, timeout) => TxV::FirstPing(dest@, timeout),
        }
    }
}

/// Mathematical value of the engine: its routing table and the outstanding
/// transactions in order of creation.
pub ghost struct EngineV {
    pub table: TableV,
    pub txs: Seq<(Seq<u8>, TxV)>,
}

/// The engine invariant: the table is well formed and no transaction
/// identifier is outstanding twice.
pub open spec fn engine_wf(e: EngineV) -> bool {
    &&& table_wf(e.table)
    &&& forall|i: int, j: int|
        0 <= i < j < e.txs.len() ==> (#[trigger] e.txs[i]).0 != (#[trigger] e.txs[j]).0
}

/// First outstanding transaction whose identifier bytes are `id`.
pub open spec fn tx_lookup(txs: Seq<(Seq<u8>, TxV)>, id: Seq<u8>, i: int) -> Option<int>
    decreases txs.len() - i,
{
    if i < 0 || i >= txs.len() {
        None
    } else if txs[i].0 == id {
        Some(i)
    } else {
        tx_lookup(txs, id, i + 1)
    }
}

pub open spec fn tx_find(txs: Seq<(Seq<u8>, TxV)>, id: Seq<u8>) -> Option<int> {
    tx_lookup(txs, id, 0)
}

proof fn lemma_tx_lookup_some(txs: Seq<(Seq<u8>, TxV)>, id: Seq<u8>, i: int, j: int)
    requires
        0 <= i,
        tx_lookup(txs, id, i) == Some(j),
    ensures
        i <= j < txs.len(),
        txs[j].0 == id,
    decreases txs.len() - i,
{
    if i < txs.len() && txs[i].0 != id {
        lemma_tx_lookup_some(txs, id, i + 1, j);
    }
}

proof fn lemma_tx_lookup_none(txs: Seq<(Seq<u8>, TxV)>, id: Seq<u8>, i: int)
    requires
        0 <= i,
        tx_lookup(txs, id, i) is None,
    ensures
        forall|k: int| i <= k < txs.len() ==> (#[trigger] txs[k]).0 != id,
    decreases txs.len() - i,
{
    if i < txs.len() {
        lemma_tx_lookup_none(txs, id, i + 1);
    }
}

/// Why `begin_query` failed: no unused transaction identifier was drawn
/// within the attempt bound.
#[derive(Debug, Clone, Copy, PartialEq, Eq, Structural)]
pub enum SendError {
    TxIdsUnavailable,
}

/// An encoded query ready to transmit.
#[derive(Debug)]
pub struct OutPacket {
    pub tx_id: TxId,
    pub dest: Peer4Info,
    pub bytes: Vec<u8>,
}

/// Owns the routing table and the outstanding transactions.
pub struct Engine {
    table: Table,
    txs: Vec<(TxId, Tx)>,
}

impl View for Engine {
    type V = EngineV;

    closed spec fn view(&self) -> EngineV {
        EngineV {
            table: self.table@,
            txs: Seq::new(self.txs@.len(), |i: int| (self.txs@[i].0@, self.txs@[i].1@)),
        }
    }
}

impl Engine {
    /// A fresh engine around an empty one-bucket table.
    pub fn new(id: NodeId) -> (e: Engine)
        ensures
            e@.table.id == id@,
            e@.table.buckets.len() == 1,
            forall|s: int| 0 <= s < 8 ==> e@.table.buckets[0][s] is Empty,
            e@.txs.len() == 0,
            engine_wf(e@),
    {
        Engine { table: Table::new(id), txs: Vec::new() }
    }

    /// The local identifier.
    pub fn our_id(&self) -> (r: &NodeId)
        ensures
            r@ == self@.table.id,
    {
        self.table.our_id()
    }

    /// The routing table, for inspection.
    pub fn table(&self) -> (r: &Table)
        ensures
            r@ == self@.table,
    {
        &self.table
    }

    /// Number of outstanding transactions.
    pub fn pending_count(&self) -> (n: usize)
        ensures
            n as int == self@.txs.len(),
    {
        self.txs.len()
    }

    /// Index of the outstanding transaction with these identifier bytes.
    fn tx_index(&self, id: &[u8]) -> (r: Option<usize>)
        ensures
            match r {
                Some(i) => tx_find(self@.txs, id@) == Some(i as int),
                None => tx_find(self@.txs, id@) is None,
            },
    {
        let ghost txs = self@.txs;
        let mut i: usize = 0;
        while i < self.txs.len()
            invariant
                i <= self.txs@.len(),
                txs == self@.txs,
                txs.len() == self.txs@.len(),
                forall|k: int|
                    0 <= k < txs.len() ==> (#[trigger] txs[k]) == (
                        self.txs@[k].0@,
                        self.txs@[k].1@,
                    ),
                tx_find(txs, id@) == tx_lookup(txs, id@, i as int),
            decreases self.txs@.len() - i,
        {
            if crate::bvalue::bytes_eq(self.txs[i].0.as_slice(), id) {
                return Some(i);
            }
            i += 1;
        }
        None
    }

    /// Builds an outgoing query: picks a fresh two-byte transaction
    /// identifier not currently outstanding, retrying a bounded number of
    /// times, and encodes the full query with the local identifier as
    /// sender. Nothing is recorded until `confirm_sent`, so that a failed
    /// transmission arms no timeout.
    pub fn begin_query(&self, dest: &Peer4Info, query: Query) -> (r: Result<OutPacket, SendError>)
        ensures
            match r {
                Ok(p) => {
                    &&& tx_find(self@.txs, p.tx_id@) is None
                    &&& p.tx_id is Short
                    &&& p.tx_id@.len() == 2
                    &&& p.dest@ == dest@
                    &&& p.bytes@ == bencoded(
                        spec_query_bvalue(
                            FullQueryV {
                                query: query@,
                                sender_id: self@.table.id,
                                tx_id: p.tx_id@,
                            },
                        ),
                    )
                },
                Err(e) => e == SendError::TxIdsUnavailable,
            },
    {
        let mut picked: Option<TxId> = None;
        let mut attempts: usize = 0;
        while attempts <= 10
            invariant
                match picked {
                    Some(t) => tx_find(self@.txs, t@) is None && t is Short && t@.len() == 2,
                    None => true,
                },
            decreases 11 - attempts,
        {
            let t = TxId::random();
            if self.tx_index(t.as_slice()).is_none() {
                picked = Some(t);
                break ;
            }
            attempts += 1;
        }
        let tx_id = match picked {
            Some(t) => t,
            None => {
                return Err(SendError::TxIdsUnavailable);
            },
        };
        let full = FullQuery { query, sender_id: *self.table.our_id(), tx_id: tx_id.clone() };
        let bytes = crate::messages::encode_query(&full);
        Ok(OutPacket { tx_id, dest: *dest, bytes })
    }

    /// Records a transaction once its bytes were fully transmitted, with the
    /// timer handle the caller armed. Refuses an identifier already
    /// outstanding and records nothing then.
    pub fn confirm_sent(&mut self, tx_id: TxId, dest: Peer4Info, timeout: u64) -> (r: bool)
        requires
            engine_wf(old(self)@),
        ensures
            engine_wf(final(self)@),
            final(self)@.table == old(self)@.table,
            match tx_find(old(self)@.txs, tx_id@) {
                None => r == true && final(self)@.txs == old(self)@.txs.push(
                    (tx_id@, TxV::FirstPing(dest@, timeout)),
                ),
                Some(_) => r == false && final(self)@.txs == old(self)@.txs,
            },
    {
        if self.tx_index(tx_id.as_slice()).is_some() {
            proof {
                assert(final(self)@.txs =~= old(self)@.txs);
            }
            return false;
        }
        proof {
            lemma_tx_lookup_none(old(self)@.txs, tx_id@, 0);
        }
        let ghost t0 = self@.txs;
        self.txs.push((tx_id, Tx::FirstPing(dest, timeout)));
        proof {
            assert(self@.txs =~= t0.push((self.txs@.last().0@, self.txs@.last().1@)));
        }
        true
    }

    /// A timeout fired: drops the transaction if it is still outstanding and
    /// says whether it was.
    pub fn on_timeout(&mut self, tx_id: &TxId) -> (r: bool)
        requires
            engine_wf(old(self)@),
        ensures
            engine_wf(final(self)@),
            final(self)@.table == old(self)@.table,
            match tx_find(old(self)@.txs, tx_id@) {
                Some(i) => r == true && final(self)@.txs == old(self)@.txs.remove(i),
                None => r == false && final(self)@.txs == old(self)@.txs,
            },
    {
        let idx = match self.tx_index(tx_id.as_slice()) {
            Some(i) => i,
            None => {
                return false;
            },
        };
        proof {
            lemma_tx_lookup_some(old(self)@.txs, tx_id@, 0, idx as int);
        }
        let ghost t0 = self@.txs;
        self.txs.remove(idx);
        proof {
            assert(self@.txs =~= t0.remove(idx as int));
            lemma_remove_keeps_unique(t0, idx as int);
        }
        true
    }
}

/// What the caller must do after a message was handled: cancel an armed
/// timeout, or send a query (and then `confirm_sent` it).
#[derive(Debug, Clone, Copy)]
pub enum Directive {
    CancelTimeout(u64),
    SendQuery(Query, Peer4Info),
}

pub ghost enum DirectiveV {
    CancelTimeout(u64),
    SendQuery(QueryV, PeerV),
}

impl View for Directive {
    type V = DirectiveV;

    open spec fn view(&self) -> DirectiveV {
        match *self {
            Directive::CancelTimeout(h) => DirectiveV::CancelTimeout(h),
            Directive::SendQuery(q, a) => DirectiveV::SendQuery(q@, a@),
        }
    }
}

/// The directive values of a sequence of directives.
pub open spec fn dirs_v(s: Seq<Directive>) -> Seq<DirectiveV> {
    Seq::new(s.len(), |i: int| s[i]@)
}

/// What a confirmed pong did to the table.
#[derive(Debug, Clone, Copy, PartialEq, Eq, Structural)]
pub enum PongResult {
    /// The sender filled a free slot, now Good.
    Inserted,
    /// A slot still pinging this sender was promoted to Good.
    Promoted,
    /// The sender was already Good; nothing changed.
    AlreadyGood,
    /// No room for the sender; it was dropped.
    NoRoom,
}

/// What happened to one inbound datagram or message.
#[derive(Debug)]
pub enum Outcome {
    /// The bencode codec rejected the datagram.
    ParseFailed(ParseFault),
    /// The value tree did not decode as a message.
    DecodeFailed(DecodeError),
    /// A peer's query; observed only, never answered.
    QueryHeard(FullQuery),
    /// A peer reported an error; logged and dropped.
    PeerError(DhtError),
    /// A response with no outstanding transaction; dropped.
    UnknownTx(FullResponse),
    /// A pong from an address other than the pinged one; the transaction is
    /// consumed but the table is left untouched.
    WrongAddress,
    /// A pong from the pinged address was folded into the table.
    PongHandled(PongResult),
    /// Found nodes were folded into the table; so many new ones get pinged.
    NodesHandled(usize),
}

/// The table after a node's position is overwritten.
pub open spec fn table_with(t: TableV, b: int, s: int, sv: SlotV) -> TableV {
    TableV { id: t.id, buckets: t.buckets.update(b, t.buckets[b].update(s, sv)) }
}

/// The table after a confirmed pong from `sender`: a free slot is filled as
/// Good, a slot still pinging this node is promoted to Good, a Good slot
/// stays, and a node the table has no room for is dropped.
pub open spec fn pong_table(t: TableV, sender: Seq<u8>) -> TableV {
    let t2 = alloc_table(t, sender);
    match alloc_slot(t, sender) {
        None => t2,
        Some((b, s)) => match t2.buckets[b][s] {
            SlotV::Empty => table_with(t2, b, s, SlotV::Node(sender, NodeState::Good)),
            SlotV::Node(_, st) => if st is Pinging {
                table_with(t2, b, s, SlotV::Node(sender, NodeState::Good))
            } else {
                t2
            },
        },
    }
}

/// Which of the pong outcomes applies.
pub open spec fn pong_result(t: TableV, sender: Seq<u8>) -> PongResult {
    match alloc_slot(t, sender) {
        None => PongResult::NoRoom,
        Some((b, s)) => match alloc_table(t, sender).buckets[b][s] {
            SlotV::Empty => PongResult::Inserted,
            SlotV::Node(_, st) => if st is Pinging {
                PongResult::Promoted
            } else {
                PongResult::AlreadyGood
            },
        },
    }
}

/// The table after one found contact: a free slot is claimed as Pinging;
/// a known node or a full table changes nothing beyond a possible split.
pub open spec fn found_step(t: TableV, cid: Seq<u8>) -> TableV {
    let t2 = alloc_table(t, cid);
    match alloc_slot(t, cid) {
        Some((b, s)) => if t2.buckets[b][s] is Empty {
            table_with(t2, b, s, SlotV::Node(cid, NodeState::Pinging))
        } else {
            t2
        },
        None => t2,
    }
}

/// Whether this contact is new to the table and gets a ping.
pub open spec fn ping_now(t: TableV, cid: Seq<u8>) -> bool {
    match alloc_slot(t, cid) {
        Some((b, s)) => alloc_table(t, cid).buckets[b][s] is Empty,
        None => false,
    }
}

/// The table after the contacts from position `i` on are folded in.
pub open spec fn fold_found(t: TableV, cs: Seq<Node4V>, i: int) -> TableV
    decreases cs.len() - i,
{
    if i < 0 || i >= cs.len() {
        t
    } else {
        fold_found(found_step(t, cs[i].id), cs, i + 1)
    }
}

/// The ping directives for the contacts from position `i` on: one per
/// contact that is new to the table, in order.
pub open spec fn found_ping_dirs(t: TableV, cs: Seq<Node4V>, i: int) -> Seq<DirectiveV>
    decreases cs.len() - i,
{
    if i < 0 || i >= cs.len() {
        Seq::empty()
    } else {
        let rest = found_ping_dirs(found_step(t, cs[i].id), cs, i + 1);
        if ping_now(t, cs[i].id) {
            seq![DirectiveV::SendQuery(QueryV::Ping, cs[i].peer)] + rest
        } else {
            rest
        }
    }
}

/// What handling the decoded message `m` from `src` must have done: how the
/// engine state changed, which outcome is reported, and which directives
/// come back.
pub open spec fn handled_ok(
    e0: EngineV,
    e1: EngineV,
    m: DhtMessageV,
    src: PeerV,
    outcome: Outcome,
    dirs: Seq<DirectiveV>,
) -> bool {
    match m {
        DhtMessageV::Query(q) => e1 == e0 && (outcome matches Outcome::QueryHeard(fq) && fq@ == q)
            && dirs.len() == 0,
        DhtMessageV::Error(de) => e1 == e0 && (outcome matches Outcome::PeerError(pe) && pe@ == de)
            && dirs.len() == 0,
        DhtMessageV::Response(resp) => match tx_find(e0.txs, resp.tx_id) {
            None => e1 == e0 && (outcome matches Outcome::UnknownTx(fr) && fr@ == resp)
                && dirs.len() == 0,
            Some(j) => {
                &&& e1.txs == e0.txs.remove(j)
                &&& match e0.txs[j].1 {
                    TxV::FirstPing(dest, tm) => match resp.response {
                        ResponseV::Pong => if src != dest {
                            &&& e1.table == e0.table
                            &&& outcome is WrongAddress
                            &&& dirs.len() == 0
                        } else {
                            &&& e1.table == pong_table(e0.table, resp.sender_id)
                            &&& (outcome matches Outcome::PongHandled(pr) && pr == pong_result(
                                e0.table,
                                resp.sender_id,
                            ))
                            &&& dirs.len() == 2
                            &&& dirs[0] == DirectiveV::CancelTimeout(tm)
                            &&& (dirs[1] matches DirectiveV::SendQuery(q2, a) && a == src && (
                            q2 matches QueryV::FindNode(tgt) && tgt.len() == 20))
                        },
                        ResponseV::FoundNodes(cs) => {
                            &&& e1.table == fold_found(e0.table, cs, 0)
                            &&& (outcome matches Outcome::NodesHandled(k) && k as int
                                == found_ping_dirs(e0.table, cs, 0).len())
                            &&& dirs == seq![DirectiveV::CancelTimeout(tm)] + found_ping_dirs(
                                e0.table,
                                cs,
                                0,
                            )
                        },
                    },
                }
            },
        },
    }
}

impl Engine {
    /// Handles one decoded inbound message from `src`: a peer's query is
    /// only observed, a peer's error is only reported, a response is matched
    /// against the outstanding transactions and folded into the table, and
    /// the returned directives say which timeout to cancel and which
    /// follow-up queries to send.
    #[verifier::loop_isolation(false)]
    #[verifier::rlimit(100)]
    pub fn on_message(&mut self, msg: DhtMessage, src: &Peer4Info) -> (r: (Outcome, Vec<Directive>))
        requires
            engine_wf(old(self)@),
        ensures
            engine_wf(final(self)@),
            handled_ok(old(self)@, final(self)@, msg@, src@, r.0, dirs_v(r.1@)),
    {
        let ghost e0 = old(self)@;
        match msg {
            DhtMessage::Query(q) => (Outcome::QueryHeard(q), Vec::new()),
            DhtMessage::Error(e) => (Outcome::PeerError(e), Vec::new()),
            DhtMessage::Response(resp) => {
                let idx = match self.tx_index(resp.tx_id.as_slice()) {
                    Some(i) => i,
                    None => {
                        return (Outcome::UnknownTx(resp), Vec::new());
                    },
                };
                proof {
                    lemma_tx_lookup_some(e0.txs, resp.tx_id@, 0, idx as int);
                }
                let ghost txs0 = self@.txs;
                let (_, tx) = self.txs.remove(idx);
                proof {
                    assert(self@.txs =~= txs0.remove(idx as int));
                    lemma_remove_keeps_unique(txs0, idx as int);
                    assert(tx@ == e0.txs[idx as int].1);
                }
                let ghost txs1 = self@.txs;
                match tx {
                    Tx::FirstPing(pinged, timeout) => {
                        match resp.response {
                            Response::Pong => {
                                if !(*src == pinged) {
                                    return (Outcome::WrongAddress, Vec::new());
                                }
                                let sender = resp.sender_id;
                                let ghost t0 = e0.table;
                                let ghost t2 = alloc_table(t0, sender@);
                                let pr: PongResult;
                                match self.table.allocate(&sender) {
                                    Some(slot_ref) => {
                                        let slot = self.table.get_slot(slot_ref);
                                        match slot {
                                            Slot::Empty => {
                                                self.table.set_slot(
                                                    slot_ref,
                                                    &sender,
                                                    NodeState::Good,
                                                );
                                                pr = PongResult::Inserted;
                                            },
                                            Slot::Node(_, NodeState::Pinging) => {
                                                self.table.set_slot(
                                                    slot_ref,
                                                    &sender,
                                                    NodeState::Good,
                                                );
                                                pr = PongResult::Promoted;
                                            },
                                            Slot::Node(_, NodeState::Good) => {
                                                pr = PongResult::AlreadyGood;
                                            },
                                        }
                                    },
                                    None => {
                                        pr = PongResult::NoRoom;
                                    },
                                }
                                proof {
                                    assert(self@.table == pong_table(t0, sender@));
                                    assert(pr == pong_result(t0, sender@));
                                }
                                let target = NodeId::random();
                                let mut dirs: Vec<Directive> = Vec::new();
                                dirs.push(Directive::CancelTimeout(timeout));
                                dirs.push(Directive::SendQuery(Query::FindNode(target), *src));
                                proof {
                                    assert(dirs_v(dirs@).len() == 2);
                                }
                                (Outcome::PongHandled(pr), dirs)
                            },
                            Response::FoundNodes { nodes4 } => {
                                let ghost t0 = e0.table;
                                let ghost cs = nodes_v(nodes4@);
                                let mut dirs: Vec<Directive> = Vec::new();
                                dirs.push(Directive::CancelTimeout(timeout));
                                let mut pinged: usize = 0;
                                let mut i: usize = 0;
                                while i < nodes4.len()
                                    invariant
                                        i <= nodes4@.len(),
                                        pinged <= i,
                                        table_wf(self@.table),
                                        self@.txs == txs1,
                                        fold_found(t0, cs, 0) == fold_found(
                                            self@.table,
                                            cs,
                                            i as int,
                                        ),
                                        seq![DirectiveV::CancelTimeout(timeout)]
                                            + found_ping_dirs(t0, cs, 0) == dirs_v(dirs@)
                                            + found_ping_dirs(self@.table, cs, i as int),
                                        pinged as int + found_ping_dirs(
                                            self@.table,
                                            cs,
                                            i as int,
                                        ).len() == found_ping_dirs(t0, cs, 0).len(),
                                    decreases nodes4@.len() - i,
                                {
                                    let ghost tcur = self@.table;
                                    let ghost dirs_pre = dirs@;
                                    let c = nodes4[i];
                                    proof {
                                        assert(c@ == cs[i as int]);
                                    }
                                    let ghost tnext = alloc_table(tcur, c.id@);
                                    match self.table.allocate(&c.id) {
                                        Some(sr) => {
                                            let slot = self.table.get_slot(sr);
                                            if slot.is_empty() {
                                                self.table.set_slot(sr, &c.id, NodeState::Pinging);
                                                dirs.push(
                                                    Directive::SendQuery(Query::Ping, c.peer),
                                                );
                                                pinged += 1;
                                                proof {
                                                    assert(ping_now(tcur, cs[i as int].id));
                                                    assert(self@.table == found_step(
                                                        tcur,
                                                        cs[i as int].id,
                                                    ));
                                                    assert(dirs_v(dirs@) =~= dirs_v(
                                                        dirs_pre,
                                                    ).push(
                                                        DirectiveV::SendQuery(
                                                            QueryV::Ping,
                                                            cs[i as int].peer,
                                                        ),
                                                    ));
                                                    assert(dirs_v(dirs_pre) + (seq![
                                                        DirectiveV::SendQuery(
                                                            QueryV::Ping,
                                                            cs[i as int].peer,
                                                        ),
                                                    ] + found_ping_dirs(
                                                        self@.table,
                                                        cs,
                                                        i as int + 1,
                                                    )) =~= dirs_v(dirs@) + found_ping_dirs(
                                                        self@.table,
                                                        cs,
                                                        i as int + 1,
                                                    ));
                                                }
                                            } else {
                                                proof {
                                                    assert(!ping_now(tcur, cs[i as int].id));
                                                    assert(self@.table == found_step(
                                                        tcur,
                                                        cs[i as int].id,
                                                    ));
                                                }
                                            }
                                        },
                                        None => {
                                            proof {
                                                assert(!ping_now(tcur, cs[i as int].id));
                                                assert(self@.table == found_step(
                                                    tcur,
                                                    cs[i as int].id,
                                                ));
                                            }
                                        },
                                    }
                                    i += 1;
                                }
                                proof {
                                    assert(dirs_v(dirs@) + Seq::<DirectiveV>::empty() =~= dirs_v(
                                        dirs@,
                                    ));
                                    assert(dirs_v(dirs@) == seq![
                                        DirectiveV::CancelTimeout(timeout),
                                    ] + found_ping_dirs(t0, cs, 0));
                                }
                                (Outcome::NodesHandled(pinged), dirs)
                            },
                        }
                    },
                }
            },
        }
    }

    /// Handles one raw datagram from `src`: the syntactic pre-scan, the
    /// bencode parse, the typed decode, then `on_message`. A datagram that
    /// fails any of the first three steps is dropped, with the reason in the
    /// outcome; one the scan refuses never reaches the codec.
    pub fn on_datagram(&mut self, bytes: &[u8], src: &Peer4Info) -> (r: (Outcome, Vec<Directive>))
        requires
            engine_wf(old(self)@),
        ensures
            engine_wf(final(self)@),
            !crate::scan::bencode_wf(bytes@) ==> final(self)@ == old(self)@ && r.0 is ParseFailed
                && r.1@.len() == 0,
            crate::scan::bencode_wf(bytes@) ==> match bdecoded(bytes@) {
                None => final(self)@ == old(self)@ && r.0 is ParseFailed && r.1@.len() == 0,
                Some(v) => match spec_decode_message(v) {
                    Err(e) => final(self)@ == old(self)@ && (r.0 matches Outcome::DecodeFailed(e2)
                        && e2 == e) && r.1@.len() == 0,
                    Ok(m) => handled_ok(old(self)@, final(self)@, m, src@, r.0, dirs_v(r.1@)),
                },
            },
    {
        if !crate::scan::scan_bencode(bytes) {
            let fault = ParseFault {
                pos: 0,
                msg: "unterminated or oversized bencode value".to_owned(),
            };
            return (Outcome::ParseFailed(fault), Vec::new());
        }
        let v = match crate::wire::parse_bvalue(bytes) {
            Ok(v) => v,
            Err(f) => {
                return (Outcome::ParseFailed(f), Vec::new());
            },
        };
        let m = match DhtMessage::from_bvalue(&v) {
            Ok(m) => m,
            Err(e) => {
                return (Outcome::DecodeFailed(e), Vec::new());
            },
        };
        self.on_message(m, src)
    }
}

/// Removing one transaction keeps the rest unique.
proof fn lemma_remove_keeps_unique(txs: Seq<(Seq<u8>, TxV)>, r: int)
    requires
        0 <= r < txs.len(),
        forall|i: int, j: int|
            0 <= i < j < txs.len() ==> (#[trigger] txs[i]).0 != (#[trigger] txs[j]).0,
    ensures
        forall|i: int, j: int|
            0 <= i < j < txs.remove(r).len() ==> (#[trigger] txs.remove(r)[i]).0 != (
            #[trigger] txs.remove(r)[j]).0,
{
    let t2 = txs.remove(r);
    assert forall|i: int, j: int| 0 <= i < j < t2.len() implies (#[trigger] t2[i]).0 != (
    #[trigger] t2[j]).0 by {
        let i0 = if i < r {
            i
        } else {
            i + 1
        };
        let j0 = if j < r {
            j
        } else {
            j + 1
        };
        assert(t2[i] == txs[i0]);
        assert(t2[j] == txs[j0]);
    }
}

} // verus!
