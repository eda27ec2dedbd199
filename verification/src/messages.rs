//! Typed DHT messages and their mapping to and from the bencode value tree.

use vstd::prelude::*;
use crate::bvalue::{BValue, BSpec, dict_lookup, dict_lookup_from, bspec_dict, bytes_eq,
    lemma_bspec_dict_index, lemma_bspec_list_index};
use crate::node_id::NodeId;
use crate::scan::{bencode_wf, scan_bencode};
use crate::wire::{ParseFault, bdecoded, bencoded, lossy_utf8, parse_bvalue, serialize_bvalue,
    utf8_lossy};

verus! {

/// A dictionary key the codec reads.
#[derive(Debug, Clone, Copy, PartialEq, Eq)]
pub enum WireKey {
    Y,
    Q,
    T,
    A,
    R,
    E,
    Id,
    Target,
}

/// Granular reason for a failure to decode.
#[derive(Debug, Clone, Copy, PartialEq, Eq)]
pub enum DecodeError {
    KeyMissing(WireKey),
    InvalidAddress(u8, u8, u8, u8),
    InvalidDiscrim,
    OutOfRange,
    WrongDiscrim,
    WrongLength,
    WrongType,
    /// A get_peers token, which this node does not implement; the process is
    /// expected to halt on it rather than mishandle the message.
    TokenUnsupported,
}

impl DecodeError {
    /// A short fixed description of the error class.
    pub fn description(&self) -> (r: &'static str)
        ensures
            self is KeyMissing ==> r@ == "required key missing"@,
            self is InvalidAddress ==> r@ == "invalid peer address"@,
            self is InvalidDiscrim ==> r@ == "invalid tag"@,
            self is OutOfRange ==> r@ == "number out of range"@,
            self is WrongDiscrim ==> r@ == "wrong tag"@,
            self is WrongLength ==> r@ == "wrong array/value length"@,
            self is WrongType ==> r@ == "wrong type"@,
            self is TokenUnsupported ==> r@ == "unsupported response shape"@,
    {
        match *self {
            DecodeError::KeyMissing(_) => "required key missing",
            DecodeError::InvalidAddress(..) => "invalid peer address",
            DecodeError::InvalidDiscrim => "invalid tag",
            DecodeError::OutOfRange => "number out of range",
            DecodeError::WrongDiscrim => "wrong tag",
            DecodeError::WrongLength => "wrong array/value length",
            DecodeError::WrongType => "wrong type",
            DecodeError::TokenUnsupported => "unsupported response shape",
        }
    }
}

/// Returned by every decoding function.
pub type DecodeResult<T> = Result<T, DecodeError>;

// Dictionary keys and discriminator values of the wire format, as byte
// strings.
pub open spec fn key_y() -> Seq<u8> {
    seq![121u8]
}

pub open spec fn key_q() -> Seq<u8> {
    seq![113u8]
}

pub open spec fn key_t() -> Seq<u8> {
    seq![116u8]
}

pub open spec fn key_a() -> Seq<u8> {
    seq![97u8]
}

pub open spec fn key_r() -> Seq<u8> {
    seq![114u8]
}

pub open spec fn key_e() -> Seq<u8> {
    seq![101u8]
}

pub open spec fn key_id() -> Seq<u8> {
    seq![105u8, 100u8]
}

pub open spec fn key_target() -> Seq<u8> {
    seq![116u8, 97u8, 114u8, 103u8, 101u8, 116u8]
}

pub open spec fn key_nodes() -> Seq<u8> {
    seq![110u8, 111u8, 100u8, 101u8, 115u8]
}

pub open spec fn key_token() -> Seq<u8> {
    seq![116u8, 111u8, 107u8, 101u8, 110u8]
}

pub open spec fn name_ping() -> Seq<u8> {
    seq![112u8, 105u8, 110u8, 103u8]
}

pub open spec fn name_find_node() -> Seq<u8> {
    seq![102u8, 105u8, 110u8, 100u8, 95u8, 110u8, 111u8, 100u8, 101u8]
}

/// A one-byte key or value.
fn key1(b0: u8) -> (r: Vec<u8>)
    ensures
        r@ == seq![b0],
{
    let mut v: Vec<u8> = Vec::new();
    v.push(b0);
    proof {
        assert(v@ =~= seq![b0]);
    }
    v
}

/// A two-byte key.
fn key2(b0: u8, b1: u8) -> (r: Vec<u8>)
    ensures
        r@ == seq![b0, b1],
{
    let mut v: Vec<u8> = Vec::new();
    v.push(b0);
    v.push(b1);
    proof {
        assert(v@ =~= seq![b0, b1]);
    }
    v
}

/// The bytes of "target".
fn key_target_bytes() -> (r: Vec<u8>)
    ensures
        r@ == key_target(),
{
    let mut v: Vec<u8> = Vec::new();
    v.push(116);
    v.push(97);
    v.push(114);
    v.push(103);
    v.push(101);
    v.push(116);
    proof {
        assert(v@ =~= key_target());
    }
    v
}

/// The bytes of "nodes".
fn key_nodes_bytes() -> (r: Vec<u8>)
    ensures
        r@ == key_nodes(),
{
    let mut v: Vec<u8> = Vec::new();
    v.push(110);
    v.push(111);
    v.push(100);
    v.push(101);
    v.push(115);
    proof {
        assert(v@ =~= key_nodes());
    }
    v
}

/// The bytes of "token".
fn key_token_bytes() -> (r: Vec<u8>)
    ensures
        r@ == key_token(),
{
    let mut v: Vec<u8> = Vec::new();
    v.push(116);
    v.push(111);
    v.push(107);
    v.push(101);
    v.push(110);
    proof {
        assert(v@ =~= key_token());
    }
    v
}

/// The bytes of "ping".
fn name_ping_bytes() -> (r: Vec<u8>)
    ensures
        r@ == name_ping(),
{
    let mut v: Vec<u8> = Vec::new();
    v.push(112);
    v.push(105);
    v.push(110);
    v.push(103);
    proof {
        assert(v@ =~= name_ping());
    }
    v
}

/// The bytes of "find_node".
fn name_find_node_bytes() -> (r: Vec<u8>)
    ensures
        r@ == name_find_node(),
{
    let mut v: Vec<u8> = Vec::new();
    v.push(102);
    v.push(105);
    v.push(110);
    v.push(100);
    v.push(95);
    v.push(110);
    v.push(111);
    v.push(100);
    v.push(101);
    proof {
        assert(v@ =~= name_find_node());
    }
    v
}

/// Copies a byte slice into an owned vector.
fn bytes_to_vec(s: &[u8]) -> (r: Vec<u8>)
    ensures
        r@ == s@,
{
    let mut v: Vec<u8> = Vec::new();
    let mut i: usize = 0;
    while i < s.len()
        invariant
            i <= s@.len(),
            v@.len() == i,
            forall|j: int| 0 <= j < i ==> v@[j] == s@[j],
        decreases s@.len() - i,
    {
        v.push(s[i]);
        i += 1;
    }
    proof {
        assert(v@ =~= s@);
    }
    v
}

/// The requests a node may make of another.
#[derive(Debug, Clone, Copy)]
pub enum Query {
    Ping,
    FindNode(NodeId),
}

pub ghost enum QueryV {
    Ping,
    FindNode(Seq<u8>),
}

impl View for Query {
    type V = QueryV;

    open spec fn view(&self) -> QueryV {
        match *self {
            Query::Ping => QueryV::Ping,
            Query::FindNode(t) => QueryV::FindNode(t@),
        }
    }
}

/// One random ASCII letter.
fn random_alpha() -> (r: u8)
    ensures
        is_tx_alpha(r),
{
    let n: u8 = rand::random::<u8>() % 52;
    if n >= 26 {
        n - 26 + 97
    } else {
        n + 65
    }
}

/// The range transaction identifier bytes are generated from.
pub open spec fn is_tx_alpha(c: u8) -> bool {
    (65 <= c && c <= 90) || (97 <= c && c <= 122)
}

/// Correlates queries to responses: a two-byte form always generated
/// locally, or an arbitrary-length form accepted from peers. Equality goes
/// by the raw bytes regardless of form.
#[derive(Debug)]
pub enum TxId {
    Short([u8; 2]),
    Arbitrary(Vec<u8>),
}

impl View for TxId {
    type V = Seq<u8>;

    open spec fn view(&self) -> Seq<u8> {
        match self {
            TxId::Short(b) => b@,
            TxId::Arbitrary(v) => v@,
        }
    }
}

impl PartialEq for TxId {
    fn eq(&self, other: &TxId) -> bool {
        bytes_eq(self.as_slice(), other.as_slice())
    }
}

impl Clone for TxId {
    /// Clones the identifier, keeping its form and bytes.
    fn clone(&self) -> (r: TxId)
        ensures
            r@ == self@,
            r is Short <==> self is Short,
    {
        match self {
            TxId::Short(two) => TxId::Short(*two),
            TxId::Arbitrary(bytes) => TxId::Arbitrary(bytes_to_vec(bytes.as_slice())),
        }
    }
}

impl Eq for TxId {

}

impl vstd::std_specs::cmp::PartialEqSpecImpl for TxId {
    open spec fn obeys_eq_spec() -> bool {
        true
    }

    open spec fn eq_spec(&self, other: &TxId) -> bool {
        self@ == other@
    }
}

impl TxId {
    /// The raw bytes, whichever form holds them.
    pub fn as_slice(&self) -> (r: &[u8])
        ensures
            r@ == self@,
    {
        match self {
            TxId::Short(two) => two.as_slice(),
            TxId::Arbitrary(bytes) => bytes.as_slice(),
        }
    }

    /// A fresh two-byte identifier drawn from the ASCII letters.
    pub fn random() -> (r: TxId)
        ensures
            r is Short,
            r@.len() == 2,
            is_tx_alpha(r@[0]),
            is_tx_alpha(r@[1]),
    {
        let a = random_alpha();
        let b = random_alpha();
        let mut two = [0u8; 2];
        two[0] = a;
        two[1] = b;
        TxId::Short(two)
    }

    /// Reads a transaction identifier out of a bencode value: any byte
    /// string is accepted, and exactly the two-byte ones take the short
    /// form.
    pub fn from_bvalue(v: &BValue) -> (r: DecodeResult<TxId>)
        ensures
            match r {
                Ok(t) => spec_bytes(v@) == Ok::<Seq<u8>, DecodeError>(t@) && ((t is Short) <==> t@.len()
                    == 2),
                Err(e) => spec_bytes(v@) == Err::<Seq<u8>, DecodeError>(e),
            },
    {
        let bytes = match v.as_bytes() {
            Some(b) => b,
            None => {
                return Err(DecodeError::WrongType);
            },
        };
        if bytes.len() == 2 {
            let mut two = [0u8; 2];
            two[0] = bytes[0];
            two[1] = bytes[1];
            proof {
                assert(two@ =~= bytes@);
            }
            Ok(TxId::Short(two))
        } else {
            Ok(TxId::Arbitrary(bytes_to_vec(bytes.as_slice())))
        }
    }
}

/// The full payload for a `Query`.
#[derive(Debug, Clone)]
pub struct FullQuery {
    pub query: Query,
    pub sender_id: NodeId,
    pub tx_id: TxId,
}

pub ghost struct FullQueryV {
    pub query: QueryV,
    pub sender_id: Seq<u8>,
    pub tx_id: Seq<u8>,
}

impl View for FullQuery {
    type V = FullQueryV;

    open spec fn view(&self) -> FullQueryV {
        FullQueryV { query: self.query@, sender_id: self.sender_id@, tx_id: self.tx_id@ }
    }
}

/// The byte string a bencode value holds, or `WrongType`.
pub open spec fn spec_bytes(v: BSpec) -> DecodeResult<Seq<u8>> {
    match v {
        BSpec::Bytes(b) => Ok(b),
        _ => Err(DecodeError::WrongType),
    }
}

/// Looks `k` up in a dictionary, or reports `key` missing.
pub open spec fn spec_lookup(
    d: Seq<(Seq<u8>, BSpec)>,
    k: Seq<u8>,
    key: WireKey,
) -> DecodeResult<BSpec> {
    match dict_lookup(d, k) {
        Some(v) => Ok(v),
        None => Err(DecodeError::KeyMissing(key)),
    }
}

/// Looks `k` up and takes its byte string.
pub open spec fn spec_bytes_at(
    d: Seq<(Seq<u8>, BSpec)>,
    k: Seq<u8>,
    key: WireKey,
) -> DecodeResult<Seq<u8>> {
    match spec_lookup(d, k, key) {
        Ok(v) => spec_bytes(v),
        Err(e) => Err(e),
    }
}

/// A node identifier out of a bencode value: a byte string of exactly 20
/// bytes.
pub open spec fn spec_node_id(v: BSpec) -> DecodeResult<Seq<u8>> {
    match spec_bytes(v) {
        Ok(b) => if b.len() == 20 {
            Ok(b)
        } else {
            Err(DecodeError::WrongLength)
        },
        Err(e) => Err(e),
    }
}

/// What decoding a query dictionary yields: the checks run in the order the
/// decoder makes them, and the first failure is the result.
pub open spec fn spec_decode_query(v: BSpec) -> DecodeResult<FullQueryV> {
    match v {
        BSpec::Dict(d) => match spec_bytes_at(d, key_y(), WireKey::Y) {
            Err(e) => Err(e),
            Ok(y) => if y != key_q() {
                Err(DecodeError::WrongDiscrim)
            } else {
                match spec_lookup(d, key_a(), WireKey::A) {
                    Err(e) => Err(e),
                    Ok(av) => match av {
                        BSpec::Dict(args) => match spec_lookup(args, key_id(), WireKey::Id) {
                            Err(e) => Err(e),
                            Ok(idv) => match spec_node_id(idv) {
                                Err(e) => Err(e),
                                Ok(sender) => match spec_bytes_at(d, key_t(), WireKey::T) {
                                    Err(e) => Err(e),
                                    Ok(tx) => match spec_bytes_at(d, key_q(), WireKey::Q) {
                                        Err(e) => Err(e),
                                        Ok(qname) => if qname == name_ping() {
                                            Ok(
                                                FullQueryV {
                                                    query: QueryV::Ping,
                                                    sender_id: sender,
                                                    tx_id: tx,
                                                },
                                            )
                                        } else if qname == name_find_node() {
                                            match spec_lookup(args, key_target(), WireKey::Target) {
                                                Err(e) => Err(e),
                                                Ok(tv) => match spec_node_id(tv) {
                                                    Err(e) => Err(e),
                                                    Ok(t) => Ok(
                                                        FullQueryV {
                                                            query: QueryV::FindNode(t),
                                                            sender_id: sender,
                                                            tx_id: tx,
                                                        },
                                                    ),
                                                },
                                            }
                                        } else {
                                            Err(DecodeError::InvalidDiscrim)
                                        },
                                    },
                                },
                            },
                        },
                        _ => Err(DecodeError::WrongType),
                    },
                }
            },
        },
        _ => Err(DecodeError::WrongType),
    }
}

impl FullQuery {
    /// Reads a typed query out of a bencode value.
    pub fn from_bvalue(v: &BValue) -> (r: DecodeResult<FullQuery>)
        ensures
            match r {
                Ok(q) => spec_decode_query(v@) == Ok::<FullQueryV, DecodeError>(q@) && ((q.tx_id
                    is Short) <==> q.tx_id@.len() == 2),
                Err(e) => spec_decode_query(v@) == Err::<FullQueryV, DecodeError>(e),
            },
    {
        if !v.is_dict() {
            return Err(DecodeError::WrongType);
        }
        let ky = key1(121);
        let yv = match v.lookup(ky.as_slice()) {
            Some(x) => x,
            None => {
                return Err(DecodeError::KeyMissing(WireKey::Y));
            },
        };
        let y = match yv.as_bytes() {
            Some(b) => b,
            None => {
                return Err(DecodeError::WrongType);
            },
        };
        let qdisc = key1(113);
        if !bytes_eq(y.as_slice(), qdisc.as_slice()) {
            return Err(DecodeError::WrongDiscrim);
        }
        let ka = key1(97);
        let av = match v.lookup(ka.as_slice()) {
            Some(x) => x,
            None => {
                return Err(DecodeError::KeyMissing(WireKey::A));
            },
        };
        if !av.is_dict() {
            return Err(DecodeError::WrongType);
        }
        let kid = key2(105, 100);
        let idv = match av.lookup(kid.as_slice()) {
            Some(x) => x,
            None => {
                return Err(DecodeError::KeyMissing(WireKey::Id));
            },
        };
        let idb = match idv.as_bytes() {
            Some(b) => b,
            None => {
                return Err(DecodeError::WrongType);
            },
        };
        let sender_id = match NodeId::from_slice(idb.as_slice()) {
            Ok(id) => id,
            Err(e) => {
                return Err(e);
            },
        };
        let kt = key1(116);
        let tv = match v.lookup(kt.as_slice()) {
            Some(x) => x,
            None => {
                return Err(DecodeError::KeyMissing(WireKey::T));
            },
        };
        let tx_id = match TxId::from_bvalue(tv) {
            Ok(t) => t,
            Err(e) => {
                return Err(e);
            },
        };
        let kq = key1(113);
        let qnv = match v.lookup(kq.as_slice()) {
            Some(x) => x,
            None => {
                return Err(DecodeError::KeyMissing(WireKey::Q));
            },
        };
        let qn = match qnv.as_bytes() {
            Some(b) => b,
            None => {
                return Err(DecodeError::WrongType);
            },
        };
        let ping = name_ping_bytes();
        let find_node = name_find_node_bytes();
        if bytes_eq(qn.as_slice(), ping.as_slice()) {
            Ok(FullQuery { query: Query::Ping, sender_id, tx_id })
        } else if bytes_eq(qn.as_slice(), find_node.as_slice()) {
            let ktg = key_target_bytes();
            let tv2 = match av.lookup(ktg.as_slice()) {
                Some(x) => x,
                None => {
                    return Err(DecodeError::KeyMissing(WireKey::Target));
                },
            };
            let tb = match tv2.as_bytes() {
                Some(b) => b,
                None => {
                    return Err(DecodeError::WrongType);
                },
            };
            let target = match NodeId::from_slice(tb.as_slice()) {
                Ok(id) => id,
                Err(e) => {
                    return Err(e);
                },
            };
            Ok(FullQuery { query: Query::FindNode(target), sender_id, tx_id })
        } else {
            Err(DecodeError::InvalidDiscrim)
        }
    }
}

/// The wire name of a query.
pub open spec fn spec_query_name(q: QueryV) -> Seq<u8> {
    match q {
        QueryV::Ping => name_ping(),
        QueryV::FindNode(_) => name_find_node(),
    }
}

/// The argument dictionary of a query, keys in sorted order.
pub open spec fn spec_query_args(q: FullQueryV) -> Seq<(Seq<u8>, BSpec)> {
    match q.query {
        QueryV::Ping => seq![(key_id(), BSpec::Bytes(q.sender_id))],
        QueryV::FindNode(t) => seq![
            (key_id(), BSpec::Bytes(q.sender_id)),
            (key_target(), BSpec::Bytes(t)),
        ],
    }
}

/// The bencode tree an outgoing query is written as, keys in sorted order.
pub open spec fn spec_query_bvalue(q: FullQueryV) -> BSpec {
    BSpec::Dict(
        seq![
            (key_a(), BSpec::Dict(spec_query_args(q))),
            (key_q(), BSpec::Bytes(spec_query_name(q.query))),
            (key_t(), BSpec::Bytes(q.tx_id)),
            (key_y(), BSpec::Bytes(key_q())),
        ],
    )
}

impl FullQuery {
    /// Writes this query as a bencode tree.
    pub fn to_bvalue(&self) -> (r: BValue)
        ensures
            r@ == spec_query_bvalue(self@),
    {
        let mut args: Vec<(Vec<u8>, BValue)> = Vec::new();
        args.push((key2(105, 100), BValue::Bytes(bytes_to_vec(self.sender_id.0.as_slice()))));
        let name;
        match &self.query {
            Query::Ping => {
                name = name_ping_bytes();
            },
            Query::FindNode(t) => {
                args.push((key_target_bytes(), BValue::Bytes(bytes_to_vec(t.0.as_slice()))));
                name = name_find_node_bytes();
            },
        }
        let mut top: Vec<(Vec<u8>, BValue)> = Vec::new();
        top.push((key1(97), BValue::Dict(args)));
        top.push((key1(113), BValue::Bytes(name)));
        top.push((key1(116), BValue::Bytes(bytes_to_vec(self.tx_id.as_slice()))));
        top.push((key1(121), BValue::Bytes(key1(113))));
        let r = BValue::Dict(top);
        proof {
            lemma_bspec_dict_index(top@);
            match self.query@ {
                QueryV::Ping => {
                    lemma_bspec_dict_index(top@[0].1->Dict_0@);
                    assert(bspec_dict(top@[0].1->Dict_0@) =~= spec_query_args(self@));
                },
                QueryV::FindNode(_) => {
                    lemma_bspec_dict_index(top@[0].1->Dict_0@);
                    assert(bspec_dict(top@[0].1->Dict_0@) =~= spec_query_args(self@));
                },
            }
            assert(bspec_dict(top@) =~= spec_query_bvalue(self@)->Dict_0);
        }
        r
    }
}

/// Contact address of an IPv4 peer.
#[derive(Debug, Clone, Copy)]
pub struct Peer4Info {
    pub ip: [u8; 4],
    pub port: u16,
}

pub ghost struct PeerV {
    pub ip: Seq<u8>,
    pub port: u16,
}

impl View for Peer4Info {
    type V = PeerV;

    open spec fn view(&self) -> PeerV {
        PeerV { ip: self.ip@, port: self.port }
    }
}

impl PartialEq for Peer4Info {
    fn eq(&self, other: &Peer4Info) -> bool {
        if self.ip[0] == other.ip[0] && self.ip[1] == other.ip[1] && self.ip[2] == other.ip[2]
            && self.ip[3] == other.ip[3] && self.port == other.port {
            proof {
                assert(self.ip@ =~= other.ip@);
            }
            true
        } else {
            false
        }
    }
}

impl Eq for Peer4Info {

}

impl vstd::std_specs::cmp::PartialEqSpecImpl for Peer4Info {
    open spec fn obeys_eq_spec() -> bool {
        true
    }

    open spec fn eq_spec(&self, other: &Peer4Info) -> bool {
        self@ == other@
    }
}

/// Globally routable per the classic IPv4 special ranges: not unspecified,
/// private, loopback, link-local, broadcast, or documentation space.
pub open spec fn spec_global_ip(ip: Seq<u8>) -> bool {
    &&& !(ip[0] == 0 && ip[1] == 0 && ip[2] == 0 && ip[3] == 0)
    &&& !(ip[0] == 10)
    &&& !(ip[0] == 172 && 16 <= ip[1] && ip[1] <= 31)
    &&& !(ip[0] == 192 && ip[1] == 168)
    &&& !(ip[0] == 127)
    &&& !(ip[0] == 169 && ip[1] == 254)
    &&& !(ip[0] == 255 && ip[1] == 255 && ip[2] == 255 && ip[3] == 255)
    &&& !(ip[0] == 192 && ip[1] == 0 && ip[2] == 2)
    &&& !(ip[0] == 198 && ip[1] == 51 && ip[2] == 100)
    &&& !(ip[0] == 203 && ip[1] == 0 && ip[2] == 113)
}

/// Whether the four address bytes name a globally routable IPv4 address.
pub fn ipv4_is_global(ip: &[u8; 4]) -> (r: bool)
    ensures
        r == spec_global_ip(ip@),
{
    !(ip[0] == 0 && ip[1] == 0 && ip[2] == 0 && ip[3] == 0) && !(ip[0] == 10) && !(ip[0] == 172
        && 16 <= ip[1] && ip[1] <= 31) && !(ip[0] == 192 && ip[1] == 168) && !(ip[0] == 127) && !(
    ip[0] == 169 && ip[1] == 254) && !(ip[0] == 255 && ip[1] == 255 && ip[2] == 255 && ip[3]
        == 255) && !(ip[0] == 192 && ip[1] == 0 && ip[2] == 2) && !(ip[0] == 198 && ip[1] == 51
        && ip[2] == 100) && !(ip[0] == 203 && ip[1] == 0 && ip[2] == 113)
}

/// What parsing a 6-byte address record yields: 4 IPv4 bytes that must be
/// globally routable, then a big-endian port that must not be zero.
pub open spec fn spec_peer_parse(b: Seq<u8>) -> DecodeResult<PeerV> {
    if b.len() != 6 {
        Err(DecodeError::WrongLength)
    } else if !spec_global_ip(b.subrange(0, 4)) {
        Err(DecodeError::InvalidAddress(b[0], b[1], b[2], b[3]))
    } else if b[4] * 256 + b[5] == 0 {
        Err(DecodeError::OutOfRange)
    } else {
        Ok(PeerV { ip: b.subrange(0, 4), port: (b[4] * 256 + b[5]) as u16 })
    }
}

impl Peer4Info {
    /// Reads a 6-byte address record.
    pub fn parse(b: &[u8]) -> (r: DecodeResult<Peer4Info>)
        ensures
            match r {
                Ok(p) => spec_peer_parse(b@) == Ok::<PeerV, DecodeError>(p@),
                Err(e) => spec_peer_parse(b@) == Err::<PeerV, DecodeError>(e),
            },
    {
        if b.len() != 6 {
            return Err(DecodeError::WrongLength);
        }
        let mut ip = [0u8; 4];
        ip[0] = b[0];
        ip[1] = b[1];
        ip[2] = b[2];
        ip[3] = b[3];
        proof {
            assert(ip@ =~= b@.subrange(0, 4));
        }
        if !ipv4_is_global(&ip) {
            return Err(DecodeError::InvalidAddress(b[0], b[1], b[2], b[3]));
        }
        let port: u16 = (b[4] as u16) * 256 + (b[5] as u16);
        if port == 0 {
            return Err(DecodeError::OutOfRange);
        }
        Ok(Peer4Info { ip, port })
    }
}

/// Contact info for one IPv4 node: a 26-byte record of identifier, address
/// and port.
#[derive(Debug, Clone, Copy, PartialEq)]
pub struct Node4Info {
    pub id: NodeId,
    pub peer: Peer4Info,
}

pub ghost struct Node4V {
    pub id: Seq<u8>,
    pub peer: PeerV,
}

impl View for Node4Info {
    type V = Node4V;

    open spec fn view(&self) -> Node4V {
        Node4V { id: self.id@, peer: self.peer@ }
    }
}

/// What parsing one 26-byte contact record yields.
pub open spec fn spec_node4_parse(bytes: Seq<u8>) -> DecodeResult<Node4V> {
    if bytes.len() != 26 {
        Err(DecodeError::WrongLength)
    } else {
        match spec_peer_parse(bytes.subrange(20, 26)) {
            Ok(p) => Ok(Node4V { id: bytes.subrange(0, 20), peer: p }),
            Err(e) => Err(e),
        }
    }
}

/// The 26-byte record a contact is written as.
pub open spec fn spec_node4_bytes(n: Node4V) -> Seq<u8> {
    n.id + n.peer.ip + seq![(n.peer.port / 256) as u8, (n.peer.port % 256) as u8]
}

/// The contact values of a sequence of contacts.
pub open spec fn nodes_v(s: Seq<Node4Info>) -> Seq<Node4V> {
    Seq::new(s.len(), |i: int| s[i]@)
}

/// What parsing a sequence of 26-byte records starting at `i` yields: the
/// records in order, or the first record's failure.
pub open spec fn spec_nodes_chunks(bytes: Seq<u8>, i: int) -> DecodeResult<Seq<Node4V>>
    decreases bytes.len() - i,
{
    if i >= bytes.len() {
        Ok(Seq::empty())
    } else if i + 26 > bytes.len() {
        Err(DecodeError::WrongLength)
    } else {
        match spec_node4_parse(bytes.subrange(i, i + 26)) {
            Err(e) => Err(e),
            Ok(n) => match spec_nodes_chunks(bytes, i + 26) {
                Err(e) => Err(e),
                Ok(rest) => Ok(seq![n] + rest),
            },
        }
    }
}

/// What parsing a whole `nodes` byte string yields: its length must be a
/// multiple of 26, and every record must parse.
pub open spec fn spec_parse_list(bytes: Seq<u8>) -> DecodeResult<Seq<Node4V>> {
    if bytes.len() % 26 != 0 {
        Err(DecodeError::WrongLength)
    } else {
        spec_nodes_chunks(bytes, 0)
    }
}

impl Node4Info {
    /// Reads one 26-byte contact record.
    pub fn parse(bytes: &[u8]) -> (r: DecodeResult<Node4Info>)
        ensures
            match r {
                Ok(n) => spec_node4_parse(bytes@) == Ok::<Node4V, DecodeError>(n@),
                Err(e) => spec_node4_parse(bytes@) == Err::<Node4V, DecodeError>(e),
            },
    {
        if bytes.len() != 26 {
            return Err(DecodeError::WrongLength);
        }
        let mut idb = [0u8; 20];
        let mut i: usize = 0;
        while i < 20
            invariant
                i <= 20,
                bytes@.len() == 26,
                forall|j: int| 0 <= j < i ==> idb@[j] == bytes@[j],
            decreases 20 - i,
        {
            idb[i] = bytes[i];
            i += 1;
        }
        proof {
            assert(idb@ =~= bytes@.subrange(0, 20));
        }
        let mut pb = [0u8; 6];
        let mut i: usize = 0;
        while i < 6
            invariant
                i <= 6,
                bytes@.len() == 26,
                forall|j: int| 0 <= j < i ==> pb@[j] == bytes@[20 + j],
            decreases 6 - i,
        {
            pb[i] = bytes[20 + i];
            i += 1;
        }
        proof {
            assert(pb@ =~= bytes@.subrange(20, 26));
        }
        match Peer4Info::parse(pb.as_slice()) {
            Ok(peer) => Ok(Node4Info { id: NodeId(idb), peer }),
            Err(e) => Err(e),
        }
    }

    /// Writes the 26-byte record for this contact.
    pub fn encode(&self) -> (r: Vec<u8>)
        ensures
            r@ == spec_node4_bytes(self@),
    {
        let mut v = bytes_to_vec(self.id.0.as_slice());
        v.push(self.peer.ip[0]);
        v.push(self.peer.ip[1]);
        v.push(self.peer.ip[2]);
        v.push(self.peer.ip[3]);
        v.push((self.peer.port / 256) as u8);
        v.push((self.peer.port % 256) as u8);
        proof {
            assert(v@ =~= spec_node4_bytes(self@));
        }
        v
    }

    /// Splits a byte string into 26-byte contact records; the whole list
    /// fails if any record does.
    pub fn parse_list(bytes: &[u8]) -> (r: DecodeResult<Vec<Node4Info>>)
        ensures
            match r {
                Ok(ns) => spec_parse_list(bytes@) == Ok::<Seq<Node4V>, DecodeError>(nodes_v(ns@)),
                Err(e) => spec_parse_list(bytes@) == Err::<Seq<Node4V>, DecodeError>(e),
            },
    {
        if bytes.len() % 26 != 0 {
            return Err(DecodeError::WrongLength);
        }
        let mut nodes: Vec<Node4Info> = Vec::new();
        let mut i: usize = 0;
        while i < bytes.len()
            invariant
                bytes@.len() % 26 == 0,
                i % 26 == 0,
                i <= bytes@.len(),
                match spec_nodes_chunks(bytes@, i as int) {
                    Ok(rest) => spec_nodes_chunks(bytes@, 0) == Ok::<Seq<Node4V>, DecodeError>(
                        nodes_v(nodes@) + rest,
                    ),
                    Err(e) => spec_nodes_chunks(bytes@, 0) == Err::<Seq<Node4V>, DecodeError>(e),
                },
            decreases bytes@.len() - i,
        {
            proof {
                assert((bytes@.len() - i as int) % 26 == 0) by (nonlinear_arith)
                    requires
                        bytes@.len() % 26 == 0,
                        (i as int) % 26 == 0,
                ;
                assert(i + 26 <= bytes@.len());
            }
            let mut chunk = [0u8; 26];
            let mut j: usize = 0;
            while j < 26
                invariant
                    j <= 26,
                    i + 26 <= bytes@.len(),
                    bytes@.len() <= usize::MAX,
                    forall|k: int| 0 <= k < j ==> chunk@[k] == bytes@[i + k],
                decreases 26 - j,
            {
                chunk[j] = bytes[i + j];
                j += 1;
            }
            proof {
                assert(chunk@ =~= bytes@.subrange(i as int, i as int + 26));
            }
            let ghost nodes_before = nodes@;
            match Node4Info::parse(chunk.as_slice()) {
                Ok(n) => {
                    nodes.push(n);
                    proof {
                        assert(nodes_v(nodes@) =~= nodes_v(nodes_before).push(n@));
                        match spec_nodes_chunks(bytes@, i as int + 26) {
                            Ok(rest) => {
                                assert(nodes_v(nodes_before) + (seq![n@] + rest) =~= nodes_v(
                                    nodes@,
                                ) + rest);
                            },
                            Err(_) => {},
                        }
                    }
                },
                Err(e) => {
                    return Err(e);
                },
            }
            i += 26;
        }
        proof {
            assert(nodes_v(nodes@) + Seq::<Node4V>::empty() =~= nodes_v(nodes@));
        }
        Ok(nodes)
    }
}

/// Possible responses to a `Query`.
#[derive(Debug)]
pub enum Response {
    Pong,
    FoundNodes { nodes4: Vec<Node4Info> },
}

pub ghost enum ResponseV {
    Pong,
    FoundNodes(Seq<Node4V>),
}

impl View for Response {
    type V = ResponseV;

    open spec fn view(&self) -> ResponseV {
        match self {
            Response::Pong => ResponseV::Pong,
            Response::FoundNodes { nodes4 } => ResponseV::FoundNodes(nodes_v(nodes4@)),
        }
    }
}

/// Full payload for a `Response`.
#[derive(Debug)]
pub struct FullResponse {
    pub response: Response,
    pub sender_id: NodeId,
    pub tx_id: TxId,
}

pub ghost struct FullResponseV {
    pub response: ResponseV,
    pub sender_id: Seq<u8>,
    pub tx_id: Seq<u8>,
}

impl View for FullResponse {
    type V = FullResponseV;

    open spec fn view(&self) -> FullResponseV {
        FullResponseV {
            response: self.response@,
            sender_id: self.sender_id@,
            tx_id: self.tx_id@,
        }
    }
}

/// What the body of a response dictionary selects: a get_peers token is
/// unsupported and fatal, a `nodes` byte string selects `FoundNodes`, and
/// their absence selects `Pong`.
pub open spec fn spec_decode_response_body(args: Seq<(Seq<u8>, BSpec)>) -> DecodeResult<
    ResponseV,
> {
    if dict_lookup(args, key_token()) is Some {
        Err(DecodeError::TokenUnsupported)
    } else {
        match dict_lookup(args, key_nodes()) {
            Some(nv) => match spec_bytes(nv) {
                Err(e) => Err(e),
                Ok(nb) => match spec_parse_list(nb) {
                    Err(e) => Err(e),
                    Ok(ns) => Ok(ResponseV::FoundNodes(ns)),
                },
            },
            None => Ok(ResponseV::Pong),
        }
    }
}

/// What decoding a response dictionary yields, checks in decoder order.
pub open spec fn spec_decode_response(v: BSpec) -> DecodeResult<FullResponseV> {
    match v {
        BSpec::Dict(d) => match spec_bytes_at(d, key_y(), WireKey::Y) {
            Err(e) => Err(e),
            Ok(y) => if y != key_r() {
                Err(DecodeError::WrongDiscrim)
            } else {
                match spec_lookup(d, key_r(), WireKey::R) {
                    Err(e) => Err(e),
                    Ok(rv) => match rv {
                        BSpec::Dict(args) => match spec_decode_response_body(args) {
                            Err(e) => Err(e),
                            Ok(resp) => match spec_lookup(args, key_id(), WireKey::Id) {
                                Err(e) => Err(e),
                                Ok(idv) => match spec_node_id(idv) {
                                    Err(e) => Err(e),
                                    Ok(sender) => match spec_bytes_at(d, key_t(), WireKey::T) {
                                        Err(e) => Err(e),
                                        Ok(tx) => Ok(
                                            FullResponseV {
                                                response: resp,
                                                sender_id: sender,
                                                tx_id: tx,
                                            },
                                        ),
                                    },
                                },
                            },
                        },
                        _ => Err(DecodeError::WrongType),
                    },
                }
            },
        },
        _ => Err(DecodeError::WrongType),
    }
}

impl FullResponse {
    /// Reads a typed response out of a bencode value.
    pub fn from_bvalue(v: &BValue) -> (r: DecodeResult<FullResponse>)
        ensures
            match r {
                Ok(resp) => spec_decode_response(v@) == Ok::<FullResponseV, DecodeError>(resp@)
                    && ((resp.tx_id is Short) <==> resp.tx_id@.len() == 2),
                Err(e) => spec_decode_response(v@) == Err::<FullResponseV, DecodeError>(e),
            },
    {
        if !v.is_dict() {
            return Err(DecodeError::WrongType);
        }
        let ky = key1(121);
        let yv = match v.lookup(ky.as_slice()) {
            Some(x) => x,
            None => {
                return Err(DecodeError::KeyMissing(WireKey::Y));
            },
        };
        let y = match yv.as_bytes() {
            Some(b) => b,
            None => {
                return Err(DecodeError::WrongType);
            },
        };
        let rdisc = key1(114);
        if !bytes_eq(y.as_slice(), rdisc.as_slice()) {
            return Err(DecodeError::WrongDiscrim);
        }
        let kr = key1(114);
        let rv = match v.lookup(kr.as_slice()) {
            Some(x) => x,
            None => {
                return Err(DecodeError::KeyMissing(WireKey::R));
            },
        };
        if !rv.is_dict() {
            return Err(DecodeError::WrongType);
        }
        let ktoken = key_token_bytes();
        let response: Response;
        if rv.lookup(ktoken.as_slice()).is_some() {
            return Err(DecodeError::TokenUnsupported);
        }
        let knodes = key_nodes_bytes();
        match rv.lookup(knodes.as_slice()) {
            Some(nv) => {
                let nb = match nv.as_bytes() {
                    Some(b) => b,
                    None => {
                        return Err(DecodeError::WrongType);
                    },
                };
                let nodes = match Node4Info::parse_list(nb.as_slice()) {
                    Ok(ns) => ns,
                    Err(e) => {
                        return Err(e);
                    },
                };
                response = Response::FoundNodes { nodes4: nodes };
            },
            None => {
                response = Response::Pong;
            },
        }
        let kid = key2(105, 100);
        let idv = match rv.lookup(kid.as_slice()) {
            Some(x) => x,
            None => {
                return Err(DecodeError::KeyMissing(WireKey::Id));
            },
        };
        let idb = match idv.as_bytes() {
            Some(b) => b,
            None => {
                return Err(DecodeError::WrongType);
            },
        };
        let sender_id = match NodeId::from_slice(idb.as_slice()) {
            Ok(id) => id,
            Err(e) => {
                return Err(e);
            },
        };
        let kt = key1(116);
        let tv = match v.lookup(kt.as_slice()) {
            Some(x) => x,
            None => {
                return Err(DecodeError::KeyMissing(WireKey::T));
            },
        };
        let tx_id = match TxId::from_bvalue(tv) {
            Ok(t) => t,
            Err(e) => {
                return Err(e);
            },
        };
        Ok(FullResponse { response, sender_id, tx_id })
    }
}

/// Describes an error reported by one node to another.
#[derive(Debug)]
pub struct DhtError {
    pub message: String,
    pub code: u32,
    pub tx_id: TxId,
}

pub ghost struct DhtErrorV {
    pub message: Seq<char>,
    pub code: u32,
    pub tx_id: Seq<u8>,
}

impl View for DhtError {
    type V = DhtErrorV;

    open spec fn view(&self) -> DhtErrorV {
        DhtErrorV { message: self.message@, code: self.code, tx_id: self.tx_id@ }
    }
}

/// A 32-bit unsigned code out of a bencode integer.
pub open spec fn spec_u32(v: BSpec) -> DecodeResult<u32> {
    match v {
        BSpec::Int(n) => if 0 <= n <= u32::MAX {
            Ok(n as u32)
        } else {
            Err(DecodeError::OutOfRange)
        },
        _ => Err(DecodeError::WrongType),
    }
}

/// What decoding an error dictionary yields: a two-element list of a code
/// and a message, the message decoded as text with invalid sequences
/// replaced.
pub open spec fn spec_decode_dht_error(v: BSpec) -> DecodeResult<DhtErrorV> {
    match v {
        BSpec::Dict(d) => match spec_bytes_at(d, key_y(), WireKey::Y) {
            Err(e) => Err(e),
            Ok(y) => if y != key_e() {
                Err(DecodeError::WrongDiscrim)
            } else {
                match spec_bytes_at(d, key_t(), WireKey::T) {
                    Err(e) => Err(e),
                    Ok(tx) => match spec_lookup(d, key_e(), WireKey::E) {
                        Err(e) => Err(e),
                        Ok(ev) => match ev {
                            BSpec::List(items) => if items.len() != 2 {
                                Err(DecodeError::WrongLength)
                            } else {
                                match spec_u32(items[0]) {
                                    Err(e) => Err(e),
                                    Ok(code) => match spec_bytes(items[1]) {
                                        Err(e) => Err(e),
                                        Ok(mb) => Ok(
                                            DhtErrorV {
                                                message: lossy_utf8(mb),
                                                code: code,
                                                tx_id: tx,
                                            },
                                        ),
                                    },
                                }
                            },
                            _ => Err(DecodeError::WrongType),
                        },
                    },
                }
            },
        },
        _ => Err(DecodeError::WrongType),
    }
}

impl DhtError {
    /// Reads a typed peer error out of a bencode value.
    pub fn from_bvalue(v: &BValue) -> (r: DecodeResult<DhtError>)
        ensures
            match r {
                Ok(de) => spec_decode_dht_error(v@) == Ok::<DhtErrorV, DecodeError>(de@) && ((
                de.tx_id is Short) <==> de.tx_id@.len() == 2),
                Err(e) => spec_decode_dht_error(v@) == Err::<DhtErrorV, DecodeError>(e),
            },
    {
        if !v.is_dict() {
            return Err(DecodeError::WrongType);
        }
        let ky = key1(121);
        let yv = match v.lookup(ky.as_slice()) {
            Some(x) => x,
            None => {
                return Err(DecodeError::KeyMissing(WireKey::Y));
            },
        };
        let y = match yv.as_bytes() {
            Some(b) => b,
            None => {
                return Err(DecodeError::WrongType);
            },
        };
        let edisc = key1(101);
        if !bytes_eq(y.as_slice(), edisc.as_slice()) {
            return Err(DecodeError::WrongDiscrim);
        }
        let kt = key1(116);
        let tv = match v.lookup(kt.as_slice()) {
            Some(x) => x,
            None => {
                return Err(DecodeError::KeyMissing(WireKey::T));
            },
        };
        let tx_id = match TxId::from_bvalue(tv) {
            Ok(t) => t,
            Err(e) => {
                return Err(e);
            },
        };
        let ke = key1(101);
        let ev = match v.lookup(ke.as_slice()) {
            Some(x) => x,
            None => {
                return Err(DecodeError::KeyMissing(WireKey::E));
            },
        };
        let items = match ev.as_list() {
            Some(l) => l,
            None => {
                return Err(DecodeError::WrongType);
            },
        };
        proof {
            lemma_bspec_list_index(items@);
        }
        if items.len() != 2 {
            return Err(DecodeError::WrongLength);
        }
        let code = match items[0].as_int() {
            Some(n) => {
                if n < 0 || n > u32::MAX as i64 {
                    return Err(DecodeError::OutOfRange);
                }
                n as u32
            },
            None => {
                return Err(DecodeError::WrongType);
            },
        };
        let mb = match items[1].as_bytes() {
            Some(b) => b,
            None => {
                return Err(DecodeError::WrongType);
            },
        };
        let message = utf8_lossy(mb.as_slice());
        Ok(DhtError { message, code, tx_id })
    }
}

/// Any message that can be received.
#[derive(Debug)]
pub enum DhtMessage {
    Query(FullQuery),
    Response(FullResponse),
    Error(DhtError),
}

pub ghost enum DhtMessageV {
    Query(FullQueryV),
    Response(FullResponseV),
    Error(DhtErrorV),
}

impl View for DhtMessage {
    type V = DhtMessageV;

    open spec fn view(&self) -> DhtMessageV {
        match self {
            DhtMessage::Query(q) => DhtMessageV::Query(q@),
            DhtMessage::Response(r) => DhtMessageV::Response(r@),
            DhtMessage::Error(e) => DhtMessageV::Error(e@),
        }
    }
}

/// What decoding any message yields, dispatching on the `y` discriminator.
pub open spec fn spec_decode_message(v: BSpec) -> DecodeResult<DhtMessageV> {
    match v {
        BSpec::Dict(d) => match spec_bytes_at(d, key_y(), WireKey::Y) {
            Err(e) => Err(e),
            Ok(y) => if y == key_q() {
                match spec_decode_query(v) {
                    Ok(q) => Ok(DhtMessageV::Query(q)),
                    Err(e) => Err(e),
                }
            } else if y == key_r() {
                match spec_decode_response(v) {
                    Ok(r) => Ok(DhtMessageV::Response(r)),
                    Err(e) => Err(e),
                }
            } else if y == key_e() {
                match spec_decode_dht_error(v) {
                    Ok(de) => Ok(DhtMessageV::Error(de)),
                    Err(e) => Err(e),
                }
            } else {
                Err(DecodeError::InvalidDiscrim)
            },
        },
        _ => Err(DecodeError::WrongType),
    }
}

/// A decoded message's transaction identifier takes the short form exactly
/// when its content is two bytes.
pub open spec fn tx_form_ok(m: DhtMessage) -> bool {
    match m {
        DhtMessage::Query(q) => (q.tx_id is Short) <==> q.tx_id@.len() == 2,
        DhtMessage::Response(resp) => (resp.tx_id is Short) <==> resp.tx_id@.len() == 2,
        DhtMessage::Error(de) => (de.tx_id is Short) <==> de.tx_id@.len() == 2,
    }
}

impl DhtMessage {
    /// Reads any typed message out of a bencode value.
    pub fn from_bvalue(v: &BValue) -> (r: DecodeResult<DhtMessage>)
        ensures
            match r {
                Ok(m) => spec_decode_message(v@) == Ok::<DhtMessageV, DecodeError>(m@)
                    && tx_form_ok(m),
                Err(e) => spec_decode_message(v@) == Err::<DhtMessageV, DecodeError>(e),
            },
    {
        if !v.is_dict() {
            return Err(DecodeError::WrongType);
        }
        let ky = key1(121);
        let yv = match v.lookup(ky.as_slice()) {
            Some(x) => x,
            None => {
                return Err(DecodeError::KeyMissing(WireKey::Y));
            },
        };
        let y = match yv.as_bytes() {
            Some(b) => b,
            None => {
                return Err(DecodeError::WrongType);
            },
        };
        let qdisc = key1(113);
        let rdisc = key1(114);
        let edisc = key1(101);
        if bytes_eq(y.as_slice(), qdisc.as_slice()) {
            match FullQuery::from_bvalue(v) {
                Ok(q) => Ok(DhtMessage::Query(q)),
                Err(e) => Err(e),
            }
        } else if bytes_eq(y.as_slice(), rdisc.as_slice()) {
            match FullResponse::from_bvalue(v) {
                Ok(r) => Ok(DhtMessage::Response(r)),
                Err(e) => Err(e),
            }
        } else if bytes_eq(y.as_slice(), edisc.as_slice()) {
            match DhtError::from_bvalue(v) {
                Ok(de) => Ok(DhtMessage::Error(de)),
                Err(e) => Err(e),
            }
        } else {
            Err(DecodeError::InvalidDiscrim)
        }
    }
}

/// Why a datagram was dropped: the bencode codec rejected it, or its value
/// tree did not decode as a message.
#[derive(Debug)]
pub enum WireFault {
    Parse(ParseFault),
    Decode(DecodeError),
}

/// Decodes one datagram: the syntactic pre-scan, the bencode parse, then
/// the typed decode. A datagram the scan refuses is dropped before the
/// codec ever sees it.
pub fn decode_message(bytes: &[u8]) -> (r: Result<DhtMessage, WireFault>)
    ensures
        match r {
            Ok(m) => bencode_wf(bytes@) && (bdecoded(bytes@) matches Some(v)
                && spec_decode_message(v) == Ok::<DhtMessageV, DecodeError>(m@) && tx_form_ok(m)),
            Err(WireFault::Parse(_)) => !bencode_wf(bytes@) || bdecoded(bytes@) is None,
            Err(WireFault::Decode(e)) => bencode_wf(bytes@) && (bdecoded(bytes@) matches Some(v)
                && spec_decode_message(v) == Err::<DhtMessageV, DecodeError>(e)),
        },
{
    if !scan_bencode(bytes) {
        return Err(
            WireFault::Parse(
                ParseFault { pos: 0, msg: "unterminated or oversized bencode value".to_owned() },
            ),
        );
    }
    let v = match parse_bvalue(bytes) {
        Ok(v) => v,
        Err(f) => {
            return Err(WireFault::Parse(f));
        },
    };
    match DhtMessage::from_bvalue(&v) {
        Ok(m) => Ok(m),
        Err(e) => Err(WireFault::Decode(e)),
    }
}

/// Encodes an outgoing query to its wire bytes.
pub fn encode_query(q: &FullQuery) -> (r: Vec<u8>)
    ensures
        r@ == bencoded(spec_query_bvalue(q@)),
{
    let v = q.to_bvalue();
    match serialize_bvalue(&v) {
        Some(b) => b,
        None => vstd::pervasive::unreached(),
    }
}

/// Law: decoding an encoded query yields the query back: the round trip at
/// the level of the value tree the codec carries. A transaction identifier
/// comes back in its normalized byte form.
pub proof fn lemma_query_round_trip(q: FullQueryV)
    requires
        q.sender_id.len() == 20,
        q.query matches QueryV::FindNode(t) ==> t.len() == 20,
    ensures
        spec_decode_query(spec_query_bvalue(q)) == Ok::<FullQueryV, DecodeError>(q),
        spec_decode_message(spec_query_bvalue(q)) == Ok::<DhtMessageV, DecodeError>(
            DhtMessageV::Query(q),
        ),
{
    let v = spec_query_bvalue(q);
    let d = v->Dict_0;
    let args = spec_query_args(q);
    assert(key_a()[0] == 97 && key_q()[0] == 113 && key_t()[0] == 116 && key_y()[0] == 121);
    assert(key_a() != key_y() && key_q() != key_y() && key_t() != key_y());
    assert(key_a() != key_t() && key_q() != key_t());
    assert(key_a() != key_q());
    assert(dict_lookup(d, key_y()) == Some(BSpec::Bytes(key_q()))) by {
        assert(dict_lookup_from(d, key_y(), 0) == dict_lookup_from(d, key_y(), 1));
        assert(dict_lookup_from(d, key_y(), 1) == dict_lookup_from(d, key_y(), 2));
        assert(dict_lookup_from(d, key_y(), 2) == dict_lookup_from(d, key_y(), 3));
        assert(dict_lookup_from(d, key_y(), 3) == Some(d[3].1));
    }
    assert(dict_lookup(d, key_a()) == Some(BSpec::Dict(args))) by {
        assert(dict_lookup_from(d, key_a(), 0) == Some(d[0].1));
    }
    assert(dict_lookup(d, key_t()) == Some(BSpec::Bytes(q.tx_id))) by {
        assert(dict_lookup_from(d, key_t(), 0) == dict_lookup_from(d, key_t(), 1));
        assert(dict_lookup_from(d, key_t(), 1) == dict_lookup_from(d, key_t(), 2));
        assert(dict_lookup_from(d, key_t(), 2) == Some(d[2].1));
    }
    assert(dict_lookup(d, key_q()) == Some(BSpec::Bytes(spec_query_name(q.query)))) by {
        assert(dict_lookup_from(d, key_q(), 0) == dict_lookup_from(d, key_q(), 1));
        assert(dict_lookup_from(d, key_q(), 1) == Some(d[1].1));
    }
    assert(dict_lookup(args, key_id()) == Some(BSpec::Bytes(q.sender_id))) by {
        assert(dict_lookup_from(args, key_id(), 0) == Some(args[0].1));
    }
    match q.query {
        QueryV::Ping => {
            assert(spec_query_name(q.query) == name_ping());
        },
        QueryV::FindNode(t) => {
            assert(name_find_node() != name_ping());
            assert(dict_lookup(args, key_target()) == Some(BSpec::Bytes(t))) by {
                assert(dict_lookup_from(args, key_target(), 0) == dict_lookup_from(
                    args,
                    key_target(),
                    1,
                ));
                assert(dict_lookup_from(args, key_target(), 1) == Some(args[1].1));
            }
        },
    }
    assert(spec_decode_query(v) == Ok::<FullQueryV, DecodeError>(q));
}

/// Law: a 26-byte contact record with the unspecified address 0.0.0.0 or
/// port zero fails to parse; a record that does parse names a globally
/// routable address and a nonzero port, and writing the parsed contact back
/// yields the original bytes.
pub proof fn lemma_contact_record(bytes: Seq<u8>)
    requires
        bytes.len() == 26,
    ensures
        (bytes[20] == 0 && bytes[21] == 0 && bytes[22] == 0 && bytes[23] == 0)
            ==> spec_node4_parse(bytes) is Err,
        (bytes[24] == 0 && bytes[25] == 0) ==> spec_node4_parse(bytes) is Err,
        spec_node4_parse(bytes) matches Ok(n) ==> spec_node4_bytes(n) == bytes && spec_global_ip(
            n.peer.ip,
        ) && n.peer.port != 0,
{
    let pb = bytes.subrange(20, 26);
    assert(pb[0] == bytes[20] && pb[1] == bytes[21] && pb[2] == bytes[22] && pb[3] == bytes[23]
        && pb[4] == bytes[24] && pb[5] == bytes[25]);
    if spec_node4_parse(bytes) is Ok {
        let n = spec_node4_parse(bytes)->Ok_0;
        let hi = pb[4] as int;
        let lo = pb[5] as int;
        assert((hi * 256 + lo) / 256 == hi && (hi * 256 + lo) % 256 == lo) by (nonlinear_arith)
            requires
                0 <= hi < 256,
                0 <= lo < 256,
        ;
        assert(spec_node4_bytes(n) =~= bytes);
    }
}

} // verus!
