//! Trusted boundary: the bencode codec that turns datagrams into value trees
//! and back, the random source, and lossy text decoding. Everything else in
//! the crate is verified against the contracts stated here.

use vstd::prelude::*;
use crate::bvalue::{BValue, BSpec};

verus! {

/// The value tree the bencode codec parses out of a byte string, or nothing
/// when the codec rejects the bytes. A function of the bytes alone.
pub uninterp spec fn bdecoded(bytes: Seq<u8>) -> Option<BSpec>;

/// The bytes the bencode codec writes for a value tree. A function of the
/// tree alone.
pub uninterp spec fn bencoded(v: BSpec) -> Seq<u8>;

/// The text `String::from_utf8_lossy` decodes from a byte string, invalid
/// sequences replaced. A function of the bytes alone.
pub uninterp spec fn lossy_utf8(bytes: Seq<u8>) -> Seq<char>;

/// Why the bencode codec rejected a datagram: the position it stopped at and
/// its own message.
#[derive(Debug, Clone)]
pub struct ParseFault {
    pub pos: u32,
    pub msg: String,
}

#[verifier::external_type_specification]
#[verifier::external_body]
pub struct ExBencode(bencode::Bencode);

/// Rebuilds the codec's tree as the library's value type, one variant for
/// one variant. Relies on bencode::Bencode having exactly the five shapes
/// mirrored here; dictionary entries come out in the codec's key order.
#[verifier::external_body]
fn value_of_tree(b: &bencode::Bencode) -> BValue {
    match b {
        bencode::Bencode::Empty => BValue::Empty,
        bencode::Bencode::Number(n) => BValue::Int(*n),
        bencode::Bencode::ByteString(v) => BValue::Bytes(v.clone()),
        bencode::Bencode::List(l) => BValue::List(l.iter().map(value_of_tree).collect()),
        bencode::Bencode::Dict(d) => BValue::Dict(
            d.iter().map(|(k, v)| (k.as_slice().to_vec(), value_of_tree(v))).collect(),
        ),
    }
}

/// Builds the codec's tree for a library value, one variant for one variant.
/// Relies on bencode::Bencode and bencode::util::ByteString::from_slice.
#[verifier::external_body]
fn tree_of_value(v: &BValue) -> bencode::Bencode {
    match v {
        BValue::Empty => bencode::Bencode::Empty,
        BValue::Int(n) => bencode::Bencode::Number(*n),
        BValue::Bytes(b) => bencode::Bencode::ByteString(b.clone()),
        BValue::List(l) => bencode::Bencode::List(l.iter().map(tree_of_value).collect()),
        BValue::Dict(d) => bencode::Bencode::Dict(
            d.iter().map(|(k, v)| (bencode::util::ByteString::from_slice(k), tree_of_value(v))).collect(),
        ),
    }
}

/// Parses one datagram with the bencode codec.
/// Relies on bencode::from_buffer: deterministic in the bytes alone; on
/// failure it reports a position and a message and yields no tree. It is
/// called only on pre-scanned byte strings, because outside that domain the
/// codec does not return: its tree builder panics when the input ends inside
/// an unterminated list or dictionary, and its digit accumulation overflows
/// on numbers or lengths of nineteen or more digits.
#[verifier::external_body]
pub fn parse_bvalue(bytes: &[u8]) -> (r: Result<BValue, ParseFault>)
    requires
        crate::scan::bencode_wf(bytes@),
    ensures
        match r {
            Ok(v) => bdecoded(bytes@) == Some(v@),
            Err(_) => bdecoded(bytes@) is None,
        },
{
    match bencode::from_buffer(bytes) {
        Ok(b) => Ok(value_of_tree(&b)),
        Err(e) => Err(ParseFault { pos: e.pos, msg: e.msg }),
    }
}

/// Serializes a value tree with the bencode codec.
/// Relies on bencode::Bencode::to_bytes: deterministic in the tree alone,
/// and total here, since the writer is an in-memory vector that cannot fail
/// and every tree this library hands over encodes through the codec's
/// number, byte-string, list and dictionary paths, whose dictionary keys are
/// always byte strings.
#[verifier::external_body]
pub fn serialize_bvalue(v: &BValue) -> (r: Option<Vec<u8>>)
    ensures
        r is Some,
        match r {
            Some(b) => b@ == bencoded(v@),
            None => true,
        },
{
    tree_of_value(v).to_bytes().ok()
}

/// Relies on String::from_utf8_lossy: the text depends on the bytes alone;
/// invalid sequences are replaced, never rejected.
#[verifier::external_body]
pub fn utf8_lossy(bytes: &[u8]) -> (r: String)
    ensures
        r@ == lossy_utf8(bytes@),
{
    String::from_utf8_lossy(bytes).into_owned()
}

/// Relies on rand::random for node identifiers and transaction identifiers;
/// nothing can be promised of a random value.
pub assume_specification<T>[ rand::random::<T> ]() -> (r: T)
    where
        rand::distributions::Standard: rand::distributions::Distribution<T>,
;

} // verus!
