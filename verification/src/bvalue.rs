//! The generic bencode value tree the wire format carries, and lookups on it.

use vstd::prelude::*;

verus! {

broadcast use vstd::std_specs::vec::group_vec_axioms, vstd::seq::axiom_seq_index_decreases,
    vstd::seq::axiom_seq_subrange_decreases;

/// A generic bencode value: an integer, a byte string, a list, a dictionary,
/// or nothing at all (an empty document).
#[derive(Debug)]
pub enum BValue {
    Empty,
    Int(i64),
    Bytes(Vec<u8>),
    List(Vec<BValue>),
    Dict(Vec<(Vec<u8>, BValue)>),
}

/// Mathematical value of a `BValue`.
pub ghost enum BSpec {
    Empty,
    Int(int),
    Bytes(Seq<u8>),
    List(Seq<BSpec>),
    Dict(Seq<(Seq<u8>, BSpec)>),
}

pub open spec fn bspec_of(v: BValue) -> BSpec
    decreases v,
{
    match v {
        BValue::Empty => BSpec::Empty,
        BValue::Int(n) => BSpec::Int(n as int),
        BValue::Bytes(b) => BSpec::Bytes(b@),
        BValue::List(l) => BSpec::List(bspec_list(l@)),
        BValue::Dict(d) => BSpec::Dict(bspec_dict(d@)),
    }
}

pub open spec fn bspec_list(s: Seq<BValue>) -> Seq<BSpec>
    decreases s,
{
    if s.len() <= 0 {
        Seq::empty()
    } else {
        seq![bspec_of(s[0])] + bspec_list(s.subrange(1, s.len() as int))
    }
}

pub open spec fn bspec_dict(s: Seq<(Vec<u8>, BValue)>) -> Seq<(Seq<u8>, BSpec)>
    decreases s,
{
    if s.len() <= 0 {
        Seq::empty()
    } else {
        seq![(s[0].0@, bspec_of(s[0].1))] + bspec_dict(s.subrange(1, s.len() as int))
    }
}

pub proof fn lemma_bspec_list_index(s: Seq<BValue>)
    ensures
        bspec_list(s).len() == s.len(),
        forall|i: int| 0 <= i < s.len() ==> bspec_list(s)[i] == bspec_of(s[i]),
    decreases s.len(),
{
    if s.len() > 0 {
        lemma_bspec_list_index(s.subrange(1, s.len() as int));
    }
}

pub proof fn lemma_bspec_dict_index(s: Seq<(Vec<u8>, BValue)>)
    ensures
        bspec_dict(s).len() == s.len(),
        forall|i: int|
            0 <= i < s.len() ==> bspec_dict(s)[i] == (s[i].0@, bspec_of(s[i].1)),
    decreases s.len(),
{
    if s.len() > 0 {
        lemma_bspec_dict_index(s.subrange(1, s.len() as int));
    }
}

impl View for BValue {
    type V = BSpec;

    open spec fn view(&self) -> BSpec {
        bspec_of(*self)
    }
}

/// First value bound to `key` among the entries, scanning in order.
pub open spec fn dict_lookup_from(
    entries: Seq<(Seq<u8>, BSpec)>,
    key: Seq<u8>,
    i: int,
) -> Option<BSpec>
    decreases entries.len() - i,
{
    if i < 0 || i >= entries.len() {
        None
    } else if entries[i].0 == key {
        Some(entries[i].1)
    } else {
        dict_lookup_from(entries, key, i + 1)
    }
}

pub open spec fn dict_lookup(entries: Seq<(Seq<u8>, BSpec)>, key: Seq<u8>) -> Option<BSpec> {
    dict_lookup_from(entries, key, 0)
}

/// Byte-wise equality of two byte strings.
pub fn bytes_eq(a: &[u8], b: &[u8]) -> (r: bool)
    ensures
        r == (a@ == b@),
{
    if a.len() != b.len() {
        return false;
    }
    let mut i: usize = 0;
    while i < a.len()
        invariant
            a@.len() == b@.len(),
            i <= a@.len(),
            forall|j: int| 0 <= j < i ==> a@[j] == b@[j],
        decreases a@.len() - i,
    {
        if a[i] != b[i] {
            return false;
        }
        i += 1;
    }
    proof {
        assert(a@ =~= b@);
    }
    true
}

impl BValue {
    /// The byte string this value holds, if it is one.
    pub fn as_bytes(&self) -> (r: Option<&Vec<u8>>)
        ensures
            match r {
                Some(b) => self@ == BSpec::Bytes(b@),
                None => !(self@ is Bytes),
            },
    {
        match self {
            BValue::Bytes(b) => Some(b),
            _ => None,
        }
    }

    /// The integer this value holds, if it is one.
    pub fn as_int(&self) -> (r: Option<i64>)
        ensures
            match r {
                Some(n) => self@ == BSpec::Int(n as int),
                None => !(self@ is Int),
            },
    {
        match self {
            BValue::Int(n) => Some(*n),
            _ => None,
        }
    }

    /// The list this value holds, if it is one.
    pub fn as_list(&self) -> (r: Option<&Vec<BValue>>)
        ensures
            match r {
                Some(l) => self@ == BSpec::List(bspec_list(l@)),
                None => !(self@ is List),
            },
    {
        match self {
            BValue::List(l) => Some(l),
            _ => None,
        }
    }

    /// Whether this value is a dictionary.
    pub fn is_dict(&self) -> (r: bool)
        ensures
            r == (self@ is Dict),
    {
        match self {
            BValue::Dict(_) => true,
            _ => false,
        }
    }

    /// Looks `key` up in this dictionary, first binding first; `None` when
    /// the value is not a dictionary or the key is absent.
    pub fn lookup(&self, key: &[u8]) -> (r: Option<&BValue>)
        ensures
            match r {
                Some(v) => self@ is Dict && dict_lookup(self@->Dict_0, key@) == Some(v@),
                None => !(self@ is Dict) || dict_lookup(self@->Dict_0, key@) is None,
            },
    {
        match self {
            BValue::Dict(entries) => {
                let ghost d = bspec_dict(entries@);
                proof {
                    lemma_bspec_dict_index(entries@);
                }
                let mut i: usize = 0;
                while i < entries.len()
                    invariant
                        i <= entries@.len(),
                        d == bspec_dict(entries@),
                        self@ == BSpec::Dict(d),
                        d.len() == entries@.len(),
                        forall|k: int|
                            0 <= k < entries@.len() ==> d[k] == (
                                entries@[k].0@,
                                bspec_of(entries@[k].1),
                            ),
                        dict_lookup(d, key@) == dict_lookup_from(d, key@, i as int),
                    decreases entries@.len() - i,
                {
                    if bytes_eq(entries[i].0.as_slice(), key) {
                        proof {
                            assert(d[i as int].0 == key@);
                            assert(dict_lookup_from(d, key@, i as int) == Some(d[i as int].1));
                            assert(self@->Dict_0 == d);
                        }
                        return Some(&entries[i].1);
                    }
                    i += 1;
                }
                None
            },
            _ => None,
        }
    }
}

} // verus!
