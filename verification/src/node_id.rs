//! 160-bit node identifiers.

use vstd::prelude::*;
use crate::bits::bit_of;

verus! {

/// Number of bytes in a node identifier.
pub const NODE_ID_LEN: usize = 20;

/// The 160-bit space of node identifiers.
#[derive(Clone, Copy, Debug)]
pub struct NodeId(pub [u8; 20]);

impl View for NodeId {
    type V = Seq<u8>;

    open spec fn view(&self) -> Seq<u8> {
        self.0@
    }
}

impl PartialEq for NodeId {
    fn eq(&self, other: &NodeId) -> bool {
        let mut i: usize = 0;
        while i < 20
            invariant
                i <= 20,
                forall|j: int| 0 <= j < i ==> self.0@[j] == other.0@[j],
            decreases 20 - i,
        {
            if self.0[i] != other.0[i] {
                return false;
            }
            i += 1;
        }
        proof {
            assert(self.0@ =~= other.0@);
        }
        true
    }
}

impl Eq for NodeId {

}

impl vstd::std_specs::cmp::PartialEqSpecImpl for NodeId {
    open spec fn obeys_eq_spec() -> bool {
        true
    }

    open spec fn eq_spec(&self, other: &NodeId) -> bool {
        self.0@ == other.0@
    }
}

impl NodeId {
    /// A uniformly random identifier.
    pub fn random() -> (r: NodeId) {
        let bytes: [u8; 20] = rand::random();
        NodeId(bytes)
    }

    /// Builds an identifier from a slice of exactly 20 bytes.
    pub fn from_slice(bytes: &[u8]) -> (r: Result<NodeId, crate::messages::DecodeError>)
        ensures
            match r {
                Ok(id) => bytes@.len() == 20 && id@ == bytes@,
                Err(e) => bytes@.len() != 20 && e == crate::messages::DecodeError::WrongLength,
            },
    {
        if bytes.len() == 20 {
            let mut fixed = [0u8; 20];
            let mut i: usize = 0;
            while i < 20
                invariant
                    i <= 20,
                    bytes@.len() == 20,
                    forall|j: int| 0 <= j < i ==> fixed@[j] == bytes@[j],
                decreases 20 - i,
            {
                fixed[i] = bytes[i];
                i += 1;
            }
            proof {
                assert(fixed@ =~= bytes@);
            }
            Ok(NodeId(fixed))
        } else {
            Err(crate::messages::DecodeError::WrongLength)
        }
    }

    /// Bit `index` of the identifier; bit 0 is the most significant bit of
    /// byte 0.
    pub fn bit(&self, index: usize) -> (r: bool)
        requires
            index < 160,
        ensures
            r == bit_of(self@, index as int),
    {
        let byte = self.0[index / 8];
        let sh: u8 = (7 - (index % 8)) as u8;
        (byte >> sh) & 1u8 == 1u8
    }
}

} // verus!
