use vstd::prelude::*;
use crate::bytes::{bytes_eq, bytes_less, lex_less, to_vec};

verus! {

/// Opaque, stable byte identifier of a node, as supplied by the transport.
#[derive(Clone, Debug, PartialEq, Eq, Hash, PartialOrd, Ord)]
pub struct PeerId {
    bytes: Vec<u8>,
}

impl View for PeerId {
    type V = Seq<u8>;

    closed spec fn view(&self) -> Seq<u8> {
        self.bytes@
    }
}

impl PeerId {
    /// The identifier made of the given bytes.
    pub fn from_bytes(bytes: &[u8]) -> (r: PeerId)
        ensures
            r@ == bytes@,
    {
        PeerId { bytes: to_vec(bytes) }
    }

    /// The identifier's bytes, copied.
    pub fn to_bytes(&self) -> (r: Vec<u8>)
        ensures
            r@ == self@,
    {
        to_vec(self.bytes.as_slice())
    }

    /// The identifier's bytes.
    pub fn as_bytes(&self) -> (r: &[u8])
        ensures
            r@ == self@,
    {
        self.bytes.as_slice()
    }

    /// A copy of this identifier.
    pub fn duplicate(&self) -> (r: PeerId)
        ensures
            r@ == self@,
    {
        PeerId { bytes: to_vec(self.bytes.as_slice()) }
    }

    /// Whether both identifiers hold the same bytes.
    pub fn same(&self, other: &PeerId) -> (r: bool)
        ensures
            r == (self@ == other@),
    {
        bytes_eq(self.bytes.as_slice(), other.bytes.as_slice())
    }

    /// Whether this identifier sorts strictly before `other`, byte by byte.
    pub fn sorts_before(&self, other: &PeerId) -> (r: bool)
        ensures
            r == lex_less(self@, other@),
    {
        bytes_less(self.bytes.as_slice(), other.bytes.as_slice())
    }
}

} // verus!
