use vstd::prelude::*;
use crate::bytes::to_vec;
use zeroize::Zeroize;

verus! {

/// Relies on zeroize::Zeroize for Vec: the elements (and spare capacity) are
/// overwritten with zeros and the vector is emptied.
#[verifier::external_body]
pub(crate) fn zeroize_bytes(v: &mut Vec<u8>)
    ensures
        final(v)@.len() == 0,
    opens_invariants none
    no_unwind
{
    v.zeroize();
}

/// Secret bytes (a decrypted plaintext) that are wiped when dropped.
pub struct SecretBytes {
    data: Vec<u8>,
}

impl View for SecretBytes {
    type V = Seq<u8>;

    closed spec fn view(&self) -> Seq<u8> {
        self.data@
    }
}

impl SecretBytes {
    /// Takes ownership of `data`.
    pub fn new(data: Vec<u8>) -> (r: SecretBytes)
        ensures
            r@ == data@,
    {
        SecretBytes { data }
    }

    pub fn as_bytes(&self) -> (r: &[u8])
        ensures
            r@ == self@,
    {
        self.data.as_slice()
    }

    /// A copy of the bytes, which the caller must not keep longer than needed.
    pub fn to_vec(&self) -> (r: Vec<u8>)
        ensures
            r@ == self@,
    {
        to_vec(self.data.as_slice())
    }

    pub fn len(&self) -> (r: usize)
        ensures
            r == self@.len(),
    {
        self.data.len()
    }

    /// Overwrites the bytes and empties the container.
    pub fn wipe(&mut self)
        ensures
            final(self)@.len() == 0,
        opens_invariants none
        no_unwind
    {
        zeroize_bytes(&mut self.data);
    }
}

impl Drop for SecretBytes {
    fn drop(&mut self)
        opens_invariants none
        no_unwind
    {
        self.wipe();
    }
}

} // verus!
