use vstd::prelude::*;
use vstd::string::StringSliceAdditionalSpecFns;
use crate::bytes::{append, to_vec};
use crate::error::CryptoError;
use crate::hash::{sha256, sha256_of};
use crate::secret::zeroize_bytes;
use pqcrypto_kyber::kyber768;
use pqcrypto_traits::kem::{
    Ciphertext as PqCiphertext, PublicKey as PqPublicKey, SecretKey as PqSecretKey,
    SharedSecret as PqSharedSecret,
};

verus! {

/// Length of a Kyber768 public key.
pub const PQ_KEM_PUBLIC_LEN: usize = 1184;

/// Length of a Kyber768 secret key.
pub const PQ_KEM_SECRET_LEN: usize = 2400;

/// Length of a Kyber768 ciphertext.
pub const PQ_CIPHERTEXT_LEN: usize = 1088;

/// Length of a Kyber768 shared secret.
pub const PQ_SHARED_LEN: usize = 32;

/// The X25519 public key of a 32-byte secret.
pub uninterp spec fn x25519_public(secret: Seq<u8>) -> Seq<u8>;

/// The X25519 shared secret of our secret and a peer's public key.
pub uninterp spec fn x25519_shared(secret: Seq<u8>, peer_public: Seq<u8>) -> Seq<u8>;

/// The Kyber768 shared secret recovered from a ciphertext with a secret key.
pub uninterp spec fn kyber_decap(secret: Seq<u8>, ciphertext: Seq<u8>) -> Seq<u8>;

/// Domain separator of the hybrid combination.
pub open spec fn kem_domain() -> Seq<u8> {
    "UMBRA-HYBRID-KEM".spec_bytes()
}

/// The 32-byte hybrid secret combining the classical and the lattice secrets.
pub open spec fn hybrid_combine(classical: Seq<u8>, lattice: Seq<u8>) -> Seq<u8> {
    sha256_of(kem_domain() + classical + lattice)
}

/// Relies on x25519_dalek::StaticSecret::random_from_rng with the thread-local generator.
#[verifier::external_body]
pub(crate) fn x25519_random_secret() -> (r: [u8; 32]) {
    x25519_dalek::StaticSecret::random_from_rng(rand::thread_rng()).to_bytes()
}

/// Relies on x25519_dalek's From<&StaticSecret> for PublicKey: the public key of a secret.
#[verifier::external_body]
pub(crate) fn x25519_public_of(secret: &[u8; 32]) -> (r: [u8; 32])
    ensures
        r@ == x25519_public(secret@),
{
    x25519_dalek::PublicKey::from(&x25519_dalek::StaticSecret::from(*secret)).to_bytes()
}

/// Relies on x25519_dalek::StaticSecret::diffie_hellman: the shared secret of our
/// secret and the peer's public key; both sides of an exchange obtain the same bytes.
#[verifier::external_body]
pub(crate) fn x25519_dh(secret: &[u8; 32], peer_public: &[u8; 32]) -> (r: [u8; 32])
    ensures
        r@ == x25519_shared(secret@, peer_public@),
        forall|other: Seq<u8>|
            other.len() == 32 && peer_public@ == x25519_public(other) ==> r@ == x25519_shared(
                other,
                x25519_public(secret@),
            ),
{
    x25519_dalek::StaticSecret::from(*secret).diffie_hellman(&x25519_dalek::PublicKey::from(*peer_public)).to_bytes()
}

/// Relies on pqcrypto_kyber::kyber768::keypair: a fresh random key pair (public, secret).
#[verifier::external_body]
fn kyber_keypair() -> (r: (Vec<u8>, Vec<u8>))
    ensures
        r.0@.len() == PQ_KEM_PUBLIC_LEN,
        r.1@.len() == PQ_KEM_SECRET_LEN,
{
    let (pk, sk) = kyber768::keypair();
    (pk.as_bytes().to_vec(), sk.as_bytes().to_vec())
}

/// Relies on pqcrypto_kyber::kyber768::encapsulate: a random (shared secret,
/// ciphertext) pair; the key is rebuilt by PublicKey::from_bytes, which refuses
/// any other length.
#[verifier::external_body]
fn kyber_encapsulate(public: &[u8]) -> (r: Option<(Vec<u8>, Vec<u8>)>)
    ensures
        r is Some <==> public@.len() == PQ_KEM_PUBLIC_LEN,
        r matches Some(p) ==> p.0@.len() == PQ_SHARED_LEN && p.1@.len() == PQ_CIPHERTEXT_LEN,
{
    match kyber768::PublicKey::from_bytes(public) {
        Ok(pk) => {
            let (ss, ct) = kyber768::encapsulate(&pk);
            Some((ss.as_bytes().to_vec(), ct.as_bytes().to_vec()))
        },
        Err(_) => None,
    }
}

/// Relies on pqcrypto_kyber::kyber768::decapsulate; ciphertext and key are rebuilt
/// by from_bytes, which refuses any other length.
#[verifier::external_body]
fn kyber_decapsulate(ciphertext: &[u8], secret: &[u8]) -> (r: Option<Vec<u8>>)
    ensures
        r is Some <==> (ciphertext@.len() == PQ_CIPHERTEXT_LEN && secret@.len() == PQ_KEM_SECRET_LEN),
        r matches Some(s) ==> s@ == kyber_decap(secret@, ciphertext@) && s@.len() == PQ_SHARED_LEN,
{
    let ct = match kyber768::Ciphertext::from_bytes(ciphertext) {
        Ok(ct) => ct,
        Err(_) => return None,
    };
    match kyber768::SecretKey::from_bytes(secret) {
        Ok(sk) => Some(kyber768::decapsulate(&ct, &sk).as_bytes().to_vec()),
        Err(_) => None,
    }
}

/// The hybrid secret of our classical secret, a peer's classical key and a lattice secret.
fn combine(secret: &[u8; 32], peer_public: &[u8; 32], lattice: &[u8]) -> (r: HybridSharedSecret)
    ensures
        r.data@ == hybrid_combine(x25519_shared(secret@, peer_public@), lattice@),
        r.data@.len() == 32,
        forall|other: Seq<u8>|
            other.len() == 32 && peer_public@ == x25519_public(other) ==> r.data@ == hybrid_combine(
                x25519_shared(other, x25519_public(secret@)),
                lattice@,
            ),
{
    let classical = x25519_dh(secret, peer_public);
    let mut input: Vec<u8> = Vec::new();
    append(&mut input, "UMBRA-HYBRID-KEM".as_bytes());
    append(&mut input, &classical);
    append(&mut input, lattice);
    let digest = sha256(input.as_slice());
    HybridSharedSecret { data: to_vec(&digest) }
}

/// A hybrid shared secret; its bytes are wiped when it is dropped.
pub struct HybridSharedSecret {
    data: Vec<u8>,
}

impl HybridSharedSecret {
    pub closed spec fn bytes(&self) -> Seq<u8> {
        self.data@
    }

    pub fn as_bytes(&self) -> (r: &[u8])
        ensures
            r@ == self.bytes(),
    {
        self.data.as_slice()
    }

    /// Overwrites the secret and empties it.
    pub fn wipe(&mut self)
        ensures
            final(self).bytes().len() == 0,
        opens_invariants none
        no_unwind
    {
        zeroize_bytes(&mut self.data);
    }
}

impl Drop for HybridSharedSecret {
    fn drop(&mut self)
        opens_invariants none
        no_unwind
    {
        self.wipe();
    }
}

/// A hybrid key-encapsulation key pair: X25519 together with Kyber768.
pub struct HybridKem {
    classical_secret: [u8; 32],
    classical_public: [u8; 32],
    pq_secret: Vec<u8>,
    pq_public: Vec<u8>,
}

impl HybridKem {
    pub closed spec fn wf(&self) -> bool {
        &&& self.classical_public@ == x25519_public(self.classical_secret@)
        &&& self.pq_secret@.len() == PQ_KEM_SECRET_LEN
        &&& self.pq_public@.len() == PQ_KEM_PUBLIC_LEN
    }

    pub closed spec fn classical_secret_bytes(&self) -> Seq<u8> {
        self.classical_secret@
    }

    pub closed spec fn classical_public_bytes(&self) -> Seq<u8> {
        self.classical_public@
    }

    pub closed spec fn pq_secret_bytes(&self) -> Seq<u8> {
        self.pq_secret@
    }

    pub closed spec fn pq_public_bytes(&self) -> Seq<u8> {
        self.pq_public@
    }

    /// A fresh key pair.
    pub fn generate() -> (r: Result<HybridKem, CryptoError>)
        ensures
            r matches Ok(k) && k.wf() && k.classical_public_bytes() == x25519_public(k.classical_secret_bytes())
                && k.pq_public_bytes().len() == PQ_KEM_PUBLIC_LEN && k.pq_secret_bytes().len()
                == PQ_KEM_SECRET_LEN,
    {
        Ok(HybridKem::fresh())
    }

    /// A fresh key pair (key generation cannot fail).
    pub fn fresh() -> (r: HybridKem)
        ensures
            r.wf(),
            r.classical_public_bytes() == x25519_public(r.classical_secret_bytes()),
            r.pq_public_bytes().len() == PQ_KEM_PUBLIC_LEN,
            r.pq_secret_bytes().len() == PQ_KEM_SECRET_LEN,
    {
        let classical_secret = x25519_random_secret();
        let classical_public = x25519_public_of(&classical_secret);
        let (pq_public, pq_secret) = kyber_keypair();
        HybridKem { classical_secret, classical_public, pq_secret, pq_public }
    }

    /// Our X25519 public key.
    pub fn classical_public_key(&self) -> (r: &[u8; 32])
        ensures
            r@ == self.classical_public_bytes(),
    {
        &self.classical_public
    }

    /// Our Kyber768 public key.
    pub fn pq_public_key(&self) -> (r: Result<Vec<u8>, CryptoError>)
        ensures
            r matches Ok(v) && v@ == self.pq_public_bytes(),
    {
        Ok(to_vec(self.pq_public.as_slice()))
    }

    /// Encapsulates to a peer's classical and lattice public keys; returns the
    /// lattice ciphertext and the hybrid secret.
    pub fn encapsulate(&self, peer_classical_pk: &[u8; 32], peer_pq_pk: &[u8]) -> (r: Result<
        (Vec<u8>, HybridSharedSecret),
        CryptoError,
    >)
        ensures
            r is Ok <==> peer_pq_pk@.len() == PQ_KEM_PUBLIC_LEN,
            r matches Err(e) ==> e == CryptoError::PostQuantum,
            r matches Ok(p) ==> p.0@.len() == PQ_CIPHERTEXT_LEN && p.1.bytes().len() == 32 && exists|lattice: Seq<u8>|
                lattice.len() == PQ_SHARED_LEN && p.1.bytes() == hybrid_combine(
                    x25519_shared(self.classical_secret_bytes(), peer_classical_pk@),
                    lattice,
                ),
    {
        match kyber_encapsulate(peer_pq_pk) {
            None => Err(CryptoError::PostQuantum),
            Some((lattice, ciphertext)) => {
                let secret = combine(&self.classical_secret, peer_classical_pk, lattice.as_slice());
                Ok((ciphertext, secret))
            },
        }
    }

    /// Recovers the hybrid secret from the peer's classical public key and the
    /// lattice ciphertext. It equals what the peer computed from its own secret
    /// and our public key with the lattice secret the ciphertext carries.
    pub fn decapsulate(&self, peer_classical_pk: &[u8; 32], pq_ciphertext: &[u8]) -> (r: Result<
        HybridSharedSecret,
        CryptoError,
    >)
        ensures
            r is Ok <==> (pq_ciphertext@.len() == PQ_CIPHERTEXT_LEN && self.pq_secret_bytes().len()
                == PQ_KEM_SECRET_LEN),
            r matches Err(e) ==> e == CryptoError::PostQuantum,
            r matches Ok(s) ==> s.bytes().len() == 32 && s.bytes() == hybrid_combine(
                x25519_shared(self.classical_secret_bytes(), peer_classical_pk@),
                kyber_decap(self.pq_secret_bytes(), pq_ciphertext@),
            ),
            self.wf() ==> forall|peer_secret: Seq<u8>|
                peer_secret.len() == 32 && peer_classical_pk@ == x25519_public(peer_secret) ==> (
                r matches Ok(s) ==> s.bytes() == hybrid_combine(
                    x25519_shared(peer_secret, self.classical_public_bytes()),
                    kyber_decap(self.pq_secret_bytes(), pq_ciphertext@),
                )),
    {
        match kyber_decapsulate(pq_ciphertext, self.pq_secret.as_slice()) {
            None => Err(CryptoError::PostQuantum),
            Some(lattice) => Ok(combine(&self.classical_secret, peer_classical_pk, lattice.as_slice())),
        }
    }
}

} // verus!
