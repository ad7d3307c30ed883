use vstd::prelude::*;
use crate::bytes::to_vec;
use crate::error::CryptoError;
use ed25519_dalek::{Signer, Verifier};
use pqcrypto_dilithium::dilithium3;
use pqcrypto_traits::sign::{
    DetachedSignature as PqDetachedSignature, PublicKey as PqPublicKey, SecretKey as PqSecretKey,
};

verus! {

/// Length of an Ed25519 signature.
pub const CLASSICAL_SIG_LEN: usize = 64;

/// Length of a Dilithium3 public key.
pub const PQ_SIGN_PUBLIC_LEN: usize = 1952;

/// Length of a Dilithium3 secret key.
pub const PQ_SIGN_SECRET_LEN: usize = 4032;

/// Largest length of a Dilithium3 detached signature.
pub const PQ_SIG_MAX_LEN: usize = 3309;

/// The Ed25519 verifying key derived from a 32-byte signing seed.
pub uninterp spec fn ed25519_public(seed: Seq<u8>) -> Seq<u8>;

/// The (deterministic) Ed25519 signature of a message under a signing seed.
pub uninterp spec fn ed25519_signature(seed: Seq<u8>, message: Seq<u8>) -> Seq<u8>;

/// Whether Ed25519 verification accepts a signature on a message under a verifying key.
pub uninterp spec fn ed25519_accepts(verify_key: Seq<u8>, message: Seq<u8>, signature: Seq<u8>) -> bool;

/// The (deterministic) Dilithium3 detached signature of a message under a secret key.
pub uninterp spec fn dilithium_signature(secret: Seq<u8>, message: Seq<u8>) -> Seq<u8>;

/// Whether Dilithium3 verification accepts a detached signature on a message.
pub uninterp spec fn dilithium_accepts(public: Seq<u8>, message: Seq<u8>, signature: Seq<u8>) -> bool;

/// Relies on rand::random: 32 bytes drawn from the thread-local generator.
#[verifier::external_body]
pub(crate) fn random_seed() -> (r: [u8; 32]) {
    rand::random()
}

/// Relies on ed25519_dalek::SigningKey::verifying_key: the public key of a seed.
#[verifier::external_body]
pub(crate) fn ed25519_public_of(seed: &[u8; 32]) -> (r: [u8; 32])
    ensures
        r@ == ed25519_public(seed@),
{
    ed25519_dalek::SigningKey::from_bytes(seed).verifying_key().to_bytes()
}

/// Relies on ed25519_dalek's Signer::sign: RFC 8032 signing, deterministic in seed and message.
#[verifier::external_body]
pub(crate) fn ed25519_sign(seed: &[u8; 32], message: &[u8]) -> (r: [u8; 64])
    ensures
        r@ == ed25519_signature(seed@, message@),
{
    ed25519_dalek::SigningKey::from_bytes(seed).sign(message).to_bytes()
}

/// Relies on ed25519_dalek::VerifyingKey::from_bytes and Verifier::verify: a key
/// that does not decode rejects; an honestly made signature is accepted.
#[verifier::external_body]
pub(crate) fn ed25519_verify(verify_key: &[u8; 32], message: &[u8], signature: &[u8; 64]) -> (r: bool)
    ensures
        r == ed25519_accepts(verify_key@, message@, signature@),
        forall|seed: Seq<u8>|
            seed.len() == 32 && verify_key@ == ed25519_public(seed) && signature@
                == ed25519_signature(seed, message@) ==> r,
{
    match ed25519_dalek::VerifyingKey::from_bytes(verify_key) {
        Ok(key) => key.verify(message, &ed25519_dalek::Signature::from_bytes(signature)).is_ok(),
        Err(_) => false,
    }
}

/// Relies on pqcrypto_dilithium::dilithium3::keypair: a fresh random key pair
/// (public key, secret key); Dilithium is correct, so the public key accepts
/// every signature its secret key makes.
#[verifier::external_body]
pub(crate) fn dilithium_keypair() -> (r: (Vec<u8>, Vec<u8>))
    ensures
        r.0@.len() == PQ_SIGN_PUBLIC_LEN,
        r.1@.len() == PQ_SIGN_SECRET_LEN,
        forall|m: Seq<u8>| #[trigger] dilithium_accepts(r.0@, m, dilithium_signature(r.1@, m)),
{
    let (pk, sk) = dilithium3::keypair();
    (pk.as_bytes().to_vec(), sk.as_bytes().to_vec())
}

/// Relies on pqcrypto_dilithium::dilithium3::detached_sign (PQClean signing with
/// zero randomness, so deterministic in key and message); the secret key is
/// rebuilt by SecretKey::from_bytes, which refuses any other length.
#[verifier::external_body]
pub(crate) fn dilithium_sign(message: &[u8], secret: &[u8]) -> (r: Option<Vec<u8>>)
    ensures
        r is Some <==> secret@.len() == PQ_SIGN_SECRET_LEN,
        r matches Some(s) ==> s@.len() <= PQ_SIG_MAX_LEN && s@ == dilithium_signature(secret@, message@),
{
    match dilithium3::SecretKey::from_bytes(secret) {
        Ok(sk) => Some(dilithium3::detached_sign(message, &sk).as_bytes().to_vec()),
        Err(_) => None,
    }
}

/// Relies on pqcrypto_dilithium::dilithium3::verify_detached_signature; key and
/// signature are rebuilt by from_bytes, which refuses a key of another length
/// and a signature longer than the maximum.
#[verifier::external_body]
pub(crate) fn dilithium_verify(signature: &[u8], message: &[u8], public: &[u8]) -> (r: Option<bool>)
    ensures
        r is None <==> (public@.len() != PQ_SIGN_PUBLIC_LEN || signature@.len() > PQ_SIG_MAX_LEN),
        r matches Some(ok) ==> ok == dilithium_accepts(public@, message@, signature@),
{
    let pk = match dilithium3::PublicKey::from_bytes(public) {
        Ok(pk) => pk,
        Err(_) => return None,
    };
    match dilithium3::DetachedSignature::from_bytes(signature) {
        Ok(sig) => Some(dilithium3::verify_detached_signature(&sig, message, &pk).is_ok()),
        Err(_) => None,
    }
}

/// A two-part signature: Ed25519 always, Dilithium3 when the lattice half is present.
#[derive(Clone, Debug)]
pub struct HybridSignature {
    pub classical: Vec<u8>,
    pub pq: Option<Vec<u8>>,
}

/// A peer's public verifying keys: Ed25519, and Dilithium3 when known (empty otherwise).
#[derive(Clone, Debug)]
pub struct HybridPublicKey {
    pub classical: [u8; 32],
    pub lattice: Vec<u8>,
}

impl HybridPublicKey {
    /// A key with the classical half alone.
    pub fn classical_only(classical: [u8; 32]) -> (r: HybridPublicKey)
        ensures
            r.classical == classical,
            r.lattice@.len() == 0,
    {
        HybridPublicKey { classical, lattice: Vec::new() }
    }
}

/// What verifying `sig` on `message` against a classical key and a lattice key yields.
pub open spec fn hybrid_verify_outcome(
    classical_key: Seq<u8>,
    pq_public: Seq<u8>,
    message: Seq<u8>,
    sig: HybridSignature,
) -> Result<(), CryptoError> {
    if sig.classical@.len() != CLASSICAL_SIG_LEN || !ed25519_accepts(classical_key, message, sig.classical@) {
        Err(CryptoError::SignatureVerification)
    } else {
        match sig.pq {
            None => Ok(()),
            Some(p) => if pq_public.len() != PQ_SIGN_PUBLIC_LEN || p@.len() > PQ_SIG_MAX_LEN {
                Err(CryptoError::PostQuantum)
            } else if dilithium_accepts(pq_public, message, p@) {
                Ok(())
            } else {
                Err(CryptoError::SignatureVerification)
            },
        }
    }
}

/// Long-term hybrid signing identity: an Ed25519 key and a Dilithium3 key.
pub struct IdentityKey {
    classical_signing: [u8; 32],
    classical_verifying: [u8; 32],
    pq_secret: Vec<u8>,
    pq_public: Vec<u8>,
}

impl IdentityKey {
    /// The key is well formed: the verifying key belongs to the seed and the
    /// lattice keys have their lengths.
    pub closed spec fn wf(&self) -> bool {
        &&& self.classical_verifying@ == ed25519_public(self.classical_signing@)
        &&& self.pq_secret@.len() == PQ_SIGN_SECRET_LEN
        &&& self.pq_public@.len() == PQ_SIGN_PUBLIC_LEN
        &&& forall|m: Seq<u8>| #[trigger] dilithium_accepts(self.pq_public@, m, dilithium_signature(self.pq_secret@, m))
    }

    pub closed spec fn seed(&self) -> Seq<u8> {
        self.classical_signing@
    }

    pub closed spec fn public_bytes(&self) -> Seq<u8> {
        self.classical_verifying@
    }

    pub closed spec fn pq_public_bytes(&self) -> Seq<u8> {
        self.pq_public@
    }

    /// Generates a fresh identity from random material.
    pub fn generate() -> (r: Result<IdentityKey, CryptoError>)
        ensures
            r matches Ok(k) && k.wf() && k.public_bytes() == ed25519_public(k.seed()),
    {
        let seed = random_seed();
        IdentityKey::from_seed(seed)
    }

    /// Builds the identity whose Ed25519 key is the given seed, with a fresh lattice key.
    pub fn from_seed(seed: [u8; 32]) -> (r: Result<IdentityKey, CryptoError>)
        ensures
            r matches Ok(k) && k.wf() && k.seed() == seed@ && k.public_bytes() == ed25519_public(seed@),
    {
        let classical_verifying = ed25519_public_of(&seed);
        let (pq_public, pq_secret) = dilithium_keypair();
        Ok(IdentityKey { classical_signing: seed, classical_verifying, pq_secret, pq_public })
    }

    /// The Ed25519 verifying key.
    pub fn verifying_key(&self) -> (r: &[u8; 32])
        ensures
            r@ == self.public_bytes(),
    {
        &self.classical_verifying
    }

    /// The Dilithium3 public key.
    pub fn pq_verifying_key(&self) -> (r: Vec<u8>)
        ensures
            r@ == self.pq_public_bytes(),
    {
        to_vec(self.pq_public.as_slice())
    }

    /// Both public keys.
    pub fn public(&self) -> (r: HybridPublicKey)
        ensures
            r.classical@ == self.public_bytes(),
            r.lattice@ == self.pq_public_bytes(),
    {
        HybridPublicKey { classical: self.classical_verifying, lattice: to_vec(self.pq_public.as_slice()) }
    }

    /// Signs `message` with both keys.
    pub fn sign(&self, message: &[u8]) -> (r: Result<HybridSignature, CryptoError>)
        requires
            self.wf(),
        ensures
            r matches Ok(s) && s.classical@ == ed25519_signature(self.seed(), message@)
                && s.classical@.len() == CLASSICAL_SIG_LEN && (s.pq matches Some(p) && p@.len() <= PQ_SIG_MAX_LEN
                && dilithium_accepts(self.pq_public_bytes(), message@, p@)),
            self.seed().len() == 32,
            self.public_bytes() == ed25519_public(self.seed()),
            self.pq_public_bytes().len() == PQ_SIGN_PUBLIC_LEN,
    {
        let classical = ed25519_sign(&self.classical_signing, message);
        match dilithium_sign(message, self.pq_secret.as_slice()) {
            Some(pq) => Ok(HybridSignature { classical: to_vec(&classical), pq: Some(pq) }),
            None => Err(CryptoError::PostQuantum),
        }
    }

    /// Verifies a hybrid signature on `message` against this identity: the
    /// classical half always, the lattice half when present.
    pub fn verify(&self, message: &[u8], signature: &HybridSignature) -> (r: Result<(), CryptoError>)
        ensures
            r == hybrid_verify_outcome(self.public_bytes(), self.pq_public_bytes(), message@, *signature),
            self.wf() && signature.classical@.len() == CLASSICAL_SIG_LEN && signature.classical@
                == ed25519_signature(self.seed(), message@) && (signature.pq is None || (
            signature.pq matches Some(p) && p@.len() <= PQ_SIG_MAX_LEN && dilithium_accepts(
                self.pq_public_bytes(),
                message@,
                p@,
            ))) ==> r is Ok,
    {
        verify_hybrid(&self.classical_verifying, self.pq_public.as_slice(), message, signature)
    }
}

/// Verifies a hybrid signature against a classical verifying key and a lattice public key.
pub fn verify_hybrid(
    classical_key: &[u8; 32],
    pq_public: &[u8],
    message: &[u8],
    signature: &HybridSignature,
) -> (r: Result<(), CryptoError>)
    ensures
        r == hybrid_verify_outcome(classical_key@, pq_public@, message@, *signature),
        forall|seed: Seq<u8>|
            seed.len() == 32 && classical_key@ == ed25519_public(seed) && signature.classical@.len()
                == CLASSICAL_SIG_LEN && signature.classical@ == ed25519_signature(seed, message@) && (
            signature.pq is None || (signature.pq matches Some(p) && pq_public@.len() == PQ_SIGN_PUBLIC_LEN
                && p@.len() <= PQ_SIG_MAX_LEN && dilithium_accepts(pq_public@, message@, p@))) ==> r is Ok,
{
    if signature.classical.len() != CLASSICAL_SIG_LEN {
        return Err(CryptoError::SignatureVerification);
    }
    let sig = crate::bytes::to_array64(signature.classical.as_slice());
    if !ed25519_verify(classical_key, message, &sig) {
        return Err(CryptoError::SignatureVerification);
    }
    match &signature.pq {
        None => Ok(()),
        Some(p) => match dilithium_verify(p.as_slice(), message, pq_public) {
            None => Err(CryptoError::PostQuantum),
            Some(true) => Ok(()),
            Some(false) => Err(CryptoError::SignatureVerification),
        },
    }
}

} // verus!
