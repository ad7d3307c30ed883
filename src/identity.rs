use vstd::prelude::*;
use vstd::utf8::encode_utf8;
use crate::error::IdentityError;
use crate::hash::{blake3_hash, blake3_of};
use ark_ff::{BigInteger, Field, PrimeField};
use ark_serialize::CanonicalDeserialize;
use ark_bn254::{Bn254, Fr};
use ark_groth16::{Groth16, Proof, VerifyingKey};
use ark_snark::SNARK;

verus! {

/// Order of the BN254 scalar field, from its four 64-bit limbs (most significant first:
/// 0x30644e72e131a029, 0xb85045b68181585d, 0x2833e84879b97091, 0x43e1f593f0000001).
pub open spec fn field_order() -> nat {
    let w: nat = 0x1_0000_0000_0000_0000;
    0x30644e72e131a029 * w * w * w + 0xb85045b68181585d * w * w + 0x2833e84879b97091 * w + 0x43e1f593f0000001
}

/// The integer that a byte string denotes, least significant byte first.
pub open spec fn le_value(b: Seq<u8>) -> nat
    decreases b.len(),
{
    if b.len() == 0 {
        0
    } else {
        (b[0] + 256 * le_value(b.drop_first())) as nat
    }
}

/// The identity commitment of a 32-byte secret: the secret read as a field
/// element (little-endian, reduced), raised to the fifth power.
pub open spec fn identity_value(secret: Seq<u8>) -> nat {
    field_power(secret, IDENTITY_EXPONENT as nat)
}

/// The exponent of the identity commitment: the id is the secret's fifth power.
pub const IDENTITY_EXPONENT: u64 = 5;

/// `x` to the power `e`.
pub open spec fn pow_nat(x: nat, e: nat) -> nat
    decreases e,
{
    if e == 0 {
        1
    } else {
        x * pow_nat(x, (e - 1) as nat)
    }
}

/// A 32-byte value read as a field element (little-endian, reduced), raised to the power `e`.
pub open spec fn field_power(bytes: Seq<u8>, e: nat) -> nat {
    pow_nat(le_value(bytes) % field_order(), e) % field_order()
}

/// The secret derived from a password: the BLAKE3 hash of its UTF-8 bytes.
pub open spec fn password_secret(password: Seq<char>) -> Seq<u8> {
    blake3_of(encode_utf8(password))
}

/// The outcome of Groth16 verification for the identity circuit under a
/// verifying key (both in canonical compressed encoding) with the id as public
/// input: whether it verifies, or none when key or proof does not decode or
/// verification errs.
pub uninterp spec fn groth16_outcome(verifying_key: Seq<u8>, proof: Seq<u8>, identity_id: Seq<u8>) -> Option<bool>;

/// Relies on ark_ff for the BN254 scalar field: from_le_bytes_mod_order reduces
/// the little-endian integer modulo the field order, Field::pow raises it to the
/// power `exponent`, and into_bigint().to_bytes_le() writes the canonical value
/// in 32 little-endian bytes.
#[verifier::external_body]
fn field_pow(value: &[u8; 32], exponent: u64) -> (r: [u8; 32])
    ensures
        le_value(r@) == field_power(value@, exponent as nat),
{
    let x = Fr::from_le_bytes_mod_order(value);
    let bytes = x.pow([exponent]).into_bigint().to_bytes_le();
    let mut out = [0u8; 32];
    out.copy_from_slice(&bytes);
    out
}

/// Relies on ark_groth16's Groth16 (ark_snark::SNARK::verify) with ark_serialize's
/// compressed decoding of the key and the proof; the id becomes the public input
/// through from_le_bytes_mod_order.
#[verifier::external_body]
fn groth16_verify(verifying_key: &[u8], proof: &[u8], identity_id: &[u8; 32]) -> (r: Result<bool, IdentityError>)
    ensures
        r is Ok <==> groth16_outcome(verifying_key@, proof@, identity_id@) is Some,
        r matches Ok(b) ==> groth16_outcome(verifying_key@, proof@, identity_id@) == Some(b),
{
    let vk = match VerifyingKey::<Bn254>::deserialize_compressed(verifying_key) {
        Ok(vk) => vk,
        Err(_) => return Err(IdentityError::Serialization),
    };
    let proof = match Proof::<Bn254>::deserialize_compressed(proof) {
        Ok(p) => p,
        Err(_) => return Err(IdentityError::Serialization),
    };
    let input = Fr::from_le_bytes_mod_order(identity_id);
    Groth16::<Bn254>::verify(&vk, &[input], &proof).map_err(|_| IdentityError::ProofVerification)
}

proof fn lemma_le_value_injective(a: Seq<u8>, b: Seq<u8>)
    requires
        a.len() == b.len(),
        le_value(a) == le_value(b),
    ensures
        a == b,
    decreases a.len(),
{
    if a.len() > 0 {
        assert(a[0] as int == le_value(a) % 256) by (nonlinear_arith)
            requires le_value(a) == a[0] + 256 * le_value(a.drop_first()), a[0] < 256;
        assert(b[0] as int == le_value(b) % 256) by (nonlinear_arith)
            requires le_value(b) == b[0] + 256 * le_value(b.drop_first()), b[0] < 256;
        assert(le_value(a.drop_first()) == le_value(b.drop_first())) by (nonlinear_arith)
            requires
                le_value(a) == a[0] + 256 * le_value(a.drop_first()),
                le_value(b) == b[0] + 256 * le_value(b.drop_first()),
                le_value(a) == le_value(b),
                a[0] == b[0];
        lemma_le_value_injective(a.drop_first(), b.drop_first());
        assert(a =~= seq![a[0]] + a.drop_first());
        assert(b =~= seq![b[0]] + b.drop_first());
    }
}

/// Determinism: two identities made from the same password have the same id.
pub proof fn lemma_same_password_same_id(password: Seq<char>, id1: Seq<u8>, id2: Seq<u8>)
    requires
        id1.len() == 32,
        id2.len() == 32,
        le_value(id1) == identity_value(password_secret(password)),
        le_value(id2) == identity_value(password_secret(password)),
    ensures
        id1 == id2,
{
    lemma_le_value_injective(id1, id2);
}

/// A pseudonymous identity: the public commitment and the password-derived secret.
#[derive(Clone)]
pub struct Identity {
    pub id: [u8; 32],
    secret: [u8; 32],
}

impl Identity {
    pub closed spec fn secret_bytes(&self) -> Seq<u8> {
        self.secret@
    }

    pub closed spec fn id_bytes(&self) -> Seq<u8> {
        self.id@
    }

    /// The identity of a password; an empty password is refused.
    pub fn create(password: &str) -> (r: Result<Identity, IdentityError>)
        ensures
            password@.len() == 0 ==> r == Err::<Identity, IdentityError>(IdentityError::InvalidPassword),
            password@.len() > 0 ==> (r matches Ok(i) && i.secret_bytes() == password_secret(password@)
                && le_value(i.id_bytes()) == identity_value(i.secret_bytes())),
    {
        if password.is_empty() {
            return Err(IdentityError::InvalidPassword);
        }
        let secret = blake3_hash(password.as_bytes());
        let id = field_pow(&secret, IDENTITY_EXPONENT);
        Ok(Identity { id, secret })
    }

    /// An identity known by its public id alone, as stored on disk (the secret is zero).
    pub fn from_id(id: [u8; 32]) -> (r: Identity)
        ensures
            r.id_bytes() == id@,
            r.secret_bytes() == crate::bytes::filled(0, 32),
    {
        let r = Identity { id, secret: [0u8; 32] };
        assert(r.secret@ =~= crate::bytes::filled(0, 32));
        r
    }

    /// The public commitment.
    pub fn public_id(&self) -> (r: [u8; 32])
        ensures
            r@ == self.id_bytes(),
    {
        self.id
    }

    pub fn secret(&self) -> (r: &[u8; 32])
        ensures
            r@ == self.secret_bytes(),
    {
        &self.secret
    }
}

/// The commitment of a 32-byte secret.
pub fn compute_identity_id(secret: &[u8; 32]) -> (r: [u8; 32])
    ensures
        le_value(r@) == identity_value(secret@),
{
    field_pow(secret, IDENTITY_EXPONENT)
}

/// Checks identity proofs against the verifying key of the identity circuit.
pub struct ProofVerifier {
    verifying_key: Vec<u8>,
}

impl ProofVerifier {
    pub closed spec fn key_bytes(&self) -> Seq<u8> {
        self.verifying_key@
    }

    /// A verifier for the given verifying key (canonical compressed encoding).
    pub fn from_bytes(verifying_key: Vec<u8>) -> (r: ProofVerifier)
        ensures
            r.key_bytes() == verifying_key@,
    {
        ProofVerifier { verifying_key }
    }

    /// Whether `proof` shows knowledge of a secret whose commitment is `identity_id`.
    pub fn verify(&self, proof: &[u8], identity_id: &[u8; 32]) -> (r: Result<bool, IdentityError>)
        ensures
            r is Ok <==> groth16_outcome(self.key_bytes(), proof@, identity_id@) is Some,
            r matches Ok(b) ==> groth16_outcome(self.key_bytes(), proof@, identity_id@) == Some(b),
    {
        groth16_verify(self.verifying_key.as_slice(), proof, identity_id)
    }
}

/// Checks an identity proof given as bytes.
pub fn verify_identity_proof(verifier: &ProofVerifier, proof: &[u8], identity_id: &[u8; 32]) -> (r: Result<bool, IdentityError>)
    ensures
        r is Ok <==> groth16_outcome(verifier.key_bytes(), proof@, identity_id@) is Some,
        r matches Ok(b) ==> groth16_outcome(verifier.key_bytes(), proof@, identity_id@) == Some(b),
{
    verifier.verify(proof, identity_id)
}

} // verus!
