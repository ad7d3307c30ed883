use ark_bn254::{Bn254, Fr};
use ark_ff::{Field, PrimeField};
use ark_r1cs_std::fields::fp::FpVar;
use ark_r1cs_std::alloc::AllocVar;
use ark_r1cs_std::eq::EqGadget;
use ark_relations::r1cs::{ConstraintSynthesizer, ConstraintSystemRef, SynthesisError};
use ark_serialize::CanonicalSerialize;
use ark_snark::SNARK;
use ark_std::rand::rngs::StdRng;
use ark_std::rand::SeedableRng;
use umbra::identity::{verify_identity_proof, Identity, ProofVerifier};

struct FifthPowerCircuit {
    secret: Option<Fr>,
    identity_id: Option<Fr>,
}

impl ConstraintSynthesizer<Fr> for FifthPowerCircuit {
    fn generate_constraints(self, cs: ConstraintSystemRef<Fr>) -> Result<(), SynthesisError> {
        let s = FpVar::new_witness(cs.clone(), || self.secret.ok_or(SynthesisError::AssignmentMissing))?;
        let id = FpVar::new_input(cs.clone(), || self.identity_id.ok_or(SynthesisError::AssignmentMissing))?;
        let t = &s * &s;
        let t = &t * &t;
        let t = &t * &s;
        t.enforce_equal(&id)?;
        Ok(())
    }
}

fn keys_and_proof(secret: &[u8; 32]) -> (Vec<u8>, Vec<u8>) {
    let mut rng = StdRng::seed_from_u64(0);
    let (pk, vk) = ark_groth16::Groth16::<Bn254>::circuit_specific_setup(
        FifthPowerCircuit { secret: None, identity_id: None },
        &mut rng,
    )
    .unwrap();
    let s = Fr::from_le_bytes_mod_order(secret);
    let circuit = FifthPowerCircuit { secret: Some(s), identity_id: Some(s.pow([5u64])) };
    let mut rng = StdRng::seed_from_u64(1);
    let proof = ark_groth16::Groth16::<Bn254>::prove(&pk, circuit, &mut rng).unwrap();
    let mut vk_bytes = Vec::new();
    vk.serialize_compressed(&mut vk_bytes).unwrap();
    let mut proof_bytes = Vec::new();
    proof.serialize_compressed(&mut proof_bytes).unwrap();
    (vk_bytes, proof_bytes)
}

#[test]
fn identity_proof_roundtrip() {
    let identity = Identity::create("password123").unwrap();
    let (vk, proof) = keys_and_proof(identity.secret());
    let verifier = ProofVerifier::from_bytes(vk);
    assert!(verify_identity_proof(&verifier, &proof, &identity.id).unwrap());
    assert!(!verify_identity_proof(&verifier, &proof, &[0x99u8; 32]).unwrap());
}

#[test]
fn identity_proof_bound_to_id() {
    let secret = [42u8; 32];
    let id = umbra::identity::compute_identity_id(&secret);
    let (vk, proof) = keys_and_proof(&secret);
    let verifier = ProofVerifier::from_bytes(vk);
    assert!(verifier.verify(&proof, &id).unwrap());
    assert!(!verifier.verify(&proof, &[99u8; 32]).unwrap());
}

#[test]
fn malformed_proof_is_serialization_error() {
    let (vk, _) = keys_and_proof(&[1u8; 32]);
    let verifier = ProofVerifier::from_bytes(vk);
    assert_eq!(verifier.verify(&[1, 2, 3], &[0u8; 32]), Err(umbra::error::IdentityError::Serialization));
}

#[test]
fn message_carries_verified_identity() {
    let local = umbra::peer::PeerId::from_bytes(&[7u8; 38]);
    let peer = umbra::peer::PeerId::from_bytes(&[8u8; 38]);
    let identity = Identity::create("password123").unwrap();
    let (vk, proof) = keys_and_proof(identity.secret());
    let mut alice = umbra::message::MessageExchange::new(local.clone()).unwrap();
    let mut bob = umbra::message::MessageExchange::new(local.clone()).unwrap();
    alice.set_identity(identity.clone(), proof, ProofVerifier::from_bytes(vk.clone()));
    let bob_identity = Identity::create("other").unwrap();
    bob.set_identity(bob_identity, Vec::new(), ProofVerifier::from_bytes(vk));
    let frame = alice.encrypt_message(&peer, "alice", "hello").unwrap();
    let (u, c, verified) = bob.decrypt_message(&peer, &frame).unwrap();
    assert_eq!(u, "alice");
    assert_eq!(c, "hello");
    assert_eq!(verified, Some(identity.id));
}

#[test]
fn unverifiable_proof_is_not_attached() {
    let local = umbra::peer::PeerId::from_bytes(&[7u8; 38]);
    let peer = umbra::peer::PeerId::from_bytes(&[8u8; 38]);
    let identity = Identity::create("password123").unwrap();
    let (vk, proof) = keys_and_proof(&[1u8; 32]);
    let mut alice = umbra::message::MessageExchange::new(local.clone()).unwrap();
    alice.set_identity(identity.clone(), proof, ProofVerifier::from_bytes(vk));
    let frame = alice.encrypt_message(&peer, "alice", "hello").unwrap();
    let decoded = umbra::wire::EncryptedMessage::decode(&frame).unwrap();
    assert!(decoded.identity_id.is_empty());
    assert!(decoded.identity_proof.is_empty());
    let (vk2, good) = keys_and_proof(identity.secret());
    let mut carol = umbra::message::MessageExchange::new(local.clone()).unwrap();
    carol.set_identity(identity.clone(), Vec::new(), ProofVerifier::from_bytes(vk2));
    let frame = carol.encrypt_message_with_proof(&peer, "carol", "hi", &good).unwrap();
    let decoded = umbra::wire::EncryptedMessage::decode(&frame).unwrap();
    assert_eq!(decoded.identity_id, identity.id.to_vec());
    assert_eq!(decoded.identity_proof, good);
}
