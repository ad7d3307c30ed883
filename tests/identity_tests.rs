use ark_ff::{Field, PrimeField};
use umbra::error::IdentityError;
use umbra::identity::{compute_identity_id, Identity};
use umbra::stubs::{Circuit, GroupState};

#[test]
fn same_password_same_identity() {
    let id1 = Identity::create("password123").unwrap();
    let id2 = Identity::create("password123").unwrap();
    assert_eq!(id1.id, id2.id);
}

#[test]
fn different_password_different_identity() {
    let id1 = Identity::create("password123").unwrap();
    let id2 = Identity::create("password456").unwrap();
    assert_ne!(id1.id, id2.id);
}

#[test]
fn empty_password_fails() {
    assert!(Identity::create("").is_err());
    assert_eq!(Identity::create("").err().unwrap(), IdentityError::InvalidPassword);
}

#[test]
fn test_different_secrets_different_proofs() {
    let id1 = compute_identity_id(&[1u8; 32]);
    let id2 = compute_identity_id(&[2u8; 32]);
    assert_ne!(id1, id2);
}

#[test]
fn identity_is_fifth_power_of_secret() {
    let identity = Identity::create("password123").unwrap();
    assert_eq!(*identity.secret(), *blake3::hash(b"password123").as_bytes());
    let s = ark_bn254::Fr::from_le_bytes_mod_order(identity.secret());
    let id = ark_bn254::Fr::from_le_bytes_mod_order(&identity.id);
    assert_eq!(s.pow([5u64]), id);
}

#[test]
fn small_secret_fifth_power() {
    let mut secret = [0u8; 32];
    secret[0] = 3;
    let mut expected = [0u8; 32];
    expected[0] = 243;
    assert_eq!(compute_identity_id(&secret), expected);
}

#[test]
fn stored_identity_has_no_secret() {
    let identity = Identity::from_id([5u8; 32]);
    assert_eq!(identity.id, [5u8; 32]);
    assert_eq!(*identity.secret(), [0u8; 32]);
}

#[test]
fn stubs_start_empty() {
    assert_eq!(GroupState::new().epoch, 0);
    assert!(Circuit::new().hops.is_empty());
}
