use chacha20poly1305::aead::{KeyInit, OsRng};
use chacha20poly1305::ChaCha20Poly1305;
use umbra::aead::{ChatCrypto, Envelope};
use umbra::error::CryptoError;
use umbra::kem::HybridKem;
use umbra::signing::IdentityKey;

#[test]
fn test_envelope_encrypt_decrypt() {
    let key = ChaCha20Poly1305::generate_key(&mut OsRng);
    let envelope = Envelope::new(&key).unwrap();

    let plaintext = b"secret message";
    let encrypted = envelope.encrypt(plaintext).unwrap();
    let decrypted = envelope.decrypt(&encrypted).unwrap();

    assert_eq!(decrypted.as_bytes(), plaintext);
}

#[test]
fn test_envelope_wrong_key() {
    let key1 = ChaCha20Poly1305::generate_key(&mut OsRng);
    let key2 = ChaCha20Poly1305::generate_key(&mut OsRng);

    let envelope1 = Envelope::new(&key1).unwrap();
    let envelope2 = Envelope::new(&key2).unwrap();

    let plaintext = b"secret message";
    let encrypted = envelope1.encrypt(plaintext).unwrap();

    assert!(envelope2.decrypt(&encrypted).is_err());
}

#[test]
fn test_encrypt_decrypt() {
    let crypto = ChatCrypto::new();
    let message = b"Hello, UMBRA!";

    let encrypted = crypto.encrypt(message);
    let decrypted = crypto.decrypt(&encrypted).unwrap();

    assert_eq!(decrypted, message);
}

#[test]
fn test_from_key_shared_encryption() {
    let key = [42u8; 32];
    let crypto1 = ChatCrypto::from_key(&key);
    let crypto2 = ChatCrypto::from_key(&key);

    let message = b"Shared key test";
    let encrypted = crypto1.encrypt(message);
    let decrypted = crypto2.decrypt(&encrypted).unwrap();

    assert_eq!(decrypted, message);
}

#[test]
fn envelope_rejects_key_of_wrong_length() {
    let err = Envelope::new(&[1u8; 31]).err().unwrap();
    assert_eq!(err, CryptoError::InvalidKeyLength { expected: 32, got: 31 });
}

#[test]
fn envelope_rejects_short_input() {
    let envelope = Envelope::new(&[7u8; 32]).unwrap();
    assert_eq!(envelope.decrypt(&[0u8; 11]).err().unwrap(), CryptoError::Decryption);
}

#[test]
fn envelope_output_has_nonce_and_tag() {
    let envelope = Envelope::new(&[7u8; 32]).unwrap();
    let sealed = envelope.encrypt(b"abc").unwrap();
    assert_eq!(sealed.len(), 12 + 3 + 16);
    assert_ne!(&sealed[12..15], b"abc");
}

#[test]
fn aead_roundtrip_fixed_key() {
    let envelope = Envelope::new(&[0x2Au8; 32]).unwrap();
    let sealed = envelope.encrypt(b"Hello, UMBRA!").unwrap();
    assert_eq!(envelope.decrypt(&sealed).unwrap().to_vec(), b"Hello, UMBRA!".to_vec());
}

#[test]
fn aead_empty_plaintext_roundtrip() {
    let envelope = Envelope::new(&[3u8; 32]).unwrap();
    let sealed = envelope.encrypt(b"").unwrap();
    assert_eq!(sealed.len(), 28);
    assert_eq!(envelope.decrypt(&sealed).unwrap().len(), 0);
}

#[test]
fn aead_distinct_keys_fail() {
    let sealed = Envelope::new(&[1u8; 32]).unwrap().encrypt(b"payload").unwrap();
    assert_eq!(Envelope::new(&[2u8; 32]).unwrap().decrypt(&sealed).err().unwrap(), CryptoError::Decryption);
}

#[test]
fn test_identity_key_generation() {
    let key = IdentityKey::generate().unwrap();
    assert!(key.verifying_key().len() == 32);
}

#[test]
fn test_sign_verify() {
    let key = IdentityKey::generate().unwrap();
    let message = b"test message";
    let signature = key.sign(message).unwrap();
    assert!(key.verify(message, &signature).is_ok());
}

#[test]
fn test_verify_fails_wrong_message() {
    let key = IdentityKey::generate().unwrap();
    let message = b"test message";
    let signature = key.sign(message).unwrap();
    assert!(key.verify(b"wrong message", &signature).is_err());
}

#[test]
fn signature_bit_flips_fail() {
    let key = IdentityKey::generate().unwrap();
    let message = b"bound message".to_vec();
    let signature = key.sign(&message).unwrap();
    assert!(key.verify(&message, &signature).is_ok());

    let mut flipped = message.clone();
    flipped[0] ^= 1;
    assert_eq!(key.verify(&flipped, &signature), Err(CryptoError::SignatureVerification));

    let mut classical = signature.clone();
    classical.classical[10] ^= 0x80;
    assert_eq!(key.verify(&message, &classical), Err(CryptoError::SignatureVerification));

    let mut lattice = signature.clone();
    lattice.pq.as_mut().unwrap()[5] ^= 1;
    assert_eq!(key.verify(&message, &lattice), Err(CryptoError::SignatureVerification));
}

#[test]
fn classical_only_signature_verifies() {
    let key = IdentityKey::generate().unwrap();
    let mut signature = key.sign(b"m").unwrap();
    signature.pq = None;
    assert!(key.verify(b"m", &signature).is_ok());
    signature.classical.truncate(63);
    assert_eq!(key.verify(b"m", &signature), Err(CryptoError::SignatureVerification));
}

#[test]
fn test_hybrid_kem_generation() {
    let kem = HybridKem::generate().unwrap();
    assert!(kem.classical_public_key().len() == 32);
}

#[test]
fn test_pq_public_key() {
    let kem = HybridKem::generate().unwrap();
    let pq_pk = kem.pq_public_key().unwrap();
    assert!(pq_pk.len() > 0);
}

#[test]
fn test_hybrid_kem_encap_decap() {
    let alice = HybridKem::generate().unwrap();
    let bob = HybridKem::generate().unwrap();

    let bob_pq_pk = bob.pq_public_key().unwrap();

    let (ciphertext, alice_shared) = alice.encapsulate(bob.classical_public_key(), &bob_pq_pk).unwrap();

    let bob_shared = bob.decapsulate(alice.classical_public_key(), &ciphertext).unwrap();

    assert_eq!(alice_shared.as_bytes(), bob_shared.as_bytes());
    assert_eq!(alice_shared.as_bytes().len(), 32);
}

#[test]
fn kem_rejects_malformed_lattice_material() {
    let alice = HybridKem::generate().unwrap();
    let bob = HybridKem::generate().unwrap();
    assert_eq!(alice.encapsulate(bob.classical_public_key(), &[0u8; 10]).err().unwrap(), CryptoError::PostQuantum);
    assert_eq!(bob.decapsulate(alice.classical_public_key(), &[0u8; 10]).err().unwrap(), CryptoError::PostQuantum);
}

#[test]
fn shared_secret_wipe_empties() {
    let alice = HybridKem::generate().unwrap();
    let bob = HybridKem::generate().unwrap();
    let (_, mut shared) = alice.encapsulate(bob.classical_public_key(), &bob.pq_public_key().unwrap()).unwrap();
    assert_eq!(shared.as_bytes().len(), 32);
    shared.wipe();
    assert!(shared.as_bytes().is_empty());
}

#[test]
fn lattice_public_key_has_its_length() {
    let key = IdentityKey::generate().unwrap();
    assert_eq!(key.pq_verifying_key().len(), 1952);
    assert_eq!(key.public().lattice, key.pq_verifying_key());
}

#[test]
fn decrypted_plaintext_wipes() {
    let envelope = Envelope::new(&[5u8; 32]).unwrap();
    let mut plain = envelope.decrypt(&envelope.encrypt(b"wipe me").unwrap()).unwrap();
    assert_eq!(plain.as_bytes(), b"wipe me");
    plain.wipe();
    assert_eq!(plain.len(), 0);
}
