use umbra::error::NetError;
use umbra::message::MessageExchange;
use umbra::peer::PeerId;

fn random_peer() -> PeerId {
    let mut bytes = vec![0u8, 36, 8, 1, 18, 32];
    bytes.extend_from_slice(&rand::random::<[u8; 32]>());
    PeerId::from_bytes(&bytes)
}

#[test]
fn test_message_roundtrip() {
    let shared_peer_id = random_peer();
    let mut alice = MessageExchange::new(shared_peer_id.clone()).unwrap();
    let mut bob = MessageExchange::new(shared_peer_id.clone()).unwrap();

    let peer_id = random_peer();

    let alice_pubkey = alice.session_manager().public_key();
    bob.session_manager_mut().register_peer(peer_id.clone(), alice_pubkey);

    let encrypted = alice.encrypt_message(&peer_id, "alice", "hello bob!").unwrap();

    let (username, content, identity) = bob.decrypt_message(&peer_id, &encrypted).unwrap();

    assert_eq!(username, "alice");
    assert_eq!(content, "hello bob!");
    assert_eq!(identity, None);
}

#[test]
fn test_wrong_key_fails() {
    let mut alice = MessageExchange::new(random_peer()).unwrap();
    let mut eve = MessageExchange::new(random_peer()).unwrap();

    let alice_peer = random_peer();
    let eve_peer = random_peer();

    let encrypted = alice.encrypt_message(&alice_peer, "alice", "secret message").unwrap();

    let result = eve.decrypt_message(&eve_peer, &encrypted);

    assert!(result.is_err());
}

#[test]
fn message_test_session_increment() {
    let mut exchange = MessageExchange::new(random_peer()).unwrap();
    let peer = random_peer();

    for _ in 0..3 {
        exchange.encrypt_message(&peer, "alice", "test").unwrap();
    }

    let session = exchange.session_manager_mut().get_session(&peer).unwrap();
    assert_eq!(session.msg_count(), 3);
}

#[test]
fn test_message_exchange_roundtrip() {
    let local = random_peer();
    let mut alice = MessageExchange::new(local.clone()).unwrap();
    let mut bob = MessageExchange::new(local.clone()).unwrap();

    let peer_id = random_peer();

    let alice_pubkey = alice.session_manager().public_key();
    let bob_pubkey = bob.session_manager().public_key();
    alice.session_manager_mut().register_peer(peer_id.clone(), bob_pubkey);
    bob.session_manager_mut().register_peer(peer_id.clone(), alice_pubkey);

    let encrypted = alice.encrypt_message(&peer_id, "alice", "Hello Bob!").unwrap();

    let (username, content, _) = bob.decrypt_message(&peer_id, &encrypted).unwrap();

    assert_eq!(username, "alice");
    assert_eq!(content, "Hello Bob!");
}

#[test]
fn test_message_exchange_wrong_peer() {
    let mut alice = MessageExchange::new(random_peer()).unwrap();
    let mut eve = MessageExchange::new(random_peer()).unwrap();

    let alice_peer = random_peer();
    let eve_peer = random_peer();

    let alice_pubkey = alice.session_manager().public_key();
    eve.session_manager_mut().register_peer(alice_peer.clone(), alice_pubkey);

    let encrypted = alice.encrypt_message(&alice_peer, "alice", "Secret message").unwrap();

    let result = eve.decrypt_message(&eve_peer, &encrypted);
    assert!(result.is_err(), "Should fail with wrong peer");
}

#[test]
fn test_message_exchange_multiple_messages() {
    let mut alice = MessageExchange::new(random_peer()).unwrap();
    let peer = random_peer();

    for i in 0..5 {
        alice.encrypt_message(&peer, "alice", &format!("Message {}", i)).unwrap();
    }

    assert_eq!(alice.session_count(), 1);
}

#[test]
fn test_signature_verification_success() {
    let local = random_peer();
    let mut alice = MessageExchange::new(local.clone()).unwrap();
    let mut bob = MessageExchange::new(local.clone()).unwrap();

    let alice_peer = random_peer();

    let alice_pubkey = alice.session_manager().public_key();
    bob.session_manager_mut().register_peer(alice_peer.clone(), alice_pubkey);

    let encrypted = alice.encrypt_message(&alice_peer, "alice", "signed message").unwrap();

    let result = bob.decrypt_message(&alice_peer, &encrypted);
    assert!(result.is_ok(), "Valid signature should verify");
}

#[test]
fn test_signature_verification_fails_wrong_key() {
    let local = random_peer();
    let mut alice = MessageExchange::new(local.clone()).unwrap();
    let mut bob = MessageExchange::new(local.clone()).unwrap();
    let eve = MessageExchange::new(random_peer()).unwrap();

    let alice_peer = random_peer();

    let eve_pubkey = eve.session_manager().public_key();
    bob.session_manager_mut().register_peer(alice_peer.clone(), eve_pubkey);

    let encrypted = alice.encrypt_message(&alice_peer, "alice", "signed message").unwrap();

    let result = bob.decrypt_message(&alice_peer, &encrypted);
    assert!(result.is_err(), "Wrong public key should fail verification");

    let err_msg = result.unwrap_err().describe().to_string();
    assert!(err_msg.contains("Signature") || err_msg.contains("signature"), "Error should mention signature: {}", err_msg);
}

#[test]
fn test_message_tampering_detected() {
    let local = random_peer();
    let mut alice = MessageExchange::new(local.clone()).unwrap();
    let mut bob = MessageExchange::new(local.clone()).unwrap();

    let peer_id = random_peer();

    let alice_pubkey = alice.session_manager().public_key();
    bob.session_manager_mut().register_peer(peer_id.clone(), alice_pubkey);

    let mut encrypted = alice.encrypt_message(&peer_id, "alice", "original message").unwrap();

    let len = encrypted.len();
    if len > 40 {
        encrypted[len / 2] ^= 0xFF;
    }

    let result = bob.decrypt_message(&peer_id, &encrypted);
    assert!(result.is_err(), "Tampered message should fail");
}

#[test]
fn tampered_ciphertext_fails_to_decrypt() {
    let local = random_peer();
    let mut alice = MessageExchange::new(local.clone()).unwrap();
    let mut bob = MessageExchange::new(local.clone()).unwrap();
    let peer = random_peer();
    let encrypted = alice.encrypt_message(&peer, "alice", "hello bob!").unwrap();
    let mut frame = umbra::wire::EncryptedMessage::decode(&encrypted).unwrap();
    let mid = frame.ciphertext.len() / 2;
    frame.ciphertext[mid] ^= 0x01;
    let result = bob.decrypt_message(&peer, &frame.encode_to_vec());
    assert_eq!(result.err().unwrap(), NetError::Decrypt);
}

#[test]
fn garbage_frame_is_protocol_error() {
    let mut bob = MessageExchange::new(random_peer()).unwrap();
    assert_eq!(bob.decrypt_message(&random_peer(), &[0xff, 0xff, 0xff]).err().unwrap(), NetError::Protocol);
}

#[test]
fn frame_carries_sender_and_signature() {
    let local = random_peer();
    let mut alice = MessageExchange::new(local.clone()).unwrap();
    let peer = random_peer();
    let encrypted = alice.encrypt_message_at(&peer, "alice", "hi", 1234, 5).unwrap();
    let frame = umbra::wire::EncryptedMessage::decode(&encrypted).unwrap();
    assert_eq!(frame.sender, local.to_bytes());
    assert_eq!(frame.timestamp, 1234);
    assert_eq!(frame.nonce.len(), 12);
    assert_eq!(frame.signature.len(), 64);
    assert!(!frame.pq_signature.is_empty());
    assert!(frame.identity_id.is_empty());
    assert!(frame.identity_proof.is_empty());
}
