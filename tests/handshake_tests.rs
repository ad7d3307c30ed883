use umbra::behaviour::{HandshakeBehaviour, HandshakeOutbound, PeerState};
use umbra::error::CryptoError;
use umbra::handshake::Handshake;
use umbra::handshake_message;
use umbra::peer::PeerId;
use umbra::wire::{HandshakeInit, HandshakeMessage, HandshakeResp};

fn random_peer() -> PeerId {
    let mut bytes = vec![0u8, 36, 8, 1, 18, 32];
    bytes.extend_from_slice(&rand::random::<[u8; 32]>());
    PeerId::from_bytes(&bytes)
}

fn gen_keypair() -> [u8; 32] {
    rand::random()
}

fn verify_key_of(seed: [u8; 32]) -> Vec<u8> {
    Handshake::new(seed).verify_key().to_vec()
}

#[test]
fn test_signature_verification_fails() {
    let alice_id = gen_keypair();
    let wrong_pk = verify_key_of(gen_keypair());

    let alice_peer = random_peer();
    let bob_peer = random_peer();

    let alice_hs = Handshake::new(alice_id);
    let mut init = alice_hs.initiate(&alice_peer).unwrap();
    init.verify_key = wrong_pk;

    let bob_hs = Handshake::new(gen_keypair());
    let result = bob_hs.respond(&bob_peer, &init);

    assert!(result.is_err());
}

#[test]
fn test_serialization() {
    let alice_id = gen_keypair();
    let alice_peer = random_peer();

    let hs = Handshake::new(alice_id);
    let init = hs.initiate(&alice_peer).unwrap();

    let bytes = init.encode_to_vec();
    let decoded = HandshakeInit::decode(&bytes).unwrap();

    assert_eq!(init.peer_id, decoded.peer_id);
    assert_eq!(init.x25519_pk, decoded.x25519_pk);
    assert_eq!(init.signature, decoded.signature);
}

#[test]
fn test_handshake_init_structure() {
    let alice_id = gen_keypair();
    let alice_peer = random_peer();

    let hs = Handshake::new(alice_id);
    let init = hs.initiate(&alice_peer).unwrap();

    assert!(init.peer_id.len() > 30 && init.peer_id.len() < 50);
    assert_eq!(init.x25519_pk.len(), 32);
    assert_eq!(init.signature.len(), 64);
}

#[test]
fn test_handshake_response_structure() {
    let alice_id = gen_keypair();
    let bob_id = gen_keypair();

    let alice_peer = random_peer();
    let bob_peer = random_peer();

    let alice_hs = Handshake::new(alice_id);
    let init = alice_hs.initiate(&alice_peer).unwrap();

    let bob_hs = Handshake::new(bob_id);
    let (resp, _) = bob_hs.respond(&bob_peer, &init).unwrap();

    assert!(resp.peer_id.len() > 30 && resp.peer_id.len() < 50);
    assert_eq!(resp.x25519_pk.len(), 32);
    assert_eq!(resp.signature.len(), 64);
}

#[test]
fn test_handshake_response_serialization() {
    let alice_id = gen_keypair();
    let bob_id = gen_keypair();

    let alice_peer = random_peer();
    let bob_peer = random_peer();

    let alice_hs = Handshake::new(alice_id);
    let init = alice_hs.initiate(&alice_peer).unwrap();

    let bob_hs = Handshake::new(bob_id);
    let (resp, _) = bob_hs.respond(&bob_peer, &init).unwrap();

    let bytes = resp.encode_to_vec();
    let decoded = HandshakeResp::decode(&bytes).unwrap();

    assert_eq!(resp.peer_id, decoded.peer_id);
    assert_eq!(resp.x25519_pk, decoded.x25519_pk);
    assert_eq!(resp.signature, decoded.signature);
}

#[test]
fn test_key_derivation_consistency() {
    let alice_id = gen_keypair();
    let bob_id = gen_keypair();

    let alice_peer = random_peer();
    let bob_peer = random_peer();

    for _ in 0..2 {
        let alice_hs = Handshake::new(alice_id);
        let init = alice_hs.initiate(&alice_peer).unwrap();

        let bob_hs = Handshake::new(bob_id);
        let (_resp, bob_key) = bob_hs.respond(&bob_peer, &init).unwrap();

        assert_eq!(bob_key.len(), 32);
        assert!(bob_key.iter().any(|&b| b != 0));
    }
}

#[test]
fn test_invalid_signature_in_response() {
    let alice_id = gen_keypair();
    let bob_id = gen_keypair();
    let wrong_pk = verify_key_of(gen_keypair());

    let alice_peer = random_peer();
    let bob_peer = random_peer();

    let alice_hs = Handshake::new(alice_id);
    let init = alice_hs.initiate(&alice_peer).unwrap();

    let bob_hs = Handshake::new(bob_id);
    let (mut resp, _) = bob_hs.respond(&bob_peer, &init).unwrap();
    resp.verify_key = wrong_pk;

    let result = alice_hs.complete(&resp);

    assert!(result.is_err());
}

#[test]
fn test_handshake_cloning() {
    let alice_id = gen_keypair();
    let alice_peer = random_peer();

    let hs = Handshake::new(alice_id);
    let init1 = hs.initiate(&alice_peer).unwrap();

    let init2 = init1.clone();
    assert_eq!(init1.peer_id, init2.peer_id);
    assert_eq!(init1.x25519_pk, init2.x25519_pk);
    assert_eq!(init1.signature, init2.signature);
}

#[test]
fn test_handshake_full_flow() {
    let alice_hs = Handshake::new(gen_keypair());
    let bob_hs = Handshake::new(gen_keypair());
    let alice_peer = random_peer();
    let bob_peer = random_peer();

    let init = alice_hs.initiate(&alice_peer).unwrap();
    let (resp, bob_key) = bob_hs.respond(&bob_peer, &init).unwrap();
    let alice_key = alice_hs.complete(&resp).unwrap();

    assert_eq!(alice_key, bob_key);
    assert!(alice_key.iter().any(|&b| b != 0));
}

#[test]
fn handshake_test_different_peers_different_keys() {
    let alice_id = gen_keypair();
    let bob_id = gen_keypair();
    let alice_peer = random_peer();
    let bob_peer = random_peer();

    let init1 = Handshake::new(alice_id).initiate(&alice_peer).unwrap();
    let (_, key1) = Handshake::new(bob_id).respond(&bob_peer, &init1).unwrap();

    let init2 = Handshake::new(alice_id).initiate(&alice_peer).unwrap();
    let (_, key2) = Handshake::new(bob_id).respond(&bob_peer, &init2).unwrap();

    assert_ne!(key1, key2);
}

#[test]
fn tampered_init_is_rejected() {
    let alice_hs = Handshake::new(gen_keypair());
    let bob_hs = Handshake::new(gen_keypair());
    let mut init = alice_hs.initiate(&random_peer()).unwrap();
    init.x25519_pk[0] ^= 1;
    assert_eq!(bob_hs.respond(&random_peer(), &init).err().unwrap(), CryptoError::SignatureVerification);
}

#[test]
fn transcript_fields_are_bound() {
    let alice_hs = Handshake::new(gen_keypair());
    let bob_hs = Handshake::new(gen_keypair());
    let init = alice_hs.initiate(&random_peer()).unwrap();

    let mut a = init.clone();
    a.peer_id[3] ^= 0x10;
    assert_eq!(bob_hs.respond(&random_peer(), &a).err().unwrap(), CryptoError::SignatureVerification);

    let mut b = init.clone();
    b.pq_pk[100] ^= 0x01;
    assert_eq!(bob_hs.respond(&random_peer(), &b).err().unwrap(), CryptoError::SignatureVerification);

    let (resp, _) = bob_hs.respond(&random_peer(), &init).unwrap();
    let mut c = resp.clone();
    c.pq_ct[7] ^= 0x04;
    assert_eq!(alice_hs.complete(&c).err().unwrap(), CryptoError::SignatureVerification);
    let mut d = resp.clone();
    d.x25519_pk[31] ^= 0x02;
    assert_eq!(alice_hs.complete(&d).err().unwrap(), CryptoError::SignatureVerification);
}

#[test]
fn test_handshake_behaviour_creation() {
    let identity = gen_keypair();
    let behaviour = HandshakeBehaviour::new(identity, random_peer());

    assert_eq!(behaviour.peer_count(), 0);
    assert!(behaviour.get_session_key(&random_peer()).is_none());
}

#[test]
fn test_register_peer() {
    let identity = gen_keypair();
    let mut behaviour = HandshakeBehaviour::new(identity, random_peer());

    let peer_id = random_peer();
    let peer_key = Handshake::new(gen_keypair()).verify_key();

    behaviour.register_peer(&peer_id, peer_key);
    assert!(behaviour.get_peer_key(&peer_id).is_some());
}

fn outbound_bytes(o: HandshakeOutbound) -> Vec<u8> {
    match o {
        HandshakeOutbound::SendInit { data, .. } => data,
        HandshakeOutbound::SendResp { data, .. } => data,
    }
}

#[test]
fn state_machine_establishes_both_sides() {
    let alice_peer = random_peer();
    let bob_peer = random_peer();
    let mut alice = HandshakeBehaviour::new(gen_keypair(), alice_peer.clone());
    let mut bob = HandshakeBehaviour::new(gen_keypair(), bob_peer.clone());

    alice.initiate_handshake(&bob_peer).unwrap();
    assert_eq!(alice.peer_state(&bob_peer), PeerState::AwaitResp);
    alice.initiate_handshake(&bob_peer).unwrap();
    let init = outbound_bytes(alice.poll_outbound().unwrap());
    assert!(alice.poll_outbound().is_none());

    bob.handle_message(&alice_peer, &init).unwrap();
    assert_eq!(bob.peer_state(&alice_peer), PeerState::Established);
    let resp = outbound_bytes(bob.poll_outbound().unwrap());

    alice.handle_message(&bob_peer, &resp).unwrap();
    assert_eq!(alice.peer_state(&bob_peer), PeerState::Established);
    assert_eq!(alice.get_session_key(&bob_peer), bob.get_session_key(&alice_peer));
    assert!(alice.poll_event().is_some());
    assert!(bob.poll_event().is_some());

    bob.handle_message(&alice_peer, &init).unwrap();
    assert!(bob.poll_outbound().is_none());
}

#[test]
fn state_machine_fails_on_tampered_init() {
    let alice_peer = random_peer();
    let bob_peer = random_peer();
    let alice = Handshake::new(gen_keypair());
    let mut bob = HandshakeBehaviour::new(gen_keypair(), bob_peer);
    let mut init = alice.initiate(&alice_peer).unwrap();
    init.x25519_pk[0] ^= 1;
    let data = HandshakeMessage { message: Some(handshake_message::Message::Init(init.clone())) }.encode_to_vec();
    assert!(bob.handle_message(&alice_peer, &data).is_err());
    assert_eq!(bob.peer_state(&alice_peer), PeerState::Failed);
    assert!(bob.handle_message(&alice_peer, &[0xff, 0xff]).is_err());
}

#[test]
fn stale_handshake_returns_to_idle() {
    let bob_peer = random_peer();
    let mut alice = HandshakeBehaviour::new(gen_keypair(), random_peer());
    alice.initiate_handshake_at(&bob_peer, 1_000).unwrap();
    alice.expire_stale_at(30_999);
    assert_eq!(alice.peer_state(&bob_peer), PeerState::AwaitResp);
    alice.expire_stale_at(31_000);
    assert_eq!(alice.peer_state(&bob_peer), PeerState::Idle);
    alice.initiate_handshake_at(&bob_peer, 31_000).unwrap();
    assert_eq!(alice.peer_state(&bob_peer), PeerState::AwaitResp);
}

#[test]
fn lower_identifier_stays_initiator() {
    let low = PeerId::from_bytes(&[1u8; 38]);
    let high = PeerId::from_bytes(&[2u8; 38]);
    let mut low_side = HandshakeBehaviour::new(gen_keypair(), low.clone());
    let mut high_side = HandshakeBehaviour::new(gen_keypair(), high.clone());
    low_side.initiate_handshake(&high).unwrap();
    high_side.initiate_handshake(&low).unwrap();
    let low_init = outbound_bytes(low_side.poll_outbound().unwrap());
    let high_init = outbound_bytes(high_side.poll_outbound().unwrap());
    low_side.handle_message(&high, &high_init).unwrap();
    assert_eq!(low_side.peer_state(&high), PeerState::AwaitResp);
    high_side.handle_message(&low, &low_init).unwrap();
    assert_eq!(high_side.peer_state(&low), PeerState::Established);
    let resp = outbound_bytes(high_side.poll_outbound().unwrap());
    low_side.handle_message(&high, &resp).unwrap();
    assert_eq!(low_side.peer_state(&high), PeerState::Established);
    assert_eq!(low_side.get_session_key(&high), high_side.get_session_key(&low));
}

#[test]
fn failed_peer_waits_for_backoff() {
    let alice_peer = random_peer();
    let alice = Handshake::new(gen_keypair());
    let mut bob = HandshakeBehaviour::new(gen_keypair(), random_peer());
    let mut init = alice.initiate(&alice_peer).unwrap();
    init.signature[0] ^= 1;
    let data = HandshakeMessage { message: Some(handshake_message::Message::Init(init)) }.encode_to_vec();
    assert!(bob.handle_message(&alice_peer, &data).is_err());
    assert_eq!(bob.peer_state(&alice_peer), PeerState::Failed);
    let failed_at = bob.now();
    bob.initiate_handshake_at(&alice_peer, failed_at + 100).unwrap();
    assert_eq!(bob.peer_state(&alice_peer), PeerState::Failed);
    assert!(bob.poll_outbound().is_none());
    bob.initiate_handshake_at(&alice_peer, failed_at + 5_000).unwrap();
    assert_eq!(bob.peer_state(&alice_peer), PeerState::AwaitResp);
    assert!(bob.poll_outbound().is_some());
}
