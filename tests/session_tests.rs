use umbra::peer::PeerId;
use umbra::session::{SessionKey, SessionManager, MAX_SESSIONS};

fn random_peer() -> PeerId {
    let mut bytes = vec![0u8, 36, 8, 1, 18, 32];
    bytes.extend_from_slice(&rand::random::<[u8; 32]>());
    PeerId::from_bytes(&bytes)
}

#[test]
fn test_session_creation() {
    let mut mgr = SessionManager::new(random_peer()).unwrap();
    let peer = random_peer();

    let session = mgr.get_session(&peer).unwrap();
    assert_eq!(session.msg_count(), 0);
}

#[test]
fn test_session_reuse() {
    let mut mgr = SessionManager::new(random_peer()).unwrap();
    let peer = random_peer();

    let key1 = *mgr.get_session(&peer).unwrap().key();
    let key2 = *mgr.get_session(&peer).unwrap().key();

    assert_eq!(key1, key2);
}

#[test]
fn session_test_different_peers_different_keys() {
    let mut mgr = SessionManager::new(random_peer()).unwrap();
    let peer1 = random_peer();
    let peer2 = random_peer();

    let key1 = *mgr.get_session(&peer1).unwrap().key();
    let key2 = *mgr.get_session(&peer2).unwrap().key();

    assert_ne!(key1, key2);
}

#[test]
fn test_rotation_on_count() {
    let mut mgr = SessionManager::new(random_peer()).unwrap();
    let peer = random_peer();

    let session = mgr.get_session(&peer).unwrap();
    for _ in 0..1000 {
        session.increment();
    }

    assert!(session.should_rotate());
}

#[test]
fn test_cleanup() {
    let mut mgr = SessionManager::new(random_peer()).unwrap();
    let peer = random_peer();

    let session = mgr.get_session(&peer).unwrap();
    for _ in 0..1000 {
        session.increment();
    }

    mgr.cleanup();
    assert_eq!(mgr.session_count(), 0);
}

#[test]
fn test_identity_management() {
    let mgr = SessionManager::new(random_peer()).unwrap();
    let pk = mgr.public_key();

    assert_eq!(pk.classical.len(), 32);
}

#[test]
fn test_peer_registration() {
    let mut mgr = SessionManager::new(random_peer()).unwrap();
    let peer = random_peer();
    let peer_key = umbra::signing::IdentityKey::generate().unwrap().public();

    mgr.register_peer(peer.clone(), peer_key);
    assert!(mgr.get_peer_key(&peer).is_some());
}

#[test]
fn session_test_session_increment() {
    let mut mgr = SessionManager::new(random_peer()).unwrap();
    let peer = random_peer();

    let session = mgr.get_session(&peer).unwrap();
    assert_eq!(session.msg_count(), 0);

    session.increment();
    assert_eq!(session.msg_count(), 1);

    session.increment();
    assert_eq!(session.msg_count(), 2);
}

#[test]
fn test_session_age() {
    let mut mgr = SessionManager::new(random_peer()).unwrap();
    let peer = random_peer();

    let session = mgr.get_session(&peer).unwrap();
    let age = session.age();

    assert!(age < 1000);
}

#[test]
fn test_max_sessions_eviction() {
    let mut mgr = SessionManager::new(random_peer()).unwrap();

    for _ in 0..=MAX_SESSIONS {
        let peer = random_peer();
        mgr.get_session(&peer).unwrap();
    }

    assert_eq!(mgr.session_count(), MAX_SESSIONS);
}

#[test]
fn test_session_expiry_and_cleanup() {
    let mut mgr = SessionManager::new(random_peer()).unwrap();
    let peer = random_peer();

    let session = mgr.get_session(&peer).unwrap();
    for _ in 0..1000 {
        session.increment();
    }

    mgr.cleanup();
    assert_eq!(mgr.session_count(), 0);

    let session2 = mgr.get_session(&peer).unwrap();
    assert_eq!(session2.msg_count(), 0);
}

#[test]
fn test_multiple_peer_sessions() {
    let mut mgr = SessionManager::new(random_peer()).unwrap();
    let peers: Vec<_> = (0..10).map(|_| random_peer()).collect();

    for peer in &peers {
        mgr.get_session(peer).unwrap();
    }

    assert_eq!(mgr.session_count(), 10);

    let keys: Vec<_> = peers.iter().map(|p| *mgr.get_session(p).unwrap().key()).collect();

    for i in 0..keys.len() {
        for j in i + 1..keys.len() {
            assert_ne!(keys[i], keys[j]);
        }
    }
}

#[test]
fn test_session_key_deterministic() {
    let mut mgr = SessionManager::new(random_peer()).unwrap();
    let peer = random_peer();

    let key1 = *mgr.get_session(&peer).unwrap().key();
    let key2 = *mgr.get_session(&peer).unwrap().key();
    let key3 = *mgr.get_session(&peer).unwrap().key();

    assert_eq!(key1, key2);
    assert_eq!(key2, key3);
}

#[test]
fn rotation_thresholds() {
    let mut key = SessionKey::new_at([1u8; 32], 1_000);
    assert!(!key.should_rotate_at(1_000));
    assert!(!key.should_rotate_at(1_000 + 86_400_000 - 1));
    assert!(key.should_rotate_at(1_000 + 86_400_000));
    assert!(!key.should_rotate_at(0));
    for _ in 0..999 {
        key.increment();
    }
    assert!(!key.should_rotate_at(1_000));
    key.increment();
    assert_eq!(key.msg_count(), 1000);
    assert!(key.should_rotate_at(1_000));
}

#[test]
fn age_is_zero_when_clock_goes_back() {
    let key = SessionKey::new_at([1u8; 32], 5_000);
    assert_eq!(key.age_at(4_000), 0);
    assert_eq!(key.age_at(7_500), 2_500);
}

#[test]
fn eviction_drops_first_peer() {
    let mut mgr = SessionManager::new(random_peer()).unwrap();
    let peers: Vec<_> = (0..=MAX_SESSIONS).map(|_| random_peer()).collect();
    for (i, peer) in peers.iter().enumerate() {
        mgr.set_session_key_at(peer.clone(), [9u8; 32], 10 + i as u64);
    }
    assert_eq!(mgr.session_count(), 1000);
    assert!(!mgr.has_session(&peers[0]));
    assert!(mgr.has_session(&peers[1]));
    assert!(mgr.has_session(&peers[MAX_SESSIONS]));
}

#[test]
fn set_session_key_replaces_entry() {
    let mut mgr = SessionManager::new(random_peer()).unwrap();
    let peer = random_peer();
    mgr.set_session_key_at(peer.clone(), [1u8; 32], 5);
    mgr.set_session_key_at(peer.clone(), [2u8; 32], 6);
    assert_eq!(mgr.session_count(), 1);
    assert_eq!(*mgr.get_session_at(&peer, 7).unwrap().key(), [2u8; 32]);
}

#[test]
fn provisional_key_is_symmetric() {
    let a = random_peer();
    let b = random_peer();
    let mgr_a = SessionManager::new(a.clone()).unwrap();
    let mgr_b = SessionManager::new(b.clone()).unwrap();
    assert_eq!(mgr_a.derive_session_key(&b), mgr_b.derive_session_key(&a));
}

#[test]
fn cleanup_keeps_fresh_sessions() {
    let mut mgr = SessionManager::new(random_peer()).unwrap();
    let old_peer = random_peer();
    let fresh_peer = random_peer();
    mgr.set_session_key_at(old_peer.clone(), [1u8; 32], 0);
    mgr.set_session_key_at(fresh_peer.clone(), [2u8; 32], 86_000_000);
    mgr.cleanup_at(86_400_000);
    assert_eq!(mgr.session_count(), 1);
    assert!(mgr.has_session(&fresh_peer));
    assert!(!mgr.has_session(&old_peer));
}

#[test]
fn session_key_wipe_zeroes() {
    let mut key = SessionKey::new([0xAB; 32]);
    key.wipe();
    assert_eq!(*key.key(), [0u8; 32]);
}

#[test]
fn verify_requires_pinned_key() {
    let mgr = SessionManager::new(random_peer()).unwrap();
    let peer = random_peer();
    assert_eq!(
        mgr.verify(&peer, b"data", &[0u8; 64]),
        Err(umbra::error::CryptoError::KeyDerivation)
    );
}

#[test]
fn max_sessions_evicts_oldest_peer() {
    let mut mgr = SessionManager::new(random_peer()).unwrap();
    let peers: Vec<_> = (0..=MAX_SESSIONS).map(|_| random_peer()).collect();
    for peer in &peers {
        mgr.get_session(peer).unwrap();
    }
    assert_eq!(mgr.session_count(), 1000);
    assert!(!mgr.has_session(&peers[0]));
    assert!(mgr.has_session(&peers[MAX_SESSIONS]));
}

#[test]
fn rotated_session_gets_provisional_key() {
    let local = random_peer();
    let mut mgr = SessionManager::new(local.clone()).unwrap();
    let peer = random_peer();
    mgr.set_session_key_at(peer.clone(), [7u8; 32], 0);
    let session = mgr.get_session_at(&peer, 86_400_000).unwrap();
    assert_eq!(session.msg_count(), 0);
    let key = *session.key();
    assert_eq!(key, mgr.derive_session_key(&peer));
    assert_ne!(key, [7u8; 32]);
    assert_eq!(mgr.session_count(), 1);
}

#[test]
fn handshake_key_replaces_provisional_session() {
    let mut mgr = SessionManager::new(random_peer()).unwrap();
    let peer = random_peer();
    let provisional = *mgr.get_session(&peer).unwrap().key();
    mgr.set_session_key(peer.clone(), [3u8; 32]);
    assert_eq!(mgr.session_count(), 1);
    let key = *mgr.get_session(&peer).unwrap().key();
    assert_eq!(key, [3u8; 32]);
    assert_ne!(key, provisional);
}
