use umbra::handshake_message;
use umbra::wire::{ChatMessage, EncryptedMessage, HandshakeInit, HandshakeMessage, HandshakeResp, WireError};

#[test]
fn test_handshake_init_roundtrip() {
    let init = HandshakeInit {
        peer_id: vec![1, 2, 3, 4],
        x25519_pk: vec![5u8; 32],
        pq_pk: vec![],
        signature: vec![9u8; 64],
        verify_key: vec![7u8; 32],
    };

    let msg = HandshakeMessage { message: Some(handshake_message::Message::Init(init.clone())) };

    let bytes = msg.encode_to_vec();
    let decoded = HandshakeMessage::decode_from_bytes(&bytes).unwrap();

    if let Some(handshake_message::Message::Init(decoded_init)) = decoded.message {
        assert_eq!(decoded_init.peer_id, init.peer_id);
        assert_eq!(decoded_init.x25519_pk, init.x25519_pk);
        assert_eq!(decoded_init.signature, init.signature);
        assert_eq!(decoded_init.verify_key, init.verify_key);
    } else {
        panic!("Expected Init message");
    }
}

#[test]
fn test_handshake_resp_roundtrip() {
    let resp = HandshakeResp {
        peer_id: vec![1, 2, 3, 4],
        x25519_pk: vec![5u8; 32],
        pq_ct: vec![],
        signature: vec![9u8; 64],
        verify_key: vec![7u8; 32],
    };

    let msg = HandshakeMessage { message: Some(handshake_message::Message::Resp(resp.clone())) };

    let bytes = msg.encode_to_vec();
    let decoded = HandshakeMessage::decode_from_bytes(&bytes).unwrap();

    if let Some(handshake_message::Message::Resp(decoded_resp)) = decoded.message {
        assert_eq!(decoded_resp.peer_id, resp.peer_id);
        assert_eq!(decoded_resp.x25519_pk, resp.x25519_pk);
        assert_eq!(decoded_resp.signature, resp.signature);
        assert_eq!(decoded_resp.verify_key, resp.verify_key);
    } else {
        panic!("Expected Resp message");
    }
}

#[test]
fn chat_message_exact_bytes() {
    let m = ChatMessage { username: "al".to_string(), content: String::new(), timestamp: 300, identity_id: vec![] };
    assert_eq!(m.encode_to_vec(), vec![0x0a, 0x02, b'a', b'l', 0x18, 0xac, 0x02]);
    assert_eq!(ChatMessage::decode(&m.encode_to_vec()).unwrap(), m);
}

#[test]
fn chat_message_roundtrip_utf8() {
    let m = ChatMessage {
        username: "zoë".to_string(),
        content: "héllo ✓".to_string(),
        timestamp: u64::MAX,
        identity_id: vec![3u8; 32],
    };
    assert_eq!(ChatMessage::decode(&m.encode_to_vec()).unwrap(), m);
}

#[test]
fn chat_message_rejects_invalid_utf8() {
    assert_eq!(ChatMessage::decode(&[0x0a, 0x01, 0xff]).err().unwrap(), WireError::Decode);
}

#[test]
fn decoder_skips_unknown_fields_and_rejects_truncation() {
    let bytes = vec![0x48, 0x05, 0x0a, 0x01, b'x'];
    let m = ChatMessage::decode(&bytes).unwrap();
    assert_eq!(m.username, "x");
    assert!(ChatMessage::decode(&[0x0a, 0x05, b'x']).is_err());
    assert!(ChatMessage::decode(&[0x08, 0x01]).is_err());
    assert!(ChatMessage::decode(&[0x80]).is_err());
}

#[test]
fn encrypted_message_roundtrip() {
    let m = EncryptedMessage {
        sender: vec![1, 2, 3],
        nonce: vec![4u8; 12],
        ciphertext: vec![5u8; 40],
        timestamp: 1_700_000_000,
        signature: vec![6u8; 64],
        identity_id: vec![],
        identity_proof: vec![],
        pq_signature: vec![7u8; 300],
    };
    assert_eq!(EncryptedMessage::decode(&m.encode_to_vec()).unwrap(), m);
}

#[test]
fn empty_handshake_message() {
    let msg = HandshakeMessage { message: None };
    assert!(msg.encode_to_vec().is_empty());
    assert_eq!(HandshakeMessage::decode_from_bytes(&[]).unwrap(), msg);
}
