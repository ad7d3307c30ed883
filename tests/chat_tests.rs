use sha2::Digest;
use umbra::aead::ChatCrypto;
use umbra::chat::{derive_topic_key, parse_input, ChatCommand};

#[test]
fn commands_are_recognised() {
    assert_eq!(parse_input("  /quit "), ChatCommand::Quit);
    assert_eq!(parse_input("/exit"), ChatCommand::Quit);
    assert_eq!(parse_input("/help"), ChatCommand::Help);
    assert_eq!(parse_input("/peers"), ChatCommand::Peers);
    assert_eq!(parse_input("/clear"), ChatCommand::Clear);
    assert_eq!(parse_input("/whoami"), ChatCommand::WhoAmI);
    assert_eq!(parse_input("   "), ChatCommand::Empty);
    assert_eq!(parse_input("  hi there \n"), ChatCommand::Send("hi there".to_string()));
}

#[test]
fn topic_key_is_shared() {
    let k1 = derive_topic_key("umbra-chat");
    let k2 = derive_topic_key("umbra-chat");
    let k3 = derive_topic_key("other");
    assert_eq!(k1, k2);
    assert_ne!(k1, k3);
    let sealed = ChatCrypto::from_key(&k1).encrypt(b"alice: hi");
    assert_eq!(ChatCrypto::from_key(&k2).decrypt(&sealed).unwrap(), b"alice: hi".to_vec());
}

#[test]
fn topic_key_matches_sha256() {
    let expected: [u8; 32] = sha2::Sha256::digest(b"umbra-topic-key-v0.2umbra-chat").into();
    assert_eq!(derive_topic_key("umbra-chat"), expected);
}

#[test]
fn unicode_whitespace_is_trimmed() {
    assert_eq!(parse_input("\u{3000}/help\u{00A0}\t"), ChatCommand::Help);
    assert_eq!(parse_input("\u{2003}hi\u{2029}"), ChatCommand::Send("hi".to_string()));
}
