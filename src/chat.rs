use vstd::prelude::*;
use vstd::string::StringSliceAdditionalSpecFns;
use vstd::utf8::encode_utf8;
use crate::bytes::append;
use crate::hash::{sha256, sha256_of};

verus! {

/// Whether a character has the Unicode White_Space property (as `char::is_whitespace`).
pub open spec fn is_white_space(c: char) -> bool {
    let u = c as u32;
    ||| 0x9 <= u <= 0xD
    ||| u == 0x20
    ||| u == 0x85
    ||| u == 0xA0
    ||| u == 0x1680
    ||| 0x2000 <= u <= 0x200A
    ||| u == 0x2028
    ||| u == 0x2029
    ||| u == 0x202F
    ||| u == 0x205F
    ||| u == 0x3000
}

/// The characters without their leading whitespace.
pub open spec fn trim_start(s: Seq<char>) -> Seq<char>
    decreases s.len(),
{
    if s.len() > 0 && is_white_space(s[0]) {
        trim_start(s.drop_first())
    } else {
        s
    }
}

/// The characters without their trailing whitespace.
pub open spec fn trim_end(s: Seq<char>) -> Seq<char>
    decreases s.len(),
{
    if s.len() > 0 && is_white_space(s.last()) {
        trim_end(s.drop_last())
    } else {
        s
    }
}

/// A line of user input with leading and trailing whitespace removed.
pub open spec fn trimmed(line: Seq<char>) -> Seq<char> {
    trim_end(trim_start(line))
}

/// Relies on str::trim: removes leading and trailing characters with the
/// White_Space property.
#[verifier::external_body]
fn trim_line(line: &str) -> (r: String)
    ensures
        r@ == trimmed(line@),
{
    line.trim().to_string()
}

/// Domain separator of the topic key (a compatibility path for traffic that
/// predates the handshake; anyone who knows the topic can derive it).
pub open spec fn topic_domain() -> Seq<u8> {
    "umbra-topic-key-v0.2".spec_bytes()
}

/// The shared key derived from a topic name.
pub open spec fn topic_key(topic: Seq<char>) -> Seq<u8> {
    sha256_of(topic_domain() + encode_utf8(topic))
}

/// The key derived from the topic name alone.
pub fn derive_topic_key(topic: &str) -> (r: [u8; 32])
    ensures
        r@ == topic_key(topic@),
{
    let mut input: Vec<u8> = Vec::new();
    append(&mut input, "umbra-topic-key-v0.2".as_bytes());
    append(&mut input, topic.as_bytes());
    sha256(input.as_slice())
}

/// What a line typed at the chat prompt asks for.
#[derive(Debug, Clone, PartialEq, Eq)]
pub enum ChatCommand {
    Empty,
    Quit,
    Help,
    Peers,
    Clear,
    WhoAmI,
    Send(String),
}

/// The command a trimmed line denotes.
pub open spec fn command_of(t: Seq<char>) -> ChatCommand {
    if t.len() == 0 {
        ChatCommand::Empty
    } else if t == "/quit"@ || t == "/exit"@ {
        ChatCommand::Quit
    } else if t == "/help"@ {
        ChatCommand::Help
    } else if t == "/peers"@ {
        ChatCommand::Peers
    } else if t == "/clear"@ {
        ChatCommand::Clear
    } else if t == "/whoami"@ {
        ChatCommand::WhoAmI
    } else {
        ChatCommand::Send(arbitrary())
    }
}

/// Interprets a line typed at the chat prompt: the commands `/quit` (or
/// `/exit`), `/help`, `/peers`, `/clear`, `/whoami`; anything else non-empty is
/// a message to send, trimmed.
pub fn parse_input(line: &str) -> (r: ChatCommand)
    ensures
        match command_of(trimmed(line@)) {
            ChatCommand::Send(_) => r matches ChatCommand::Send(m) && m@ == trimmed(line@),
            c => r == c,
        },
{
    let t = trim_line(line);
    if t.as_str().is_empty() {
        return ChatCommand::Empty;
    }
    if t == "/quit".to_owned() || t == "/exit".to_owned() {
        ChatCommand::Quit
    } else if t == "/help".to_owned() {
        ChatCommand::Help
    } else if t == "/peers".to_owned() {
        ChatCommand::Peers
    } else if t == "/clear".to_owned() {
        ChatCommand::Clear
    } else if t == "/whoami".to_owned() {
        ChatCommand::WhoAmI
    } else {
        ChatCommand::Send(t)
    }
}

} // verus!
