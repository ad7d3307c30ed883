use vstd::prelude::*;
use crate::wire::{HandshakeInit, HandshakeResp};

verus! {

/// The two kinds of handshake message.
#[derive(Clone, Debug, PartialEq)]
pub enum Message {
    Init(HandshakeInit),
    Resp(HandshakeResp),
}

} // verus!
