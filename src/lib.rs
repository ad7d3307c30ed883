//! Cryptographic and protocol engine of a peer-to-peer chat node: hybrid key
//! encapsulation, hybrid signatures, per-peer sessions, the authenticated
//! message envelope, the handshake protocol and the identity commitment.

pub mod error;
pub mod bytes;
pub mod secret;
pub mod hash;
pub mod clock;
pub mod signing;
pub mod peer;
pub mod session;
pub mod aead;
pub mod kem;
pub mod wire;
pub mod handshake_message;
pub mod handshake;
pub mod identity;
pub mod message;
pub mod behaviour;
pub mod node;
pub mod stubs;
pub mod chat;
