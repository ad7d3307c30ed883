use vstd::prelude::*;

verus! {

/// Failures of the cryptographic layer.
#[derive(Debug, Clone, Copy, PartialEq, Eq, Structural)]
pub enum CryptoError {
    InvalidKeyLength { expected: usize, got: usize },
    InvalidSignature,
    SignatureVerification,
    KeyDerivation,
    Encryption,
    Decryption,
    PostQuantum,
}

impl CryptoError {
    /// A short human-readable description of the failure.
    pub fn describe(&self) -> (r: &'static str) {
        match self {
            CryptoError::InvalidKeyLength { .. } => "Invalid key length",
            CryptoError::InvalidSignature => "Invalid signature",
            CryptoError::SignatureVerification => "Signature verification failed",
            CryptoError::KeyDerivation => "Key derivation failed",
            CryptoError::Encryption => "Encryption failed",
            CryptoError::Decryption => "Decryption failed",
            CryptoError::PostQuantum => "Post-quantum primitive failed",
        }
    }
}

/// Failures of the identity layer.
#[derive(Debug, Clone, Copy, PartialEq, Eq, Structural)]
pub enum IdentityError {
    InvalidPassword,
    InvalidSecretLength,
    Circuit,
    ProofGeneration,
    ProofVerification,
    Serialization,
    Io,
}

impl IdentityError {
    /// A short human-readable description of the failure.
    pub fn describe(&self) -> (r: &'static str) {
        match self {
            IdentityError::InvalidPassword => "Invalid password",
            IdentityError::InvalidSecretLength => "Invalid secret length",
            IdentityError::Circuit => "Circuit error",
            IdentityError::ProofGeneration => "Proof generation failed",
            IdentityError::ProofVerification => "Proof verification failed",
            IdentityError::Serialization => "Serialization error",
            IdentityError::Io => "IO error",
        }
    }
}

/// Failures of the network and message layer.
#[derive(Debug, Clone, Copy, PartialEq, Eq, Structural)]
pub enum NetError {
    Transport,
    Discovery,
    Crypto,
    Protocol,
    Decrypt,
    SignatureVerification,
}

impl NetError {
    /// A short human-readable description of the failure.
    pub fn describe(&self) -> (r: &'static str) {
        match self {
            NetError::Transport => "Transport error",
            NetError::Discovery => "Discovery error",
            NetError::Crypto => "Crypto error",
            NetError::Protocol => "Protocol error: malformed frame",
            NetError::Decrypt => "Decryption failed",
            NetError::SignatureVerification => "Signature verification failed",
        }
    }
}

} // verus!
