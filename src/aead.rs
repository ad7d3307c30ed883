use vstd::prelude::*;
use crate::bytes::{append, to_array32, to_vec};
use crate::error::CryptoError;
use crate::secret::SecretBytes;
use chacha20poly1305::aead::{Aead, AeadCore, KeyInit, OsRng};
use chacha20poly1305::ChaCha20Poly1305;

verus! {

/// Length of an envelope key.
pub const KEY_LEN: usize = 32;

/// Length of the nonce that starts every sealed envelope.
pub const NONCE_LEN: usize = 12;

/// Length of the authentication tag appended to every ciphertext.
pub const TAG_LEN: usize = 16;

/// Plaintexts shorter than this (64 bytes times 2^32 - 1 blocks) can be sealed.
pub const MAX_PLAINTEXT_LEN: u64 = 274_877_906_880;

/// ChaCha20-Poly1305 (RFC 8439) encryption of a plaintext under a key and a
/// nonce, with empty associated data: ciphertext followed by the tag.
pub uninterp spec fn chacha_seal(key: Seq<u8>, nonce: Seq<u8>, plaintext: Seq<u8>) -> Seq<u8>;

/// ChaCha20-Poly1305 decryption: the plaintext when the tag authenticates.
pub uninterp spec fn chacha_open(key: Seq<u8>, nonce: Seq<u8>, ciphertext: Seq<u8>) -> Option<Seq<u8>>;

/// Relies on chacha20poly1305's Aead::encrypt: fails only when the plaintext
/// reaches 2^32 - 1 blocks of 64 bytes; the ciphertext is 16 bytes longer.
#[verifier::external_body]
fn seal_raw(key: &[u8; 32], nonce: &[u8; 12], plaintext: &[u8]) -> (r: Option<Vec<u8>>)
    ensures
        r is Some <==> plaintext@.len() < MAX_PLAINTEXT_LEN,
        r matches Some(c) ==> c@ == chacha_seal(key@, nonce@, plaintext@)
            && c@.len() == plaintext@.len() + TAG_LEN,
{
    ChaCha20Poly1305::new(key.into()).encrypt(nonce.into(), plaintext).ok()
}

/// Relies on chacha20poly1305's Aead::decrypt: the plaintext exactly when the tag
/// authenticates; what sealing produced under the same key and nonce opens to
/// its plaintext (for every plaintext short enough to be sealed).
#[verifier::external_body]
fn open_raw(key: &[u8; 32], nonce: &[u8; 12], ciphertext: &[u8]) -> (r: Option<Vec<u8>>)
    ensures
        r is Some <==> chacha_open(key@, nonce@, ciphertext@) is Some,
        r matches Some(p) ==> chacha_open(key@, nonce@, ciphertext@) == Some(p@),
        forall|m: Seq<u8>|
            m.len() < MAX_PLAINTEXT_LEN && ciphertext@ == chacha_seal(key@, nonce@, m) ==> r is Some && r->Some_0@
                == m,
{
    ChaCha20Poly1305::new(key.into()).decrypt(nonce.into(), ciphertext).ok()
}

/// Relies on chacha20poly1305's AeadCore::generate_nonce with the OS generator:
/// 12 random bytes.
#[verifier::external_body]
fn random_nonce() -> (r: [u8; 12]) {
    ChaCha20Poly1305::generate_nonce(&mut OsRng).into()
}

/// Relies on chacha20poly1305's KeyInit::generate_key with the OS generator:
/// 32 random bytes.
#[verifier::external_body]
pub(crate) fn random_key() -> (r: [u8; 32]) {
    ChaCha20Poly1305::generate_key(&mut OsRng).into()
}

/// `data` is a nonce followed by the sealing of `plaintext` (short enough to be
/// sealed) under `key` and that nonce.
pub open spec fn sealed_by(key: Seq<u8>, plaintext: Seq<u8>, data: Seq<u8>) -> bool {
    &&& plaintext.len() < MAX_PLAINTEXT_LEN
    &&& data.len() >= NONCE_LEN
    &&& data.subrange(NONCE_LEN as int, data.len() as int) == chacha_seal(
        key,
        data.subrange(0, NONCE_LEN as int),
        plaintext,
    )
}

/// What opening `data` (nonce followed by ciphertext) under `key` yields.
pub open spec fn envelope_open(key: Seq<u8>, data: Seq<u8>) -> Option<Seq<u8>> {
    if data.len() < NONCE_LEN {
        None
    } else {
        chacha_open(key, data.subrange(0, NONCE_LEN as int), data.subrange(NONCE_LEN as int, data.len() as int))
    }
}

/// Round trip: a nonce followed by the sealing of `m` under that nonce is what
/// `Envelope::decrypt` opens to `m`, whatever the nonce.
pub proof fn lemma_seal_then_open(key: Seq<u8>, nonce: Seq<u8>, m: Seq<u8>)
    requires
        key.len() == KEY_LEN,
        nonce.len() == NONCE_LEN,
        m.len() < MAX_PLAINTEXT_LEN,
    ensures
        sealed_by(key, m, nonce + chacha_seal(key, nonce, m)),
{
    let data = nonce + chacha_seal(key, nonce, m);
    assert(data.subrange(0, NONCE_LEN as int) =~= nonce);
    assert(data.subrange(NONCE_LEN as int, data.len() as int) =~= chacha_seal(key, nonce, m));
}

/// One-shot authenticated encryption under a 32-byte key; output is `nonce ‖ ciphertext`.
pub struct Envelope {
    key: [u8; 32],
}

impl Envelope {
    pub closed spec fn key_bytes(&self) -> Seq<u8> {
        self.key@
    }

    /// An envelope keyed with `key`, which must be 32 bytes long.
    pub fn new(key: &[u8]) -> (r: Result<Envelope, CryptoError>)
        ensures
            key@.len() == KEY_LEN ==> (r matches Ok(e) && e.key_bytes() == key@),
            key@.len() != KEY_LEN ==> r == Err::<Envelope, CryptoError>(
                CryptoError::InvalidKeyLength { expected: KEY_LEN, got: key@.len() as usize },
            ),
    {
        if key.len() != KEY_LEN {
            return Err(CryptoError::InvalidKeyLength { expected: KEY_LEN, got: key.len() });
        }
        Ok(Envelope { key: to_array32(key) })
    }

    /// An envelope keyed with a 32-byte key.
    pub fn from_key(key: &[u8; 32]) -> (r: Envelope)
        ensures
            r.key_bytes() == key@,
    {
        Envelope { key: *key }
    }

    /// Seals `plaintext` under a fresh random nonce and returns `nonce ‖ ciphertext`.
    pub fn encrypt(&self, plaintext: &[u8]) -> (r: Result<Vec<u8>, CryptoError>)
        ensures
            r is Ok <==> plaintext@.len() < MAX_PLAINTEXT_LEN,
            r matches Ok(c) ==> sealed_by(self.key_bytes(), plaintext@, c@)
                && c@.len() == NONCE_LEN + plaintext@.len() + TAG_LEN,
            r matches Err(e) ==> e == CryptoError::Encryption,
    {
        let nonce = random_nonce();
        match seal_raw(&self.key, &nonce, plaintext) {
            Some(ct) => {
                let mut out: Vec<u8> = Vec::new();
                append(&mut out, &nonce);
                append(&mut out, ct.as_slice());
                proof {
                    lemma_seal_then_open(self.key@, nonce@, plaintext@);
                    assert(out@ == nonce@ + chacha_seal(self.key@, nonce@, plaintext@));
                }
                Ok(out)
            },
            None => Err(CryptoError::Encryption),
        }
    }

    /// Opens `nonce ‖ ciphertext`; fails with `Decryption` on short input, a bad
    /// tag or a wrong key. The plaintext is wiped when dropped.
    pub fn decrypt(&self, data: &[u8]) -> (r: Result<SecretBytes, CryptoError>)
        ensures
            match envelope_open(self.key_bytes(), data@) {
                Some(p) => r matches Ok(q) && q@ == p,
                None => r is Err && r->Err_0 == CryptoError::Decryption,
            },
            forall|m: Seq<u8>| sealed_by(self.key_bytes(), m, data@) ==> (r matches Ok(q) && q@ == m),
    {
        if data.len() < NONCE_LEN {
            return Err(CryptoError::Decryption);
        }
        let nonce_bytes = vstd::slice::slice_subrange(data, 0, NONCE_LEN);
        let ciphertext = vstd::slice::slice_subrange(data, NONCE_LEN, data.len());
        let mut nonce = [0u8; 12];
        let mut i: usize = 0;
        while i < NONCE_LEN
            invariant
                nonce_bytes@.len() == NONCE_LEN,
                0 <= i <= NONCE_LEN,
                forall|j: int| 0 <= j < i ==> nonce@[j] == nonce_bytes@[j],
            decreases NONCE_LEN - i,
        {
            nonce[i] = nonce_bytes[i];
            i = i + 1;
        }
        assert(nonce@ == nonce_bytes@);
        match open_raw(&self.key, &nonce, ciphertext) {
            Some(p) => Ok(SecretBytes::new(p)),
            None => Err(CryptoError::Decryption),
        }
    }
}

/// Symmetric chat encryption under one shared key.
pub struct ChatCrypto {
    envelope: Envelope,
}

impl ChatCrypto {
    pub closed spec fn key_bytes(&self) -> Seq<u8> {
        self.envelope.key_bytes()
    }

    /// Chat encryption under a fresh random key.
    pub fn new() -> (r: ChatCrypto)
        ensures
            r.key_bytes().len() == KEY_LEN,
    {
        let key = random_key();
        ChatCrypto::from_key(&key)
    }

    /// Chat encryption under an explicit 32-byte key.
    pub fn from_key(key: &[u8; 32]) -> (r: ChatCrypto)
        ensures
            r.key_bytes() == key@,
    {
        ChatCrypto { envelope: Envelope { key: *key } }
    }

    /// Seals `plaintext`; should sealing fail, the plaintext is returned as it is.
    pub fn encrypt(&self, plaintext: &[u8]) -> (r: Vec<u8>)
        ensures
            plaintext@.len() < MAX_PLAINTEXT_LEN ==> sealed_by(self.key_bytes(), plaintext@, r@),
            plaintext@.len() >= MAX_PLAINTEXT_LEN ==> r@ == plaintext@,
    {
        match self.envelope.encrypt(plaintext) {
            Ok(c) => c,
            Err(_) => to_vec(plaintext),
        }
    }

    /// Opens what `encrypt` sealed.
    pub fn decrypt(&self, ciphertext: &[u8]) -> (r: Result<Vec<u8>, CryptoError>)
        ensures
            match envelope_open(self.key_bytes(), ciphertext@) {
                Some(p) => r matches Ok(q) && q@ == p,
                None => r == Err::<Vec<u8>, CryptoError>(CryptoError::Decryption),
            },
            forall|m: Seq<u8>| sealed_by(self.key_bytes(), m, ciphertext@) ==> (r matches Ok(q) && q@ == m),
    {
        match self.envelope.decrypt(ciphertext) {
            Ok(p) => Ok(p.to_vec()),
            Err(e) => Err(e),
        }
    }
}

} // verus!
