use vstd::prelude::*;
use vstd::utf8::{decode_utf8, encode_utf8};
use crate::aead::{envelope_open, sealed_by, Envelope, MAX_PLAINTEXT_LEN, NONCE_LEN};
use crate::bytes::{append, to_vec};
use crate::error::NetError;
use crate::identity::{groth16_outcome, Identity, ProofVerifier};
use crate::peer::PeerId;
use crate::clock::wall_clock_secs;
use crate::session::{bump, ensured_table, index_of, SessionManager, SessionRecord};
use crate::signing::{dilithium_accepts, dilithium_verify, ed25519_accepts, ed25519_signature, ed25519_verify, PQ_SIGN_PUBLIC_LEN, PQ_SIG_MAX_LEN};
use crate::wire::{
    chat_bytes, chat_decoding, encrypted_decoding, encrypted_encoding, ChatMessage, EncryptedMessage,
};

verus! {

/// The key of `peer`'s session in a table.
pub open spec fn key_of(t: Seq<SessionRecord>, peer: Seq<u8>) -> Seq<u8> {
    t[index_of(t, peer)].key
}

/// Whether a proof shows, under the verifying key, knowledge of the secret behind `id`.
pub open spec fn proof_verifies(verifying_key: Option<Seq<u8>>, proof: Seq<u8>, id: Seq<u8>) -> bool {
    &&& id.len() == 32
    &&& proof.len() > 0
    &&& verifying_key is Some
    &&& groth16_outcome(verifying_key->Some_0, proof, id) == Some(true)
}

/// A decrypted message's identity: the frame's id exactly when the frame
/// carries a 32-byte id and a proof that verifies for it under our verifying key.
pub open spec fn identity_attached(
    frame: Seq<Seq<u8>>,
    verifying_key: Option<Seq<u8>>,
    attached: Option<[u8; 32]>,
) -> bool {
    &&& (attached is Some <==> proof_verifies(verifying_key, frame[5], frame[4]))
    &&& attached is Some ==> attached->Some_0@ == frame[4]
}

/// What encrypting `username`/`content` for `peer` at second `now_secs` and
/// millisecond `now`, offering `proof` for our identity, yields. The session of
/// `peer` is made usable and counts one more message; the frame carries our
/// identifier, the time, the sealing of the plaintext under that session's key,
/// our 64-byte signature and our lattice signature of the plaintext, and our id with the proof only when
/// the proof verifies for it (otherwise both are empty); it fails only for an
/// over-long plaintext.
pub open spec fn encrypt_outcome(
    pre: MessageExchange,
    post: MessageExchange,
    peer: Seq<u8>,
    username: Seq<char>,
    content: Seq<char>,
    proof: Seq<u8>,
    now_secs: u64,
    now: u64,
    r: Result<Vec<u8>, NetError>,
) -> bool {
    let plaintext = chat_bytes(username, content, now_secs, pre.own_id());
    let table = ensured_table(pre.manager().table(), pre.local(), peer, now);
    let attach = pre.own_id().len() > 0 && proof_verifies(pre.verifying_key(), proof, pre.own_id());
    &&& (r is Ok <==> plaintext.len() < MAX_PLAINTEXT_LEN)
    &&& r matches Err(e) ==> e == NetError::Crypto
    &&& post.manager().pins() == pre.manager().pins()
    &&& post.manager().identity_key() == pre.manager().identity_key()
    &&& r is Ok ==> post.manager().table() == bump(table, peer)
    &&& r matches Ok(bytes) ==> exists|m: EncryptedMessage|
        {
            &&& bytes@ == encrypted_encoding(m)
            &&& encrypted_decoding(bytes@) == Some(
                (
                    seq![
                        m.sender@,
                        m.nonce@,
                        m.ciphertext@,
                        m.signature@,
                        m.identity_id@,
                        m.identity_proof@,
                        m.pq_signature@,
                    ],
                    m.timestamp,
                ),
            )
            &&& m.sender@ == pre.local()
            &&& m.timestamp == now_secs
            &&& m.nonce@.len() == NONCE_LEN
            &&& sealed_by(key_of(table, peer), plaintext, m.nonce@ + m.ciphertext@)
            &&& m.signature@ == ed25519_signature(pre.manager().identity_key().seed(), plaintext)
            &&& m.signature@.len() == 64
            &&& m.pq_signature@.len() <= PQ_SIG_MAX_LEN
            &&& dilithium_accepts(pre.manager().identity_key().pq_public_bytes(), plaintext, m.pq_signature@)
            &&& m.identity_id@ == (if attach {
                pre.own_id()
            } else {
                Seq::empty()
            })
            &&& m.identity_proof@ == (if attach {
                proof
            } else {
                Seq::empty()
            })
        }
}

/// What decrypting the frame `data` from `peer` yields: `Protocol` for a bad
/// frame or plaintext, `Decrypt` when the envelope does not open under the
/// session key of `peer`, `SignatureVerification` when a signature half fails
/// against a pinned key (or the classical half is not 64 bytes), and otherwise
/// the username, the content and the identity attachment.
pub open spec fn decrypt_outcome(
    pre: MessageExchange,
    post: MessageExchange,
    peer: Seq<u8>,
    data: Seq<u8>,
    now: u64,
    r: Result<(String, String, Option<[u8; 32]>), NetError>,
) -> bool {
    &&& post.manager().pins() == pre.manager().pins()
    &&& post.manager().identity_key() == pre.manager().identity_key()
    &&& encrypted_decoding(data) is Some ==> post.manager().table() == ensured_table(
        pre.manager().table(),
        pre.local(),
        peer,
        now,
    )
    &&& encrypted_decoding(data) is None ==> post.manager().table() == pre.manager().table()
    &&& encrypted_decoding(data) matches Some((f, t)) ==> forall|m: Seq<u8>|
        sealed_by(key_of(post.manager().table(), peer), m, f[1] + f[2]) ==> envelope_open(
            key_of(post.manager().table(), peer),
            f[1] + f[2],
        ) == Some(m)
    &&& match encrypted_decoding(data) {
        None => r == Err::<(String, String, Option<[u8; 32]>), NetError>(NetError::Protocol),
        Some((f, t)) => match envelope_open(key_of(post.manager().table(), peer), f[1] + f[2]) {
            None => r == Err::<(String, String, Option<[u8; 32]>), NetError>(NetError::Decrypt),
            Some(p) => if (f[3].len() > 0 && (f[3].len() != 64 || (pre.manager().pinned_key(peer) matches Some(
                k,
            ) && !ed25519_accepts(k, p, f[3])))) || (f[6].len() > 0 && (pre.manager().pinned_lattice(
                peer,
            ) matches Some(lk) && (lk.len() != PQ_SIGN_PUBLIC_LEN || f[6].len() > PQ_SIG_MAX_LEN
                || !dilithium_accepts(lk, p, f[6])))) {
                r == Err::<(String, String, Option<[u8; 32]>), NetError>(NetError::SignatureVerification)
            } else {
                match chat_decoding(p) {
                    None => r == Err::<(String, String, Option<[u8; 32]>), NetError>(NetError::Protocol),
                    Some(c) => r matches Ok(v) && v.0@ == c.0 && v.1@ == c.1 && identity_attached(
                        f,
                        pre.verifying_key(),
                        v.2,
                    ),
                }
            },
        },
    }
}

/// Message encryption and decryption for all peers.
pub struct MessageExchange {
    session_mgr: SessionManager,
    local_peer_id: PeerId,
    identity: Option<Identity>,
    identity_proof: Vec<u8>,
    verifier: Option<ProofVerifier>,
}

impl MessageExchange {
    pub closed spec fn manager(&self) -> SessionManager {
        self.session_mgr
    }

    pub closed spec fn local(&self) -> Seq<u8> {
        self.local_peer_id@
    }

    /// The id our outgoing messages carry (empty without an identity).
    pub closed spec fn own_id(&self) -> Seq<u8> {
        match self.identity {
            Some(i) => i.id_bytes(),
            None => Seq::empty(),
        }
    }

    /// The proof our outgoing messages carry (empty without one).
    pub closed spec fn own_proof(&self) -> Seq<u8> {
        if self.identity is Some && self.identity_proof@.len() > 0 {
            self.identity_proof@
        } else {
            Seq::empty()
        }
    }

    pub closed spec fn verifying_key(&self) -> Option<Seq<u8>> {
        match self.verifier {
            Some(v) => Some(v.key_bytes()),
            None => None,
        }
    }

    pub closed spec fn wf(&self) -> bool {
        &&& self.session_mgr.wf()
        &&& self.session_mgr.local() == self.local_peer_id@
    }

    /// A well-formed exchange has a well-formed session manager for its own node.
    pub proof fn lemma_manager_wf(&self)
        ensures
            self.wf() <==> (self.manager().wf() && self.manager().local() == self.local()),
    {
    }

    /// An exchange for the node `local_peer_id`.
    pub fn new(local_peer_id: PeerId) -> (r: Result<MessageExchange, NetError>)
        ensures
            r matches Ok(x) && x.wf() && x.local() == local_peer_id@ && x.manager().table().len() == 0
                && x.own_id().len() == 0 && x.verifying_key() is None,
    {
        let session_mgr = match SessionManager::new(local_peer_id.duplicate()) {
            Ok(m) => m,
            Err(_) => return Err(NetError::Crypto),
        };
        Ok(MessageExchange { session_mgr, local_peer_id, identity: None, identity_proof: Vec::new(), verifier: None })
    }

    /// Attaches our identity, its proof, and the verifier for incoming proofs.
    pub fn set_identity(&mut self, identity: Identity, identity_proof: Vec<u8>, verifier: ProofVerifier)
        requires
            old(self).wf(),
        ensures
            final(self).wf(),
            final(self).own_id() == identity.id_bytes(),
            final(self).own_proof() == identity_proof@,
            final(self).verifying_key() == Some(verifier.key_bytes()),
            final(self).manager() == old(self).manager(),
            final(self).local() == old(self).local(),
    {
        let ghost p = identity_proof@;
        self.identity = Some(identity);
        self.identity_proof = identity_proof;
        self.verifier = Some(verifier);
        assert(self.own_proof() == p);
    }

    /// A reading of the session clock (milliseconds, never decreasing).
    pub fn clock_now(&mut self) -> (r: u64)
        requires
            old(self).wf(),
        ensures
            final(self).wf(),
            r >= old(self).manager().clock(),
            final(self).manager().clock() == r,
            final(self).manager().table() == old(self).manager().table(),
            final(self).manager().pins() == old(self).manager().pins(),
            final(self).manager().identity_key() == old(self).manager().identity_key(),
            final(self).local() == old(self).local(),
            final(self).own_id() == old(self).own_id(),
            final(self).own_proof() == old(self).own_proof(),
            final(self).verifying_key() == old(self).verifying_key(),
    {
        self.session_mgr.now()
    }

    pub fn session_manager(&self) -> (r: &SessionManager)
        ensures
            *r == self.manager(),
    {
        &self.session_mgr
    }

    pub fn session_manager_mut(&mut self) -> (r: &mut SessionManager)
        ensures
            *r == old(self).manager(),
            final(self).manager() == *final(r),
            final(self).local() == old(self).local(),
            final(self).own_id() == old(self).own_id(),
            final(self).own_proof() == old(self).own_proof(),
            final(self).verifying_key() == old(self).verifying_key(),
    {
        &mut self.session_mgr
    }

    /// Encrypts a chat message for `peer` at wall-clock second `now_secs` and
    /// millisecond `now`, offering `proof` for our identity (attached only when
    /// it verifies; an empty proof stands for a failed proving).
    pub fn encrypt_message_with_proof_at(
        &mut self,
        peer: &PeerId,
        username: &str,
        content: &str,
        proof: &[u8],
        now_secs: u64,
        now: u64,
    ) -> (r: Result<Vec<u8>, NetError>)
        requires
            old(self).wf(),
        ensures
            final(self).wf(),
            final(self).local() == old(self).local(),
            final(self).own_id() == old(self).own_id(),
            final(self).own_proof() == old(self).own_proof(),
            final(self).verifying_key() == old(self).verifying_key(),
            encrypt_outcome(*old(self), *final(self), peer@, username@, content@, proof@, now_secs, now, r),
    {
        let identity_id = match &self.identity {
            Some(i) => to_vec(&i.public_id()),
            None => Vec::new(),
        };
        let chat = ChatMessage {
            username: username.to_owned(),
            content: content.to_owned(),
            timestamp: now_secs,
            identity_id,
        };
        let plaintext = chat.encode_to_vec();
        assert(plaintext@ == chat_bytes(username@, content@, now_secs, self.own_id()));
        let signature = match self.session_mgr.sign(plaintext.as_slice()) {
            Ok(s) => s,
            Err(_) => return Err(NetError::Crypto),
        };
        let idx = self.session_mgr.ensure_session_at(peer, now);
        let key = self.session_mgr.key_at(idx);
        let envelope = Envelope::from_key(&key);
        let sealed = match envelope.encrypt(plaintext.as_slice()) {
            Ok(c) => c,
            Err(_) => return Err(NetError::Crypto),
        };
        let nonce = to_vec(vstd::slice::slice_subrange(sealed.as_slice(), 0, NONCE_LEN));
        let ciphertext = to_vec(vstd::slice::slice_subrange(sealed.as_slice(), NONCE_LEN, sealed.len()));
        assert(nonce@ + ciphertext@ =~= sealed@);
        let (frame_id, frame_proof) = match (&self.identity, &self.verifier) {
            (Some(i), Some(v)) => {
                let id = i.public_id();
                if proof.len() > 0 && matches!(v.verify(proof, &id), Ok(true)) {
                    (to_vec(&id), to_vec(proof))
                } else {
                    (Vec::new(), Vec::new())
                }
            },
            _ => (Vec::new(), Vec::new()),
        };
        let pq_signature = match signature.pq {
            Some(p) => p,
            None => Vec::new(),
        };
        let frame = EncryptedMessage {
            sender: self.local_peer_id.to_bytes(),
            nonce,
            ciphertext,
            timestamp: now_secs,
            signature: signature.classical,
            identity_id: frame_id,
            identity_proof: frame_proof,
            pq_signature,
        };
        let ghost t_used = self.session_mgr.table();
        assert(frame.signature@.len() == 64);
        proof {
            self.session_mgr.lemma_table_bounds();
            crate::session::lemma_index_of_found(t_used, peer@, idx as int);
        }
        self.session_mgr.increment_at(idx);
        proof {
            self.session_mgr.lemma_table_bounds();
            crate::session::lemma_index_of_found(self.session_mgr.table(), peer@, idx as int);
        }
        let out = frame.encode_to_vec();
        let out_len = out.len();
        assert(out@.len() == out_len);
        proof {
            crate::wire::lemma_encrypted_round_trip(frame);
        }
        Ok(out)
    }

    /// Encrypts a chat message for `peer` at second `now_secs` and millisecond
    /// `now`, with the proof given to `set_identity`.
    pub fn encrypt_message_at(
        &mut self,
        peer: &PeerId,
        username: &str,
        content: &str,
        now_secs: u64,
        now: u64,
    ) -> (r: Result<Vec<u8>, NetError>)
        requires
            old(self).wf(),
        ensures
            final(self).wf(),
            final(self).local() == old(self).local(),
            encrypt_outcome(*old(self), *final(self), peer@, username@, content@, old(self).own_proof(), now_secs, now, r),
    {
        let proof = to_vec(self.identity_proof.as_slice());
        let r = self.encrypt_message_with_proof_at(peer, username, content, proof.as_slice(), now_secs, now);
        proof {
            if old(self).identity is None {
                assert(old(self).own_id().len() == 0);
            }
        }
        r
    }

    /// Encrypts a chat message for `peer`, with the proof given to `set_identity`;
    /// fails with `Crypto`, changing nothing, when the wall clock reads before 1970.
    pub fn encrypt_message(&mut self, peer: &PeerId, username: &str, content: &str) -> (r: Result<Vec<u8>, NetError>)
        requires
            old(self).wf(),
        ensures
            final(self).wf(),
            final(self).local() == old(self).local(),
            (r == Err::<Vec<u8>, NetError>(NetError::Crypto) && final(self).manager() == old(self).manager())
                || exists|now_secs: u64, now: u64|
                encrypt_outcome(*old(self), *final(self), peer@, username@, content@, old(self).own_proof(), now_secs, now, r),
    {
        match wall_clock_secs() {
            Some(secs) => {
                let now = self.clock_now();
                let r = self.encrypt_message_at(peer, username, content, secs, now);
                assert(encrypt_outcome(*old(self), *self, peer@, username@, content@, old(self).own_proof(), secs, now, r));
                r
            },
            None => Err(NetError::Crypto),
        }
    }

    /// Encrypts a chat message for `peer` with a proof made for this message;
    /// fails with `Crypto`, changing nothing, when the wall clock reads before 1970.
    pub fn encrypt_message_with_proof(&mut self, peer: &PeerId, username: &str, content: &str, proof: &[u8]) -> (r:
        Result<Vec<u8>, NetError>)
        requires
            old(self).wf(),
        ensures
            final(self).wf(),
            final(self).local() == old(self).local(),
            (r == Err::<Vec<u8>, NetError>(NetError::Crypto) && final(self).manager() == old(self).manager())
                || exists|now_secs: u64, now: u64|
                encrypt_outcome(*old(self), *final(self), peer@, username@, content@, proof@, now_secs, now, r),
    {
        match wall_clock_secs() {
            Some(secs) => {
                let now = self.clock_now();
                let r = self.encrypt_message_with_proof_at(peer, username, content, proof, secs, now);
                assert(encrypt_outcome(*old(self), *self, peer@, username@, content@, proof@, secs, now, r));
                r
            },
            None => Err(NetError::Crypto),
        }
    }

    /// Decrypts a frame from `peer` at monotonic millisecond `now`: username,
    /// content, and the sender's identity when its proof verifies.
    pub fn decrypt_message_at(&mut self, peer: &PeerId, data: &[u8], now: u64) -> (r: Result<(String, String, Option<[u8; 32]>), NetError>)
        requires
            old(self).wf(),
        ensures
            final(self).wf(),
            final(self).local() == old(self).local(),
            final(self).manager().pins() == old(self).manager().pins(),
            decrypt_outcome(*old(self), *final(self), peer@, data@, now, r),
    {
        let frame = match EncryptedMessage::decode(data) {
            Ok(m) => m,
            Err(_) => return Err(NetError::Protocol),
        };
        let idx = self.session_mgr.ensure_session_at(peer, now);
        proof {
            self.session_mgr.lemma_table_bounds();
            crate::session::lemma_index_of_found(self.session_mgr.table(), peer@, idx as int);
        }
        let key = self.session_mgr.key_at(idx);
        let mut sealed: Vec<u8> = Vec::new();
        append(&mut sealed, frame.nonce.as_slice());
        append(&mut sealed, frame.ciphertext.as_slice());
        let envelope = Envelope::from_key(&key);
        let secret = match envelope.decrypt(sealed.as_slice()) {
            Ok(p) => p,
            Err(_) => return Err(NetError::Decrypt),
        };
        let plaintext = secret.as_bytes();
        if frame.signature.len() > 0 {
            if frame.signature.len() != 64 {
                return Err(NetError::SignatureVerification);
            }
            let sig = crate::bytes::to_array64(frame.signature.as_slice());
            match self.session_mgr.get_peer_key(peer) {
                Some(k) => {
                    if !ed25519_verify(k, plaintext, &sig) {
                        return Err(NetError::SignatureVerification);
                    }
                },
                None => {},
            }
        }
        if frame.pq_signature.len() > 0 {
            match self.session_mgr.get_peer_lattice_key(peer) {
                Some(lk) => match dilithium_verify(frame.pq_signature.as_slice(), plaintext, lk) {
                    Some(true) => {},
                    _ => return Err(NetError::SignatureVerification),
                },
                None => {},
            }
        }
        let mut verified: Option<[u8; 32]> = None;
        if frame.identity_id.len() == 32 && frame.identity_proof.len() > 0 {
            let id = crate::bytes::to_array32(frame.identity_id.as_slice());
            match &self.verifier {
                Some(v) => match v.verify(frame.identity_proof.as_slice(), &id) {
                    Ok(true) => {
                        verified = Some(id);
                    },
                    _ => {},
                },
                None => {},
            }
        }
        let chat = match ChatMessage::decode(plaintext) {
            Ok(c) => c,
            Err(_) => return Err(NetError::Protocol),
        };
        Ok((chat.username, chat.content, verified))
    }

    /// Decrypts a frame from `peer`.
    pub fn decrypt_message(&mut self, peer: &PeerId, data: &[u8]) -> (r: Result<(String, String, Option<[u8; 32]>), NetError>)
        requires
            old(self).wf(),
        ensures
            final(self).wf(),
            final(self).local() == old(self).local(),
            exists|now: u64| decrypt_outcome(*old(self), *final(self), peer@, data@, now, r),
    {
        let now = self.clock_now();
        let r = self.decrypt_message_at(peer, data, now);
        assert(decrypt_outcome(*old(self), *self, peer@, data@, now, r));
        r
    }

    /// Removes every session due for rotation.
    pub fn cleanup(&mut self)
        requires
            old(self).wf(),
        ensures
            final(self).wf(),
            exists|now: u64| final(self).manager().table() == crate::session::keep_fresh(old(self).manager().table(), now),
    {
        let now = self.clock_now();
        self.session_mgr.cleanup_at(now);
        assert(self.manager().table() == crate::session::keep_fresh(old(self).manager().table(), now));
    }

    /// Number of live sessions.
    pub fn session_count(&self) -> (r: usize)
        ensures
            r == self.manager().table().len(),
    {
        self.session_mgr.session_count()
    }
}

} // verus!
