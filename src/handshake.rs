use vstd::prelude::*;
use vstd::string::StringSliceAdditionalSpecFns;
use crate::bytes::{append, to_array32, to_array64, to_vec};
use crate::error::CryptoError;
use crate::hash::{sha256, sha256_of};
use crate::kem::{
    hybrid_combine, kyber_decap, x25519_public, x25519_shared, HybridKem, PQ_CIPHERTEXT_LEN,
    PQ_KEM_PUBLIC_LEN,
};
use crate::peer::PeerId;
use crate::signing::{
    ed25519_accepts, ed25519_public, ed25519_public_of, ed25519_sign, ed25519_signature, ed25519_verify,
};
use crate::wire::{HandshakeInit, HandshakeResp};

verus! {

/// Domain separator of the handshake key derivation; bound to the protocol version.
pub open spec fn handshake_domain() -> Seq<u8> {
    "umbra-quantum-shield-v0.3".spec_bytes()
}

/// The signed transcript: peer identifier, classical ephemeral key, lattice material.
pub open spec fn transcript(peer_id: Seq<u8>, x25519_pk: Seq<u8>, lattice: Seq<u8>) -> Seq<u8> {
    peer_id + x25519_pk + lattice
}

/// The session key derived from a hybrid shared secret.
pub open spec fn session_key_of(shared: Seq<u8>) -> Seq<u8> {
    sha256_of(handshake_domain() + shared)
}

/// An Init is authentic: its signature verifies under its embedded key over its transcript.
pub open spec fn init_authentic(init: HandshakeInit) -> bool {
    &&& init.signature@.len() == 64
    &&& init.verify_key@.len() == 32
    &&& ed25519_accepts(init.verify_key@, transcript(init.peer_id@, init.x25519_pk@, init.pq_pk@), init.signature@)
}

/// A Resp is authentic: its signature verifies under its embedded key over its transcript.
pub open spec fn resp_authentic(resp: HandshakeResp) -> bool {
    &&& resp.signature@.len() == 64
    &&& resp.verify_key@.len() == 32
    &&& ed25519_accepts(resp.verify_key@, transcript(resp.peer_id@, resp.x25519_pk@, resp.pq_ct@), resp.signature@)
}

/// Transcript binding: changing the peer identifier, the classical key or the
/// lattice material (at equal lengths) changes the bytes the signature covers.
pub proof fn lemma_transcript_binding(
    p1: Seq<u8>,
    x1: Seq<u8>,
    q1: Seq<u8>,
    p2: Seq<u8>,
    x2: Seq<u8>,
    q2: Seq<u8>,
)
    requires
        p1.len() == p2.len(),
        x1.len() == x2.len(),
        q1.len() == q2.len(),
        p1 != p2 || x1 != x2 || q1 != q2,
    ensures
        transcript(p1, x1, q1) != transcript(p2, x2, q2),
{
    let t1 = transcript(p1, x1, q1);
    let t2 = transcript(p2, x2, q2);
    if t1 == t2 {
        assert(p1 =~= t1.subrange(0, p1.len() as int));
        assert(p2 =~= t2.subrange(0, p2.len() as int));
        assert(x1 =~= t1.subrange(p1.len() as int, (p1.len() + x1.len()) as int));
        assert(x2 =~= t2.subrange(p2.len() as int, (p2.len() + x2.len()) as int));
        assert(q1 =~= t1.subrange((p1.len() + x1.len()) as int, t1.len() as int));
        assert(q2 =~= t2.subrange((p2.len() + x2.len()) as int, t2.len() as int));
    }
}

/// Concatenates the three transcript parts.
fn build_transcript(peer_id: &[u8], x25519_pk: &[u8], lattice: &[u8]) -> (r: Vec<u8>)
    ensures
        r@ == transcript(peer_id@, x25519_pk@, lattice@),
{
    let mut out: Vec<u8> = Vec::new();
    append(&mut out, peer_id);
    append(&mut out, x25519_pk);
    append(&mut out, lattice);
    out
}

/// Whether an embedded signature verifies over a transcript.
fn check_signature(verify_key: &[u8], message: &[u8], signature: &[u8]) -> (r: bool)
    ensures
        r == (signature@.len() == 64 && verify_key@.len() == 32 && ed25519_accepts(
            verify_key@,
            message@,
            signature@,
        )),
{
    if signature.len() != 64 || verify_key.len() != 32 {
        return false;
    }
    let key = to_array32(verify_key);
    let sig = to_array64(signature);
    ed25519_verify(&key, message, &sig)
}

/// One side of a handshake: the long-term signing key and a fresh hybrid KEM key pair.
pub struct Handshake {
    identity_seed: [u8; 32],
    identity_public: [u8; 32],
    kem: HybridKem,
}

impl Handshake {
    pub closed spec fn seed(&self) -> Seq<u8> {
        self.identity_seed@
    }

    pub closed spec fn public_bytes(&self) -> Seq<u8> {
        self.identity_public@
    }

    pub closed spec fn kem_pair(&self) -> HybridKem {
        self.kem
    }

    pub closed spec fn wf(&self) -> bool {
        &&& self.identity_public@ == ed25519_public(self.identity_seed@)
        &&& self.kem.wf()
        &&& self.kem.pq_public_bytes().len() == PQ_KEM_PUBLIC_LEN
        &&& self.kem.pq_secret_bytes().len() == crate::kem::PQ_KEM_SECRET_LEN
    }

    /// A handshake for the long-term Ed25519 seed `identity`, with fresh ephemeral keys.
    pub fn new(identity: [u8; 32]) -> (r: Handshake)
        ensures
            r.wf(),
            r.seed() == identity@,
            r.public_bytes() == ed25519_public(identity@),
            r.kem_pair().classical_public_bytes() == x25519_public(r.kem_pair().classical_secret_bytes()),
    {
        let identity_public = ed25519_public_of(&identity);
        Handshake { identity_seed: identity, identity_public, kem: HybridKem::fresh() }
    }

    /// Our long-term verifying key.
    pub fn verify_key(&self) -> (r: [u8; 32])
        ensures
            r@ == self.public_bytes(),
    {
        self.identity_public
    }

    /// The Init message announcing `peer_id` (our identifier) and our ephemeral keys.
    pub fn initiate(&self, peer_id: &PeerId) -> (r: Result<HandshakeInit, CryptoError>)
        requires
            self.wf(),
        ensures
            r matches Ok(init) && init.peer_id@ == peer_id@ && init.x25519_pk@
                == self.kem_pair().classical_public_bytes() && init.pq_pk@
                == self.kem_pair().pq_public_bytes() && init.signature@ == ed25519_signature(
                self.seed(),
                transcript(peer_id@, init.x25519_pk@, init.pq_pk@),
            ) && init.verify_key@ == self.public_bytes() && init.signature@.len() == 64
                && init.verify_key@.len() == 32,
    {
        let peer_bytes = peer_id.to_bytes();
        let x25519_pk = to_vec(self.kem.classical_public_key());
        let pq_pk = match self.kem.pq_public_key() {
            Ok(v) => v,
            Err(e) => return Err(e),
        };
        let msg = build_transcript(peer_bytes.as_slice(), x25519_pk.as_slice(), pq_pk.as_slice());
        let signature = ed25519_sign(&self.identity_seed, msg.as_slice());
        Ok(HandshakeInit {
            peer_id: peer_bytes,
            x25519_pk,
            pq_pk,
            signature: to_vec(&signature),
            verify_key: to_vec(&self.identity_public),
        })
    }

    /// Answers an Init: verifies it with its embedded key, encapsulates to the
    /// initiator's keys and derives the session key; `peer_id` is our identifier.
    pub fn respond(&self, peer_id: &PeerId, init: &HandshakeInit) -> (r: Result<(HandshakeResp, [u8; 32]), CryptoError>)
        requires
            self.wf(),
        ensures
            !init_authentic(*init) ==> r == Err::<(HandshakeResp, [u8; 32]), CryptoError>(
                CryptoError::SignatureVerification,
            ),
            init_authentic(*init) && init.x25519_pk@.len() != 32 ==> r == Err::<
                (HandshakeResp, [u8; 32]),
                CryptoError,
            >(CryptoError::InvalidKeyLength { expected: 32, got: init.x25519_pk@.len() as usize }),
            init_authentic(*init) && init.x25519_pk@.len() == 32 && init.pq_pk@.len() != PQ_KEM_PUBLIC_LEN
                ==> r == Err::<(HandshakeResp, [u8; 32]), CryptoError>(CryptoError::PostQuantum),
            init_authentic(*init) && init.x25519_pk@.len() == 32 && init.pq_pk@.len() == PQ_KEM_PUBLIC_LEN
                ==> r is Ok,
            r matches Ok((resp, key)) ==> {
                &&& resp.peer_id@ == peer_id@
                &&& resp.x25519_pk@ == self.kem_pair().classical_public_bytes()
                &&& resp.pq_ct@.len() == PQ_CIPHERTEXT_LEN
                &&& resp.signature@ == ed25519_signature(
                    self.seed(),
                    transcript(peer_id@, resp.x25519_pk@, resp.pq_ct@),
                )
                &&& resp.verify_key@ == self.public_bytes()
                &&& resp.signature@.len() == 64
                &&& resp.verify_key@.len() == 32
                &&& exists|lattice: Seq<u8>|
                    lattice.len() == 32 && key@ == session_key_of(
                        hybrid_combine(
                            x25519_shared(self.kem_pair().classical_secret_bytes(), init.x25519_pk@),
                            lattice,
                        ),
                    )
            },
    {
        let msg = build_transcript(init.peer_id.as_slice(), init.x25519_pk.as_slice(), init.pq_pk.as_slice());
        if !check_signature(init.verify_key.as_slice(), msg.as_slice(), init.signature.as_slice()) {
            return Err(CryptoError::SignatureVerification);
        }
        if init.x25519_pk.len() != 32 {
            return Err(CryptoError::InvalidKeyLength { expected: 32, got: init.x25519_pk.len() });
        }
        let peer_pk = to_array32(init.x25519_pk.as_slice());
        let (ciphertext, shared) = match self.kem.encapsulate(&peer_pk, init.pq_pk.as_slice()) {
            Ok(p) => p,
            Err(e) => return Err(e),
        };
        let session_key = Handshake::derive_key(shared.as_bytes());
        let peer_bytes = peer_id.to_bytes();
        let x25519_pk = to_vec(self.kem.classical_public_key());
        let resp_msg = build_transcript(peer_bytes.as_slice(), x25519_pk.as_slice(), ciphertext.as_slice());
        let signature = ed25519_sign(&self.identity_seed, resp_msg.as_slice());
        let resp = HandshakeResp {
            peer_id: peer_bytes,
            x25519_pk,
            pq_ct: ciphertext,
            signature: to_vec(&signature),
            verify_key: to_vec(&self.identity_public),
        };
        Ok((resp, session_key))
    }

    /// Completes the handshake on the initiator's side: verifies the Resp with
    /// its embedded key, decapsulates, and derives the session key.
    pub fn complete(&self, resp: &HandshakeResp) -> (r: Result<[u8; 32], CryptoError>)
        requires
            self.wf(),
        ensures
            !resp_authentic(*resp) ==> r == Err::<[u8; 32], CryptoError>(CryptoError::SignatureVerification),
            resp_authentic(*resp) && resp.x25519_pk@.len() != 32 ==> r == Err::<[u8; 32], CryptoError>(
                CryptoError::InvalidKeyLength { expected: 32, got: resp.x25519_pk@.len() as usize },
            ),
            resp_authentic(*resp) && resp.x25519_pk@.len() == 32 && resp.pq_ct@.len() != PQ_CIPHERTEXT_LEN
                ==> r == Err::<[u8; 32], CryptoError>(CryptoError::PostQuantum),
            resp_authentic(*resp) && resp.x25519_pk@.len() == 32 && resp.pq_ct@.len() == PQ_CIPHERTEXT_LEN
                ==> r is Ok,
            r matches Ok(key) ==> key@ == session_key_of(
                hybrid_combine(
                    x25519_shared(self.kem_pair().classical_secret_bytes(), resp.x25519_pk@),
                    kyber_decap(self.kem_pair().pq_secret_bytes(), resp.pq_ct@),
                ),
            ),
            forall|peer_secret: Seq<u8>|
                peer_secret.len() == 32 && resp.x25519_pk@ == x25519_public(peer_secret) ==> (r matches Ok(
                    key,
                ) ==> key@ == session_key_of(
                    hybrid_combine(
                        x25519_shared(peer_secret, self.kem_pair().classical_public_bytes()),
                        kyber_decap(self.kem_pair().pq_secret_bytes(), resp.pq_ct@),
                    ),
                )),
    {
        let msg = build_transcript(resp.peer_id.as_slice(), resp.x25519_pk.as_slice(), resp.pq_ct.as_slice());
        if !check_signature(resp.verify_key.as_slice(), msg.as_slice(), resp.signature.as_slice()) {
            return Err(CryptoError::SignatureVerification);
        }
        if resp.x25519_pk.len() != 32 {
            return Err(CryptoError::InvalidKeyLength { expected: 32, got: resp.x25519_pk.len() });
        }
        let peer_pk = to_array32(resp.x25519_pk.as_slice());
        match self.kem.decapsulate(&peer_pk, resp.pq_ct.as_slice()) {
            Ok(shared) => Ok(Handshake::derive_key(shared.as_bytes())),
            Err(e) => Err(e),
        }
    }

    /// The session key derived from a shared secret.
    pub fn derive_key(shared: &[u8]) -> (r: [u8; 32])
        ensures
            r@ == session_key_of(shared@),
    {
        let mut input: Vec<u8> = Vec::new();
        append(&mut input, "umbra-quantum-shield-v0.3".as_bytes());
        append(&mut input, shared);
        sha256(input.as_slice())
    }
}

} // verus!
