use vstd::prelude::*;
use crate::bytes::{bytes_eq, lex_less, to_array32, to_vec};
use crate::error::{CryptoError, NetError};
use crate::clock::{instant_now, millis_since};
use crate::session::age_of;
use std::time::Instant;
use crate::handshake::{init_authentic, resp_authentic, session_key_of, transcript, Handshake};
use crate::kem::{hybrid_combine, kyber_decap, x25519_public, x25519_shared, PQ_CIPHERTEXT_LEN, PQ_KEM_PUBLIC_LEN};
use crate::signing::{ed25519_public, ed25519_signature};
use crate::handshake_message::Message;
use crate::peer::PeerId;
use crate::wire::{handshake_message_decoding, handshake_message_encoding, HandshakeInit, HandshakeMessage, HandshakeResp};

verus! {

/// A handshake still awaiting its Resp after this long (milliseconds) returns to Idle.
pub const HANDSHAKE_TIMEOUT_MS: u64 = 30_000;

/// After a failure, a new handshake with the same peer waits this long (milliseconds).
pub const HANDSHAKE_BACKOFF_MS: u64 = 5_000;

/// Handshake progress with one peer.
#[derive(Debug, Clone, Copy, PartialEq, Eq, Structural)]
pub enum PeerState {
    Idle,
    AwaitResp,
    Established,
    Failed,
}

/// What the handshake reports to the node.
#[derive(Debug)]
pub enum HandshakeEvent {
    Completed { peer_id: PeerId, session_key: [u8; 32], verify_key: [u8; 32] },
    Failed { peer_id: PeerId, error: CryptoError },
}

/// A handshake message to publish.
#[derive(Debug)]
pub enum HandshakeOutbound {
    SendInit { peer_id: PeerId, data: Vec<u8> },
    SendResp { peer_id: PeerId, data: Vec<u8> },
}

struct PeerEntry {
    peer: PeerId,
    state: PeerState,
    pending: Option<Handshake>,
    remote_ephemeral: Vec<u8>,
    session_key: Option<[u8; 32]>,
    verify_key: Option<[u8; 32]>,
    started_at: u64,
}

/// Position of the entry of `peer` in a list of peer identifiers, or -1.
pub open spec fn position_of(peers: Seq<Seq<u8>>, peer: Seq<u8>) -> int
    decreases peers.len(),
{
    if peers.len() == 0 {
        -1
    } else if peers.last() == peer {
        peers.len() - 1
    } else {
        position_of(peers.drop_last(), peer)
    }
}

proof fn lemma_position_of(peers: Seq<Seq<u8>>, peer: Seq<u8>)
    ensures
        -1 <= position_of(peers, peer) < peers.len(),
        position_of(peers, peer) >= 0 ==> peers[position_of(peers, peer)] == peer,
        position_of(peers, peer) < 0 ==> forall|i: int| 0 <= i < peers.len() ==> peers[i] != peer,
    decreases peers.len(),
{
    if peers.len() > 0 {
        lemma_position_of(peers.drop_last(), peer);
        if peers.last() != peer {
            assert forall|i: int| 0 <= i < peers.len() - 1 implies peers[i] == peers.drop_last()[i] by {}
        }
    }
}

proof fn lemma_position_unique(peers: Seq<Seq<u8>>, peer: Seq<u8>, i: int)
    requires
        forall|a: int, b: int| 0 <= a < b < peers.len() ==> peers[a] != peers[b],
        0 <= i < peers.len(),
        peers[i] == peer,
    ensures
        position_of(peers, peer) == i,
{
    lemma_position_of(peers, peer);
}

/// A Resp message (as bytes) that answers an Init carrying `init_x25519`: sent
/// from `local`, signed with the identity `seed` over its transcript, with a
/// fresh ephemeral key; `key` is the session key derived with it.
pub open spec fn resp_message_from(data: Seq<u8>, local: Seq<u8>, seed: Seq<u8>, init_x25519: Seq<u8>, key: Seq<u8>) -> bool {
    exists|r: HandshakeResp, eph: Seq<u8>, lattice: Seq<u8>|
        {
            &&& data == handshake_message_encoding(HandshakeMessage { message: Some(Message::Resp(r)) })
            &&& r.peer_id@ == local
            &&& r.x25519_pk@ == x25519_public(eph)
            &&& r.pq_ct@.len() == PQ_CIPHERTEXT_LEN
            &&& r.signature@ == ed25519_signature(seed, transcript(local, r.x25519_pk@, r.pq_ct@))
            &&& r.verify_key@ == ed25519_public(seed)
            &&& lattice.len() == 32
            &&& key == session_key_of(hybrid_combine(x25519_shared(eph, init_x25519), lattice))
        }
}

/// An Init message (as bytes) that starts the pending handshake `h`: sent from
/// `local`, carrying `h`'s ephemeral keys, signed with the identity `seed`.
pub open spec fn init_message_from(data: Seq<u8>, local: Seq<u8>, seed: Seq<u8>, h: Handshake) -> bool {
    exists|i: HandshakeInit|
        {
            &&& data == handshake_message_encoding(HandshakeMessage { message: Some(Message::Init(i)) })
            &&& i.peer_id@ == local
            &&& i.x25519_pk@ == h.kem_pair().classical_public_bytes()
            &&& i.pq_pk@ == h.kem_pair().pq_public_bytes()
            &&& i.signature@ == ed25519_signature(seed, transcript(local, i.x25519_pk@, i.pq_pk@))
            &&& i.verify_key@ == ed25519_public(seed)
        }
}

/// An Init was answered: the session key is stored, a Completed event reports it
/// with the initiator's verifying key, and a Resp is queued for the initiator.
pub open spec fn init_answered(pre: HandshakeBehaviour, post: HandshakeBehaviour, peer: Seq<u8>, init: HandshakeInit) -> bool {
    &&& post.key(peer) is Some
    &&& post.events().len() == pre.events().len() + 1
    &&& post.events().drop_last() == pre.events()
    &&& (post.events().last() matches HandshakeEvent::Completed { peer_id, session_key, verify_key }
        && peer_id@ == peer && post.key(peer) == Some(session_key@) && verify_key@ == init.verify_key@)
    &&& post.outbound_queue().len() == pre.outbound_queue().len() + 1
    &&& post.outbound_queue().drop_last() == pre.outbound_queue()
    &&& (post.outbound_queue().last() matches HandshakeOutbound::SendResp { peer_id, data } && peer_id@ == peer
        && resp_message_from(data@, pre.local(), pre.identity_seed(), init.x25519_pk@, post.key(peer)->Some_0))
}

/// An Init that is ignored (a replay, or one we out-rank as initiator) leaves the queues alone.
pub open spec fn init_ignored(pre: HandshakeBehaviour, peer: Seq<u8>, init: HandshakeInit) -> bool {
    ||| (pre.state(peer) == PeerState::Established && pre.remote_ephemeral(peer) == init.x25519_pk@)
    ||| (pre.state(peer) == PeerState::AwaitResp && lex_less(pre.local(), peer))
}

/// What handling an Init from `peer` does.
pub open spec fn init_outcome(
    pre: HandshakeBehaviour,
    post: HandshakeBehaviour,
    peer: Seq<u8>,
    init: HandshakeInit,
    r: Result<(), CryptoError>,
) -> bool {
    &&& r is Ok ==> post.state(peer) == PeerState::Established || post.state(peer) == pre.state(peer)
    &&& r is Err ==> post.state(peer) == PeerState::Failed
    &&& !init_authentic(init) && !init_ignored(pre, peer, init) ==> r == Err::<(), CryptoError>(
        CryptoError::SignatureVerification,
    )
    &&& r is Ok && post.state(peer) == PeerState::Established && pre.state(peer) != PeerState::Established
        ==> init_authentic(init) && post.pinned(peer) == Some(init.verify_key@)
    &&& init_authentic(init) && init.x25519_pk@.len() == 32 && init.pq_pk@.len() == PQ_KEM_PUBLIC_LEN
        && !init_ignored(pre, peer, init) ==> r is Ok && post.state(peer) == PeerState::Established
        && post.pinned(peer) == Some(init.verify_key@) && post.key(peer) is Some && post.remote_ephemeral(peer)
        == init.x25519_pk@
    &&& pre.state(peer) == PeerState::Established && pre.remote_ephemeral(peer) == init.x25519_pk@ ==> r is Ok
        && post.state(peer) == PeerState::Established && post.key(peer) == pre.key(peer)
    &&& init_ignored(pre, peer, init) ==> r is Ok && post.events() == pre.events() && post.outbound_queue()
        == pre.outbound_queue()
    &&& r is Ok && !init_ignored(pre, peer, init) ==> init_answered(pre, post, peer, init)
    &&& r is Err ==> post.outbound_queue() == pre.outbound_queue()
}

/// What handling a Resp from `peer` does; a completed handshake is reported by a Completed event.
pub open spec fn resp_outcome(
    pre: HandshakeBehaviour,
    post: HandshakeBehaviour,
    peer: Seq<u8>,
    resp: HandshakeResp,
    r: Result<(), CryptoError>,
) -> bool {
    &&& pre.state(peer) != PeerState::AwaitResp ==> r is Ok && post.state(peer) == pre.state(peer) && post.key(
        peer,
    ) == pre.key(peer)
    &&& pre.state(peer) == PeerState::AwaitResp && !resp_authentic(resp) ==> r == Err::<(), CryptoError>(
        CryptoError::SignatureVerification,
    ) && post.state(peer) == PeerState::Failed
    &&& pre.state(peer) == PeerState::AwaitResp && r is Ok ==> post.state(peer) == PeerState::Established
        && post.key(peer) is Some && post.pinned(peer) == Some(resp.verify_key@)
    &&& pre.state(peer) == PeerState::AwaitResp && resp_authentic(resp) && resp.x25519_pk@.len() == 32
        && resp.pq_ct@.len() == PQ_CIPHERTEXT_LEN ==> r is Ok
    &&& pre.state(peer) == PeerState::AwaitResp && r is Ok ==> (pre.pending(peer) matches Some(h) && post.key(peer)
        == Some(
        session_key_of(
            hybrid_combine(
                x25519_shared(h.kem_pair().classical_secret_bytes(), resp.x25519_pk@),
                kyber_decap(h.kem_pair().pq_secret_bytes(), resp.pq_ct@),
            ),
        ),
    ))
    &&& pre.state(peer) != PeerState::AwaitResp ==> post.events() == pre.events()
    &&& post.outbound_queue() == pre.outbound_queue()
    &&& pre.state(peer) == PeerState::AwaitResp && r is Ok ==> {
        &&& post.events().len() == pre.events().len() + 1
        &&& post.events().drop_last() == pre.events()
        &&& (post.events().last() matches HandshakeEvent::Completed { peer_id, session_key, verify_key }
            && peer_id@ == peer && post.key(peer) == Some(session_key@) && verify_key@ == resp.verify_key@)
    }
}

/// The error a handshake failure surfaces as at the network layer.
pub open spec fn net_result(r: Result<(), CryptoError>) -> Result<(), NetError> {
    match r {
        Ok(()) => Ok(()),
        Err(CryptoError::SignatureVerification) => Err(NetError::SignatureVerification),
        Err(_) => Err(NetError::Crypto),
    }
}

/// What handling handshake bytes from `peer` does: a frame that does not
/// decode is a protocol error; an Init or a Resp is handled as such.
pub open spec fn message_outcome(
    pre: HandshakeBehaviour,
    post: HandshakeBehaviour,
    peer: Seq<u8>,
    data: Seq<u8>,
    r: Result<(), NetError>,
) -> bool {
    match handshake_message_decoding(data) {
        None => r == Err::<(), NetError>(NetError::Protocol) && post == pre,
        Some(None) => r is Ok && post == pre,
        Some(Some((true, f))) => exists|init: HandshakeInit, cr: Result<(), CryptoError>|
            {
                &&& init.peer_id@ == f[0] && init.x25519_pk@ == f[1] && init.pq_pk@ == f[2]
                &&& init.signature@ == f[3] && init.verify_key@ == f[4]
                &&& init_outcome(pre, post, peer, init, cr)
                &&& r == net_result(cr)
            },
        Some(Some((false, f))) => exists|resp: HandshakeResp, cr: Result<(), CryptoError>|
            {
                &&& resp.peer_id@ == f[0] && resp.x25519_pk@ == f[1] && resp.pq_ct@ == f[2]
                &&& resp.signature@ == f[3] && resp.verify_key@ == f[4]
                &&& resp_outcome(pre, post, peer, resp, cr)
                &&& r == net_result(cr)
            },
    }
}

/// Per-peer handshake state machine: emits Init and Resp messages, completes
/// handshakes, and reports established session keys.
pub struct HandshakeBehaviour {
    identity: [u8; 32],
    local_peer_id: PeerId,
    peers: Vec<PeerEntry>,
    events: Vec<HandshakeEvent>,
    outbound: Vec<HandshakeOutbound>,
    epoch: Instant,
}

impl HandshakeBehaviour {
    spec fn peer_ids(&self) -> Seq<Seq<u8>> {
        self.peers@.map_values(|e: PeerEntry| e.peer@)
    }

    pub closed spec fn local(&self) -> Seq<u8> {
        self.local_peer_id@
    }

    pub closed spec fn wf(&self) -> bool {
        &&& forall|a: int, b: int| 0 <= a < b < self.peer_ids().len() ==> self.peer_ids()[a] != self.peer_ids()[b]
        &&& forall|i: int| 0 <= i < self.peers@.len() ==> ((#[trigger] self.peers@[i]).pending matches Some(h) ==> h.wf())
        &&& forall|i: int| 0 <= i < self.peers@.len() ==> ((#[trigger] self.peers@[i]).state == PeerState::AwaitResp ==> self.peers@[i].pending is Some)
    }

    /// The handshake state of `peer` (Idle when never seen).
    pub closed spec fn state(&self, peer: Seq<u8>) -> PeerState {
        let i = position_of(self.peer_ids(), peer);
        if i < 0 {
            PeerState::Idle
        } else {
            self.peers@[i].state
        }
    }

    /// The session key established with `peer`, if any.
    pub closed spec fn key(&self, peer: Seq<u8>) -> Option<Seq<u8>> {
        let i = position_of(self.peer_ids(), peer);
        if i < 0 {
            None
        } else {
            match self.peers@[i].session_key {
                Some(k) => Some(k@),
                None => None,
            }
        }
    }

    /// The verifying key pinned for `peer`, if any.
    pub closed spec fn pinned(&self, peer: Seq<u8>) -> Option<Seq<u8>> {
        let i = position_of(self.peer_ids(), peer);
        if i < 0 {
            None
        } else {
            match self.peers@[i].verify_key {
                Some(k) => Some(k@),
                None => None,
            }
        }
    }

    /// The long-term Ed25519 seed the state machine signs with.
    pub closed spec fn identity_seed(&self) -> Seq<u8> {
        self.identity@
    }

    /// The classical ephemeral key `peer` used in its last accepted message.
    pub closed spec fn remote_ephemeral(&self, peer: Seq<u8>) -> Seq<u8> {
        let i = position_of(self.peer_ids(), peer);
        if i < 0 {
            Seq::empty()
        } else {
            self.peers@[i].remote_ephemeral@
        }
    }

    /// The handshake we started with `peer` and that awaits its Resp.
    pub closed spec fn pending(&self, peer: Seq<u8>) -> Option<Handshake> {
        let i = position_of(self.peer_ids(), peer);
        if i < 0 {
            None
        } else {
            self.peers@[i].pending
        }
    }

    /// When the current handshake attempt with `peer` started (or failed).
    pub closed spec fn started(&self, peer: Seq<u8>) -> u64 {
        let i = position_of(self.peer_ids(), peer);
        if i < 0 {
            0
        } else {
            self.peers@[i].started_at
        }
    }

    pub closed spec fn known_peers(&self) -> nat {
        self.peers@.len()
    }

    pub closed spec fn outbound_len(&self) -> nat {
        self.outbound@.len()
    }

    /// The handshake events not yet handed out, oldest first.
    pub closed spec fn events(&self) -> Seq<HandshakeEvent> {
        self.events@
    }

    /// The handshake messages not yet handed out, oldest first.
    pub closed spec fn outbound_queue(&self) -> Seq<HandshakeOutbound> {
        self.outbound@
    }

    /// The queue lengths are those of the queues.
    pub proof fn lemma_queue_lens(&self)
        ensures
            self.outbound_len() == self.outbound_queue().len(),
            self.events_len() == self.events().len(),
    {
    }

    pub closed spec fn events_len(&self) -> nat {
        self.events@.len()
    }

    /// A state machine for the node `local_peer_id` signing with the Ed25519 seed `identity`.
    pub fn new(identity: [u8; 32], local_peer_id: PeerId) -> (r: HandshakeBehaviour)
        ensures
            r.wf(),
            r.local() == local_peer_id@,
            forall|p: Seq<u8>| r.state(p) == PeerState::Idle && r.key(p) is None && r.pinned(p) is None,
            r.outbound_len() == 0,
            r.events_len() == 0,
            r.outbound_queue().len() == 0,
            r.events().len() == 0,
    {
        let r = HandshakeBehaviour {
            identity,
            local_peer_id,
            peers: Vec::new(),
            events: Vec::new(),
            outbound: Vec::new(),
            epoch: instant_now(),
        };
        assert(r.peer_ids() =~= Seq::<Seq<u8>>::empty());
        r
    }

    /// The state machine's monotonic clock: milliseconds since it was created.
    pub fn now(&self) -> (r: u64) {
        millis_since(&self.epoch)
    }

    /// Number of peers known to the state machine.
    pub fn peer_count(&self) -> (r: usize)
        ensures
            r == self.known_peers(),
    {
        self.peers.len()
    }

    fn find(&self, peer: &PeerId) -> (r: Option<usize>)
        ensures
            match r {
                Some(i) => i as int == position_of(self.peer_ids(), peer@) && i < self.peers@.len(),
                None => position_of(self.peer_ids(), peer@) < 0,
            },
    {
        let ghost ids = self.peer_ids();
        let mut i: usize = self.peers.len();
        assert(ids.subrange(0, i as int) == ids);
        while i > 0
            invariant
                0 <= i <= self.peers@.len(),
                ids == self.peer_ids(),
                position_of(ids, peer@) == position_of(ids.subrange(0, i as int), peer@),
            decreases i,
        {
            assert(ids.subrange(0, i as int).drop_last() == ids.subrange(0, i - 1));
            if self.peers[i - 1].peer.same(peer) {
                return Some(i - 1);
            }
            i = i - 1;
        }
        None
    }

    /// Position of the entry of `peer`, created in state Idle when missing.
    fn entry(&mut self, peer: &PeerId) -> (r: usize)
        requires
            old(self).wf(),
        ensures
            final(self).wf(),
            r < final(self).peers@.len(),
            final(self).peer_ids()[r as int] == peer@,
            final(self).local() == old(self).local(),
            final(self).identity == old(self).identity,
            final(self).outbound@ == old(self).outbound@,
            final(self).events@ == old(self).events@,
            forall|p: Seq<u8>| #![auto] final(self).state(p) == old(self).state(p) && final(self).key(p) == old(self).key(p)
                && final(self).pinned(p) == old(self).pinned(p),
            forall|p: Seq<u8>| #![auto] final(self).started(p) == old(self).started(p) && final(self).remote_ephemeral(p)
                == old(self).remote_ephemeral(p) && final(self).pending(p) == old(self).pending(p),
    {
        let ghost ids = self.peer_ids();
        proof {
            lemma_position_of(ids, peer@);
        }
        match self.find(peer) {
            Some(i) => i,
            None => {
                self.peers.push(PeerEntry {
                    peer: peer.duplicate(),
                    state: PeerState::Idle,
                    pending: None,
                    remote_ephemeral: Vec::new(),
                    session_key: None,
                    verify_key: None,
                    started_at: 0,
                });
                let n = self.peers.len() - 1;
                assert(self.peer_ids() =~= ids.push(peer@));
                assert forall|p: Seq<u8>| #![auto] self.state(p) == old(self).state(p) && self.key(p) == old(self).key(p)
                    && self.pinned(p) == old(self).pinned(p) && self.started(p) == old(self).started(p)
                    && self.remote_ephemeral(p) == old(self).remote_ephemeral(p) && self.pending(p) == old(self).pending(p) by {
                    lemma_position_of(ids, p);
                    lemma_position_of(self.peer_ids(), p);
                    if p != peer@ {
                        assert(self.peer_ids().drop_last() == ids);
                    }
                }
                n
            },
        }
    }

    /// Replaces the entry at `i`, keeping its peer.
    fn update_entry(
        &mut self,
        i: usize,
        state: PeerState,
        pending: Option<Handshake>,
        session_key: Option<[u8; 32]>,
        verify_key: Option<[u8; 32]>,
        remote_ephemeral: Vec<u8>,
        started_at: u64,
    )
        requires
            old(self).wf(),
            i < old(self).peers@.len(),
            pending matches Some(h) ==> h.wf(),
            state == PeerState::AwaitResp ==> pending is Some,
        ensures
            final(self).wf(),
            final(self).peer_ids() == old(self).peer_ids(),
            final(self).peers@.len() == old(self).peers@.len(),
            final(self).peers@[i as int].state == state,
            final(self).peers@[i as int].session_key == session_key,
            final(self).peers@[i as int].verify_key == verify_key,
            final(self).peers@[i as int].started_at == started_at,
            final(self).peers@[i as int].remote_ephemeral@ == remote_ephemeral@,
            final(self).peers@[i as int].pending == pending,
            forall|j: int| 0 <= j < old(self).peers@.len() && j != i ==> final(self).peers@[j] == old(self).peers@[j],
            final(self).local() == old(self).local(),
            final(self).identity == old(self).identity,
            final(self).outbound@ == old(self).outbound@,
            final(self).events@ == old(self).events@,
    {
        let ghost ids = self.peer_ids();
        let peer = self.peers[i].peer.duplicate();
        let ghost eph = remote_ephemeral@;
        self.peers[i] = PeerEntry { peer, state, pending, remote_ephemeral, session_key, verify_key, started_at };
        assert(self.peers@[i as int].remote_ephemeral@ == eph);
        assert(self.peer_ids() =~= ids);
    }

    /// Pins a verifying key on the entry at `i`.
    fn pin_entry(&mut self, i: usize, verify_key: [u8; 32])
        requires
            old(self).wf(),
            i < old(self).peers@.len(),
        ensures
            final(self).wf(),
            final(self).peer_ids() == old(self).peer_ids(),
            final(self).peers@.len() == old(self).peers@.len(),
            final(self).peers@[i as int].state == old(self).peers@[i as int].state,
            final(self).peers@[i as int].session_key == old(self).peers@[i as int].session_key,
            final(self).peers@[i as int].verify_key == Some(verify_key),
            forall|j: int| 0 <= j < old(self).peers@.len() && j != i ==> final(self).peers@[j] == old(self).peers@[j],
    {
        let ghost ids = self.peer_ids();
        self.peers[i].verify_key = Some(verify_key);
        assert(self.peer_ids() =~= ids);
        assert forall|j: int| 0 <= j < self.peers@.len() implies (#[trigger] self.peers@[j]).pending == old(self).peers@[j].pending && self.peers@[j].state == old(self).peers@[j].state by {}
    }

    /// Pins the verifying key of `peer`.
    pub fn register_peer(&mut self, peer: &PeerId, verify_key: [u8; 32])
        requires
            old(self).wf(),
        ensures
            final(self).wf(),
            final(self).pinned(peer@) == Some(verify_key@),
            final(self).state(peer@) == old(self).state(peer@),
            final(self).key(peer@) == old(self).key(peer@),
    {
        let i = self.entry(peer);
        proof {
            lemma_position_unique(self.peer_ids(), peer@, i as int);
        }
        self.pin_entry(i, verify_key);
    }

    /// The state of `peer`.
    pub fn peer_state(&self, peer: &PeerId) -> (r: PeerState)
        ensures
            r == self.state(peer@),
    {
        match self.find(peer) {
            Some(i) => self.peers[i].state,
            None => PeerState::Idle,
        }
    }

    /// The session key established with `peer`.
    pub fn get_session_key(&self, peer: &PeerId) -> (r: Option<[u8; 32]>)
        ensures
            match r {
                Some(k) => self.key(peer@) == Some(k@),
                None => self.key(peer@) is None,
            },
    {
        match self.find(peer) {
            Some(i) => self.peers[i].session_key,
            None => None,
        }
    }

    /// The verifying key pinned for `peer`.
    pub fn get_peer_key(&self, peer: &PeerId) -> (r: Option<[u8; 32]>)
        ensures
            match r {
                Some(k) => self.pinned(peer@) == Some(k@),
                None => self.pinned(peer@) is None,
            },
    {
        match self.find(peer) {
            Some(i) => self.peers[i].verify_key,
            None => None,
        }
    }

    /// Starts a handshake with `peer`: from Idle or Failed an Init is queued and
    /// the peer awaits our Resp; an ongoing or established handshake is left alone.
    pub fn initiate_handshake(&mut self, peer: &PeerId) -> (r: Result<(), CryptoError>)
        requires
            old(self).wf(),
        ensures
            final(self).wf(),
            r is Ok,
            old(self).state(peer@) == PeerState::Established || old(self).state(peer@) == PeerState::AwaitResp
                ==> final(self).state(peer@) == old(self).state(peer@) && final(self).outbound_len()
                == old(self).outbound_len(),
            old(self).state(peer@) == PeerState::Idle ==> final(self).state(peer@) == PeerState::AwaitResp
                && final(self).outbound_len() == old(self).outbound_len() + 1,
            old(self).state(peer@) == PeerState::Failed ==> final(self).state(peer@) == PeerState::Failed
                || final(self).state(peer@) == PeerState::AwaitResp,
            final(self).key(peer@) == old(self).key(peer@),
    {
        let now = self.now();
        self.initiate_handshake_at(peer, now)
    }

    /// Starts a handshake with `peer` at time `now` (see `initiate_handshake`).
    pub fn initiate_handshake_at(&mut self, peer: &PeerId, now: u64) -> (r: Result<(), CryptoError>)
        requires
            old(self).wf(),
        ensures
            final(self).wf(),
            r is Ok,
            old(self).state(peer@) == PeerState::Established || old(self).state(peer@) == PeerState::AwaitResp
                || (old(self).state(peer@) == PeerState::Failed && age_of(old(self).started(peer@), now)
                < HANDSHAKE_BACKOFF_MS) ==> final(self).state(peer@) == old(self).state(peer@)
                && final(self).outbound_len() == old(self).outbound_len(),
            old(self).state(peer@) == PeerState::Idle || (old(self).state(peer@) == PeerState::Failed && age_of(
                old(self).started(peer@),
                now,
            ) >= HANDSHAKE_BACKOFF_MS) ==> final(self).state(peer@) == PeerState::AwaitResp
                && final(self).outbound_len() == old(self).outbound_len() + 1 && final(self).started(peer@) == now,
            old(self).state(peer@) == PeerState::Idle || (old(self).state(peer@) == PeerState::Failed && age_of(
                old(self).started(peer@),
                now,
            ) >= HANDSHAKE_BACKOFF_MS) ==> (final(self).pending(peer@) matches Some(h) && final(self).outbound_queue().drop_last()
                == old(self).outbound_queue() && (final(self).outbound_queue().last() matches HandshakeOutbound::SendInit {
                peer_id,
                data,
            } && peer_id@ == peer@ && init_message_from(data@, old(self).local(), old(self).identity_seed(), h))),
            final(self).key(peer@) == old(self).key(peer@),
    {
        let i = self.entry(peer);
        proof {
            lemma_position_unique(self.peer_ids(), peer@, i as int);
        }
        let st = self.peers[i].state;
        if st == PeerState::Established || st == PeerState::AwaitResp {
            return Ok(());
        }
        let started = self.peers[i].started_at;
        if st == PeerState::Failed && (if now >= started { now - started } else { 0 }) < HANDSHAKE_BACKOFF_MS {
            return Ok(());
        }
        let hs = Handshake::new(self.identity);
        let init = match hs.initiate(&self.local_peer_id) {
            Ok(m) => m,
            Err(e) => return Err(e),
        };
        let ghost opening = init;
        let data = HandshakeMessage { message: Some(Message::Init(init)) }.encode_to_vec();
        proof {
            assert(init_message_from(data@, self.local_peer_id@, self.identity@, hs)) by {
                assert(data@ == handshake_message_encoding(HandshakeMessage { message: Some(Message::Init(opening)) }));
            }
        }
        self.outbound.push(HandshakeOutbound::SendInit { peer_id: peer.duplicate(), data });
        let key = self.peers[i].session_key;
        let vk = self.peers[i].verify_key;
        let eph = to_vec(self.peers[i].remote_ephemeral.as_slice());
        self.update_entry(i, PeerState::AwaitResp, Some(hs), key, vk, eph, now);
        proof {
            lemma_position_unique(self.peer_ids(), peer@, i as int);
            assert(self.outbound@.drop_last() =~= old(self).outbound@);
        }
        Ok(())
    }

    /// Returns to Idle every handshake that has awaited its Resp for at least
    /// `HANDSHAKE_TIMEOUT_MS` at time `now`, so that it can be retried.
    pub fn expire_stale_at(&mut self, now: u64)
        requires
            old(self).wf(),
        ensures
            final(self).wf(),
            forall|p: Seq<u8>| #![auto]
                final(self).state(p) == if old(self).state(p) == PeerState::AwaitResp && age_of(
                    old(self).started(p),
                    now,
                ) >= HANDSHAKE_TIMEOUT_MS {
                    PeerState::Idle
                } else {
                    old(self).state(p)
                },
            forall|p: Seq<u8>| #![auto] final(self).key(p) == old(self).key(p),
    {
        let ghost ids = self.peer_ids();
        let ghost before = self.peers@;
        let mut i: usize = 0;
        while i < self.peers.len()
            invariant
                self.wf(),
                self.peer_ids() == ids,
                self.peers@.len() == before.len(),
                0 <= i <= before.len(),
                forall|j: int| #![auto] i <= j < before.len() ==> self.peers@[j] == before[j],
                forall|j: int| #![auto] 0 <= j < i ==> self.peers@[j].state == (if before[j].state
                    == PeerState::AwaitResp && age_of(before[j].started_at, now) >= HANDSHAKE_TIMEOUT_MS {
                    PeerState::Idle
                } else {
                    before[j].state
                }) && self.peers@[j].session_key == before[j].session_key && self.peers@[j].started_at
                    == before[j].started_at,
            decreases before.len() - i,
        {
            let entry_state = self.peers[i].state;
            let started = self.peers[i].started_at;
            let age = if now >= started { now - started } else { 0 };
            if entry_state == PeerState::AwaitResp && age >= HANDSHAKE_TIMEOUT_MS {
                let key = self.peers[i].session_key;
                let vk = self.peers[i].verify_key;
                let eph = to_vec(self.peers[i].remote_ephemeral.as_slice());
                self.update_entry(i, PeerState::Idle, None, key, vk, eph, started);
            }
            i = i + 1;
        }
        assert forall|p: Seq<u8>| #![auto]
            self.state(p) == (if old(self).state(p) == PeerState::AwaitResp && age_of(old(self).started(p), now)
                >= HANDSHAKE_TIMEOUT_MS {
                PeerState::Idle
            } else {
                old(self).state(p)
            }) && self.key(p) == old(self).key(p) by {
            lemma_position_of(ids, p);
        }
    }

    /// Handles an Init from `peer`. An established peer replaying the same
    /// ephemeral key is ignored; while we await a Resp, the peer with the
    /// smaller identifier stays the initiator; otherwise we respond and the
    /// peer becomes Established, or Failed when the Init does not verify.
    pub fn handle_init(&mut self, peer: &PeerId, init: &HandshakeInit) -> (r: Result<(), CryptoError>)
        requires
            old(self).wf(),
        ensures
            final(self).wf(),
            init_outcome(*old(self), *final(self), peer@, *init, r),
    {
        let i = self.entry(peer);
        proof {
            lemma_position_unique(self.peer_ids(), peer@, i as int);
        }
        let st = self.peers[i].state;
        if st == PeerState::Established && bytes_eq(self.peers[i].remote_ephemeral.as_slice(), init.x25519_pk.as_slice()) {
            return Ok(());
        }
        if st == PeerState::AwaitResp && self.local_peer_id.sorts_before(peer) {
            return Ok(());
        }
        let hs = Handshake::new(self.identity);
        match hs.respond(&self.local_peer_id, init) {
            Err(e) => {
                let key = self.peers[i].session_key;
                let vk = self.peers[i].verify_key;
                let eph = to_vec(self.peers[i].remote_ephemeral.as_slice());
                let now = self.now();
                self.update_entry(i, PeerState::Failed, None, key, vk, eph, now);
                self.events.push(HandshakeEvent::Failed { peer_id: peer.duplicate(), error: e });
                proof {
                    lemma_position_unique(self.peer_ids(), peer@, i as int);
                }
                Err(e)
            },
            Ok((resp, key)) => {
                let ghost answer = resp;
                let ghost eph = hs.kem_pair().classical_secret_bytes();
                let verify_key = to_array32(init.verify_key.as_slice());
                let started = self.peers[i].started_at;
                self.update_entry(i, PeerState::Established, None, Some(key), Some(verify_key), to_vec(init.x25519_pk.as_slice()), started);
                self.events.push(HandshakeEvent::Completed { peer_id: peer.duplicate(), session_key: key, verify_key });
                let data = HandshakeMessage { message: Some(Message::Resp(resp)) }.encode_to_vec();
                self.outbound.push(HandshakeOutbound::SendResp { peer_id: peer.duplicate(), data });
                proof {
                    lemma_position_unique(self.peer_ids(), peer@, i as int);
                    assert(self.events@.drop_last() =~= old(self).events@);
                    assert(self.outbound@.drop_last() =~= old(self).outbound@);
                    let lattice = choose|l: Seq<u8>|
                        l.len() == 32 && key@ == session_key_of(hybrid_combine(x25519_shared(eph, init.x25519_pk@), l));
                    assert(data@ == handshake_message_encoding(HandshakeMessage { message: Some(Message::Resp(answer)) }));
                    assert(answer.x25519_pk@ == x25519_public(eph));
                    assert(resp_message_from(data@, old(self).local(), old(self).identity_seed(), init.x25519_pk@, key@));
                }
                Ok(())
            },
        }
    }

    /// Handles a Resp from `peer`: completes the handshake we started (the peer
    /// becomes Established, or Failed when the Resp does not verify); a Resp we
    /// did not ask for is ignored.
    pub fn handle_resp(&mut self, peer: &PeerId, resp: &HandshakeResp) -> (r: Result<(), CryptoError>)
        requires
            old(self).wf(),
        ensures
            final(self).wf(),
            resp_outcome(*old(self), *final(self), peer@, *resp, r),
    {
        let i = self.entry(peer);
        proof {
            lemma_position_unique(self.peer_ids(), peer@, i as int);
        }
        if self.peers[i].state != PeerState::AwaitResp {
            return Ok(());
        }
        let outcome = match &self.peers[i].pending {
            Some(hs) => hs.complete(resp),
            None => Err(CryptoError::KeyDerivation),
        };
        match outcome {
            Err(e) => {
                let key = self.peers[i].session_key;
                let vk = self.peers[i].verify_key;
                let eph = to_vec(self.peers[i].remote_ephemeral.as_slice());
                let now = self.now();
                self.update_entry(i, PeerState::Failed, None, key, vk, eph, now);
                self.events.push(HandshakeEvent::Failed { peer_id: peer.duplicate(), error: e });
                proof {
                    lemma_position_unique(self.peer_ids(), peer@, i as int);
                }
                Err(e)
            },
            Ok(key) => {
                let verify_key = to_array32(resp.verify_key.as_slice());
                let started = self.peers[i].started_at;
                self.update_entry(i, PeerState::Established, None, Some(key), Some(verify_key), to_vec(resp.x25519_pk.as_slice()), started);
                self.events.push(HandshakeEvent::Completed { peer_id: peer.duplicate(), session_key: key, verify_key });
                proof {
                    lemma_position_unique(self.peer_ids(), peer@, i as int);
                    assert(self.events@.drop_last() =~= old(self).events@);
                }
                Ok(())
            },
        }
    }

    /// Handles handshake bytes received from `peer`.
    pub fn handle_message(&mut self, peer: &PeerId, data: &[u8]) -> (r: Result<(), NetError>)
        requires
            old(self).wf(),
        ensures
            final(self).wf(),
            message_outcome(*old(self), *final(self), peer@, data@, r),
    {
        let msg = match HandshakeMessage::decode_from_bytes(data) {
            Ok(m) => m,
            Err(_) => return Err(NetError::Protocol),
        };
        let outcome = match &msg.message {
            Some(Message::Init(init)) => {
                let o = self.handle_init(peer, init);
                proof {
                    assert(init_outcome(*old(self), *self, peer@, *init, o));
                }
                o
            },
            Some(Message::Resp(resp)) => {
                let o = self.handle_resp(peer, resp);
                proof {
                    assert(resp_outcome(*old(self), *self, peer@, *resp, o));
                }
                o
            },
            None => Ok(()),
        };
        let r = match outcome {
            Ok(()) => Ok(()),
            Err(CryptoError::SignatureVerification) => Err(NetError::SignatureVerification),
            Err(_) => Err(NetError::Crypto),
        };
        assert(r == net_result(outcome));
        r
    }

    /// The next handshake message to publish, oldest first.
    pub fn poll_outbound(&mut self) -> (r: Option<HandshakeOutbound>)
        requires
            old(self).wf(),
        ensures
            final(self).wf(),
            (r is None) == (old(self).outbound_len() == 0),
            r is Some ==> final(self).outbound_len() == old(self).outbound_len() - 1,
            r is Some ==> r == Some(old(self).outbound_queue()[0]) && final(self).outbound_queue()
                == old(self).outbound_queue().drop_first(),
            r is None ==> final(self).outbound_queue() == old(self).outbound_queue(),
            final(self).events_len() == old(self).events_len(),
            final(self).local() == old(self).local(),
            forall|p: Seq<u8>| #![auto] final(self).state(p) == old(self).state(p) && final(self).key(p) == old(self).key(p)
                && final(self).pinned(p) == old(self).pinned(p),
    {
        if self.outbound.len() == 0 {
            None
        } else {
            let ghost ids = self.peer_ids();
            let m = self.outbound.remove(0);
            assert(self.peer_ids() == ids);
            assert(self.outbound@ =~= old(self).outbound@.drop_first());
            Some(m)
        }
    }

    /// The next handshake event, oldest first.
    pub fn poll_event(&mut self) -> (r: Option<HandshakeEvent>)
        requires
            old(self).wf(),
        ensures
            final(self).wf(),
            (r is None) == (old(self).events_len() == 0),
            r is Some ==> final(self).events_len() == old(self).events_len() - 1,
            r is Some ==> r == Some(old(self).events()[0]) && final(self).events() == old(self).events().drop_first(),
            r is None ==> final(self).events() == old(self).events(),
            final(self).outbound_queue() == old(self).outbound_queue(),
            final(self).local() == old(self).local(),
            forall|p: Seq<u8>| #![auto] final(self).state(p) == old(self).state(p) && final(self).key(p) == old(self).key(p)
                && final(self).pinned(p) == old(self).pinned(p),
    {
        if self.events.len() == 0 {
            None
        } else {
            let ghost ids = self.peer_ids();
            let m = self.events.remove(0);
            assert(self.peer_ids() == ids);
            assert(self.events@ =~= old(self).events@.drop_first());
            Some(m)
        }
    }
}

} // verus!
