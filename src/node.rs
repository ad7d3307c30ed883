use vstd::prelude::*;
use crate::behaviour::{HandshakeBehaviour, HandshakeEvent, HandshakeOutbound, PeerState};
use crate::error::NetError;
use crate::identity::{Identity, ProofVerifier};
use crate::message::{decrypt_outcome, encrypt_outcome, MessageExchange};
use crate::session::{after_insert, fresh_record, SessionRecord};
use crate::signing::HybridPublicKey;
use crate::peer::PeerId;
use crate::wire::{handshake_message_decoding, HandshakeMessage};
use crate::behaviour::message_outcome;

verus! {

/// The crypto and protocol state a node owns; the transport drives it with events.
pub struct NodeCore {
    handshake: HandshakeBehaviour,
    exchange: MessageExchange,
}

/// The pins that the completed handshakes among `events` add, in order.
pub open spec fn completed_pins(events: Seq<HandshakeEvent>) -> Seq<(Seq<u8>, Seq<u8>, Seq<u8>)>
    decreases events.len(),
{
    if events.len() == 0 {
        Seq::empty()
    } else {
        let rest = completed_pins(events.drop_last());
        match events.last() {
            HandshakeEvent::Completed { peer_id, verify_key, .. } => rest.push((peer_id@, verify_key@, Seq::empty())),
            HandshakeEvent::Failed { .. } => rest,
        }
    }
}

/// The session table once the keys of the completed handshakes among `events`
/// are stored, in order, at time `now`.
pub open spec fn completed_table(t: Seq<SessionRecord>, events: Seq<HandshakeEvent>, now: u64) -> Seq<SessionRecord>
    decreases events.len(),
{
    if events.len() == 0 {
        t
    } else {
        let rest = completed_table(t, events.drop_last(), now);
        match events.last() {
            HandshakeEvent::Completed { peer_id, session_key, .. } => after_insert(
                rest,
                fresh_record(peer_id@, session_key@, now),
            ),
            HandshakeEvent::Failed { .. } => rest,
        }
    }
}

/// Every handshake of `pre` that awaited its Resp for the timeout at `now` is Idle in `post`; others are unchanged.
pub open spec fn expiry_applied(pre: NodeCore, post: NodeCore, now: u64) -> bool {
    forall|p: Seq<u8>| #![auto]
        post.handshake_state(p) == if pre.handshake_state(p) == PeerState::AwaitResp && crate::session::age_of(
            pre.handshake_started(p),
            now,
        ) >= crate::behaviour::HANDSHAKE_TIMEOUT_MS {
            PeerState::Idle
        } else {
            pre.handshake_state(p)
        }
}

/// Gossip bytes that decode as a handshake message went through the state
/// machine (giving `mid`), then every queued event was applied at time `now`.
pub open spec fn gossip_applied(
    pre: NodeCore,
    post: NodeCore,
    mid: HandshakeBehaviour,
    source: Seq<u8>,
    data: Seq<u8>,
    now: u64,
    outcome: Result<(), NetError>,
) -> bool {
    &&& message_outcome(pre.handshake_model(), mid, source, data, outcome)
    &&& forall|p: Seq<u8>| #![auto] post.handshake_state(p) == mid.state(p)
    &&& post.queued_events().len() == 0
    &&& post.queued_outbound() == mid.outbound_queue()
    &&& post.exchange_state().manager().pins() == pre.exchange_state().manager().pins() + completed_pins(mid.events())
    &&& post.exchange_state().manager().table() == completed_table(
        pre.exchange_state().manager().table(),
        mid.events(),
        now,
    )
}

impl NodeCore {
    pub closed spec fn handshake_model(&self) -> HandshakeBehaviour {
        self.handshake
    }

    /// Handshake events not yet applied.
    pub closed spec fn queued_events(&self) -> Seq<HandshakeEvent> {
        self.handshake.events()
    }

    /// Handshake messages not yet published.
    pub closed spec fn queued_outbound(&self) -> Seq<HandshakeOutbound> {
        self.handshake.outbound_queue()
    }

    pub closed spec fn handshake_started(&self, peer: Seq<u8>) -> u64 {
        self.handshake.started(peer)
    }

    pub closed spec fn wf(&self) -> bool {
        self.handshake.wf() && self.exchange.wf()
    }

    pub closed spec fn handshake_state(&self, peer: Seq<u8>) -> PeerState {
        self.handshake.state(peer)
    }

    pub closed spec fn handshake_key(&self, peer: Seq<u8>) -> Option<Seq<u8>> {
        self.handshake.key(peer)
    }

    pub closed spec fn exchange_state(&self) -> MessageExchange {
        self.exchange
    }

    /// A node with the long-term Ed25519 seed `identity` and identifier `local_peer_id`.
    pub fn new(identity: [u8; 32], local_peer_id: PeerId) -> (r: Result<NodeCore, NetError>)
        ensures
            r matches Ok(n) && n.wf() && n.exchange_state().local() == local_peer_id@
                && n.exchange_state().manager().table().len() == 0 && n.queued_events().len() == 0
                && n.queued_outbound().len() == 0,
    {
        let exchange = match MessageExchange::new(local_peer_id.duplicate()) {
            Ok(x) => x,
            Err(e) => return Err(e),
        };
        Ok(NodeCore { handshake: HandshakeBehaviour::new(identity, local_peer_id), exchange })
    }

    /// Attaches our identity, its proof, and the proof verifier.
    pub fn set_identity(&mut self, identity: Identity, identity_proof: Vec<u8>, verifier: ProofVerifier)
        requires
            old(self).wf(),
        ensures
            final(self).wf(),
            final(self).exchange_state().own_id() == identity.id_bytes(),
            final(self).exchange_state().own_proof() == identity_proof@,
            final(self).exchange_state().verifying_key() == Some(verifier.key_bytes()),
            final(self).exchange_state().manager() == old(self).exchange_state().manager(),
    {
        self.exchange.set_identity(identity, identity_proof, verifier);
    }

    /// A connection to `peer` was established: start a handshake (idempotent).
    pub fn on_connection_established(&mut self, peer: &PeerId)
        requires
            old(self).wf(),
        ensures
            final(self).wf(),
            old(self).handshake_state(peer@) == PeerState::Idle ==> final(self).handshake_state(peer@)
                == PeerState::AwaitResp && final(self).queued_outbound().len() == old(self).queued_outbound().len() + 1,
            old(self).handshake_state(peer@) == PeerState::Failed ==> final(self).handshake_state(peer@)
                == PeerState::AwaitResp || final(self).handshake_state(peer@) == PeerState::Failed,
            old(self).handshake_state(peer@) == PeerState::AwaitResp || old(self).handshake_state(peer@)
                == PeerState::Established ==> final(self).handshake_state(peer@) == old(self).handshake_state(peer@),
    {
        proof {
            self.handshake.lemma_queue_lens();
        }
        let _ = self.handshake.initiate_handshake(peer);
        proof {
            self.handshake.lemma_queue_lens();
        }
    }

    /// Gossip bytes from `source`: a handshake message is handled here and
    /// `None` is returned; anything else is returned to be treated as a chat frame.
    pub fn on_gossip(&mut self, source: &PeerId, data: Vec<u8>) -> (r: (Option<Vec<u8>>, Result<(), NetError>))
        requires
            old(self).wf(),
        ensures
            final(self).wf(),
            handshake_message_decoding(data@) is Some <==> r.0 is None,
            r.0 matches Some(d) ==> d@ == data@ && r.1 is Ok && *final(self) == *old(self),
            handshake_message_decoding(data@) is Some ==> exists|mid: HandshakeBehaviour, now: u64|
                gossip_applied(*old(self), *final(self), mid, source@, data@, now, r.1),
    {
        match HandshakeMessage::decode_from_bytes(data.as_slice()) {
            Ok(_) => {
                let outcome = self.handshake.handle_message(source, data.as_slice());
                let ghost mid = self.handshake;
                let ghost before = *self;
                self.apply_handshake_events();
                proof {
                    let now = choose|n: u64|
                        self.exchange_state().manager().table() == completed_table(
                            before.exchange_state().manager().table(),
                            before.queued_events(),
                            n,
                        );
                    assert(gossip_applied(*old(self), *self, mid, source@, data@, now, outcome));
                }
                (None, outcome)
            },
            Err(_) => (Some(data), Ok(())),
        }
    }

    /// Applies completed handshakes, oldest first: pins each peer's verifying
    /// key and installs its session key.
    pub fn apply_handshake_events(&mut self)
        requires
            old(self).wf(),
        ensures
            final(self).wf(),
            forall|p: Seq<u8>| #![auto] final(self).handshake_state(p) == old(self).handshake_state(p),
            final(self).queued_events().len() == 0,
            final(self).queued_outbound() == old(self).queued_outbound(),
            final(self).exchange_state().manager().pins() == old(self).exchange_state().manager().pins()
                + completed_pins(old(self).queued_events()),
            exists|now: u64|
                final(self).exchange_state().manager().table() == completed_table(
                    old(self).exchange_state().manager().table(),
                    old(self).queued_events(),
                    now,
                ),
    {
        let now = self.exchange.clock_now();
        let ghost all = self.handshake.events();
        let ghost pins0 = self.exchange.manager().pins();
        let ghost table0 = self.exchange.manager().table();
        let ghost mut k: int = 0;
        proof {
            assert(all.subrange(0, 0) =~= Seq::<HandshakeEvent>::empty());
            assert(pins0 + completed_pins(Seq::empty()) =~= pins0);
        }
        loop
            invariant
                self.wf(),
                forall|p: Seq<u8>| #![auto] self.handshake_state(p) == old(self).handshake_state(p),
                0 <= k <= all.len(),
                all == old(self).queued_events(),
                self.queued_outbound() == old(self).queued_outbound(),
                self.handshake.events() == all.subrange(k, all.len() as int),
                self.exchange.manager().pins() == pins0 + completed_pins(all.subrange(0, k)),
                self.exchange.manager().table() == completed_table(table0, all.subrange(0, k), now),
            ensures
                k == all.len(),
            decreases self.handshake.events_len(),
        {
            proof {
                self.handshake.lemma_queue_lens();
            }
            let ev = self.handshake.poll_event();
            proof {
                if ev is Some {
                    assert(all.subrange(0, k + 1).drop_last() =~= all.subrange(0, k));
                    assert(all.subrange(0, k + 1).last() == all[k]);
                    assert(all.subrange(k + 1, all.len() as int) =~= all.subrange(k, all.len() as int).drop_first());
                } else {
                    assert(k == all.len());
                    assert(all.subrange(0, k) =~= all);
                }
            }
            match ev {
                None => break,
                Some(HandshakeEvent::Completed { peer_id, session_key, verify_key }) => {
                    proof {
                        self.exchange.lemma_manager_wf();
                    }
                    let key = HybridPublicKey::classical_only(verify_key);
                    assert(key.lattice@ =~= Seq::<u8>::empty());
                    let mgr = self.exchange.session_manager_mut();
                    mgr.register_peer(peer_id.duplicate(), key);
                    mgr.set_session_key_at(peer_id, session_key, now);
                    proof {
                        self.exchange.lemma_manager_wf();
                        k = k + 1;
                        assert(self.exchange.manager().pins() =~= pins0 + completed_pins(all.subrange(0, k)));
                    }
                },
                Some(HandshakeEvent::Failed { .. }) => {
                    proof {
                        k = k + 1;
                    }
                },
            }
        }
        assert(all.subrange(0, k) =~= all);
        assert(self.handshake.events() =~= Seq::<HandshakeEvent>::empty());
    }

    /// Returns to Idle the handshakes that have waited too long for their Resp.
    pub fn expire_stale_handshakes(&mut self)
        requires
            old(self).wf(),
        ensures
            final(self).wf(),
            exists|now: u64| expiry_applied(*old(self), *final(self), now),
    {
        let now = self.handshake.now();
        self.handshake.expire_stale_at(now);
        assert(expiry_applied(*old(self), *self, now));
    }

    /// The next handshake message to publish.
    pub fn next_outbound(&mut self) -> (r: Option<HandshakeOutbound>)
        requires
            old(self).wf(),
        ensures
            final(self).wf(),
            (r is None) == (old(self).queued_outbound().len() == 0),
            r is Some ==> r == Some(old(self).queued_outbound()[0]) && final(self).queued_outbound()
                == old(self).queued_outbound().drop_first(),
    {
        proof {
            self.handshake.lemma_queue_lens();
        }
        self.handshake.poll_outbound()
    }

    /// The session key established by handshake with `peer`.
    pub fn get_session_key(&self, peer: &PeerId) -> (r: Option<[u8; 32]>)
        ensures
            match r {
                Some(k) => self.handshake_key(peer@) == Some(k@),
                None => self.handshake_key(peer@) is None,
            },
    {
        self.handshake.get_session_key(peer)
    }

    /// Starts a handshake with `peer` by hand.
    pub fn initiate_handshake(&mut self, peer: &PeerId) -> (r: Result<(), NetError>)
        requires
            old(self).wf(),
        ensures
            final(self).wf(),
            r is Ok,
            old(self).handshake_state(peer@) == PeerState::Idle ==> final(self).handshake_state(peer@)
                == PeerState::AwaitResp,
            old(self).handshake_state(peer@) == PeerState::AwaitResp || old(self).handshake_state(peer@)
                == PeerState::Established ==> final(self).handshake_state(peer@) == old(self).handshake_state(peer@),
    {
        match self.handshake.initiate_handshake(peer) {
            Ok(()) => Ok(()),
            Err(_) => Err(NetError::Crypto),
        }
    }

    /// Encrypts a chat message for `peer`.
    pub fn encrypt_message(&mut self, peer: &PeerId, username: &str, content: &str) -> (r: Result<Vec<u8>, NetError>)
        requires
            old(self).wf(),
        ensures
            final(self).wf(),
            (r == Err::<Vec<u8>, NetError>(NetError::Crypto) && final(self).exchange_state().manager()
                == old(self).exchange_state().manager()) || exists|now_secs: u64, now: u64|
                encrypt_outcome(
                    old(self).exchange_state(),
                    final(self).exchange_state(),
                    peer@,
                    username@,
                    content@,
                    old(self).exchange_state().own_proof(),
                    now_secs,
                    now,
                    r,
                ),
    {
        let r = self.exchange.encrypt_message(peer, username, content);
        proof {
            assert(self.exchange_state() == self.exchange);
            assert(old(self).exchange_state() == old(self).exchange);
            if exists|x: u64, y: u64| encrypt_outcome(old(self).exchange_state(), self.exchange, peer@, username@, content@, old(self).exchange_state().own_proof(), x, y, r) {
                let (secs, now) = choose|x: u64, y: u64|
                    encrypt_outcome(old(self).exchange_state(), self.exchange, peer@, username@, content@, old(self).exchange_state().own_proof(), x, y, r);
                assert(encrypt_outcome(old(self).exchange_state(), self.exchange_state(), peer@, username@, content@, old(self).exchange_state().own_proof(), secs, now, r));
            }
        }
        r
    }

    /// Encrypts a chat message for `peer` with a proof made for this message
    /// (attached only when it verifies; empty after a failed proving).
    pub fn encrypt_message_with_proof(&mut self, peer: &PeerId, username: &str, content: &str, proof: &[u8]) -> (r:
        Result<Vec<u8>, NetError>)
        requires
            old(self).wf(),
        ensures
            final(self).wf(),
            (r == Err::<Vec<u8>, NetError>(NetError::Crypto) && final(self).exchange_state().manager()
                == old(self).exchange_state().manager()) || exists|now_secs: u64, now: u64|
                encrypt_outcome(
                    old(self).exchange_state(),
                    final(self).exchange_state(),
                    peer@,
                    username@,
                    content@,
                    proof@,
                    now_secs,
                    now,
                    r,
                ),
    {
        let r = self.exchange.encrypt_message_with_proof(peer, username, content, proof);
        proof {
            assert(self.exchange_state() == self.exchange);
            assert(old(self).exchange_state() == old(self).exchange);
            if exists|x: u64, y: u64| encrypt_outcome(old(self).exchange_state(), self.exchange, peer@, username@, content@, proof@, x, y, r) {
                let (secs, now) = choose|x: u64, y: u64|
                    encrypt_outcome(old(self).exchange_state(), self.exchange, peer@, username@, content@, proof@, x, y, r);
                assert(encrypt_outcome(old(self).exchange_state(), self.exchange_state(), peer@, username@, content@, proof@, secs, now, r));
            }
        }
        r
    }

    /// Decrypts a chat frame from `peer`.
    pub fn decrypt_message(&mut self, peer: &PeerId, data: &[u8]) -> (r: Result<(String, String, Option<[u8; 32]>), NetError>)
        requires
            old(self).wf(),
        ensures
            final(self).wf(),
            exists|now: u64| decrypt_outcome(old(self).exchange_state(), final(self).exchange_state(), peer@, data@, now, r),
    {
        let r = self.exchange.decrypt_message(peer, data);
        proof {
            let now = choose|y: u64| decrypt_outcome(old(self).exchange_state(), self.exchange, peer@, data@, y, r);
            assert(decrypt_outcome(old(self).exchange_state(), self.exchange_state(), peer@, data@, now, r));
        }
        r
    }

    /// Number of sessions held.
    pub fn session_count(&self) -> (r: usize)
        ensures
            r == self.exchange_state().manager().table().len(),
    {
        self.exchange.session_count()
    }
}

} // verus!
