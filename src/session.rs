use vstd::prelude::*;
use vstd::string::StringSliceAdditionalSpecFns;
use zeroize::Zeroize;
use crate::bytes::{append, filled, lex_less};
use crate::error::CryptoError;
use crate::hash::{sha256, sha256_of};
use crate::peer::PeerId;
use crate::clock::{instant_now, millis_since};
use std::time::Instant;
use crate::signing::{ed25519_accepts, ed25519_verify, HybridPublicKey, HybridSignature, IdentityKey};

verus! {

/// A session key is retired once it is this old (24 hours, in milliseconds).
pub const SESSION_TIMEOUT_MS: u64 = 86_400_000;

/// A session key is retired once it has protected this many messages.
pub const MAX_MESSAGES_PER_KEY: u64 = 1000;

/// Capacity of the session table.
pub const MAX_SESSIONS: usize = 1000;

/// Domain separator of the provisional key derived from two peer identifiers.
pub open spec fn session_domain() -> Seq<u8> {
    "umbra-session-v1".spec_bytes()
}

/// Relies on zeroize::Zeroize for byte arrays: every byte is overwritten with zero.
#[verifier::external_body]
fn zeroize_key(key: &mut [u8; 32])
    ensures
        final(key)@ == filled(0, 32),
    opens_invariants none
    no_unwind
{
    key.zeroize();
}

/// Age of a key created at `created_at`, read at `now` (0 if the clock went back).
pub open spec fn age_of(created_at: u64, now: u64) -> u64 {
    if now >= created_at {
        (now - created_at) as u64
    } else {
        0
    }
}

/// Whether a key must be retired: too many messages or too old.
pub open spec fn rotation_due(msg_count: u64, created_at: u64, now: u64) -> bool {
    msg_count >= MAX_MESSAGES_PER_KEY || age_of(created_at, now) >= SESSION_TIMEOUT_MS
}

/// Symmetric key shared with one peer, with its creation time and use counter.
pub struct SessionKey {
    key: [u8; 32],
    created_at: u64,
    msg_count: u64,
    epoch: Instant,
}

impl SessionKey {
    pub closed spec fn key_bytes(&self) -> Seq<u8> {
        self.key@
    }

    pub closed spec fn created(&self) -> u64 {
        self.created_at
    }

    pub closed spec fn count(&self) -> u64 {
        self.msg_count
    }

    /// A fresh key created now, timed by the monotonic clock from now on.
    pub fn new(key: [u8; 32]) -> (r: SessionKey)
        ensures
            r.key_bytes() == key@,
            r.count() == 0,
            r.created() == 0,
    {
        SessionKey::new_at(key, 0)
    }

    /// A fresh key created at time `now`, in milliseconds of a monotonic clock
    /// that starts at this call.
    pub fn new_at(key: [u8; 32], now: u64) -> (r: SessionKey)
        ensures
            r.key_bytes() == key@,
            r.created() == now,
            r.count() == 0,
    {
        SessionKey { key, created_at: now, msg_count: 0, epoch: instant_now() }
    }

    /// A fresh key created at `now` milliseconds after `epoch`.
    fn with_epoch(key: [u8; 32], now: u64, epoch: Instant) -> (r: SessionKey)
        ensures
            r.key_bytes() == key@,
            r.created() == now,
            r.count() == 0,
    {
        SessionKey { key, created_at: now, msg_count: 0, epoch }
    }

    pub fn key(&self) -> (r: &[u8; 32])
        ensures
            r@ == self.key_bytes(),
    {
        &self.key
    }

    /// Creation time, in milliseconds.
    pub fn created_at(&self) -> (r: u64)
        ensures
            r == self.created(),
    {
        self.created_at
    }

    /// Age of the key in milliseconds, read from the monotonic clock.
    pub fn age(&self) -> (r: u64)
        ensures
            exists|now: u64| r == age_of(self.created(), now),
    {
        self.age_at(millis_since(&self.epoch))
    }

    /// Age of the key at time `now`.
    pub fn age_at(&self, now: u64) -> (r: u64)
        ensures
            r == age_of(self.created(), now),
    {
        if now >= self.created_at {
            now - self.created_at
        } else {
            0
        }
    }

    /// Counts one more message protected by this key.
    pub fn increment(&mut self)
        ensures
            final(self).count() == if old(self).count() < u64::MAX {
                (old(self).count() + 1) as u64
            } else {
                old(self).count()
            },
            final(self).key_bytes() == old(self).key_bytes(),
            final(self).created() == old(self).created(),
    {
        if self.msg_count < u64::MAX {
            self.msg_count = self.msg_count + 1;
        }
    }

    pub fn msg_count(&self) -> (r: u64)
        ensures
            r == self.count(),
    {
        self.msg_count
    }

    /// Whether the key must be retired now.
    pub fn should_rotate(&self) -> (r: bool)
        ensures
            self.count() >= MAX_MESSAGES_PER_KEY ==> r,
            exists|now: u64| r == rotation_due(self.count(), self.created(), now),
    {
        self.should_rotate_at(millis_since(&self.epoch))
    }

    /// Whether the key must be retired at time `now`: at least 1000 messages or
    /// at least 24 hours old.
    pub fn should_rotate_at(&self, now: u64) -> (r: bool)
        ensures
            r == rotation_due(self.count(), self.created(), now),
    {
        self.msg_count >= MAX_MESSAGES_PER_KEY || self.age_at(now) >= SESSION_TIMEOUT_MS
    }

    /// Overwrites the key bytes with zeros.
    pub fn wipe(&mut self)
        ensures
            final(self).key_bytes() == filled(0, 32),
            final(self).created() == old(self).created(),
            final(self).count() == old(self).count(),
        opens_invariants none
        no_unwind
    {
        zeroize_key(&mut self.key);
    }
}

impl Drop for SessionKey {
    fn drop(&mut self)
        opens_invariants none
        no_unwind
    {
        self.wipe();
    }
}

/// What the table knows of one session.
pub struct SessionRecord {
    pub peer: Seq<u8>,
    pub key: Seq<u8>,
    pub created_at: u64,
    pub msg_count: u64,
}

/// The record of a key created at `now` for `peer`.
pub open spec fn fresh_record(peer: Seq<u8>, key: Seq<u8>, now: u64) -> SessionRecord {
    SessionRecord { peer, key, created_at: now, msg_count: 0 }
}

/// No two records of the table belong to the same peer.
pub open spec fn unique_peers(t: Seq<SessionRecord>) -> bool {
    forall|i: int, j: int| 0 <= i < j < t.len() ==> t[i].peer != t[j].peer
}

/// Position of the record of `peer`, or -1 when there is none.
pub open spec fn index_of(t: Seq<SessionRecord>, peer: Seq<u8>) -> int
    decreases t.len(),
{
    if t.len() == 0 {
        -1
    } else if t.last().peer == peer {
        t.len() - 1
    } else {
        index_of(t.drop_last(), peer)
    }
}

/// The table without the record of `peer`.
pub open spec fn without_peer(t: Seq<SessionRecord>, peer: Seq<u8>) -> Seq<SessionRecord> {
    let i = index_of(t, peer);
    if i < 0 {
        t
    } else {
        t.remove(i)
    }
}

/// Position of the oldest record (smallest creation time; the earliest position on ties).
pub open spec fn oldest_index(t: Seq<SessionRecord>) -> int
    decreases t.len(),
{
    if t.len() <= 1 {
        0
    } else {
        let j = oldest_index(t.drop_last());
        if t.last().created_at < t[j].created_at {
            t.len() - 1
        } else {
            j
        }
    }
}

/// After a record was appended: if the table is over capacity, the oldest of
/// the records that were already there is evicted.
pub open spec fn evict_if_full(t: Seq<SessionRecord>) -> Seq<SessionRecord> {
    if t.len() > MAX_SESSIONS {
        t.remove(oldest_index(t.drop_last()))
    } else {
        t
    }
}

/// The table after `r` is stored: any earlier record of the same peer is
/// replaced, and the capacity is enforced.
pub open spec fn after_insert(t: Seq<SessionRecord>, r: SessionRecord) -> Seq<SessionRecord> {
    evict_if_full(without_peer(t, r.peer).push(r))
}

/// The table after every record of `rs` was stored, in order.
pub open spec fn insert_all(t: Seq<SessionRecord>, rs: Seq<SessionRecord>) -> Seq<SessionRecord>
    decreases rs.len(),
{
    if rs.len() == 0 {
        t
    } else {
        after_insert(insert_all(t, rs.drop_last()), rs.last())
    }
}

/// The table without the records whose key is due for rotation at `now`.
pub open spec fn keep_fresh(t: Seq<SessionRecord>, now: u64) -> Seq<SessionRecord>
    decreases t.len(),
{
    if t.len() == 0 {
        t
    } else {
        let rest = keep_fresh(t.drop_first(), now);
        if rotation_due(t[0].msg_count, t[0].created_at, now) {
            rest
        } else {
            seq![t[0]] + rest
        }
    }
}

/// The two identifiers, the smaller one first.
pub open spec fn ordered_pair(a: Seq<u8>, b: Seq<u8>) -> Seq<u8> {
    if lex_less(a, b) {
        a + b
    } else {
        b + a
    }
}

/// The provisional key two peers derive from their identifiers alone.
pub open spec fn provisional_key(local: Seq<u8>, peer: Seq<u8>) -> Seq<u8> {
    sha256_of(session_domain() + ordered_pair(local, peer))
}

/// The table once `peer` has a usable session at time `now`: a live session is
/// kept, a missing or retired one is replaced by a fresh provisional key.
pub open spec fn ensured_table(t: Seq<SessionRecord>, local: Seq<u8>, peer: Seq<u8>, now: u64) -> Seq<SessionRecord> {
    let i = index_of(t, peer);
    if i >= 0 && !rotation_due(t[i].msg_count, t[i].created_at, now) {
        t
    } else {
        after_insert(t, fresh_record(peer, provisional_key(local, peer), now))
    }
}

/// The table with one more message counted on `peer`'s session.
pub open spec fn bump(t: Seq<SessionRecord>, peer: Seq<u8>) -> Seq<SessionRecord> {
    let i = index_of(t, peer);
    let r = t[i];
    t.update(
        i,
        SessionRecord {
            peer: r.peer,
            key: r.key,
            created_at: r.created_at,
            msg_count: if r.msg_count < u64::MAX {
                (r.msg_count + 1) as u64
            } else {
                r.msg_count
            },
        },
    )
}

proof fn lemma_update_keeps_unique(t: Seq<SessionRecord>, i: int)
    requires
        unique_peers(t),
        0 <= i < t.len(),
    ensures
        forall|r: SessionRecord| r.peer == t[i].peer ==> #[trigger] unique_peers(t.update(i, r)),
{
    assert forall|r: SessionRecord| r.peer == t[i].peer implies #[trigger] unique_peers(t.update(i, r)) by {
        assert forall|a: int, b: int| 0 <= a < b < t.len() implies t.update(i, r)[a].peer != t.update(i, r)[b].peer by {
            assert(t.update(i, r)[a].peer == t[a].peer);
            assert(t.update(i, r)[b].peer == t[b].peer);
        }
    }
}

proof fn lemma_index_of(t: Seq<SessionRecord>, peer: Seq<u8>)
    ensures
        -1 <= index_of(t, peer) < t.len(),
        index_of(t, peer) >= 0 ==> t[index_of(t, peer)].peer == peer,
        index_of(t, peer) < 0 <==> forall|i: int| 0 <= i < t.len() ==> t[i].peer != peer,
    decreases t.len(),
{
    if t.len() > 0 {
        lemma_index_of(t.drop_last(), peer);
        if t.last().peer != peer {
            assert forall|i: int| 0 <= i < t.len() - 1 implies t[i] == t.drop_last()[i] by {}
        }
    }
}

/// Under unique peers, the record of `peer` is the one at any position holding it.
pub proof fn lemma_index_of_found(t: Seq<SessionRecord>, peer: Seq<u8>, i: int)
    requires
        unique_peers(t),
        0 <= i < t.len(),
        t[i].peer == peer,
    ensures
        index_of(t, peer) == i,
{
    lemma_index_of(t, peer);
}

proof fn lemma_without_peer(t: Seq<SessionRecord>, peer: Seq<u8>)
    requires
        unique_peers(t),
    ensures
        unique_peers(without_peer(t, peer)),
        forall|i: int| 0 <= i < without_peer(t, peer).len() ==> without_peer(t, peer)[i].peer != peer,
{
    lemma_index_of(t, peer);
}

proof fn lemma_after_insert(t: Seq<SessionRecord>, r: SessionRecord)
    requires
        unique_peers(t),
        t.len() <= MAX_SESSIONS,
    ensures
        unique_peers(after_insert(t, r)),
        after_insert(t, r).len() <= MAX_SESSIONS,
        after_insert(t, r).len() >= 1,
        after_insert(t, r).last() == r,
        index_of(after_insert(t, r), r.peer) == after_insert(t, r).len() - 1,
{
    lemma_without_peer(t, r.peer);
    lemma_index_of(t, r.peer);
    let w = without_peer(t, r.peer);
    let g = w.push(r);
    assert(unique_peers(g));
    lemma_oldest_index(g.drop_last());
    let a = after_insert(t, r);
    assert(unique_peers(a));
    assert(a.last() == r);
    lemma_index_of(a, r.peer);
}

proof fn lemma_oldest_index(t: Seq<SessionRecord>)
    ensures
        t.len() > 0 ==> 0 <= oldest_index(t) < t.len(),
        t.len() == 0 ==> oldest_index(t) == 0,
    decreases t.len(),
{
    if t.len() > 1 {
        lemma_oldest_index(t.drop_last());
    }
}

proof fn lemma_keep_fresh_len(t: Seq<SessionRecord>, now: u64)
    ensures
        keep_fresh(t, now).len() <= t.len(),
        unique_peers(t) ==> unique_peers(keep_fresh(t, now)),
        forall|k: int| 0 <= k < keep_fresh(t, now).len() ==> exists|i: int| 0 <= i < t.len() && t[i] == #[trigger] keep_fresh(t, now)[k],
    decreases t.len(),
{
    if t.len() > 0 {
        let rest = keep_fresh(t.drop_first(), now);
        lemma_keep_fresh_len(t.drop_first(), now);
        assert forall|k: int| 0 <= k < rest.len() implies exists|i: int| 0 <= i < t.len() && t[i] == #[trigger] rest[k] by {
            let i2 = choose|i: int| 0 <= i < t.drop_first().len() && t.drop_first()[i] == rest[k];
            assert(t[i2 + 1] == rest[k]);
        }
        if !rotation_due(t[0].msg_count, t[0].created_at, now) {
            let s = seq![t[0]] + rest;
            assert forall|k: int| 0 <= k < s.len() implies exists|i: int| 0 <= i < t.len() && t[i] == #[trigger] s[k] by {
                if k == 0 {
                    assert(t[0] == s[0]);
                } else {
                    assert(s[k] == rest[k - 1]);
                }
            }
            if unique_peers(t) {
                assert(unique_peers(t.drop_first()));
                assert forall|i: int, j: int| 0 <= i < j < s.len() implies s[i].peer != s[j].peer by {
                    if i == 0 {
                        assert(s[j] == rest[j - 1]);
                        let jj = choose|x: int| 0 <= x < t.len() && t[x] == #[trigger] rest[j - 1];
                        let jj2 = choose|x: int| 0 <= x < t.drop_first().len() && t.drop_first()[x] == rest[j - 1];
                        assert(t[jj2 + 1] == rest[j - 1]);
                    } else {
                        assert(s[i] == rest[i - 1]);
                        assert(s[j] == rest[j - 1]);
                    }
                }
            }
        } else if unique_peers(t) {
            assert(unique_peers(t.drop_first()));
        }
    }
}

/// When records were created in nondecreasing time order, the first one is the oldest.
proof fn lemma_oldest_is_first(t: Seq<SessionRecord>)
    requires
        forall|i: int, j: int| 0 <= i <= j < t.len() ==> t[i].created_at <= t[j].created_at,
    ensures
        oldest_index(t) == 0,
    decreases t.len(),
{
    if t.len() > 1 {
        lemma_oldest_is_first(t.drop_last());
        assert(t.drop_last()[0] == t[0]);
    }
}

/// Eviction: storing `MAX_SESSIONS + 1` sessions of distinct peers, created in
/// time order, into an empty table leaves exactly `MAX_SESSIONS` of them, and
/// the first peer stored is gone.
pub proof fn lemma_eviction_drops_first(rs: Seq<SessionRecord>)
    requires
        rs.len() == MAX_SESSIONS + 1,
        unique_peers(rs),
        forall|i: int, j: int| 0 <= i <= j < rs.len() ==> rs[i].created_at <= rs[j].created_at,
    ensures
        insert_all(Seq::empty(), rs).len() == MAX_SESSIONS,
        forall|i: int| 0 <= i < insert_all(Seq::empty(), rs).len() ==> insert_all(Seq::empty(), rs)[i].peer != rs[0].peer,
{
    lemma_insert_prefix(rs, MAX_SESSIONS as int);
    let t = rs.subrange(0, MAX_SESSIONS as int);
    assert(rs.drop_last() == t);
    assert(unique_peers(t));
    lemma_index_of(t, rs.last().peer);
    assert(index_of(t, rs.last().peer) < 0);
    let g = t.push(rs.last());
    assert(g == rs);
    lemma_oldest_is_first(g.drop_last());
    let a = insert_all(Seq::empty(), rs);
    assert(a == rs.remove(0));
    assert forall|i: int| 0 <= i < a.len() implies a[i].peer != rs[0].peer by {
        assert(a[i] == rs[i + 1]);
    }
}

proof fn lemma_insert_prefix(rs: Seq<SessionRecord>, k: int)
    requires
        0 <= k <= MAX_SESSIONS,
        k <= rs.len(),
        unique_peers(rs),
    ensures
        insert_all(Seq::empty(), rs.subrange(0, k)) == rs.subrange(0, k),
    decreases k,
{
    let p = rs.subrange(0, k);
    if k > 0 {
        lemma_insert_prefix(rs, k - 1);
        let q = rs.subrange(0, k - 1);
        assert(p.drop_last() == q);
        assert(unique_peers(q));
        lemma_index_of(q, rs[k - 1].peer);
        assert forall|i: int| 0 <= i < q.len() implies q[i].peer != rs[k - 1].peer by {
            assert(q[i] == rs[i]);
        }
        assert(q.push(rs[k - 1]) == p);
    }
}

/// The table after each of `peers` in turn got a usable session (as
/// `get_session_at` gives) at the matching time of `nows`.
pub open spec fn ensure_all(t: Seq<SessionRecord>, local: Seq<u8>, peers: Seq<Seq<u8>>, nows: Seq<u64>) -> Seq<SessionRecord>
    decreases peers.len(),
{
    if peers.len() == 0 || nows.len() != peers.len() {
        t
    } else {
        ensured_table(ensure_all(t, local, peers.drop_last(), nows.drop_last()), local, peers.last(), nows.last())
    }
}

proof fn lemma_ensure_all_prefix(local: Seq<u8>, peers: Seq<Seq<u8>>, nows: Seq<u64>, rs: Seq<SessionRecord>, k: int)
    requires
        peers.len() == nows.len(),
        rs.len() == peers.len(),
        forall|i: int| 0 <= i < rs.len() ==> #[trigger] rs[i] == fresh_record(peers[i], provisional_key(local, peers[i]), nows[i]),
        forall|i: int, j: int| 0 <= i < j < peers.len() ==> peers[i] != peers[j],
        0 <= k <= peers.len(),
        k <= MAX_SESSIONS + 1,
    ensures
        ensure_all(Seq::empty(), local, peers.subrange(0, k), nows.subrange(0, k)) == insert_all(Seq::empty(), rs.subrange(0, k)),
    decreases k,
{
    assert(unique_peers(rs)) by {
        assert forall|i: int, j: int| 0 <= i < j < rs.len() implies rs[i].peer != rs[j].peer by {
            assert(rs[i].peer == peers[i]);
            assert(rs[j].peer == peers[j]);
        }
    }
    if k > 0 {
        lemma_ensure_all_prefix(local, peers, nows, rs, k - 1);
        lemma_insert_prefix(rs, k - 1);
        let t = rs.subrange(0, k - 1);
        assert(peers.subrange(0, k).drop_last() =~= peers.subrange(0, k - 1));
        assert(nows.subrange(0, k).drop_last() =~= nows.subrange(0, k - 1));
        assert(rs.subrange(0, k).drop_last() =~= rs.subrange(0, k - 1));
        assert(rs.subrange(0, k).last() == rs[k - 1]);
        lemma_index_of(t, peers[k - 1]);
        assert forall|i: int| 0 <= i < t.len() implies t[i].peer != peers[k - 1] by {
            assert(t[i] == rs[i]);
            assert(rs[i].peer == peers[i]);
        }
    }
}

/// Eviction through `get_session_at`: asking for the sessions of
/// `MAX_SESSIONS + 1` distinct new peers, at non-decreasing times, starting
/// from an empty table, leaves exactly `MAX_SESSIONS` sessions, and the first
/// peer's is gone.
pub proof fn lemma_new_peers_evict_first(local: Seq<u8>, peers: Seq<Seq<u8>>, nows: Seq<u64>)
    requires
        peers.len() == MAX_SESSIONS + 1,
        nows.len() == peers.len(),
        forall|i: int, j: int| 0 <= i < j < peers.len() ==> peers[i] != peers[j],
        forall|i: int, j: int| 0 <= i <= j < nows.len() ==> nows[i] <= nows[j],
    ensures
        ensure_all(Seq::empty(), local, peers, nows).len() == MAX_SESSIONS,
        forall|i: int| 0 <= i < ensure_all(Seq::empty(), local, peers, nows).len() ==> ensure_all(Seq::empty(), local, peers, nows)[i].peer != peers[0],
{
    let rs = Seq::new(peers.len(), |i: int| fresh_record(peers[i], provisional_key(local, peers[i]), nows[i]));
    lemma_ensure_all_prefix(local, peers, nows, rs, peers.len() as int);
    assert(peers.subrange(0, peers.len() as int) =~= peers);
    assert(nows.subrange(0, nows.len() as int) =~= nows);
    assert(rs.subrange(0, rs.len() as int) =~= rs);
    assert forall|i: int, j: int| 0 <= i < j < rs.len() implies rs[i].peer != rs[j].peer by {}
    assert forall|i: int, j: int| 0 <= i <= j < rs.len() implies rs[i].created_at <= rs[j].created_at by {}
    lemma_eviction_drops_first(rs);
}

struct SessionEntry {
    peer: PeerId,
    session: SessionKey,
}

struct PinnedKey {
    peer: PeerId,
    verify_key: [u8; 32],
    lattice: Vec<u8>,
}

spec fn table_of(v: Seq<SessionEntry>) -> Seq<SessionRecord> {
    v.map_values(|e: SessionEntry| record_of(e))
}

proof fn lemma_entry_update_unique(v: Seq<SessionEntry>, i: int)
    requires
        unique_peers(table_of(v)),
        0 <= i < v.len(),
    ensures
        forall|e: SessionEntry| e.peer@ == v[i].peer@ ==> #[trigger] unique_peers(table_of(v.update(i, e))) && table_of(
            v.update(i, e),
        ).len() == v.len(),
{
    assert forall|e: SessionEntry| e.peer@ == v[i].peer@ implies #[trigger] unique_peers(table_of(v.update(i, e)))
        && table_of(v.update(i, e)).len() == v.len() by {
        let t2 = table_of(v.update(i, e));
        assert forall|a: int, b: int| 0 <= a < b < t2.len() implies t2[a].peer != t2[b].peer by {
            assert(t2[a].peer == table_of(v)[a].peer);
            assert(t2[b].peer == table_of(v)[b].peer);
        }
    }
}

spec fn record_of(e: SessionEntry) -> SessionRecord {
    SessionRecord {
        peer: e.peer@,
        key: e.session.key_bytes(),
        created_at: e.session.created(),
        msg_count: e.session.count(),
    }
}

/// Per-peer session keys and pinned remote verifying keys, with the local signing identity.
pub struct SessionManager {
    identity: IdentityKey,
    sessions: Vec<SessionEntry>,
    peer_keys: Vec<PinnedKey>,
    local_peer_id: PeerId,
    epoch: Instant,
    clock_floor: u64,
}

impl SessionManager {
    /// The session table, in insertion order.
    pub closed spec fn table(&self) -> Seq<SessionRecord> {
        table_of(self.sessions@)
    }

    /// The pinned verifying keys: peer identifier, classical key and lattice key
    /// (empty when unknown), in registration order.
    pub closed spec fn pins(&self) -> Seq<(Seq<u8>, Seq<u8>, Seq<u8>)> {
        self.peer_keys@.map_values(|p: PinnedKey| (p.peer@, p.verify_key@, p.lattice@))
    }

    pub closed spec fn local(&self) -> Seq<u8> {
        self.local_peer_id@
    }

    pub closed spec fn identity_key(&self) -> IdentityKey {
        self.identity
    }

    pub closed spec fn wf(&self) -> bool {
        &&& unique_peers(self.table())
        &&& self.table().len() <= MAX_SESSIONS
        &&& self.identity.wf()
    }

    /// A well-formed table holds at most one session per peer, and at most `MAX_SESSIONS`.
    pub proof fn lemma_table_bounds(&self)
        requires
            self.wf(),
        ensures
            unique_peers(self.table()),
            self.table().len() <= MAX_SESSIONS,
    {
    }

    /// The verifying key pinned for `peer`, if any (the latest registration wins).
    pub open spec fn pinned_key(&self, peer: Seq<u8>) -> Option<Seq<u8>> {
        match pin_lookup(self.pins(), peer) {
            Some(e) => Some(e.1),
            None => None,
        }
    }

    /// The lattice key pinned for `peer`, if a non-empty one is.
    pub open spec fn pinned_lattice(&self, peer: Seq<u8>) -> Option<Seq<u8>> {
        match pin_lookup(self.pins(), peer) {
            Some(e) => if e.2.len() > 0 {
                Some(e.2)
            } else {
                None
            },
            None => None,
        }
    }

    /// An empty manager for the node `local_peer_id`, with a fresh signing identity.
    pub fn new(local_peer_id: PeerId) -> (r: Result<SessionManager, CryptoError>)
        ensures
            r matches Ok(m) && m.wf() && m.table().len() == 0 && m.pins().len() == 0 && m.local()
                == local_peer_id@,
    {
        let identity = match IdentityKey::generate() {
            Ok(k) => k,
            Err(e) => return Err(e),
        };
        let m = SessionManager {
            identity,
            sessions: Vec::new(),
            peer_keys: Vec::new(),
            local_peer_id,
            epoch: instant_now(),
            clock_floor: 0,
        };
        assert(m.table() =~= Seq::empty());
        assert(m.pins() =~= Seq::empty());
        Ok(m)
    }

    /// The latest reading of the manager's clock.
    pub closed spec fn clock(&self) -> u64 {
        self.clock_floor
    }

    /// The manager's monotonic clock: milliseconds since it was created, never
    /// less than an earlier reading.
    pub fn now(&mut self) -> (r: u64)
        requires
            old(self).wf(),
        ensures
            final(self).wf(),
            r >= old(self).clock(),
            final(self).clock() == r,
            final(self).table() == old(self).table(),
            final(self).pins() == old(self).pins(),
            final(self).local() == old(self).local(),
            final(self).identity_key() == old(self).identity_key(),
    {
        let reading = millis_since(&self.epoch);
        let r = if reading > self.clock_floor {
            reading
        } else {
            self.clock_floor
        };
        self.clock_floor = r;
        r
    }

    /// Our public keys, to share with peers.
    pub fn public_key(&self) -> (r: HybridPublicKey)
        ensures
            r.classical@ == self.identity_key().public_bytes(),
            r.lattice@ == self.identity_key().pq_public_bytes(),
    {
        self.identity.public()
    }

    /// The signing identity.
    pub fn identity(&self) -> (r: &IdentityKey)
        ensures
            *r == self.identity_key(),
    {
        &self.identity
    }

    /// Pins the verifying keys of `peer`.
    pub fn register_peer(&mut self, peer: PeerId, verify_key: HybridPublicKey)
        requires
            old(self).wf(),
        ensures
            final(self).wf(),
            final(self).pins() == old(self).pins().push((peer@, verify_key.classical@, verify_key.lattice@)),
            final(self).table() == old(self).table(),
            final(self).local() == old(self).local(),
            final(self).identity_key() == old(self).identity_key(),
            final(self).clock() == old(self).clock(),
    {
        let ghost p = peer@;
        let ghost c = verify_key.classical@;
        let ghost l = verify_key.lattice@;
        self.peer_keys.push(PinnedKey { peer, verify_key: verify_key.classical, lattice: verify_key.lattice });
        assert(self.pins() =~= old(self).pins().push((p, c, l)));
    }

    /// Position of the latest registration of `peer`.
    fn find_pin(&self, peer: &PeerId) -> (r: Option<usize>)
        ensures
            match r {
                Some(i) => i < self.pins().len() && pin_lookup(self.pins(), peer@) == Some(self.pins()[i as int]),
                None => pin_lookup(self.pins(), peer@) is None,
            },
    {
        let mut i: usize = self.peer_keys.len();
        assert(self.pins().subrange(0, i as int) == self.pins());
        while i > 0
            invariant
                0 <= i <= self.peer_keys@.len(),
                pin_lookup(self.pins(), peer@) == pin_lookup(self.pins().subrange(0, i as int), peer@),
            decreases i,
        {
            let ghost s = self.pins().subrange(0, i as int);
            assert(s.drop_last() == self.pins().subrange(0, i - 1));
            if self.peer_keys[i - 1].peer.same(peer) {
                return Some(i - 1);
            }
            i = i - 1;
        }
        None
    }

    /// The classical verifying key pinned for `peer`.
    pub fn get_peer_key(&self, peer: &PeerId) -> (r: Option<&[u8; 32]>)
        ensures
            match r {
                Some(k) => self.pinned_key(peer@) == Some(k@),
                None => self.pinned_key(peer@) is None,
            },
    {
        match self.find_pin(peer) {
            Some(i) => Some(&self.peer_keys[i].verify_key),
            None => None,
        }
    }

    /// The lattice verifying key pinned for `peer`, when one is known.
    pub fn get_peer_lattice_key(&self, peer: &PeerId) -> (r: Option<&[u8]>)
        ensures
            match r {
                Some(k) => self.pinned_lattice(peer@) == Some(k@),
                None => self.pinned_lattice(peer@) is None,
            },
    {
        match self.find_pin(peer) {
            Some(i) => if self.peer_keys[i].lattice.len() > 0 {
                Some(self.peer_keys[i].lattice.as_slice())
            } else {
                None
            },
            None => None,
        }
    }

    /// Signs `data` with our hybrid identity.
    pub fn sign(&self, data: &[u8]) -> (r: Result<HybridSignature, CryptoError>)
        requires
            self.wf(),
        ensures
            r matches Ok(s) && s.classical@ == crate::signing::ed25519_signature(self.identity_key().seed(), data@)
                && s.classical@.len() == crate::signing::CLASSICAL_SIG_LEN && (s.pq matches Some(p) && p@.len()
                <= crate::signing::PQ_SIG_MAX_LEN && crate::signing::dilithium_accepts(
                self.identity_key().pq_public_bytes(),
                data@,
                p@,
            )),
    {
        self.identity.sign(data)
    }

    /// Verifies a classical signature from `peer` against its pinned key.
    pub fn verify(&self, peer: &PeerId, data: &[u8], signature: &[u8; 64]) -> (r: Result<(), CryptoError>)
        ensures
            match self.pinned_key(peer@) {
                None => r == Err::<(), CryptoError>(CryptoError::KeyDerivation),
                Some(k) => if k.len() == 32 && ed25519_accepts(k, data@, signature@) {
                    r is Ok
                } else {
                    r == Err::<(), CryptoError>(CryptoError::InvalidSignature)
                },
            },
    {
        match self.get_peer_key(peer) {
            None => Err(CryptoError::KeyDerivation),
            Some(k) => if ed25519_verify(k, data, signature) {
                Ok(())
            } else {
                Err(CryptoError::InvalidSignature)
            },
        }
    }

    /// Position of the session of `peer` in the table.
    fn find(&self, peer: &PeerId) -> (r: Option<usize>)
        ensures
            match r {
                Some(i) => i as int == index_of(self.table(), peer@) && i < self.table().len(),
                None => index_of(self.table(), peer@) < 0,
            },
    {
        let ghost t = self.table();
        let mut i: usize = self.sessions.len();
        assert(t.subrange(0, i as int) == t);
        while i > 0
            invariant
                0 <= i <= self.sessions@.len(),
                t == self.table(),
                index_of(t, peer@) == index_of(t.subrange(0, i as int), peer@),
            decreases i,
        {
            assert(t.subrange(0, i as int).drop_last() == t.subrange(0, i - 1));
            if self.sessions[i - 1].peer.same(peer) {
                return Some(i - 1);
            }
            i = i - 1;
        }
        None
    }

    /// The provisional key shared with `peer`, derived from both identifiers.
    pub fn derive_session_key(&self, peer: &PeerId) -> (r: [u8; 32])
        ensures
            r@ == provisional_key(self.local(), peer@),
    {
        let mut input: Vec<u8> = Vec::new();
        append(&mut input, "umbra-session-v1".as_bytes());
        if self.local_peer_id.sorts_before(peer) {
            append(&mut input, self.local_peer_id.as_bytes());
            append(&mut input, peer.as_bytes());
        } else {
            append(&mut input, peer.as_bytes());
            append(&mut input, self.local_peer_id.as_bytes());
        }
        assert(input@ =~= session_domain() + ordered_pair(self.local(), peer@));
        sha256(input.as_slice())
    }

    /// Evicts the oldest session among all but the last one.
    fn evict_oldest(&mut self)
        requires
            old(self).table().len() > 1,
        ensures
            final(self).table() == old(self).table().remove(oldest_index(old(self).table().drop_last())),
            final(self).pins() == old(self).pins(),
            final(self).local() == old(self).local(),
            final(self).identity_key() == old(self).identity_key(),
            final(self).clock() == old(self).clock(),
    {
        let ghost t = self.table();
        let n = self.sessions.len() - 1;
        let mut best: usize = 0;
        let mut i: usize = 1;
        while i < n
            invariant
                1 <= i <= n,
                n == self.sessions@.len() - 1,
                t == self.table(),
                best as int == oldest_index(t.subrange(0, i as int)),
                best < i,
            decreases n - i,
        {
            proof {
                lemma_oldest_index(t.subrange(0, i as int));
                assert(t.subrange(0, i + 1).drop_last() == t.subrange(0, i as int));
            }
            if self.sessions[i].session.created_at < self.sessions[best].session.created_at {
                best = i;
            }
            i = i + 1;
        }
        assert(t.subrange(0, n as int) == t.drop_last());
        let _evicted = self.sessions.remove(best);
        assert(self.table() =~= t.remove(best as int));
    }

    /// Stores a record appended at the end, enforcing the capacity.
    fn push_session(&mut self, peer: PeerId, session: SessionKey)
        requires
            old(self).wf(),
            forall|i: int| 0 <= i < old(self).table().len() ==> old(self).table()[i].peer != peer@,
        ensures
            final(self).wf(),
            final(self).table() == evict_if_full(old(self).table().push(record_of(SessionEntry { peer, session }))),
            final(self).pins() == old(self).pins(),
            final(self).local() == old(self).local(),
            final(self).identity_key() == old(self).identity_key(),
            final(self).clock() == old(self).clock(),
    {
        let ghost t = self.table();
        let ghost r = record_of(SessionEntry { peer, session });
        self.sessions.push(SessionEntry { peer, session });
        assert(self.table() =~= t.push(r));
        if self.sessions.len() > MAX_SESSIONS {
            self.evict_oldest();
            proof {
                lemma_oldest_index(t.push(r).drop_last());
            }
        }
        proof {
            lemma_oldest_index(t.push(r).drop_last());
        }
    }

    /// Removes the session of `peer`, if any.
    fn remove_peer(&mut self, peer: &PeerId)
        requires
            old(self).wf(),
        ensures
            final(self).wf(),
            final(self).table() == without_peer(old(self).table(), peer@),
            final(self).pins() == old(self).pins(),
            final(self).local() == old(self).local(),
            final(self).identity_key() == old(self).identity_key(),
            final(self).clock() == old(self).clock(),
    {
        let ghost t = self.table();
        proof {
            lemma_without_peer(t, peer@);
        }
        match self.find(peer) {
            Some(i) => {
                let _old_session = self.sessions.remove(i);
                assert(self.table() =~= t.remove(i as int));
            },
            None => {},
        }
    }

    /// Stores a session key for `peer` created at `now`, replacing any earlier one.
    pub fn set_session_key_at(&mut self, peer: PeerId, key: [u8; 32], now: u64)
        requires
            old(self).wf(),
        ensures
            final(self).wf(),
            final(self).table() == after_insert(old(self).table(), fresh_record(peer@, key@, now)),
            final(self).pins() == old(self).pins(),
            final(self).local() == old(self).local(),
            final(self).identity_key() == old(self).identity_key(),
            final(self).clock() == old(self).clock(),
    {
        let ghost t = self.table();
        proof {
            lemma_without_peer(t, peer@);
            lemma_after_insert(t, fresh_record(peer@, key@, now));
        }
        self.remove_peer(&peer);
        let ghost p = peer@;
        let session = SessionKey::with_epoch(key, now, self.epoch);
        self.push_session(peer, session);
        assert(record_of(SessionEntry { peer, session }) == fresh_record(p, key@, now));
    }

    /// Stores a session key for `peer` (after a handshake), replacing any earlier one.
    pub fn set_session_key(&mut self, peer: PeerId, key: [u8; 32])
        requires
            old(self).wf(),
        ensures
            final(self).wf(),
            exists|now: u64| now >= old(self).clock() && final(self).clock() == now && final(self).table() == after_insert(old(self).table(), fresh_record(peer@, key@, now)),
            final(self).pins() == old(self).pins(),
            final(self).local() == old(self).local(),
            final(self).identity_key() == old(self).identity_key(),
    {
        let now = self.now();
        self.set_session_key_at(peer, key, now);
    }

    /// Makes sure `peer` has a usable session at time `now` and returns its position:
    /// a live session is kept; a missing or retired one is replaced by a fresh
    /// provisional key.
    pub fn ensure_session_at(&mut self, peer: &PeerId, now: u64) -> (idx: usize)
        requires
            old(self).wf(),
        ensures
            final(self).wf(),
            final(self).table() == ensured_table(old(self).table(), old(self).local(), peer@, now),
            idx as int == index_of(final(self).table(), peer@),
            idx < final(self).table().len(),
            final(self).table()[idx as int].peer == peer@,
            final(self).pins() == old(self).pins(),
            final(self).local() == old(self).local(),
            final(self).identity_key() == old(self).identity_key(),
            final(self).clock() == old(self).clock(),
    {
        let ghost t = self.table();
        proof {
            lemma_index_of(t, peer@);
        }
        match self.find(peer) {
            Some(i) => {
                if !self.sessions[i].session.should_rotate_at(now) {
                    return i;
                }
            },
            None => {},
        }
        let key = self.derive_session_key(peer);
        self.set_session_key_at(peer.duplicate(), key, now);
        proof {
            lemma_after_insert(t, fresh_record(peer@, key@, now));
        }
        proof {
            lemma_index_of_found(self.table(), peer@, self.table().len() - 1);
        }
        self.sessions.len() - 1
    }

    /// The session of `peer` at time `now`, created or renewed when missing or
    /// retired; what the caller does through the handle lands in the table.
    #[verifier::spinoff_prover]
    pub fn get_session_at(&mut self, peer: &PeerId, now: u64) -> (r: Result<&mut SessionKey, CryptoError>)
        requires
            old(self).wf(),
        ensures
            r is Ok,
            ({
                let t = old(self).table();
                let i = index_of(t, peer@);
                r matches Ok(s) ==> if i >= 0 && !rotation_due(t[i].msg_count, t[i].created_at, now) {
                    (*s).key_bytes() == t[i].key && (*s).count() == t[i].msg_count && (*s).created()
                        == t[i].created_at
                } else {
                    (*s).key_bytes() == provisional_key(old(self).local(), peer@) && (*s).count() == 0
                        && (*s).created() == now
                }
            }),
            ({
                let e = ensured_table(old(self).table(), old(self).local(), peer@, now);
                r matches Ok(s) ==> final(self).table() == e.update(
                    index_of(e, peer@),
                    SessionRecord {
                        peer: peer@,
                        key: (*final(s)).key_bytes(),
                        created_at: (*final(s)).created(),
                        msg_count: (*final(s)).count(),
                    },
                )
            }),
            final(self).wf(),
            final(self).pins() == old(self).pins(),
            final(self).local() == old(self).local(),
            final(self).identity_key() == old(self).identity_key(),
            final(self).clock() == old(self).clock(),
    {
        let ghost t = self.table();
        let i = self.ensure_session_at(peer, now);
        proof {
            lemma_index_of(t, peer@);
            lemma_after_insert(t, fresh_record(peer@, provisional_key(old(self).local(), peer@), now));
            lemma_index_of(self.table(), peer@);
            lemma_update_keeps_unique(self.table(), i as int);
            assert(self.table()[i as int].peer == peer@);
            assert(self.table().len() <= MAX_SESSIONS);
            assert(self.identity.wf());
            assert(self.sessions@.len() == self.table().len());
            lemma_entry_update_unique(self.sessions@, i as int);
        }
        Ok(&mut self.sessions[i].session)
    }

    /// The session of `peer`, created or renewed when missing or retired (read
    /// against the clock); what the caller does through the handle lands in the table.
    pub fn get_session(&mut self, peer: &PeerId) -> (r: Result<&mut SessionKey, CryptoError>)
        requires
            old(self).wf(),
        ensures
            r is Ok,
            exists|now: u64| #![trigger ensured_table(old(self).table(), old(self).local(), peer@, now)] {
                let t = old(self).table();
                let i = index_of(t, peer@);
                let e = ensured_table(t, old(self).local(), peer@, now);
                &&& now >= old(self).clock()
                &&& final(self).clock() == now
                &&& r matches Ok(s) ==> if i >= 0 && !rotation_due(t[i].msg_count, t[i].created_at, now) {
                    (*s).key_bytes() == t[i].key && (*s).count() == t[i].msg_count && (*s).created()
                        == t[i].created_at
                } else {
                    (*s).key_bytes() == provisional_key(old(self).local(), peer@) && (*s).count() == 0
                        && (*s).created() == now
                }
                &&& r matches Ok(s) ==> final(self).table() == e.update(
                    index_of(e, peer@),
                    SessionRecord {
                        peer: peer@,
                        key: (*final(s)).key_bytes(),
                        created_at: (*final(s)).created(),
                        msg_count: (*final(s)).count(),
                    },
                )
            },
            final(self).wf(),
            final(self).pins() == old(self).pins(),
            final(self).local() == old(self).local(),
            final(self).identity_key() == old(self).identity_key(),
    {
        let now = self.now();
        self.get_session_at(peer, now)
    }

    /// The key of the session at position `idx`.
    pub(crate) fn key_at(&self, idx: usize) -> (r: [u8; 32])
        requires
            idx < self.table().len(),
        ensures
            r@ == self.table()[idx as int].key,
    {
        self.sessions[idx].session.key
    }

    /// Counts one more message on the session at position `idx`.
    pub(crate) fn increment_at(&mut self, idx: usize)
        requires
            old(self).wf(),
            idx < old(self).table().len(),
        ensures
            final(self).wf(),
            final(self).table().len() == old(self).table().len(),
            forall|j: int| 0 <= j < old(self).table().len() && j != idx ==> final(self).table()[j] == old(self).table()[j],
            idx as int == index_of(old(self).table(), old(self).table()[idx as int].peer) ==> final(self).table()
                == bump(old(self).table(), old(self).table()[idx as int].peer),
            final(self).table()[idx as int].peer == old(self).table()[idx as int].peer,
            final(self).table()[idx as int].key == old(self).table()[idx as int].key,
            final(self).table()[idx as int].created_at == old(self).table()[idx as int].created_at,
            final(self).table()[idx as int].msg_count == if old(self).table()[idx as int].msg_count < u64::MAX {
                (old(self).table()[idx as int].msg_count + 1) as u64
            } else {
                old(self).table()[idx as int].msg_count
            },
            final(self).pins() == old(self).pins(),
            final(self).local() == old(self).local(),
            final(self).identity_key() == old(self).identity_key(),
            final(self).clock() == old(self).clock(),
    {
        let ghost t = self.table();
        self.sessions[idx].session.increment();
        assert(forall|j: int| 0 <= j < t.len() && j != idx ==> self.table()[j] == t[j]);
        assert forall|a: int, b: int| 0 <= a < b < self.table().len() implies self.table()[a].peer != self.table()[b].peer by {
            assert(self.table()[a].peer == t[a].peer);
            assert(self.table()[b].peer == t[b].peer);
        }
        proof {
            if idx as int == index_of(t, t[idx as int].peer) {
                assert(self.table() =~= bump(t, t[idx as int].peer));
            }
        }
    }

    /// Removes every session whose key is due for rotation at time `now`.
    pub fn cleanup_at(&mut self, now: u64)
        requires
            old(self).wf(),
        ensures
            final(self).wf(),
            final(self).table() == keep_fresh(old(self).table(), now),
            final(self).pins() == old(self).pins(),
            final(self).local() == old(self).local(),
            final(self).identity_key() == old(self).identity_key(),
            final(self).clock() == old(self).clock(),
    {
        let ghost t = self.table();
        let mut i: usize = self.sessions.len();
        assert(t.subrange(t.len() as int, t.len() as int) =~= Seq::<SessionRecord>::empty());
        assert(t.subrange(0, t.len() as int) == t);
        while i > 0
            invariant
                0 <= i <= t.len(),
                self.sessions@.len() == self.table().len(),
                self.table() == t.subrange(0, i as int) + keep_fresh(t.subrange(i as int, t.len() as int), now),
                self.pins() == old(self).pins(),
                self.local() == old(self).local(),
                self.identity_key() == old(self).identity_key(),
                self.clock() == old(self).clock(),
            decreases i,
        {
            let ghost cur = self.table();
            let ghost tail = t.subrange(i - 1, t.len() as int);
            assert(tail.drop_first() == t.subrange(i as int, t.len() as int));
            assert(tail[0] == t[i - 1]);
            assert(cur[i - 1] == t[i - 1]);
            if self.sessions[i - 1].session.should_rotate_at(now) {
                let _expired = self.sessions.remove(i - 1);
                assert(self.table() =~= cur.remove(i - 1));
                assert(self.table() =~= t.subrange(0, i - 1) + keep_fresh(tail, now));
            } else {
                assert(cur =~= t.subrange(0, i - 1) + keep_fresh(tail, now));
            }
            i = i - 1;
        }
        assert(self.table() =~= keep_fresh(t, now));
        proof {
            lemma_keep_fresh_len(t, now);
        }
    }

    /// Removes every session whose key is due for rotation now.
    pub fn cleanup(&mut self)
        requires
            old(self).wf(),
        ensures
            final(self).wf(),
            exists|now: u64| now >= old(self).clock() && final(self).clock() == now && final(self).table() == keep_fresh(old(self).table(), now),
            final(self).pins() == old(self).pins(),
            final(self).local() == old(self).local(),
            final(self).identity_key() == old(self).identity_key(),
    {
        let now = self.now();
        self.cleanup_at(now);
    }

    /// Whether `peer` has a session in the table.
    pub fn has_session(&self, peer: &PeerId) -> (r: bool)
        ensures
            r == (index_of(self.table(), peer@) >= 0),
    {
        self.find(peer).is_some()
    }

    /// Number of sessions in the table.
    pub fn session_count(&self) -> (r: usize)
        ensures
            r == self.table().len(),
    {
        self.sessions.len()
    }
}

/// The key pinned for `peer` in a registration list (the latest registration wins).
pub open spec fn pin_lookup(pins: Seq<(Seq<u8>, Seq<u8>, Seq<u8>)>, peer: Seq<u8>) -> Option<(Seq<u8>, Seq<u8>, Seq<u8>)>
    decreases pins.len(),
{
    if pins.len() == 0 {
        None
    } else if pins.last().0 == peer {
        Some(pins.last())
    } else {
        pin_lookup(pins.drop_last(), peer)
    }
}

} // verus!
