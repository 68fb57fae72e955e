//! The protocol reactor: a deterministic, I/O-free state machine.
//!
//! Each entry point consumes an event and appends I/O intents to the
//! outbox, which the host drains afterwards and performs in order.

use vstd::prelude::*;

use crate::config::{addrs_contain, ids_contain, policy_tracks, Config, ProjectTracking};
use crate::identity::{ProjId, PublicKey};
use crate::message::{Addr, Command, DisconnectReason, Io, Link, Message, PeerError, Reply};
use crate::peer::{
    has_session, is_negotiated, lemma_session_found, lemma_session_push, lemma_session_update,
    negotiated_sessions, relay_ok, relay_targets, session_get, session_git_url, session_id,
    sessions_wf,
    PeerState, PingAttempt, Session,
};
use crate::routing::{routed, routes, Routing};
use crate::{IDLE_TIMEOUT, MAX_CONNECTION_ATTEMPTS, MAX_TIME_DELTA, PING_TIMEOUT};

verus! {

/// One gossip ledger entry: the newest inventory timestamp accepted from
/// a peer.
#[derive(Clone, Copy, Debug)]
pub struct LedgerEntry {
    pub peer: PublicKey,
    pub timestamp: u64,
}

/// At most one ledger entry per peer.
pub open spec fn ledger_wf(l: Seq<LedgerEntry>) -> bool {
    forall|i: int, j: int| 0 <= i < j < l.len() ==> l[i].peer@ != l[j].peer@
}

/// Whether the ledger holds an entry for the peer.
pub open spec fn ledger_has(l: Seq<LedgerEntry>, p: Seq<u8>) -> bool {
    exists|i: int| 0 <= i < l.len() && l[i].peer@ == p
}

/// The index of the peer's ledger entry.
pub open spec fn ledger_at(l: Seq<LedgerEntry>, p: Seq<u8>) -> int {
    choose|i: int| 0 <= i < l.len() && l[i].peer@ == p
}

/// The newest inventory timestamp accepted from the peer, if any.
pub open spec fn ledger_get(l: Seq<LedgerEntry>, p: Seq<u8>) -> Option<u64> {
    if ledger_has(l, p) {
        Some(l[ledger_at(l, p)].timestamp)
    } else {
        None
    }
}

/// The indexed entry is the one `ledger_get` returns.
pub proof fn lemma_ledger_found(l: Seq<LedgerEntry>, i: int)
    requires
        ledger_wf(l),
        0 <= i < l.len(),
    ensures
        ledger_get(l, l[i].peer@) == Some(l[i].timestamp),
{
    assert(ledger_has(l, l[i].peer@)) by {
        assert(l[i].peer@ == l[i].peer@);
    }
    let j = ledger_at(l, l[i].peer@);
    assert(j == i);
}

/// Updating one entry in place touches no other peer.
pub proof fn lemma_ledger_update(l: Seq<LedgerEntry>, i: int, e: LedgerEntry)
    requires
        ledger_wf(l),
        0 <= i < l.len(),
        e.peer@ == l[i].peer@,
    ensures
        ledger_wf(l.update(i, e)),
        ledger_get(l.update(i, e), e.peer@) == Some(e.timestamp),
        forall|p: Seq<u8>| p != e.peer@ ==> ledger_get(l.update(i, e), p) == ledger_get(l, p),
{
    let t = l.update(i, e);
    assert(ledger_wf(t));
    lemma_ledger_found(t, i);
    assert forall|p: Seq<u8>| p != e.peer@ implies ledger_get(t, p) == ledger_get(l, p) by {
        if ledger_has(t, p) {
            let k = ledger_at(t, p);
            assert(k != i);
            assert(l[k].peer@ == p);
            lemma_ledger_found(l, k);
            lemma_ledger_found(t, k);
        }
        if ledger_has(l, p) {
            let k = ledger_at(l, p);
            assert(k != i);
            assert(t[k].peer@ == p);
            lemma_ledger_found(t, k);
            lemma_ledger_found(l, k);
        }
    }
}

/// Appending an entry for a fresh peer touches no other peer.
pub proof fn lemma_ledger_push(l: Seq<LedgerEntry>, e: LedgerEntry)
    requires
        ledger_wf(l),
        !ledger_has(l, e.peer@),
    ensures
        ledger_wf(l.push(e)),
        ledger_get(l.push(e), e.peer@) == Some(e.timestamp),
        forall|p: Seq<u8>| p != e.peer@ ==> ledger_get(l.push(e), p) == ledger_get(l, p),
{
    let t = l.push(e);
    assert(ledger_wf(t)) by {
        assert forall|i: int, j: int| 0 <= i < j < t.len() implies t[i].peer@ != t[j].peer@ by {
            if j == t.len() - 1 {
                assert(t[i] == l[i]);
                if l[i].peer@ == e.peer@ {
                    assert(ledger_has(l, e.peer@)) by {
                        assert(l[i].peer@ == e.peer@);
                    }
                }
            }
        }
    }
    lemma_ledger_found(t, t.len() - 1);
    assert forall|p: Seq<u8>| p != e.peer@ implies ledger_get(t, p) == ledger_get(l, p) by {
        if ledger_has(t, p) {
            let k = ledger_at(t, p);
            assert(k < l.len());
            lemma_ledger_found(l, k);
            lemma_ledger_found(t, k);
        }
        if ledger_has(l, p) {
            let k = ledger_at(l, p);
            lemma_ledger_found(l, k);
            lemma_ledger_found(t, k);
        }
    }
}

/// The gossip ledger never moves backwards.
pub open spec fn ledger_monotone(pre: Seq<LedgerEntry>, post: Seq<LedgerEntry>) -> bool {
    forall|p: Seq<u8>|
        (#[trigger] ledger_get(pre, p)) matches Some(v) ==> (ledger_get(post, p) matches Some(w)
            && v <= w)
}

/// The later sequence extends the earlier one.
pub open spec fn seq_extends<T>(post: Seq<T>, pre: Seq<T>) -> bool {
    pre.len() <= post.len() && post.subrange(0, pre.len() as int) == pre
}

/// A timestamp within the accepted skew of the local clock.
pub open spec fn within_delta(t: u64, now: u64) -> bool {
    if t <= now {
        now - t <= MAX_TIME_DELTA
    } else {
        t - now <= MAX_TIME_DELTA
    }
}

/// A negotiated session that has been silent too long with no probe
/// outstanding: a ping is owed.
pub open spec fn ping_due(s: Session, now: u64) -> bool {
    is_negotiated(s) && s.ping is None && now >= s.last_active && now - s.last_active
        >= IDLE_TIMEOUT
}

/// A negotiated session whose probe went unanswered too long: a
/// keep-alive disconnect is owed.
pub open spec fn keepalive_due(s: Session, now: u64) -> bool {
    is_negotiated(s) && (s.ping matches Some(pa) && now >= pa.sent_at && now - pa.sent_at
        >= PING_TIMEOUT)
}

/// The sessions a clock tick acts on, in table order.
pub open spec fn tick_due(s: Seq<Session>, now: u64) -> Seq<Session>
    decreases s.len(),
{
    if s.len() == 0 {
        Seq::empty()
    } else {
        let rest = tick_due(s.drop_last(), now);
        if ping_due(s.last(), now) || keepalive_due(s.last(), now) {
            rest.push(s.last())
        } else {
            rest
        }
    }
}

/// Copy a list of addresses.
pub(crate) fn clone_addrs(v: &Vec<Addr>) -> (r: Vec<Addr>)
    ensures
        r@ == v@,
{
    let mut r: Vec<Addr> = Vec::new();
    let mut i: usize = 0;
    while i < v.len()
        invariant
            0 <= i <= v@.len(),
            r@ == v@.take(i as int),
        decreases v@.len() - i,
    {
        r.push(v[i]);
        proof {
            assert(r@ =~= v@.take(i as int + 1));
        }
        i += 1;
    }
    proof {
        assert(v@.take(v@.len() as int) =~= v@);
    }
    r
}

/// Copy a list of project identifiers.
pub(crate) fn clone_ids(v: &Vec<ProjId>) -> (r: Vec<ProjId>)
    ensures
        r@ == v@,
{
    let mut r: Vec<ProjId> = Vec::new();
    let mut i: usize = 0;
    while i < v.len()
        invariant
            0 <= i <= v@.len(),
            r@ == v@.take(i as int),
        decreases v@.len() - i,
    {
        r.push(v[i]);
        proof {
            assert(r@ =~= v@.take(i as int + 1));
        }
        i += 1;
    }
    proof {
        assert(v@.take(v@.len() as int) =~= v@);
    }
    r
}

/// The protocol reactor.
pub struct Protocol {
    /// Immutable configuration.
    pub config: Config,
    /// This node's identity.
    pub id: PublicKey,
    /// A snapshot of the local storage inventory.
    pub inventory: Vec<ProjId>,
    /// Per-connection sessions.
    pub sessions: Vec<Session>,
    /// Project-to-peers routing table.
    pub routing: Routing,
    /// Gossip ledger: newest accepted inventory timestamp per peer.
    pub ledger: Vec<LedgerEntry>,
    /// The injected monotonic clock, in seconds.
    pub clock: u64,
    /// Pending I/O intents, drained by the host.
    pub outbox: Vec<Io>,
    /// Seedable generator state for nonces.
    pub rng: u64,
}

impl Protocol {
    /// Internal consistency of the reactor.
    pub open spec fn wf(&self) -> bool {
        &&& sessions_wf(self.sessions@)
        &&& self.routing.wf()
        &&& ledger_wf(self.ledger@)
    }

    /// Build a reactor around a configuration, an identity, the local
    /// inventory and a generator seed.
    pub fn new(config: Config, id: PublicKey, inventory: Vec<ProjId>, seed: u64) -> (r: Protocol)
        ensures
            r.wf(),
            r.config == config,
            r.id == id,
            r.inventory@ == inventory@,
            r.sessions@.len() == 0,
            r.ledger@.len() == 0,
            r.outbox@.len() == 0,
            r.clock == 0,
            forall|q: Seq<u8>, x: Seq<u8>| !r.routing.spec_routes(q, x),
    {
        Protocol {
            config,
            id,
            inventory,
            sessions: Vec::new(),
            routing: Routing::new(),
            ledger: Vec::new(),
            clock: 0,
            outbox: Vec::new(),
            rng: seed,
        }
    }

    /// Draw the next nonce from the injected generator.
    fn next_nonce(&mut self) -> (r: u64)
        ensures
            final(self).config == old(self).config,
            final(self).id == old(self).id,
            final(self).inventory@ == old(self).inventory@,
            final(self).sessions@ == old(self).sessions@,
            final(self).routing == old(self).routing,
            final(self).ledger@ == old(self).ledger@,
            final(self).clock == old(self).clock,
            final(self).outbox@ == old(self).outbox@,
    {
        let mut x = self.rng;
        if x == 0 {
            x = 0x9e3779b97f4a7c15;
        }
        x = x ^ (x << 13);
        x = x ^ (x >> 7);
        x = x ^ (x << 17);
        self.rng = x;
        x
    }

    /// Find the session for an address.
    fn find_session(&self, addr: &Addr) -> (r: Option<usize>)
        ensures
            r matches Some(i) ==> i < self.sessions@.len() && self.sessions@[i as int].addr
                == *addr,
            r is None ==> !has_session(self.sessions@, *addr),
    {
        let mut i: usize = 0;
        while i < self.sessions.len()
            invariant
                0 <= i <= self.sessions@.len(),
                forall|j: int| 0 <= j < i ==> self.sessions@[j].addr != *addr,
            decreases self.sessions@.len() - i,
        {
            if self.sessions[i].addr == *addr {
                return Some(i);
            }
            i += 1;
        }
        None
    }

    /// Find the ledger entry for a peer.
    fn find_ledger(&self, peer: &PublicKey) -> (r: Option<usize>)
        ensures
            r matches Some(i) ==> i < self.ledger@.len() && self.ledger@[i as int].peer@ == peer@,
            r is None ==> !ledger_has(self.ledger@, peer@),
    {
        let mut i: usize = 0;
        while i < self.ledger.len()
            invariant
                0 <= i <= self.ledger@.len(),
                forall|j: int| 0 <= j < i ==> self.ledger@[j].peer@ != peer@,
            decreases self.ledger@.len() - i,
        {
            if self.ledger[i].peer.equals(peer) {
                return Some(i);
            }
            i += 1;
        }
        None
    }

    /// Set the clock and dial every persistent peer, in configuration
    /// order.
    pub fn initialize(&mut self, now: u64)
        requires
            old(self).wf(),
        ensures
            final(self).wf(),
            final(self).clock == now,
            final(self).sessions@ == old(self).sessions@,
            final(self).routing == old(self).routing,
            final(self).ledger@ == old(self).ledger@,
            final(self).config == old(self).config,
            final(self).inventory@ == old(self).inventory@,
            seq_extends(final(self).outbox@, old(self).outbox@),
            final(self).outbox@.len() == old(self).outbox@.len()
                + old(self).config.connect@.len(),
            forall|k: int|
                old(self).outbox@.len() <= k < final(self).outbox@.len() ==> ((
                #[trigger] final(self).outbox@[k]) matches Io::Connect(a) && a == old(
                    self,
                ).config.connect@[k - old(self).outbox@.len()]),
    {
        self.clock = now;
        let ghost base = self.outbox@;
        let mut i: usize = 0;
        while i < self.config.connect.len()
            invariant
                0 <= i <= self.config.connect@.len(),
                self.config == old(self).config,
                self.sessions@ == old(self).sessions@,
                self.routing == old(self).routing,
                self.ledger@ == old(self).ledger@,
                self.inventory@ == old(self).inventory@,
                self.id == old(self).id,
                self.rng == old(self).rng,
                self.clock == now,
                base == old(self).outbox@,
                self.outbox@.len() == base.len() + i,
                self.outbox@.subrange(0, base.len() as int) == base,
                forall|k: int|
                    0 <= k < i ==> (#[trigger] self.outbox@[base.len() + k] matches Io::Connect(a)
                        && a == self.config.connect@[k]),
            decreases self.config.connect@.len() - i,
        {
            let a = self.config.connect[i];
            self.outbox.push(Io::Connect(a));
            proof {
                assert(self.outbox@.subrange(0, base.len() as int) =~= base);
            }
            i += 1;
        }
        proof {
            assert forall|k: int|
                base.len() <= k < self.outbox@.len() implies ((#[trigger] self.outbox@[k])
                matches Io::Connect(a) && a == self.config.connect@[k - base.len()]) by {
                assert(self.outbox@[base.len() + (k - base.len())] matches Io::Connect(a) && a
                    == self.config.connect@[k - base.len()]);
            }
        }
    }

    /// An outbound dial is underway: create or refresh the session.
    pub fn attempted(&mut self, addr: &Addr)
        requires
            old(self).wf(),
        ensures
            final(self).wf(),
            final(self).outbox@ == old(self).outbox@,
            final(self).routing == old(self).routing,
            final(self).ledger@ == old(self).ledger@,
            final(self).config == old(self).config,
            final(self).clock == old(self).clock,
            final(self).inventory@ == old(self).inventory@,
            final(self).id == old(self).id,
            final(self).rng == old(self).rng,
            session_get(final(self).sessions@, *addr) matches Some(s1) && s1.state is Connecting
                && s1.addr == *addr && s1.attempts == (match session_get(
                old(self).sessions@,
                *addr,
            ) {
                Some(s0) => s0.attempts,
                None => 0u64,
            }),
            forall|a: Addr|
                a != *addr ==> session_get(final(self).sessions@, a) == session_get(
                    old(self).sessions@,
                    a,
                ),
    {
        match self.find_session(addr) {
            Some(i) => {
                let ghost s0 = self.sessions@;
                self.sessions[i].state = PeerState::Connecting;
                proof {
                    lemma_session_found(s0, i as int);
                    lemma_session_update(s0, i as int, self.sessions@[i as int]);
                    assert(self.sessions@ =~= s0.update(i as int, self.sessions@[i as int]));
                }
            },
            None => {
                let ghost s0 = self.sessions@;
                let session = Session {
                    addr: *addr,
                    link: Link::Outbound,
                    state: PeerState::Connecting,
                    decoder: crate::codec::Decoder::new(),
                    attempts: 0,
                    last_active: self.clock,
                    ping: None,
                };
                self.sessions.push(session);
                proof {
                    lemma_session_push(s0, self.sessions@.last());
                }
            },
        }
    }

    /// The transport is up: mark the session connected and start the
    /// handshake by sending our hello and asking for the full inventory.
    pub fn connected(&mut self, addr: &Addr, local: &Addr, link: Link)
        requires
            old(self).wf(),
        ensures
            final(self).wf(),
            final(self).routing == old(self).routing,
            final(self).ledger@ == old(self).ledger@,
            final(self).config == old(self).config,
            final(self).clock == old(self).clock,
            final(self).inventory@ == old(self).inventory@,
            final(self).id == old(self).id,
            final(self).rng == old(self).rng,
            session_get(final(self).sessions@, *addr) matches Some(s1) && s1.state matches
                PeerState::Connected { since } && since == old(self).clock && s1.link == link,
            forall|a: Addr|
                a != *addr ==> session_get(final(self).sessions@, a) == session_get(
                    old(self).sessions@,
                    a,
                ),
            seq_extends(final(self).outbox@, old(self).outbox@),
            final(self).outbox@.len() == old(self).outbox@.len() + 2,
            final(self).outbox@[old(self).outbox@.len() as int] matches Io::Write(a, m) && a
                == *addr && (m matches Message::Hello { id, timestamp, version, .. } && id == old(
                self,
            ).id && timestamp == old(self).clock && version == old(self).config.protocol_version),
            final(self).outbox@[old(self).outbox@.len() as int + 1] matches Io::Write(a, m) && a == *addr
                && (m matches Message::GetInventory { ids } && ids@.len() == 0),
    {
        let ghost base = self.outbox@;
        match self.find_session(addr) {
            Some(i) => {
                let ghost s0 = self.sessions@;
                self.sessions[i].state = PeerState::Connected { since: self.clock };
                self.sessions[i].link = link;
                self.sessions[i].last_active = self.clock;
                self.sessions[i].ping = None;
                proof {
                    lemma_session_found(s0, i as int);
                    lemma_session_update(s0, i as int, self.sessions@[i as int]);
                    assert(self.sessions@ =~= s0.update(i as int, self.sessions@[i as int]));
                }
            },
            None => {
                let ghost s0 = self.sessions@;
                let session = Session {
                    addr: *addr,
                    link,
                    state: PeerState::Connected { since: self.clock },
                    decoder: crate::codec::Decoder::new(),
                    attempts: 0,
                    last_active: self.clock,
                    ping: None,
                };
                self.sessions.push(session);
                proof {
                    lemma_session_push(s0, self.sessions@.last());
                }
            },
        }
        let hello = Message::Hello {
            id: self.id,
            timestamp: self.clock,
            addrs: clone_addrs(&self.config.listen),
            git_url: self.config.git_url.clone(),
            version: self.config.protocol_version,
            signature: crate::message::Signature::empty(),
        };
        self.outbox.push(Io::Write(*addr, hello));
        self.outbox.push(Io::Write(*addr, Message::GetInventory { ids: Vec::new() }));
        proof {
            assert(self.outbox@.subrange(0, base.len() as int) =~= base);
        }
    }

    /// Whether a disconnection with this reason is retried for a
    /// persistent peer.
    pub open spec fn reason_transient(reason: DisconnectReason) -> bool {
        reason is ConnectionError || reason is KeepAlive
    }

    /// The connection was lost: demote the session, drop the peer's
    /// routing entries, and re-dial persistent peers after transient
    /// failures, up to the attempt limit.
    pub fn disconnected(&mut self, addr: &Addr, reason: DisconnectReason)
        requires
            old(self).wf(),
        ensures
            final(self).wf(),
            final(self).ledger@ == old(self).ledger@,
            final(self).config == old(self).config,
            final(self).clock == old(self).clock,
            final(self).inventory@ == old(self).inventory@,
            final(self).id == old(self).id,
            final(self).rng == old(self).rng,
            seq_extends(final(self).outbox@, old(self).outbox@),
            match session_get(old(self).sessions@, *addr) {
                Some(s0) => {
                    let reconnect = addrs_contain(old(self).config.connect@, *addr)
                        && Self::reason_transient(reason) && s0.attempts
                        < MAX_CONNECTION_ATTEMPTS;
                    &&& (session_get(final(self).sessions@, *addr) matches Some(s1)
                        && (s1.state matches PeerState::Disconnected { at, reason: re } && at
                        == old(self).clock && re == reason) && s1.attempts == (if reconnect {
                        (s0.attempts + 1) as u64
                    } else {
                        s0.attempts
                    }))
                    &&& (forall|a: Addr|
                        a != *addr ==> session_get(final(self).sessions@, a) == session_get(
                            old(self).sessions@,
                            a,
                        ))
                    &&& (reconnect ==> final(self).outbox@.len() == old(self).outbox@.len() + 1
                        && (final(self).outbox@.last() matches Io::Connect(a) && a == *addr))
                    &&& (!reconnect ==> final(self).outbox@ == old(self).outbox@)
                    &&& (forall|q: Seq<u8>, x: Seq<u8>|
                        final(self).routing.spec_routes(q, x) <==> (old(self).routing.spec_routes(
                            q,
                            x,
                        ) && !(is_negotiated(s0) && x == session_id(s0))))
                },
                None => {
                    &&& final(self).sessions@ == old(self).sessions@
                    &&& final(self).outbox@ == old(self).outbox@
                    &&& final(self).routing == old(self).routing
                },
            },
    {
        match self.find_session(addr) {
            Some(i) => {
                let ghost s0 = self.sessions@;
                proof {
                    lemma_session_found(s0, i as int);
                }
                let peer_id: Option<PublicKey> = match &self.sessions[i].state {
                    PeerState::Negotiated { id, .. } => Some(*id),
                    _ => None,
                };
                let attempts = self.sessions[i].attempts;
                self.sessions[i].state = PeerState::Disconnected { at: self.clock, reason };
                self.sessions[i].ping = None;
                proof {
                    lemma_session_update(s0, i as int, self.sessions@[i as int]);
                    assert(self.sessions@ =~= s0.update(i as int, self.sessions@[i as int]));
                }
                match peer_id {
                    Some(id) => {
                        self.routing.prune_peer(&id);
                    },
                    None => {
                        proof {
                            assert(!is_negotiated(s0[i as int]));
                        }
                    },
                }
                let transient = match reason {
                    DisconnectReason::ConnectionError => true,
                    DisconnectReason::KeepAlive => true,
                    _ => false,
                };
                if self.config.is_persistent(addr) && transient && attempts
                    < MAX_CONNECTION_ATTEMPTS {
                    let ghost s1 = self.sessions@;
                    self.sessions[i].attempts = attempts + 1;
                    proof {
                        lemma_session_update(s1, i as int, self.sessions@[i as int]);
                        assert(self.sessions@ =~= s1.update(i as int, self.sessions@[i as int]));
                    }
                    self.outbox.push(Io::Connect(*addr));
                    proof {
                        assert(self.outbox@.subrange(0, old(self).outbox@.len() as int)
                            =~= old(self).outbox@);
                    }
                }
                proof {
                    assert(self.outbox@.subrange(0, old(self).outbox@.len() as int) =~= old(
                        self,
                    ).outbox@);
                }
            },
            None => {
                proof {
                    assert(self.outbox@.subrange(0, old(self).outbox@.len() as int) =~= old(
                        self,
                    ).outbox@);
                }
            },
        }
    }

    /// The negotiated peers, as address and identity pairs in table order.
    pub fn negotiated(&self) -> (r: Vec<(Addr, PublicKey)>)
        ensures
            r@.len() == negotiated_sessions(self.sessions@).len(),
            forall|k: int|
                0 <= k < r@.len() ==> (#[trigger] r@[k]).0 == negotiated_sessions(
                    self.sessions@,
                )[k].addr && r@[k].1@ == session_id(negotiated_sessions(self.sessions@)[k]),
    {
        let mut r: Vec<(Addr, PublicKey)> = Vec::new();
        let mut i: usize = 0;
        while i < self.sessions.len()
            invariant
                0 <= i <= self.sessions@.len(),
                r@.len() == negotiated_sessions(self.sessions@.take(i as int)).len(),
                forall|k: int|
                    0 <= k < r@.len() ==> (#[trigger] r@[k]).0 == negotiated_sessions(
                        self.sessions@.take(i as int),
                    )[k].addr && r@[k].1@ == session_id(
                        negotiated_sessions(self.sessions@.take(i as int))[k],
                    ),
            decreases self.sessions@.len() - i,
        {
            let ghost pre = self.sessions@.take(i as int);
            let ghost cur = self.sessions@.take(i as int + 1);
            proof {
                assert(cur.drop_last() =~= pre);
                assert(cur.last() == self.sessions@[i as int]);
            }
            match &self.sessions[i].state {
                PeerState::Negotiated { id, .. } => {
                    r.push((self.sessions[i].addr, *id));
                },
                _ => {},
            }
            i += 1;
        }
        proof {
            assert(self.sessions@.take(self.sessions@.len() as int) =~= self.sessions@);
        }
        r
    }

    /// The routing table.
    pub fn routing(&self) -> (r: &Routing)
        ensures
            r == &self.routing,
    {
        &self.routing
    }

    /// The configuration.
    pub fn config(&self) -> (r: &Config)
        ensures
            r == &self.config,
    {
        &self.config
    }

    /// Drain the outbox, handing the pending intents to the host.
    pub fn outbox(&mut self) -> (r: Vec<Io>)
        ensures
            r@ == old(self).outbox@,
            final(self).outbox@.len() == 0,
            final(self).config == old(self).config,
            final(self).id == old(self).id,
            final(self).inventory@ == old(self).inventory@,
            final(self).sessions@ == old(self).sessions@,
            final(self).routing == old(self).routing,
            final(self).ledger@ == old(self).ledger@,
            final(self).clock == old(self).clock,
            final(self).rng == old(self).rng,
    {
        let mut r: Vec<Io> = Vec::new();
        core::mem::swap(&mut r, &mut self.outbox);
        r
    }
}


/// The advertiser of an inventory message: the origin when relayed, the
/// sender itself otherwise.
pub open spec fn advertiser(origin: Option<PublicKey>, sender: Session) -> Seq<u8> {
    match origin {
        Some(p) => p@,
        None => session_id(sender),
    }
}

/// Whether a ledger accepts timestamp `t` from advertiser `adv`: it must
/// be strictly newer than anything already accepted.
pub open spec fn accepts(l: Seq<LedgerEntry>, adv: Seq<u8>, t: u64) -> bool {
    match ledger_get(l, adv) {
        Some(v) => t > v,
        None => true,
    }
}

/// Whether admitting this project triggers an on-demand fetch: it is new
/// to the routing table, tracked, and not held locally.
pub open spec fn fetch_wanted(
    p: ProjId,
    r0: Seq<crate::routing::Route>,
    tracking: ProjectTracking,
    local: Seq<ProjId>,
) -> bool {
    !routed(r0, p@) && policy_tracks(&tracking, p@) && !ids_contain(local, p@)
}

/// The projects of an accepted inventory that are fetched, in order and
/// without repetition.
pub open spec fn fetch_list(
    inv: Seq<ProjId>,
    r0: Seq<crate::routing::Route>,
    tracking: ProjectTracking,
    local: Seq<ProjId>,
) -> Seq<ProjId>
    decreases inv.len(),
{
    if inv.len() == 0 {
        Seq::empty()
    } else {
        let rest = fetch_list(inv.drop_last(), r0, tracking, local);
        if fetch_wanted(inv.last(), r0, tracking, local) && !ids_contain(rest, inv.last()@) {
            rest.push(inv.last())
        } else {
            rest
        }
    }
}

/// Where an admitted project is fetched from: the advertiser's own
/// session where it is connected, and the relaying sender otherwise.
pub open spec fn fetch_source(s: Seq<Session>, sender: Session, adv: Seq<u8>) -> (Addr, Seq<
    char,
>)
    decreases s.len(),
{
    if s.len() == 0 {
        (sender.addr, session_git_url(sender))
    } else if is_negotiated(s.last()) && session_id(s.last()) == adv {
        (s.last().addr, session_git_url(s.last()))
    } else {
        fetch_source(s.drop_last(), sender, adv)
    }
}

/// What answers a `GetInventory` request: the whole local inventory
/// when no identifiers were named, else its projects among those named.
pub open spec fn inv_response(local: Seq<ProjId>, ids: Seq<ProjId>) -> Seq<ProjId>
    decreases local.len(),
{
    if ids.len() == 0 {
        local
    } else if local.len() == 0 {
        Seq::empty()
    } else {
        let rest = inv_response(local.drop_last(), ids);
        if ids_contain(ids, local.last()@) {
            rest.push(local.last())
        } else {
            rest
        }
    }
}

/// Whether a message is the relay of the given inventory: same timestamp
/// and projects, with the origin rewritten to the advertiser.
pub open spec fn inventory_relay_msg(m: Message, t: u64, inv: Seq<ProjId>, adv: Seq<u8>) -> bool {
    m matches Message::Inventory { timestamp, inv: i2, origin } && timestamp == t && i2@ == inv
        && (origin matches Some(p) && p@ == adv)
}

/// Replace the advertiser's routing entries by the advertised inventory:
/// afterwards the advertiser routes exactly the advertised projects, and
/// every other peer's entries are untouched.
fn apply_inventory(routing: &mut Routing, inv: &Vec<ProjId>, adv: &PublicKey)
    requires
        old(routing).wf(),
    ensures
        final(routing).wf(),
        forall|q: Seq<u8>, x: Seq<u8>|
            final(routing).spec_routes(q, x) <==> ((x == adv@ && ids_contain(inv@, q)) || (x
                != adv@ && old(routing).spec_routes(q, x))),
{
    let ghost r0 = routing.entries@;
    // Projects the advertiser no longer advertises.
    let mut stale: Vec<ProjId> = Vec::new();
    let mut i: usize = 0;
    while i < routing.entries.len()
        invariant
            0 <= i <= routing.entries@.len(),
            routing.entries@ == r0,
            routing.wf(),
            forall|q: Seq<u8>|
                ids_contain(stale@, q) <==> (routes(r0.take(i as int), q, adv@) && !ids_contain(
                    inv@,
                    q,
                )),
        decreases routing.entries@.len() - i,
    {
        let ghost stale0 = stale@;
        let proj = routing.entries[i].proj;
        let has_adv: bool = match crate::routing::find_key(&routing.entries[i].peers, adv) {
            Some(_) => true,
            None => false,
        };
        let kept: bool = match crate::config::find_id(inv, &proj) {
            Some(_) => true,
            None => false,
        };
        proof {
            assert(has_adv == crate::routing::keys_contain(r0[i as int].peers@, adv@));
            assert(kept == ids_contain(inv@, proj@));
        }
        if has_adv && !kept {
            stale.push(proj);
            proof {
                crate::config::lemma_ids_push(stale0, proj);
            }
        }
        proof {
            assert(r0.take(i as int + 1) =~= r0.take(i as int).push(r0[i as int]));
            assert forall|q: Seq<u8>|
                ids_contain(stale@, q) <==> (routes(r0.take(i as int + 1), q, adv@)
                    && !ids_contain(inv@, q)) by {
                crate::routing::lemma_routes_push(r0.take(i as int), r0[i as int], q, adv@);
                assert(routes(r0.take(i as int + 1), q, adv@) <==> (routes(
                    r0.take(i as int),
                    q,
                    adv@,
                ) || (r0[i as int].proj@ == q && crate::routing::keys_contain(
                    r0[i as int].peers@,
                    adv@,
                ))));
                assert(ids_contain(stale0, q) <==> (routes(r0.take(i as int), q, adv@)
                    && !ids_contain(inv@, q)));
                if has_adv && !kept {
                    assert(ids_contain(stale@, q) <==> (ids_contain(stale0, q) || q == proj@));
                } else {
                    assert(stale@ == stale0);
                }
            }
        }
        i += 1;
    }
    proof {
        assert(r0.take(r0.len() as int) =~= r0);
    }
    // Drop the stale advertisements.
    let ghost st = stale@;
    let mut k: usize = 0;
    while k < stale.len()
        invariant
            0 <= k <= stale@.len(),
            stale@ == st,
            routing.wf(),
            forall|q: Seq<u8>|
                ids_contain(st, q) <==> (routes(r0, q, adv@) && !ids_contain(inv@, q)),
            forall|q: Seq<u8>, x: Seq<u8>|
                routing.spec_routes(q, x) <==> (routes(r0, q, x) && !(x == adv@ && ids_contain(
                    st.take(k as int),
                    q,
                ))),
        decreases stale@.len() - k,
    {
        let p = stale[k];
        let ghost rcur = *routing;
        proof {
            assert(forall|q: Seq<u8>, x: Seq<u8>|
                rcur.spec_routes(q, x) <==> (routes(r0, q, x) && !(x == adv@ && ids_contain(
                    st.take(k as int),
                    q,
                ))));
        }
        routing.remove(&p, adv);
        proof {
            assert(st.take(k as int + 1) =~= st.take(k as int).push(st[k as int]));
            assert forall|q: Seq<u8>|
                ids_contain(st.take(k as int + 1), q) <==> (ids_contain(st.take(k as int), q) || q
                    == p@) by {
                crate::config::lemma_ids_push(st.take(k as int), st[k as int]);
            }
            assert forall|q: Seq<u8>, x: Seq<u8>|
                routing.spec_routes(q, x) <==> (routes(r0, q, x) && !(x == adv@ && ids_contain(
                    st.take(k as int + 1),
                    q,
                ))) by {
                assert(routing.spec_routes(q, x) <==> (rcur.spec_routes(q, x) && !(q == p@ && x
                    == adv@)));
                assert(rcur.spec_routes(q, x) <==> (routes(r0, q, x) && !(x == adv@
                    && ids_contain(st.take(k as int), q))));
                assert(ids_contain(st.take(k as int + 1), q) <==> (ids_contain(
                    st.take(k as int),
                    q,
                ) || q == p@));
            }
        }
        k += 1;
    }
    proof {
        assert(st.take(st.len() as int) =~= st);
    }
    // Record the advertised projects.
    let mut m: usize = 0;
    while m < inv.len()
        invariant
            0 <= m <= inv@.len(),
            routing.wf(),
            forall|q: Seq<u8>|
                ids_contain(st, q) <==> (routes(r0, q, adv@) && !ids_contain(inv@, q)),
            forall|q: Seq<u8>, x: Seq<u8>|
                routing.spec_routes(q, x) <==> ((routes(r0, q, x) && !(x == adv@ && ids_contain(
                    st,
                    q,
                ))) || (x == adv@ && ids_contain(inv@.take(m as int), q))),
        decreases inv@.len() - m,
    {
        let p = inv[m];
        let ghost rcur = *routing;
        proof {
            assert(forall|q: Seq<u8>, x: Seq<u8>|
                rcur.spec_routes(q, x) <==> ((routes(r0, q, x) && !(x == adv@ && ids_contain(
                    st,
                    q,
                ))) || (x == adv@ && ids_contain(inv@.take(m as int), q))));
        }
        routing.insert(&p, adv);
        proof {
            assert(inv@.take(m as int + 1) =~= inv@.take(m as int).push(inv@[m as int]));
            assert forall|q: Seq<u8>|
                ids_contain(inv@.take(m as int + 1), q) <==> (ids_contain(inv@.take(m as int), q)
                    || q == p@) by {
                crate::config::lemma_ids_push(inv@.take(m as int), inv@[m as int]);
            }
            assert forall|q: Seq<u8>, x: Seq<u8>|
                routing.spec_routes(q, x) <==> ((routes(r0, q, x) && !(x == adv@ && ids_contain(
                    st,
                    q,
                ))) || (x == adv@ && ids_contain(inv@.take(m as int + 1), q))) by {
                assert(routing.spec_routes(q, x) <==> (rcur.spec_routes(q, x) || (q == p@ && x
                    == adv@)));
                assert(rcur.spec_routes(q, x) <==> ((routes(r0, q, x) && !(x == adv@
                    && ids_contain(st, q))) || (x == adv@ && ids_contain(
                    inv@.take(m as int),
                    q,
                ))));
                assert(ids_contain(inv@.take(m as int + 1), q) <==> (ids_contain(
                    inv@.take(m as int),
                    q,
                ) || q == p@));
            }
        }
        m += 1;
    }
    proof {
        assert(inv@.take(inv@.len() as int) =~= inv@);
        assert forall|q: Seq<u8>, x: Seq<u8>|
            final(routing).spec_routes(q, x) <==> ((x == adv@ && ids_contain(inv@, q)) || (x
                != adv@ && routes(r0, q, x))) by {
            assert(routing.spec_routes(q, x) <==> ((routes(r0, q, x) && !(x == adv@
                && ids_contain(st, q))) || (x == adv@ && ids_contain(inv@, q))));
            assert(ids_contain(st, q) <==> (routes(r0, q, adv@) && !ids_contain(inv@, q)));
            if x == adv@ {
                if routes(r0, q, x) && !ids_contain(inv@, q) {
                    assert(ids_contain(st, q));
                }
            }
        }
    }
}

impl Protocol {
    /// Handle an inbound `Inventory` message from a negotiated peer:
    /// gate the timestamp, drop replays, update the gossip ledger and the
    /// routing table, relay to the other negotiated peers, and fetch
    /// newly admitted tracked projects.
    pub fn inventory_received(
        &mut self,
        addr: &Addr,
        timestamp: u64,
        inv: Vec<ProjId>,
        origin: Option<PublicKey>,
    )
        requires
            old(self).wf(),
        ensures
            final(self).wf(),
            final(self).config == old(self).config,
            final(self).id == old(self).id,
            final(self).inventory@ == old(self).inventory@,
            final(self).clock == old(self).clock,
            final(self).sessions@ == old(self).sessions@,
            seq_extends(final(self).outbox@, old(self).outbox@),
            ledger_monotone(old(self).ledger@, final(self).ledger@),
            ({
                let sender = session_get(old(self).sessions@, *addr);
                match sender {
                    Some(s) => if s.state is Disconnected {
                        Self::gossip_untouched(old(self), final(self))
                    } else {
                        let adv = advertiser(origin, s);
                        if !within_delta(timestamp, old(self).clock) {
                            &&& final(self).ledger@ == old(self).ledger@
                            &&& final(self).routing == old(self).routing
                            &&& final(self).outbox@.len() == old(self).outbox@.len() + 1
                            &&& (final(self).outbox@.last() matches Io::Disconnect(a, r) && a
                                == *addr && r == DisconnectReason::Error(
                                PeerError::InvalidTimestamp(timestamp),
                            ))
                        } else if !is_negotiated(s) {
                            Self::gossip_untouched(old(self), final(self))
                        } else if !accepts(old(self).ledger@, adv, timestamp) {
                            Self::gossip_untouched(old(self), final(self))
                        } else {
                            let targets = relay_targets(old(self).sessions@, *addr, adv);
                            let wanted = fetch_list(
                                inv@,
                                old(self).routing.entries@,
                                old(self).config.project_tracking,
                                old(self).inventory@,
                            );
                            &&& ledger_get(final(self).ledger@, adv) == Some(timestamp)
                            &&& (forall|p: Seq<u8>|
                                p != adv ==> ledger_get(final(self).ledger@, p) == ledger_get(
                                    old(self).ledger@,
                                    p,
                                ))
                            &&& (forall|q: Seq<u8>, x: Seq<u8>|
                                final(self).routing.spec_routes(q, x) <==> ((x == adv
                                    && ids_contain(inv@, q)) || (x != adv && old(
                                    self,
                                ).routing.spec_routes(q, x))))
                            &&& final(self).outbox@.len() == old(self).outbox@.len()
                                + targets.len() + wanted.len()
                            &&& (forall|k: int|
                                old(self).outbox@.len() <= k < old(self).outbox@.len()
                                    + targets.len() ==> ((#[trigger] final(self).outbox@[k])
                                    matches Io::Write(a, m) && a == targets[k - old(
                                    self,
                                ).outbox@.len()] && inventory_relay_msg(m, timestamp, inv@, adv)))
                            &&& (forall|k: int|
                                old(self).outbox@.len() + targets.len() <= k
                                    < final(self).outbox@.len() ==> ((
                                #[trigger] final(self).outbox@[k]) matches
                                    Io::FetchProject(a, u, p) && p == wanted[k - old(
                                    self,
                                ).outbox@.len() - targets.len()] && a == fetch_source(
                                    old(self).sessions@,
                                    s,
                                    adv,
                                ).0 && u@ == fetch_source(old(self).sessions@, s, adv).1))
                            &&& (forall|k: int|
                                old(self).outbox@.len() <= k < final(self).outbox@.len() ==> ((
                                #[trigger] final(self).outbox@[k]) matches Io::Write(a, m)
                                    ==> crate::peer::relay_target_valid(
                                    old(self).sessions@,
                                    *addr,
                                    adv,
                                    a,
                                )))
                        }
                    },
                    None => Self::gossip_untouched(old(self), final(self)),
                }
            }),
    {
        let i: usize = match self.find_session(addr) {
            Some(i) => i,
            None => {
                proof {
                    assert(self.outbox@.subrange(0, old(self).outbox@.len() as int) =~= old(
                        self,
                    ).outbox@);
                }
                return ;
            },
        };
        proof {
            lemma_session_found(self.sessions@, i as int);
        }
        let ghost sender = old(self).sessions@[i as int];
        let gone: bool = match &self.sessions[i].state {
            PeerState::Disconnected { .. } => true,
            _ => false,
        };
        if gone {
            proof {
                assert(self.outbox@.subrange(0, old(self).outbox@.len() as int) =~= old(
                    self,
                ).outbox@);
            }
            return ;
        }
        // Timestamp gate: the only enforced time-skew check; it applies
        // to any live connection.
        let ok_time: bool = if timestamp <= self.clock {
            self.clock - timestamp <= MAX_TIME_DELTA
        } else {
            timestamp - self.clock <= MAX_TIME_DELTA
        };
        proof {
            assert(ok_time == within_delta(timestamp, old(self).clock));
        }
        if !ok_time {
            self.outbox.push(
                Io::Disconnect(
                    *addr,
                    DisconnectReason::Error(PeerError::InvalidTimestamp(timestamp)),
                ),
            );
            proof {
                assert(self.outbox@.subrange(0, old(self).outbox@.len() as int) =~= old(
                    self,
                ).outbox@);
            }
            return ;
        }
        let negotiated_id: Option<PublicKey> = match &self.sessions[i].state {
            PeerState::Negotiated { id, .. } => Some(*id),
            _ => None,
        };
        let adv: PublicKey = match (origin, negotiated_id) {
            (_, None) => {
                proof {
                    assert(self.outbox@.subrange(0, old(self).outbox@.len() as int) =~= old(
                        self,
                    ).outbox@);
                }
                return ;
            },
            (Some(p), Some(_)) => p,
            (None, Some(sid)) => sid,
        };
        proof {
            assert(session_get(old(self).sessions@, *addr) == Some(sender));
            assert(is_negotiated(sender));
            assert(adv@ == advertiser(origin, sender));
        }
        // Replay gate: drop anything not strictly newer.
        let ghost l0 = self.ledger@;
        match self.find_ledger(&adv) {
            Some(j) => {
                proof {
                    lemma_ledger_found(l0, j as int);
                }
                if timestamp <= self.ledger[j].timestamp {
                    proof {
                        assert(!accepts(l0, adv@, timestamp));
                        assert(self.outbox@.subrange(0, old(self).outbox@.len() as int) =~= old(
                            self,
                        ).outbox@);
                    }
                    return ;
                }
                proof {
                    assert(accepts(l0, adv@, timestamp));
                }
                self.ledger[j].timestamp = timestamp;
                proof {
                    lemma_ledger_update(l0, j as int, self.ledger@[j as int]);
                    assert(self.ledger@ =~= l0.update(j as int, self.ledger@[j as int]));
                }
            },
            None => {
                proof {
                    assert(accepts(l0, adv@, timestamp));
                }
                self.ledger.push(LedgerEntry { peer: adv, timestamp });
                proof {
                    lemma_ledger_push(l0, self.ledger@.last());
                }
            },
        }
        proof {
            assert(ledger_get(self.ledger@, adv@) == Some(timestamp));
            assert(forall|p: Seq<u8>|
                p != adv@ ==> ledger_get(self.ledger@, p) == ledger_get(l0, p));
            assert(ledger_monotone(l0, self.ledger@)) by {
                assert forall|p: Seq<u8>| (#[trigger] ledger_get(l0, p)) is Some implies (
                ledger_get(self.ledger@, p) is Some && ledger_get(l0, p)->Some_0 <= ledger_get(
                    self.ledger@,
                    p,
                )->Some_0) by {
                    if p != adv@ {
                        assert(ledger_get(self.ledger@, p) == ledger_get(l0, p));
                    }
                }
            }
        }
        let ghost l1 = self.ledger;
        // Decide the fetches against the routing table as it was.
        let ghost r0 = self.routing.entries@;
        let mut wanted: Vec<ProjId> = Vec::new();
        let mut w: usize = 0;
        while w < inv.len()
            invariant
                0 <= w <= inv@.len(),
                self.routing.entries@ == r0,
                self.routing == old(self).routing,
                self.routing.wf(),
                self.config == old(self).config,
                self.id == old(self).id,
                self.clock == old(self).clock,
                self.rng == old(self).rng,
                self.inventory == old(self).inventory,
                self.inventory@ == old(self).inventory@,
                self.sessions == old(self).sessions,
                self.outbox == old(self).outbox,
                self.ledger == l1,
                wanted@ == fetch_list(
                    inv@.take(w as int),
                    r0,
                    old(self).config.project_tracking,
                    old(self).inventory@,
                ),
            decreases inv@.len() - w,
        {
            let ghost pre = inv@.take(w as int);
            let ghost cur = inv@.take(w as int + 1);
            proof {
                assert(cur.drop_last() =~= pre);
                assert(cur.last() == inv@[w as int]);
            }
            let p = inv[w];
            if !self.routing.contains_project(&p) && self.config.is_tracking(&p) && crate::config::find_id(
                &self.inventory,
                &p,
            ).is_none() && crate::config::find_id(&wanted, &p).is_none() {
                wanted.push(p);
            }
            w += 1;
        }
        proof {
            assert(inv@.take(inv@.len() as int) =~= inv@);
        }
        // Update the routing table.
        apply_inventory(&mut self.routing, &inv, &adv);
        // Relay to every other negotiated peer, rewriting the origin.
        let ghost l2 = self.ledger;
        let ghost r1 = self.routing;
        let ghost base = self.outbox@;
        let ghost ss = self.sessions@;
        let mut si: usize = 0;
        while si < self.sessions.len()
            invariant
                0 <= si <= ss.len(),
                self.sessions@ == ss,
                self.sessions == old(self).sessions,
                self.config == old(self).config,
                self.id == old(self).id,
                self.clock == old(self).clock,
                self.rng == old(self).rng,
                self.inventory == old(self).inventory,
                self.ledger == l2,
                self.routing == r1,
                self.outbox@.len() == base.len() + relay_targets(
                    ss.take(si as int),
                    *addr,
                    adv@,
                ).len(),
                self.outbox@.subrange(0, base.len() as int) == base,
                forall|k: int|
                    0 <= k < relay_targets(ss.take(si as int), *addr, adv@).len() ==> (
                    #[trigger] self.outbox@[base.len() + k] matches Io::Write(a, m) && a
                        == relay_targets(ss.take(si as int), *addr, adv@)[k]
                        && inventory_relay_msg(m, timestamp, inv@, adv@)),
            decreases ss.len() - si,
        {
            let ghost pre = ss.take(si as int);
            let ghost cur = ss.take(si as int + 1);
            proof {
                assert(cur.drop_last() =~= pre);
                assert(cur.last() == ss[si as int]);
            }
            let target_ok: bool = match &self.sessions[si].state {
                PeerState::Negotiated { id, .. } => self.sessions[si].addr != *addr && !id.equals(
                    &adv,
                ),
                _ => false,
            };
            proof {
                assert(target_ok == relay_ok(ss[si as int], *addr, adv@));
            }
            if target_ok {
                let ghost ob = self.outbox@;
                let a = self.sessions[si].addr;
                self.outbox.push(
                    Io::Write(
                        a,
                        Message::Inventory {
                            timestamp,
                            inv: clone_ids(&inv),
                            origin: Some(adv),
                        },
                    ),
                );
                proof {
                    assert(self.outbox@.subrange(0, base.len() as int) =~= base);
                }
            }
            si += 1;
        }
        proof {
            assert(ss.take(ss.len() as int) =~= ss);
        }
        // Fetch the newly admitted tracked projects from the advertiser
        // where it is connected, and from the relaying peer otherwise.
        let mut src_addr: Addr = self.sessions[i].addr;
        let mut src_url: String = match &self.sessions[i].state {
            PeerState::Negotiated { git_url, .. } => git_url.clone(),
            _ => String::new(),
        };
        proof {
            assert((src_addr, src_url@) == fetch_source(ss.take(0), sender, adv@));
        }
        let mut f: usize = 0;
        while f < self.sessions.len()
            invariant
                0 <= f <= ss.len(),
                self.sessions@ == ss,
                (src_addr, src_url@) == fetch_source(ss.take(f as int), sender, adv@),
            decreases self.sessions@.len() - f,
        {
            let ghost fpre = ss.take(f as int);
            let ghost fcur = ss.take(f as int + 1);
            proof {
                assert(fcur.drop_last() =~= fpre);
                assert(fcur.last() == ss[f as int]);
            }
            match &self.sessions[f].state {
                PeerState::Negotiated { id, git_url, .. } => {
                    if id.equals(&adv) {
                        src_addr = self.sessions[f].addr;
                        src_url = git_url.clone();
                    }
                },
                _ => {},
            }
            f += 1;
        }
        proof {
            assert(ss.take(ss.len() as int) =~= ss);
            assert((src_addr, src_url@) == fetch_source(ss, sender, adv@));
        }
        let ghost base2 = self.outbox@;
        let mut g: usize = 0;
        while g < wanted.len()
            invariant
                0 <= g <= wanted@.len(),
                self.sessions == old(self).sessions,
                self.config == old(self).config,
                self.id == old(self).id,
                self.clock == old(self).clock,
                self.rng == old(self).rng,
                self.inventory == old(self).inventory,
                self.ledger == l2,
                self.routing == r1,
                base2.subrange(0, base.len() as int) == base,
                base2.len() == base.len() + relay_targets(ss, *addr, adv@).len(),
                forall|k: int|
                    0 <= k < relay_targets(ss, *addr, adv@).len() ==> (#[trigger] base2[base.len()
                        + k] matches Io::Write(a, m) && a == relay_targets(ss, *addr, adv@)[k]
                        && inventory_relay_msg(m, timestamp, inv@, adv@)),
                self.outbox@.len() == base2.len() + g,
                self.outbox@.subrange(0, base2.len() as int) == base2,
                (src_addr, src_url@) == fetch_source(ss, sender, adv@),
                forall|k: int|
                    0 <= k < g ==> (#[trigger] self.outbox@[base2.len() + k] matches
                        Io::FetchProject(a, u, p) && p == wanted@[k] && a == src_addr && u@
                        == src_url@),
            decreases wanted@.len() - g,
        {
            let p = wanted[g];
            self.outbox.push(Io::FetchProject(src_addr, src_url.clone(), p));
            proof {
                assert(self.outbox@.subrange(0, base2.len() as int) =~= base2);
            }
            g += 1;
        }
        proof {
            let targets = relay_targets(ss, *addr, adv@);
            crate::peer::lemma_relay_targets_ok(ss, *addr, adv@);
            assert(self.outbox@.subrange(0, base.len() as int) =~= base) by {
                assert forall|k: int| 0 <= k < base.len() implies self.outbox@[k] == base[k] by {
                    assert(self.outbox@.subrange(0, base2.len() as int)[k] == base2[k]);
                    assert(base2.subrange(0, base.len() as int)[k] == base[k]);
                }
            }
            assert forall|k: int| 0 <= k < targets.len() implies (#[trigger] self.outbox@[base.len()
                + k] matches Io::Write(a, m) && a == targets[k] && inventory_relay_msg(
                m,
                timestamp,
                inv@,
                adv@,
            )) by {
                assert(self.outbox@.subrange(0, base2.len() as int)[base.len() + k] == base2[base.len()
                    + k]);
            }
            assert(self.outbox@.subrange(0, old(self).outbox@.len() as int) =~= old(
                self,
            ).outbox@);
            assert forall|k: int|
                old(self).outbox@.len() <= k < self.outbox@.len() implies ((
            #[trigger] self.outbox@[k]) matches Io::Write(a, m)
                ==> crate::peer::relay_target_valid(ss, *addr, adv@, a)) by {
                if k < base.len() + targets.len() {
                    let j = k - base.len();
                    assert(self.outbox@[base.len() + j] matches Io::Write(a, m) && a == targets[j]
                        && inventory_relay_msg(m, timestamp, inv@, adv@));
                    assert(crate::peer::relay_target_valid(ss, *addr, adv@, targets[j]));
                } else {
                    let j = k - base2.len();
                    assert(self.outbox@[base2.len() + j] matches Io::FetchProject(a, u, p));
                }
            }
            assert forall|k: int|
                base.len() <= k < base.len() + targets.len() implies ((
            #[trigger] self.outbox@[k]) matches Io::Write(a, m) && a == targets[k - base.len()]
                && inventory_relay_msg(m, timestamp, inv@, adv@)) by {
                let j = k - base.len();
                assert(self.outbox@[base.len() + j] matches Io::Write(a, m) && a == targets[j]
                    && inventory_relay_msg(m, timestamp, inv@, adv@));
            }
            assert forall|k: int|
                base.len() + targets.len() <= k < self.outbox@.len() implies ((
            #[trigger] self.outbox@[k]) matches Io::FetchProject(a, u, p) && p == wanted@[k
                - base.len() - targets.len()] && a == fetch_source(ss, sender, adv@).0 && u@
                == fetch_source(ss, sender, adv@).1) by {
                let j = k - base2.len();
                assert(self.outbox@[base2.len() + j] matches Io::FetchProject(a, u, p) && p
                    == wanted@[j] && a == src_addr && u@ == src_url@);
            }
        }
    }

    /// Neither the outbox nor the gossip state moved.
    pub open spec fn gossip_untouched(pre: &Protocol, post: &Protocol) -> bool {
        &&& post.outbox@ == pre.outbox@
        &&& post.ledger@ == pre.ledger@
        &&& post.routing == pre.routing
    }
}


/// Remove every occurrence of a digest from a list of identifiers.
fn remove_id(v: &mut Vec<ProjId>, p: &ProjId)
    ensures
        !ids_contain(final(v)@, p@),
        forall|q: Seq<u8>| q != p@ ==> ids_contain(final(v)@, q) == ids_contain(old(v)@, q),
{
    let mut going = true;
    while going
        invariant
            forall|q: Seq<u8>| q != p@ ==> ids_contain(v@, q) == ids_contain(old(v)@, q),
            !going ==> !ids_contain(v@, p@),
        decreases v@.len() + (if going { 1int } else { 0int }),
    {
        let ghost v0 = v@;
        match crate::config::find_id(v, p) {
            Some(j) => {
                v.swap_remove(j);
                proof {
                    assert(v@ =~= crate::routing::seq_swap_remove(v0, j as int));
                    crate::config::lemma_ids_swap_remove(v0, j as int, p@);
                }
            },
            None => {
                going = false;
            },
        }
    }
}

impl Protocol {
    /// Handle a peer's `Hello` while the session awaits negotiation:
    /// gate the timestamp and the protocol version, then negotiate.
    pub fn hello_received(
        &mut self,
        addr: &Addr,
        id: PublicKey,
        timestamp: u64,
        addrs: Vec<Addr>,
        git_url: String,
        version: u32,
        signature: crate::message::Signature,
    )
        requires
            old(self).wf(),
        ensures
            final(self).wf(),
            final(self).config == old(self).config,
            final(self).id == old(self).id,
            final(self).inventory@ == old(self).inventory@,
            final(self).clock == old(self).clock,
            final(self).routing == old(self).routing,
            final(self).ledger@ == old(self).ledger@,
            seq_extends(final(self).outbox@, old(self).outbox@),
            final(self).sessions@.len() == old(self).sessions@.len(),
            forall|j: int|
                0 <= j < old(self).sessions@.len() ==> (#[trigger] final(self).sessions@[j]).addr
                    == old(self).sessions@[j].addr && final(self).sessions@[j].decoder == old(
                    self,
                ).sessions@[j].decoder,
            ({
                let sender = session_get(old(self).sessions@, *addr);
                match sender {
                    Some(s) => if !(s.state is Connected) {
                        final(self).sessions@ == old(self).sessions@ && final(self).outbox@ == old(
                            self,
                        ).outbox@
                    } else if !within_delta(timestamp, old(self).clock) {
                        &&& final(self).sessions@ == old(self).sessions@
                        &&& final(self).outbox@.len() == old(self).outbox@.len() + 1
                        &&& (final(self).outbox@.last() matches Io::Disconnect(a, r) && a == *addr
                            && r == DisconnectReason::Error(PeerError::InvalidTimestamp(timestamp)))
                    } else if version != old(self).config.protocol_version {
                        &&& final(self).sessions@ == old(self).sessions@
                        &&& final(self).outbox@.len() == old(self).outbox@.len() + 1
                        &&& (final(self).outbox@.last() matches Io::Disconnect(a, r) && a == *addr
                            && r == DisconnectReason::Error(
                            PeerError::WrongProtocolVersion(version),
                        ))
                    } else {
                        &&& final(self).outbox@.len() == old(self).outbox@.len() + 1
                        &&& final(self).outbox@.last() == Io::VerifyHello(
                            *addr,
                            id,
                            timestamp,
                            version,
                            signature,
                        )
                        &&& (session_get(final(self).sessions@, *addr) matches Some(s1)
                            && (s1.state matches PeerState::Verifying {
                            id: i2,
                            timestamp: t2,
                            git_url: g2,
                            ..
                        } && i2 == id && t2 == timestamp && g2@ == git_url@) && s1.attempts
                            == s.attempts && !is_negotiated(s1))
                        &&& (forall|a: Addr|
                            a != *addr ==> session_get(final(self).sessions@, a) == session_get(
                                old(self).sessions@,
                                a,
                            ))
                    },
                    None => final(self).sessions@ == old(self).sessions@ && final(self).outbox@
                        == old(self).outbox@,
                }
            }),
    {
        let i: usize = match self.find_session(addr) {
            Some(i) => i,
            None => {
                proof {
                    assert(self.outbox@.subrange(0, old(self).outbox@.len() as int) =~= old(
                        self,
                    ).outbox@);
                }
                return ;
            },
        };
        proof {
            lemma_session_found(self.sessions@, i as int);
        }
        let connected: bool = match &self.sessions[i].state {
            PeerState::Connected { .. } => true,
            _ => false,
        };
        if !connected {
            proof {
                assert(self.outbox@.subrange(0, old(self).outbox@.len() as int) =~= old(
                    self,
                ).outbox@);
            }
            return ;
        }
        let ok_time: bool = if timestamp <= self.clock {
            self.clock - timestamp <= MAX_TIME_DELTA
        } else {
            timestamp - self.clock <= MAX_TIME_DELTA
        };
        proof {
            assert(ok_time == within_delta(timestamp, old(self).clock));
        }
        if !ok_time {
            self.outbox.push(
                Io::Disconnect(
                    *addr,
                    DisconnectReason::Error(PeerError::InvalidTimestamp(timestamp)),
                ),
            );
            proof {
                assert(self.outbox@.subrange(0, old(self).outbox@.len() as int) =~= old(
                    self,
                ).outbox@);
            }
            return ;
        }
        if version != self.config.protocol_version {
            self.outbox.push(
                Io::Disconnect(
                    *addr,
                    DisconnectReason::Error(PeerError::WrongProtocolVersion(version)),
                ),
            );
            proof {
                assert(self.outbox@.subrange(0, old(self).outbox@.len() as int) =~= old(
                    self,
                ).outbox@);
            }
            return ;
        }
        let ghost s0 = self.sessions@;
        self.sessions[i].state = PeerState::Verifying {
            id,
            since: self.clock,
            timestamp,
            git_url,
            addrs,
        };
        // The cryptographic check is the signer collaborator's: hand it
        // the handshake material and await its verdict. Only that
        // verdict, delivered as a command, negotiates the session.
        self.outbox.push(Io::VerifyHello(*addr, id, timestamp, version, signature));
        proof {
            lemma_session_update(s0, i as int, self.sessions@[i as int]);
            assert(self.sessions@ =~= s0.update(i as int, self.sessions@[i as int]));
            assert(self.outbox@.subrange(0, old(self).outbox@.len() as int) =~= old(
                self,
            ).outbox@);
        }
    }

    /// Dispatch one inbound message from the given connection.
    pub fn received_message(&mut self, addr: &Addr, msg: Message)
        requires
            old(self).wf(),
        ensures
            final(self).wf(),
            final(self).config == old(self).config,
            final(self).id == old(self).id,
            final(self).inventory@ == old(self).inventory@,
            final(self).clock == old(self).clock,
            seq_extends(final(self).outbox@, old(self).outbox@),
            ledger_monotone(old(self).ledger@, final(self).ledger@),
            final(self).sessions@.len() == old(self).sessions@.len(),
            forall|j: int|
                0 <= j < old(self).sessions@.len() ==> (#[trigger] final(self).sessions@[j]).addr
                    == old(self).sessions@[j].addr && final(self).sessions@[j].decoder == old(
                    self,
                ).sessions@[j].decoder,
            ({
                let sender = session_get(old(self).sessions@, *addr);
                let live = sender matches Some(t) && !(t.state is Disconnected);
                let negotiated = sender matches Some(t) && is_negotiated(t);
                match msg {
                    Message::GetInventory { ids } => if negotiated {
                        &&& final(self).outbox@.len() == old(self).outbox@.len() + 1
                        &&& (final(self).outbox@.last() matches Io::Write(a, m) && a == *addr && (m
                            matches Message::Inventory { timestamp, inv, origin } && timestamp
                            == old(self).clock && inv@ == inv_response(old(self).inventory@, ids@)
                            && origin is None))
                    } else {
                        final(self).outbox@ == old(self).outbox@
                    },
                    Message::Ping { nonce } => if negotiated {
                        &&& final(self).outbox@.len() == old(self).outbox@.len() + 1
                        &&& (final(self).outbox@.last() matches Io::Write(a, m) && a == *addr && (m
                            matches Message::Pong { nonce: n2 } && n2 == nonce))
                    } else {
                        final(self).outbox@ == old(self).outbox@
                    },
                    Message::Disconnect { .. } => if live {
                        &&& final(self).outbox@.len() == old(self).outbox@.len() + 1
                        &&& (final(self).outbox@.last() matches Io::Disconnect(a, r) && a == *addr
                            && r == DisconnectReason::PeerRequested)
                    } else {
                        final(self).outbox@ == old(self).outbox@
                    },
                    Message::Pong { nonce } => {
                        &&& final(self).outbox@ == old(self).outbox@
                        &&& ((sender matches Some(t) && !(t.state is Disconnected) && (t.ping
                            matches Some(pa) && pa.nonce == nonce)) ==> (session_get(
                            final(self).sessions@,
                            *addr,
                        ) matches Some(t1) && t1.ping is None))
                    },
                    Message::Hello { id: hid, timestamp: ht, version: hv, .. } => ({
                        match sender {
                            Some(s) => if !(s.state is Connected) {
                                final(self).outbox@ == old(self).outbox@
                            } else if !within_delta(ht, old(self).clock) {
                                &&& final(self).outbox@.len() == old(self).outbox@.len() + 1
                                &&& (final(self).outbox@.last() matches Io::Disconnect(a, r) && a
                                    == *addr && r == DisconnectReason::Error(
                                    PeerError::InvalidTimestamp(ht),
                                ))
                                &&& !(session_get(final(self).sessions@, *addr) matches Some(s1)
                                    && is_negotiated(s1))
                            } else if hv != old(self).config.protocol_version {
                                &&& final(self).outbox@.len() == old(self).outbox@.len() + 1
                                &&& (final(self).outbox@.last() matches Io::Disconnect(a, r) && a
                                    == *addr && r == DisconnectReason::Error(
                                    PeerError::WrongProtocolVersion(hv),
                                ))
                                &&& !(session_get(final(self).sessions@, *addr) matches Some(s1)
                                    && is_negotiated(s1))
                            } else {
                                &&& final(self).outbox@.len() == old(self).outbox@.len() + 1
                                &&& (final(self).outbox@.last() matches Io::VerifyHello(
                                    a2,
                                    i2,
                                    t2,
                                    v2,
                                    _,
                                ) && a2 == *addr && i2 == hid && t2 == ht && v2 == hv)
                                &&& (session_get(final(self).sessions@, *addr) matches Some(s1)
                                    && s1.state is Verifying && !is_negotiated(s1))
                            },
                            None => final(self).outbox@ == old(self).outbox@,
                        }
                    }),
                    Message::Inventory { timestamp: it, inv: iv, origin: orig } => ({
                        match sender {
                            Some(s) => if s.state is Disconnected {
                                Self::gossip_untouched(old(self), final(self))
                            } else if !within_delta(it, old(self).clock) {
                                &&& final(self).ledger@ == old(self).ledger@
                                &&& final(self).routing == old(self).routing
                                &&& final(self).outbox@.len() == old(self).outbox@.len() + 1
                                &&& (final(self).outbox@.last() matches Io::Disconnect(a, r) && a
                                    == *addr && r == DisconnectReason::Error(
                                    PeerError::InvalidTimestamp(it),
                                ))
                            } else if !is_negotiated(s) {
                                Self::gossip_untouched(old(self), final(self))
                            } else if !accepts(old(self).ledger@, advertiser(orig, s), it) {
                                Self::gossip_untouched(old(self), final(self))
                            } else {
                                &&& ledger_get(final(self).ledger@, advertiser(orig, s)) == Some(
                                    it,
                                )
                                &&& (forall|p: Seq<u8>|
                                    p != advertiser(orig, s) ==> ledger_get(
                                        final(self).ledger@,
                                        p,
                                    ) == ledger_get(old(self).ledger@, p))
                                &&& (forall|q: Seq<u8>, x: Seq<u8>|
                                    final(self).routing.spec_routes(q, x) <==> ((x == advertiser(
                                        orig,
                                        s,
                                    ) && ids_contain(iv@, q)) || (x != advertiser(orig, s)
                                        && old(self).routing.spec_routes(q, x))))
                            },
                            None => Self::gossip_untouched(old(self), final(self)),
                        }
                    }),
                    _ => true,
                }
            }),
    {
        let i: usize = match self.find_session(addr) {
            Some(i) => i,
            None => {
                proof {
                    assert(self.outbox@.subrange(0, old(self).outbox@.len() as int) =~= old(
                        self,
                    ).outbox@);
                }
                return ;
            },
        };
        proof {
            lemma_session_found(self.sessions@, i as int);
        }
        let live: bool = match &self.sessions[i].state {
            PeerState::Disconnected { .. } => false,
            _ => true,
        };
        if !live {
            proof {
                assert(self.outbox@.subrange(0, old(self).outbox@.len() as int) =~= old(
                    self,
                ).outbox@);
            }
            return ;
        }
        let ghost s0 = self.sessions@;
        self.sessions[i].last_active = self.clock;
        proof {
            lemma_session_found(s0, i as int);
            lemma_session_update(s0, i as int, self.sessions@[i as int]);
            assert(self.sessions@ =~= s0.update(i as int, self.sessions@[i as int]));
        }
        let negotiated: bool = match &self.sessions[i].state {
            PeerState::Negotiated { .. } => true,
            _ => false,
        };
        match msg {
            Message::Hello { id, timestamp, addrs, git_url, version, signature } => {
                self.hello_received(addr, id, timestamp, addrs, git_url, version, signature);
            },
            Message::GetInventory { ids } => {
                if negotiated {
                    let resp: Vec<ProjId> = if ids.len() == 0 {
                        clone_ids(&self.inventory)
                    } else {
                        let mut kept: Vec<ProjId> = Vec::new();
                        let mut w: usize = 0;
                        while w < self.inventory.len()
                            invariant
                                0 <= w <= self.inventory@.len(),
                                self.inventory@ == old(self).inventory@,
                                ids@.len() > 0,
                                kept@ == inv_response(self.inventory@.take(w as int), ids@),
                            decreases self.inventory@.len() - w,
                        {
                            let ghost pre = self.inventory@.take(w as int);
                            let ghost cur = self.inventory@.take(w as int + 1);
                            proof {
                                assert(cur.drop_last() =~= pre);
                                assert(cur.last() == self.inventory@[w as int]);
                            }
                            let p = self.inventory[w];
                            match crate::config::find_id(&ids, &p) {
                                Some(_) => kept.push(p),
                                None => {},
                            }
                            w += 1;
                        }
                        proof {
                            assert(self.inventory@.take(self.inventory@.len() as int)
                                =~= self.inventory@);
                        }
                        kept
                    };
                    let t = self.clock;
                    self.outbox.push(
                        Io::Write(*addr, Message::Inventory { timestamp: t, inv: resp, origin: None }),
                    );
                }
                proof {
                    assert(self.outbox@.subrange(0, old(self).outbox@.len() as int) =~= old(
                        self,
                    ).outbox@);
                }
            },
            Message::Inventory { timestamp, inv, origin } => {
                self.inventory_received(addr, timestamp, inv, origin);
            },
            Message::GetRefs { .. } => {
                // The reference exchange is served by the storage
                // collaborator, which lives outside the core.
            },
            Message::Refs { .. } => {
                // As above: reference sets are handled by storage.
            },
            Message::Ping { nonce } => {
                if negotiated {
                    self.outbox.push(Io::Write(*addr, Message::Pong { nonce }));
                }
                proof {
                    assert(self.outbox@.subrange(0, old(self).outbox@.len() as int) =~= old(
                        self,
                    ).outbox@);
                }
            },
            Message::Pong { nonce } => {
                let clear: bool = match &self.sessions[i].ping {
                    Some(pa) => pa.nonce == nonce,
                    None => false,
                };
                if clear {
                    let ghost s1 = self.sessions@;
                    self.sessions[i].ping = None;
                    proof {
                        lemma_session_update(s1, i as int, self.sessions@[i as int]);
                        assert(self.sessions@ =~= s1.update(i as int, self.sessions@[i as int]));
                        lemma_session_found(self.sessions@, i as int);
                    }
                }
                proof {
                    assert(self.outbox@.subrange(0, old(self).outbox@.len() as int) =~= old(
                        self,
                    ).outbox@);
                }
            },
            Message::Disconnect { .. } => {
                self.outbox.push(Io::Disconnect(*addr, DisconnectReason::PeerRequested));
                proof {
                    assert(self.outbox@.subrange(0, old(self).outbox@.len() as int) =~= old(
                        self,
                    ).outbox@);
                }
            },
        }
    }

    /// Advance the clock; ping idle negotiated peers, and give up on
    /// those whose ping went unanswered.
    pub fn tick(&mut self, now: u64)
        requires
            old(self).wf(),
        ensures
            final(self).wf(),
            final(self).config == old(self).config,
            final(self).id == old(self).id,
            final(self).inventory@ == old(self).inventory@,
            final(self).routing == old(self).routing,
            final(self).ledger@ == old(self).ledger@,
            final(self).clock == now,
            seq_extends(final(self).outbox@, old(self).outbox@),
            final(self).sessions@.len() == old(self).sessions@.len(),
            forall|j: int|
                0 <= j < old(self).sessions@.len() ==> (#[trigger] final(self).sessions@[j]).addr
                    == old(self).sessions@[j].addr && final(self).sessions@[j].state == old(
                    self,
                ).sessions@[j].state && final(self).sessions@[j].last_active == old(
                    self,
                ).sessions@[j].last_active && final(self).sessions@[j].attempts == old(
                    self,
                ).sessions@[j].attempts,
            forall|j: int|
                0 <= j < old(self).sessions@.len() ==> if ping_due(old(self).sessions@[j], now) {
                    (#[trigger] final(self).sessions@[j]).ping matches Some(pa) && pa.sent_at
                        == now
                } else {
                    final(self).sessions@[j].ping == old(self).sessions@[j].ping
                },
            final(self).outbox@.len() == old(self).outbox@.len() + tick_due(
                old(self).sessions@,
                now,
            ).len(),
            forall|k: int|
                old(self).outbox@.len() <= k < final(self).outbox@.len() ==> ({
                    let t = tick_due(old(self).sessions@, now)[k - old(self).outbox@.len()];
                    if ping_due(t, now) {
                        (#[trigger] final(self).outbox@[k]) matches Io::Write(a, m) && a == t.addr
                            && m matches Message::Ping { .. }
                    } else {
                        (#[trigger] final(self).outbox@[k]) matches Io::Disconnect(a, r) && a
                            == t.addr && r == DisconnectReason::KeepAlive
                    }
                }),
    {
        self.clock = now;
        let ghost base = self.outbox@;
        let ghost s0 = self.sessions@;
        let mut i: usize = 0;
        while i < self.sessions.len()
            invariant
                0 <= i <= s0.len(),
                self.config == old(self).config,
                self.id == old(self).id,
                self.inventory@ == old(self).inventory@,
                self.routing == old(self).routing,
                self.ledger@ == old(self).ledger@,
                self.clock == now,
                base == old(self).outbox@,
                self.sessions@.len() == s0.len(),
                forall|j: int|
                    0 <= j < s0.len() ==> (#[trigger] self.sessions@[j]).addr == s0[j].addr
                        && self.sessions@[j].state == s0[j].state && self.sessions@[j].link
                        == s0[j].link && self.sessions@[j].attempts == s0[j].attempts
                        && self.sessions@[j].last_active == s0[j].last_active,
                forall|j: int| i <= j < s0.len() ==> (#[trigger] self.sessions@[j]).ping == s0[j].ping,
                forall|j: int|
                    0 <= j < i ==> if ping_due(s0[j], now) {
                        (#[trigger] self.sessions@[j]).ping matches Some(pa) && pa.sent_at == now
                    } else {
                        self.sessions@[j].ping == s0[j].ping
                    },
                sessions_wf(self.sessions@),
                self.outbox@.len() == base.len() + tick_due(s0.take(i as int), now).len(),
                self.outbox@.subrange(0, base.len() as int) == base,
                forall|k: int|
                    base.len() <= k < self.outbox@.len() ==> ({
                        let t = tick_due(s0.take(i as int), now)[k - base.len()];
                        if ping_due(t, now) {
                            (#[trigger] self.outbox@[k]) matches Io::Write(a, m) && a == t.addr
                                && m matches Message::Ping { .. }
                        } else {
                            (#[trigger] self.outbox@[k]) matches Io::Disconnect(a, r) && a
                                == t.addr && r == DisconnectReason::KeepAlive
                        }
                    }),
            decreases s0.len() - i,
    {
            let ghost pre = s0.take(i as int);
            let ghost cur = s0.take(i as int + 1);
            proof {
                assert(cur.drop_last() =~= pre);
                assert(cur.last() == s0[i as int]);
            }
            let negotiated: bool = match &self.sessions[i].state {
                PeerState::Negotiated { .. } => true,
                _ => false,
            };
            if negotiated {
                let a = self.sessions[i].addr;
                match self.sessions[i].ping {
                    Some(pa) => {
                        if now >= pa.sent_at && now - pa.sent_at >= PING_TIMEOUT {
                            self.outbox.push(Io::Disconnect(a, DisconnectReason::KeepAlive));
                            proof {
                                assert(keepalive_due(s0[i as int], now));
                                assert(self.outbox@.subrange(0, base.len() as int) =~= base);
                            }
                        } else {
                            proof {
                                assert(!keepalive_due(s0[i as int], now));
                                assert(!ping_due(s0[i as int], now));
                            }
                        }
                    },
                    None => {
                        let idle = self.sessions[i].last_active;
                        if now >= idle && now - idle >= IDLE_TIMEOUT {
                            let nonce = self.next_nonce();
                            self.outbox.push(Io::Write(a, Message::Ping { nonce }));
                            let ghost s1 = self.sessions@;
                            self.sessions[i].ping = Some(
                                PingAttempt { nonce, sent_at: now },
                            );
                            proof {
                                assert(ping_due(s0[i as int], now));
                                assert(self.sessions@ =~= s1.update(
                                    i as int,
                                    self.sessions@[i as int],
                                ));
                                assert(self.outbox@.subrange(0, base.len() as int) =~= base);
                            }
                        } else {
                            proof {
                                assert(!ping_due(s0[i as int], now));
                                assert(!keepalive_due(s0[i as int], now));
                            }
                        }
                    },
                }
            } else {
                proof {
                    assert(!ping_due(s0[i as int], now));
                    assert(!keepalive_due(s0[i as int], now));
                }
            }
            i += 1;
        }
        proof {
            assert(s0.take(s0.len() as int) =~= s0);
        }
    }

    /// Broadcast the local inventory to every negotiated peer.
    fn announce_inventory(&mut self)
        requires
            old(self).wf(),
        ensures
            final(self).wf(),
            final(self).config == old(self).config,
            final(self).id == old(self).id,
            final(self).inventory@ == old(self).inventory@,
            final(self).routing == old(self).routing,
            final(self).ledger@ == old(self).ledger@,
            final(self).clock == old(self).clock,
            final(self).sessions@ == old(self).sessions@,
            seq_extends(final(self).outbox@, old(self).outbox@),
            final(self).outbox@.len() == old(self).outbox@.len() + negotiated_sessions(
                old(self).sessions@,
            ).len(),
            forall|k: int|
                old(self).outbox@.len() <= k < final(self).outbox@.len() ==> ((
                #[trigger] final(self).outbox@[k]) matches Io::Write(a, m) && a
                    == negotiated_sessions(old(self).sessions@)[k - old(self).outbox@.len()].addr
                    && (m matches Message::Inventory { timestamp, inv, origin } && timestamp
                    == old(self).clock && inv@ == old(self).inventory@ && origin is None)),
    {
        let ghost base = self.outbox@;
        let ghost ss = self.sessions@;
        let mut i: usize = 0;
        while i < self.sessions.len()
            invariant
                0 <= i <= ss.len(),
                self.sessions@ == ss,
                self.sessions == old(self).sessions,
                self.config == old(self).config,
                self.id == old(self).id,
                self.inventory == old(self).inventory,
                self.routing == old(self).routing,
                self.ledger == old(self).ledger,
                self.clock == old(self).clock,
                self.rng == old(self).rng,
                base == old(self).outbox@,
                self.outbox@.len() == base.len() + negotiated_sessions(ss.take(i as int)).len(),
                self.outbox@.subrange(0, base.len() as int) == base,
                forall|k: int|
                    0 <= k < negotiated_sessions(ss.take(i as int)).len() ==> (
                    #[trigger] self.outbox@[base.len() + k] matches Io::Write(a, m) && a
                        == negotiated_sessions(ss.take(i as int))[k].addr && (m matches
                        Message::Inventory { timestamp, inv, origin } && timestamp == old(
                        self,
                    ).clock && inv@ == old(self).inventory@ && origin is None)),
            decreases ss.len() - i,
        {
            let ghost pre = ss.take(i as int);
            let ghost cur = ss.take(i as int + 1);
            proof {
                assert(cur.drop_last() =~= pre);
                assert(cur.last() == ss[i as int]);
            }
            let negotiated: bool = match &self.sessions[i].state {
                PeerState::Negotiated { .. } => true,
                _ => false,
            };
            if negotiated {
                let a = self.sessions[i].addr;
                let t = self.clock;
                let inv = clone_ids(&self.inventory);
                self.outbox.push(Io::Write(a, Message::Inventory { timestamp: t, inv, origin: None }));
                proof {
                    assert(self.outbox@.subrange(0, base.len() as int) =~= base);
                }
            }
            i += 1;
        }
        proof {
            assert(ss.take(ss.len() as int) =~= ss);
            assert forall|k: int|
                base.len() <= k < self.outbox@.len() implies ((#[trigger] self.outbox@[k])
                matches Io::Write(a, m) && a == negotiated_sessions(ss)[k - base.len()].addr && (m
                matches Message::Inventory { timestamp, inv, origin } && timestamp == old(
                self,
            ).clock && inv@ == old(self).inventory@ && origin is None)) by {
                assert(self.outbox@[base.len() + (k - base.len())] matches Io::Write(a, m) && a
                    == negotiated_sessions(ss)[k - base.len()].addr && (m matches
                    Message::Inventory { timestamp, inv, origin } && timestamp == old(self).clock
                    && inv@ == old(self).inventory@ && origin is None));
            }
        }
    }

    /// Apply a local command and reply through the outbox.
    pub fn command(&mut self, cmd: Command)
        requires
            old(self).wf(),
        ensures
            final(self).wf(),
            final(self).id == old(self).id,
            final(self).clock == old(self).clock,
            final(self).ledger@ == old(self).ledger@,
            final(self).routing == old(self).routing,
            seq_extends(final(self).outbox@, old(self).outbox@),
            ({
                match cmd {
                    Command::Track(p) => {
                        &&& final(self).sessions@ == old(self).sessions@
                        &&& crate::config::same_but_tracking(final(self).config, old(self).config)
                        &&& final(self).inventory@ == old(self).inventory@
                        &&& policy_tracks(&final(self).config.project_tracking, p@)
                        &&& (forall|q: Seq<u8>|
                            q != p@ ==> policy_tracks(&final(self).config.project_tracking, q)
                                == policy_tracks(&old(self).config.project_tracking, q))
                        &&& final(self).outbox@.len() == old(self).outbox@.len() + 1
                        &&& (final(self).outbox@.last() matches Io::CommandReply(r) && r
                            == Reply::Tracking(!policy_tracks(
                            &old(self).config.project_tracking,
                            p@,
                        )))
                    },
                    Command::Untrack(p) => {
                        &&& final(self).sessions@ == old(self).sessions@
                        &&& crate::config::same_but_tracking(final(self).config, old(self).config)
                        &&& final(self).inventory@ == old(self).inventory@
                        &&& !policy_tracks(&final(self).config.project_tracking, p@)
                        &&& (forall|q: Seq<u8>|
                            q != p@ ==> policy_tracks(&final(self).config.project_tracking, q)
                                == policy_tracks(&old(self).config.project_tracking, q))
                        &&& final(self).outbox@.len() == old(self).outbox@.len() + 1
                        &&& (final(self).outbox@.last() matches Io::CommandReply(r) && r
                            == Reply::Untracking(policy_tracks(
                            &old(self).config.project_tracking,
                            p@,
                        )))
                    },
                    Command::Connect(a) => {
                        &&& final(self).sessions@ == old(self).sessions@
                        &&& final(self).config == old(self).config
                        &&& final(self).inventory@ == old(self).inventory@
                        &&& final(self).outbox@.len() == old(self).outbox@.len() + 1
                        &&& (final(self).outbox@.last() matches Io::Connect(a2) && a2 == a)
                    },
                    Command::Fetch(p) => {
                        let seeded = exists|a: Addr|
                            #![trigger session_get(old(self).sessions@, a)]
                            session_get(old(self).sessions@, a) matches Some(s) && is_negotiated(
                                s,
                            ) && old(self).routing.spec_routes(p@, session_id(s));
                        &&& final(self).sessions@ == old(self).sessions@
                        &&& final(self).config == old(self).config
                        &&& final(self).inventory@ == old(self).inventory@
                        &&& (seeded ==> final(self).outbox@.len() == old(self).outbox@.len() + 2
                            && (final(self).outbox@[old(self).outbox@.len() as int] matches
                            Io::FetchProject(a, u, p2) && p2 == p && (session_get(
                            old(self).sessions@,
                            a,
                        ) matches Some(s) && is_negotiated(s) && old(self).routing.spec_routes(
                            p@,
                            session_id(s),
                        ) && u@ == session_git_url(s)) && final(self).outbox@.last()
                            == Io::CommandReply(Reply::Fetching(Some(a)))))
                        &&& (!seeded ==> final(self).outbox@.len() == old(self).outbox@.len() + 1
                            && final(self).outbox@.last() == Io::CommandReply(
                            Reply::Fetching(None),
                        ))
                    },
                    Command::AnnounceInventory => {
                        &&& final(self).sessions@ == old(self).sessions@
                        &&& final(self).config == old(self).config
                        &&& final(self).inventory@ == old(self).inventory@
                        &&& final(self).outbox@.len() == old(self).outbox@.len()
                            + negotiated_sessions(old(self).sessions@).len()
                        &&& (forall|k: int|
                            old(self).outbox@.len() <= k < final(self).outbox@.len() ==> ((
                            #[trigger] final(self).outbox@[k]) matches Io::Write(a, m) && a
                                == negotiated_sessions(old(self).sessions@)[k - old(
                                self,
                            ).outbox@.len()].addr && (m matches Message::Inventory {
                                timestamp,
                                inv,
                                origin,
                            } && timestamp == old(self).clock && inv@ == old(self).inventory@
                                && origin is None)))
                    },
                    Command::HelloVerified(a, ok) => {
                        &&& final(self).config == old(self).config
                        &&& final(self).inventory@ == old(self).inventory@
                        &&& (!ok ==> final(self).outbox@.len() == old(self).outbox@.len() + 1
                            && final(self).outbox@.last() == Io::Disconnect(
                            a,
                            DisconnectReason::Error(PeerError::SignatureFailed),
                        ) && final(self).sessions@ == old(self).sessions@)
                        &&& (ok ==> final(self).outbox@ == old(self).outbox@ && (match session_get(
                            old(self).sessions@,
                            a,
                        ) {
                            Some(s) => (match s.state {
                                PeerState::Verifying {
                                    id,
                                    since,
                                    timestamp,
                                    git_url,
                                    addrs,
                                } => (session_get(final(self).sessions@, a) matches Some(s1) && (
                                s1.state matches PeerState::Negotiated {
                                    id: i2,
                                    since: c2,
                                    timestamp: t2,
                                    git_url: g2,
                                    addrs: a2,
                                } && i2 == id && c2 == since && t2 == timestamp && g2@ == git_url@
                                    && a2@ == addrs@) && s1.attempts == 0) && (forall|b: Addr|
                                    b != a ==> session_get(final(self).sessions@, b)
                                        == session_get(old(self).sessions@, b)),
                                _ => final(self).sessions@ == old(self).sessions@,
                            }),
                            None => final(self).sessions@ == old(self).sessions@,
                        }))
                    },
                    Command::InventoryChanged(v) => {
                        &&& final(self).sessions@ == old(self).sessions@
                        &&& final(self).config == old(self).config
                        &&& final(self).inventory@ == v@
                        &&& final(self).outbox@.len() == old(self).outbox@.len()
                            + negotiated_sessions(old(self).sessions@).len()
                        &&& (forall|k: int|
                            old(self).outbox@.len() <= k < final(self).outbox@.len() ==> ((
                            #[trigger] final(self).outbox@[k]) matches Io::Write(a, m) && a
                                == negotiated_sessions(old(self).sessions@)[k - old(
                                self,
                            ).outbox@.len()].addr && (m matches Message::Inventory {
                                timestamp,
                                inv,
                                origin,
                            } && timestamp == old(self).clock && inv@ == v@ && origin is None)))
                    },
                }
            }),
    {
        match cmd {
            Command::Track(p) => {
                let was = self.config.is_tracking(&p);
                if !was {
                    let new_tracking = match &self.config.project_tracking {
                        ProjectTracking::Allowed(v) => {
                            let mut v2 = clone_ids(v);
                            let ghost vv = v2@;
                            v2.push(p);
                            proof {
                                crate::config::lemma_ids_push(vv, p);
                            }
                            ProjectTracking::Allowed(v2)
                        },
                        ProjectTracking::Blocked(v) => {
                            let mut v2 = clone_ids(v);
                            remove_id(&mut v2, &p);
                            ProjectTracking::Blocked(v2)
                        },
                    };
                    self.config.project_tracking = new_tracking;
                }
                self.outbox.push(Io::CommandReply(Reply::Tracking(!was)));
                proof {
                    assert(self.outbox@.subrange(0, old(self).outbox@.len() as int) =~= old(
                        self,
                    ).outbox@);
                }
            },
            Command::Untrack(p) => {
                let was = self.config.is_tracking(&p);
                if was {
                    let new_tracking = match &self.config.project_tracking {
                        ProjectTracking::Allowed(v) => {
                            let mut v2 = clone_ids(v);
                            remove_id(&mut v2, &p);
                            ProjectTracking::Allowed(v2)
                        },
                        ProjectTracking::Blocked(v) => {
                            let mut v2 = clone_ids(v);
                            let ghost vv = v2@;
                            v2.push(p);
                            proof {
                                crate::config::lemma_ids_push(vv, p);
                            }
                            ProjectTracking::Blocked(v2)
                        },
                    };
                    self.config.project_tracking = new_tracking;
                }
                self.outbox.push(Io::CommandReply(Reply::Untracking(was)));
                proof {
                    assert(self.outbox@.subrange(0, old(self).outbox@.len() as int) =~= old(
                        self,
                    ).outbox@);
                }
            },
            Command::Connect(a) => {
                self.outbox.push(Io::Connect(a));
                proof {
                    assert(self.outbox@.subrange(0, old(self).outbox@.len() as int) =~= old(
                        self,
                    ).outbox@);
                }
            },
            Command::Fetch(p) => {
                let mut chosen: Option<(Addr, String)> = None;
                match self.routing.get(&p) {
                    Some(peers) => {
                        let mut j: usize = 0;
                        while j < self.sessions.len()
                            invariant
                                0 <= j <= self.sessions@.len(),
                                sessions_wf(self.sessions@),
                                chosen matches Some(t) ==> (session_get(self.sessions@, t.0)
                                    matches Some(s) && is_negotiated(s) && self.routing.spec_routes(
                                    p@,
                                    session_id(s),
                                ) && t.1@ == session_git_url(s)),
                                chosen is None ==> forall|m: int|
                                    0 <= m < j ==> !(is_negotiated(#[trigger] self.sessions@[m])
                                        && self.routing.spec_routes(
                                        p@,
                                        session_id(self.sessions@[m]),
                                    )),
                                forall|x: Seq<u8>|
                                    crate::routing::keys_contain(peers@, x)
                                        <==> self.routing.spec_routes(p@, x),
                            decreases self.sessions@.len() - j,
                        {
                            if chosen.is_none() {
                                let found: Option<(Addr, String)> = match &self.sessions[j].state {
                                    PeerState::Negotiated { id, git_url, .. } => {
                                        match crate::routing::find_key(peers, id) {
                                            Some(_) => Some(
                                                (self.sessions[j].addr, git_url.clone()),
                                            ),
                                            None => None,
                                        }
                                    },
                                    _ => None,
                                };
                                if found.is_some() {
                                    proof {
                                        lemma_session_found(self.sessions@, j as int);
                                    }
                                    chosen = found;
                                }
                            }
                            j += 1;
                        }
                    },
                    None => {},
                }
                proof {
                    if chosen is None {
                        assert forall|a: Addr|
                            #![trigger session_get(self.sessions@, a)]
                            !(session_get(self.sessions@, a) matches Some(s) && is_negotiated(s)
                                && self.routing.spec_routes(p@, session_id(s))) by {
                            if session_get(self.sessions@, a) matches Some(s) && is_negotiated(s)
                                && self.routing.spec_routes(p@, session_id(s)) {
                                let m = crate::peer::session_at(self.sessions@, a);
                                assert(!(is_negotiated(self.sessions@[m])
                                    && self.routing.spec_routes(
                                    p@,
                                    session_id(self.sessions@[m]),
                                )));
                            }
                        }
                    }
                }
                match chosen {
                    Some((a, u)) => {
                        self.outbox.push(Io::FetchProject(a, u, p));
                        self.outbox.push(Io::CommandReply(Reply::Fetching(Some(a))));
                    },
                    None => {
                        self.outbox.push(Io::CommandReply(Reply::Fetching(None)));
                    },
                }
                proof {
                    assert(self.outbox@.subrange(0, old(self).outbox@.len() as int) =~= old(
                        self,
                    ).outbox@);
                }
            },
            Command::AnnounceInventory => {
                self.announce_inventory();
            },
            Command::InventoryChanged(v) => {
                self.inventory = v;
                self.announce_inventory();
            },
            Command::HelloVerified(a, ok) => {
                if !ok {
                    self.outbox.push(
                        Io::Disconnect(a, DisconnectReason::Error(PeerError::SignatureFailed)),
                    );
                } else {
                    match self.find_session(&a) {
                        Some(i) => {
                            let ghost s0 = self.sessions@;
                            proof {
                                lemma_session_found(s0, i as int);
                            }
                            let verifying: bool = match &self.sessions[i].state {
                                PeerState::Verifying { .. } => true,
                                _ => false,
                            };
                            if verifying {
                                let mut st = PeerState::Connecting;
                                core::mem::swap(&mut st, &mut self.sessions[i].state);
                                proof {
                                    lemma_session_update(s0, i as int, self.sessions@[i as int]);
                                    assert(self.sessions@ =~= s0.update(
                                        i as int,
                                        self.sessions@[i as int],
                                    ));
                                }
                                match st {
                                    PeerState::Verifying {
                                        id,
                                        since,
                                        timestamp,
                                        git_url,
                                        addrs,
                                    } => {
                                        let ghost s1 = self.sessions@;
                                        self.sessions[i].state = PeerState::Negotiated {
                                            id,
                                            since,
                                            timestamp,
                                            git_url,
                                            addrs,
                                        };
                                        self.sessions[i].attempts = 0;
                                        proof {
                                            lemma_session_update(
                                                s1,
                                                i as int,
                                                self.sessions@[i as int],
                                            );
                                            assert(self.sessions@ =~= s1.update(
                                                i as int,
                                                self.sessions@[i as int],
                                            ));
                                        }
                                    },
                                    _ => {
                                        proof {
                                            assert(false);
                                        }
                                    },
                                }
                            }
                        },
                        None => {},
                    }
                }
                proof {
                    assert(self.outbox@.subrange(0, old(self).outbox@.len() as int) =~= old(
                        self,
                    ).outbox@);
                }
            },
        }
    }
}

/// Once a timestamp stands in the ledger for an advertiser, the same
/// inventory offered again is not accepted, so it is not relayed again.
pub proof fn lemma_inventory_idempotent(l: Seq<LedgerEntry>, adv: Seq<u8>, t: u64)
    requires
        ledger_get(l, adv) == Some(t),
    ensures
        !accepts(l, adv, t),
{
}


/// A sequence extending an extension extends the first sequence too.
pub proof fn lemma_extends_trans<T>(a: Seq<T>, b: Seq<T>, c: Seq<T>)
    requires
        seq_extends(b, a),
        seq_extends(c, b),
    ensures
        seq_extends(c, a),
{
    assert(c.subrange(0, a.len() as int) =~= a) by {
        assert forall|i: int| 0 <= i < a.len() implies c.subrange(0, a.len() as int)[i]
            == a[i] by {
            assert(b.subrange(0, a.len() as int)[i] == a[i]);
            assert(c.subrange(0, b.len() as int)[i] == b[i]);
        }
    }
}

/// Monotone ledger steps compose.
pub proof fn lemma_monotone_trans(a: Seq<LedgerEntry>, b: Seq<LedgerEntry>, c: Seq<LedgerEntry>)
    requires
        ledger_monotone(a, b),
        ledger_monotone(b, c),
    ensures
        ledger_monotone(a, c),
{
    assert forall|p: Seq<u8>| (#[trigger] ledger_get(a, p)) is Some implies (ledger_get(c, p)
        is Some && ledger_get(a, p)->Some_0 <= ledger_get(c, p)->Some_0) by {
        assert(ledger_get(b, p) is Some);
    }
}

impl Protocol {
    /// Feed inbound bytes from a connection through its frame decoder
    /// and dispatch every complete message; drop the connection on a
    /// malformed frame or a wrong network magic.
    pub fn received_bytes(&mut self, addr: &Addr, bytes: &[u8])
        requires
            old(self).wf(),
        ensures
            final(self).wf(),
            final(self).config == old(self).config,
            final(self).id == old(self).id,
            final(self).inventory@ == old(self).inventory@,
            final(self).clock == old(self).clock,
            seq_extends(final(self).outbox@, old(self).outbox@),
            ledger_monotone(old(self).ledger@, final(self).ledger@),
            ({
                let sender = session_get(old(self).sessions@, *addr);
                match sender {
                    Some(s) => if s.state is Disconnected {
                        final(self).sessions@ == old(self).sessions@ && final(self).outbox@
                            == old(self).outbox@ && final(self).ledger@ == old(self).ledger@
                            && final(self).routing == old(self).routing
                    } else {
                        exists|frames: Seq<crate::codec::Envelope>|
                            #![trigger crate::codec::frames_bytes(frames)]
                            {
                                &&& (session_get(final(self).sessions@, *addr) matches Some(s1)
                                    && s.decoder.buf@ + bytes@ == crate::codec::frames_bytes(
                                    frames,
                                ) + s1.decoder.buf@ && (!crate::codec::has_complete_frame(
                                    s1.decoder.buf@,
                                ) || (final(self).outbox@.len() > old(self).outbox@.len()
                                    && final(self).outbox@.last() == Io::Disconnect(
                                    *addr,
                                    DisconnectReason::Error(PeerError::MalformedMessage),
                                ) && s1.decoder.buf@.len() >= 4 && (crate::codec::be32_val(
                                    s1.decoder.buf@,
                                ) > crate::codec::MAX_FRAME || crate::codec::has_complete_frame(
                                    s1.decoder.buf@,
                                )))))
                                &&& (forall|fi: int|
                                    0 <= fi < frames.len() && (#[trigger] frames[fi]).magic != old(
                                        self,
                                    ).config.network_magic ==> exists|k: int|
                                        old(self).outbox@.len() <= k < final(self).outbox@.len()
                                            && final(self).outbox@[k] == Io::Disconnect(
                                            *addr,
                                            DisconnectReason::Error(
                                                PeerError::WrongMagic(frames[fi].magic),
                                            ),
                                        ))
                                &&& ((forall|fi: int|
                                    0 <= fi < frames.len() ==> (#[trigger] frames[fi]).magic
                                        != old(self).config.network_magic)
                                    ==> final(self).ledger@ == old(self).ledger@
                                        && final(self).routing == old(self).routing)
                            }
                    },
                    None => final(self).sessions@ == old(self).sessions@ && final(self).outbox@
                        == old(self).outbox@ && final(self).ledger@ == old(self).ledger@
                        && final(self).routing == old(self).routing,
                }
            }),
    {
        let i: usize = match self.find_session(addr) {
            Some(i) => i,
            None => {
                proof {
                    assert(self.outbox@.subrange(0, old(self).outbox@.len() as int) =~= old(
                        self,
                    ).outbox@);
                }
                return ;
            },
        };
        proof {
            lemma_session_found(self.sessions@, i as int);
        }
        let ghost sender = old(self).sessions@[i as int];
        let live: bool = match &self.sessions[i].state {
            PeerState::Disconnected { .. } => false,
            _ => true,
        };
        if !live {
            proof {
                assert(self.outbox@.subrange(0, old(self).outbox@.len() as int) =~= old(
                    self,
                ).outbox@);
            }
            return ;
        }
        // Take the connection's decoder out, feed it, and collect every
        // complete frame.
        let mut dec = crate::codec::Decoder::new();
        let ghost s0 = self.sessions@;
        core::mem::swap(&mut dec, &mut self.sessions[i].decoder);
        proof {
            lemma_session_update(s0, i as int, self.sessions@[i as int]);
            assert(self.sessions@ =~= s0.update(i as int, self.sessions@[i as int]));
        }
        dec.input(bytes);
        let ghost buf1 = sender.decoder.buf@ + bytes@;
        let ghost mut gframes: Seq<crate::codec::Envelope> = Seq::empty();
        let mut envs: Vec<crate::codec::Envelope> = Vec::new();
        let mut malformed = false;
        let mut going = true;
        proof {
            assert(crate::codec::frames_bytes(gframes) =~= Seq::<u8>::empty());
            assert(crate::codec::frames_bytes(gframes) + dec.buf@ =~= buf1);
        }
        while going
            invariant
                envs@ == gframes,
                crate::codec::frames_bytes(gframes) + dec.buf@ == buf1,
                !going ==> malformed || !crate::codec::has_complete_frame(dec.buf@),
                malformed ==> !going,
                malformed ==> dec.buf@.len() >= 4 && (crate::codec::be32_val(dec.buf@)
                    > crate::codec::MAX_FRAME || crate::codec::has_complete_frame(dec.buf@)),
            decreases dec.buf@.len() + (if going { 1int } else { 0int }),
        {
            let ghost dbuf = dec.buf@;
            match dec.decode_next() {
                crate::codec::Decoded::Envelope(env) => {
                    proof {
                        let ghost g0 = gframes;
                        gframes = gframes.push(env);
                        crate::codec::lemma_frames_bytes_push(g0, env);
                        assert(crate::codec::frames_bytes(gframes) + dec.buf@ =~= buf1);
                    }
                    envs.push(env);
                },
                crate::codec::Decoded::Incomplete => {
                    going = false;
                },
                crate::codec::Decoded::Malformed => {
                    malformed = true;
                    going = false;
                },
            }
        }
        // Put the decoder back, with whatever tail is still buffered.
        let ghost s1 = self.sessions@;
        core::mem::swap(&mut dec, &mut self.sessions[i].decoder);
        proof {
            lemma_session_update(s1, i as int, self.sessions@[i as int]);
            assert(self.sessions@ =~= s1.update(i as int, self.sessions@[i as int]));
        }
        let ghost leftover = self.sessions@[i as int].decoder.buf@;
        // Dispatch the messages in arrival order.
        let ghost base = self.outbox@;
        let ghost l0 = self.ledger@;
        let ghost cfg_magic = self.config.network_magic;
        let ghost mut done: int = 0;
        proof {
            assert(base == old(self).outbox@);
            assert(l0 == old(self).ledger@);
            assert(seq_extends(self.outbox@, old(self).outbox@)) by {
                assert(self.outbox@.subrange(0, old(self).outbox@.len() as int) =~= old(
                    self,
                ).outbox@);
            }
            assert(envs@ =~= gframes.skip(0));
        }
        while envs.len() > 0
            invariant
                self.wf(),
                self.config == old(self).config,
                self.id == old(self).id,
                self.inventory@ == old(self).inventory@,
                self.clock == old(self).clock,
                seq_extends(self.outbox@, old(self).outbox@),
                ledger_monotone(old(self).ledger@, self.ledger@),
                cfg_magic == old(self).config.network_magic,
                0 <= done <= gframes.len(),
                envs@ == gframes.skip(done),
                self.sessions@.len() == old(self).sessions@.len(),
                i < self.sessions@.len(),
                self.sessions@[i as int].addr == *addr,
                self.sessions@[i as int].decoder.buf@ == leftover,
                forall|fi: int|
                    0 <= fi < done && (#[trigger] gframes[fi]).magic != cfg_magic ==> exists|
                        k: int,
                    |
                        old(self).outbox@.len() <= k < self.outbox@.len() && self.outbox@[k]
                            == Io::Disconnect(
                            *addr,
                            DisconnectReason::Error(PeerError::WrongMagic(gframes[fi].magic)),
                        ),
                (forall|fi: int| 0 <= fi < done ==> (#[trigger] gframes[fi]).magic != cfg_magic)
                    ==> self.ledger@ == old(self).ledger@ && self.routing == old(self).routing,
            decreases envs@.len(),
        {
            let ghost mid_outbox = self.outbox@;
            let ghost mid_ledger = self.ledger@;
            let env = envs.remove(0);
            proof {
                assert(gframes.skip(done).drop_first() =~= gframes.skip(done + 1));
                assert(env == gframes[done]);
            }
            if env.magic != self.config.network_magic {
                self.outbox.push(
                    Io::Disconnect(*addr, DisconnectReason::Error(PeerError::WrongMagic(env.magic))),
                );
                proof {
                    assert(self.outbox@.subrange(0, mid_outbox.len() as int) =~= mid_outbox);
                }
            } else {
                self.received_message(addr, env.msg);
            }
            proof {
                lemma_extends_trans(old(self).outbox@, mid_outbox, self.outbox@);
                lemma_monotone_trans(old(self).ledger@, mid_ledger, self.ledger@);
                assert forall|fi: int|
                    0 <= fi < done + 1 && (#[trigger] gframes[fi]).magic != cfg_magic implies exists|
                    k: int,
                |
                    old(self).outbox@.len() <= k < self.outbox@.len() && self.outbox@[k]
                        == Io::Disconnect(
                        *addr,
                        DisconnectReason::Error(PeerError::WrongMagic(gframes[fi].magic)),
                    ) by {
                    if fi < done {
                        let k = choose|k: int|
                            old(self).outbox@.len() <= k < mid_outbox.len() && mid_outbox[k]
                                == Io::Disconnect(
                                *addr,
                                DisconnectReason::Error(PeerError::WrongMagic(gframes[fi].magic)),
                            );
                        assert(self.outbox@.subrange(0, mid_outbox.len() as int)[k]
                            == mid_outbox[k]);
                        assert(self.outbox@[k] == mid_outbox[k]);
                    } else {
                        assert(self.outbox@[mid_outbox.len() as int] == Io::Disconnect(
                            *addr,
                            DisconnectReason::Error(PeerError::WrongMagic(gframes[fi].magic)),
                        ));
                    }
                }
                assert(((forall|fi: int|
                    0 <= fi < done + 1 ==> (#[trigger] gframes[fi]).magic != cfg_magic)
                    ==> self.ledger@ == old(self).ledger@ && self.routing == old(
                    self,
                ).routing)) by {
                    if forall|fi: int|
                        0 <= fi < done + 1 ==> (#[trigger] gframes[fi]).magic != cfg_magic {
                        assert(gframes[done].magic != cfg_magic);
                        assert(self.ledger@ == mid_ledger);
                    }
                }
                done = done + 1;
            }
        }
        proof {
            assert(gframes.skip(done).len() == 0);
            assert(done == gframes.len());
        }
        if malformed {
            let ghost mid_outbox = self.outbox@;
            self.outbox.push(
                Io::Disconnect(*addr, DisconnectReason::Error(PeerError::MalformedMessage)),
            );
            proof {
                assert(self.outbox@.subrange(0, mid_outbox.len() as int) =~= mid_outbox);
                lemma_extends_trans(old(self).outbox@, mid_outbox, self.outbox@);
                assert forall|fi: int|
                    0 <= fi < gframes.len() && (#[trigger] gframes[fi]).magic != cfg_magic implies exists|
                    k: int,
                |
                    old(self).outbox@.len() <= k < self.outbox@.len() && self.outbox@[k]
                        == Io::Disconnect(
                        *addr,
                        DisconnectReason::Error(PeerError::WrongMagic(gframes[fi].magic)),
                    ) by {
                    let k = choose|k: int|
                        old(self).outbox@.len() <= k < mid_outbox.len() && mid_outbox[k]
                            == Io::Disconnect(
                            *addr,
                            DisconnectReason::Error(PeerError::WrongMagic(gframes[fi].magic)),
                        );
                    assert(self.outbox@.subrange(0, mid_outbox.len() as int)[k] == mid_outbox[k]);
                    assert(self.outbox@[k] == mid_outbox[k]);
                }
            }
        }
        proof {
            lemma_session_found(self.sessions@, i as int);
            assert(session_get(old(self).sessions@, *addr) == Some(sender));
            assert(crate::codec::frames_bytes(gframes) + leftover =~= buf1);
        }
    }
}


/// What a routing lookup found: whether the project is held locally,
/// and which remote peers advertise it.
pub struct Lookup {
    pub local: bool,
    pub remote: Vec<PublicKey>,
}

impl Protocol {
    /// Consult the local inventory and the routing table for a project.
    pub fn lookup(&self, proj: &ProjId) -> (r: Lookup)
        requires
            self.wf(),
        ensures
            r.local == ids_contain(self.inventory@, proj@),
            forall|x: Seq<u8>|
                crate::routing::keys_contain(r.remote@, x) <==> self.routing.spec_routes(proj@, x),
    {
        let local = crate::config::find_id(&self.inventory, proj).is_some();
        let remote: Vec<PublicKey> = match self.routing.get(proj) {
            Some(peers) => {
                let mut out: Vec<PublicKey> = Vec::new();
                let mut i: usize = 0;
                while i < peers.len()
                    invariant
                        0 <= i <= peers@.len(),
                        out@ == peers@.take(i as int),
                    decreases peers@.len() - i,
                {
                    out.push(peers[i]);
                    proof {
                        assert(out@ =~= peers@.take(i as int + 1));
                    }
                    i += 1;
                }
                proof {
                    assert(peers@.take(peers@.len() as int) =~= peers@);
                }
                out
            },
            None => Vec::new(),
        };
        proof {
            assert forall|x: Seq<u8>|
                crate::routing::keys_contain(remote@, x) <==> self.routing.spec_routes(
                    proj@,
                    x,
                ) by {
            }
        }
        Lookup { local, remote }
    }
}

} // verus!
