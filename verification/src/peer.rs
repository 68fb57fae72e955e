//! Per-connection session state.

use vstd::prelude::*;

use crate::identity::PublicKey;
use crate::message::{Addr, DisconnectReason, Link};

verus! {

/// An outstanding liveness probe.
#[derive(Clone, Copy, Debug, PartialEq, Eq, Structural)]
pub struct PingAttempt {
    pub nonce: u64,
    pub sent_at: u64,
}

/// Where a connection stands in its lifecycle.
#[derive(Clone, Debug)]
pub enum PeerState {
    /// An outbound dial is underway.
    Connecting,
    /// The transport is up; hellos are being exchanged.
    Connected { since: u64 },
    /// A time- and version-valid hello arrived; the signer collaborator
    /// is checking its signature before the session may negotiate.
    Verifying { id: PublicKey, since: u64, timestamp: u64, git_url: String, addrs: Vec<Addr> },
    /// The hello exchange completed and the signature verified; the
    /// session is live.
    Negotiated { id: PublicKey, since: u64, timestamp: u64, git_url: String, addrs: Vec<Addr> },
    /// The connection was lost; kept briefly for backoff bookkeeping.
    Disconnected { at: u64, reason: DisconnectReason },
}

/// One tracked connection.
#[derive(Clone, Debug)]
pub struct Session {
    pub addr: Addr,
    pub link: Link,
    pub state: PeerState,
    /// Buffers this connection's inbound bytes into frames.
    pub decoder: crate::codec::Decoder,
    /// Consecutive connection attempts since the last negotiation.
    pub attempts: u64,
    /// When the last inbound frame arrived.
    pub last_active: u64,
    /// The outstanding ping, if any.
    pub ping: Option<PingAttempt>,
}

/// Whether the session has completed the hello exchange.
pub open spec fn is_negotiated(s: Session) -> bool {
    s.state is Negotiated
}

/// The remote's identity, for a negotiated session.
pub open spec fn session_id(s: Session) -> Seq<u8> {
    match s.state {
        PeerState::Negotiated { id, .. } => id@,
        _ => Seq::empty(),
    }
}

/// The remote's advertised git URL, for a negotiated session.
pub open spec fn session_git_url(s: Session) -> Seq<char> {
    match s.state {
        PeerState::Negotiated { git_url, .. } => git_url@,
        _ => Seq::empty(),
    }
}

/// At most one session per remote address.
pub open spec fn sessions_wf(s: Seq<Session>) -> bool {
    forall|i: int, j: int| 0 <= i < j < s.len() ==> s[i].addr != s[j].addr
}

/// Whether some session exists for the address.
pub open spec fn has_session(s: Seq<Session>, a: Addr) -> bool {
    exists|i: int| 0 <= i < s.len() && s[i].addr == a
}

/// The index of the session for the address.
pub open spec fn session_at(s: Seq<Session>, a: Addr) -> int {
    choose|i: int| 0 <= i < s.len() && s[i].addr == a
}

/// The session for the address, if any.
pub open spec fn session_get(s: Seq<Session>, a: Addr) -> Option<Session> {
    if has_session(s, a) {
        Some(s[session_at(s, a)])
    } else {
        None
    }
}

/// The indexed session is the one `session_get` returns.
pub proof fn lemma_session_found(s: Seq<Session>, i: int)
    requires
        sessions_wf(s),
        0 <= i < s.len(),
    ensures
        session_get(s, s[i].addr) == Some(s[i]),
{
    assert(has_session(s, s[i].addr)) by {
        assert(s[i].addr == s[i].addr);
    }
    let j = session_at(s, s[i].addr);
    assert(j == i);
}

/// Updating one session in place touches no other address.
pub proof fn lemma_session_update(s: Seq<Session>, i: int, v: Session)
    requires
        sessions_wf(s),
        0 <= i < s.len(),
        v.addr == s[i].addr,
    ensures
        sessions_wf(s.update(i, v)),
        session_get(s.update(i, v), v.addr) == Some(v),
        forall|a: Addr| a != v.addr ==> session_get(s.update(i, v), a) == session_get(s, a),
{
    let t = s.update(i, v);
    assert(sessions_wf(t));
    lemma_session_found(t, i);
    assert forall|a: Addr| a != v.addr implies session_get(t, a) == session_get(s, a) by {
        if has_session(t, a) {
            let k = session_at(t, a);
            assert(k != i);
            assert(s[k].addr == a);
            lemma_session_found(s, k);
            lemma_session_found(t, k);
        }
        if has_session(s, a) {
            let k = session_at(s, a);
            assert(k != i);
            assert(t[k].addr == a);
            lemma_session_found(t, k);
            lemma_session_found(s, k);
        }
    }
}

/// Appending a session for a fresh address touches no other address.
pub proof fn lemma_session_push(s: Seq<Session>, v: Session)
    requires
        sessions_wf(s),
        !has_session(s, v.addr),
    ensures
        sessions_wf(s.push(v)),
        session_get(s.push(v), v.addr) == Some(v),
        forall|a: Addr| a != v.addr ==> session_get(s.push(v), a) == session_get(s, a),
{
    let t = s.push(v);
    assert(sessions_wf(t)) by {
        assert forall|i: int, j: int| 0 <= i < j < t.len() implies t[i].addr != t[j].addr by {
            if j == t.len() - 1 {
                assert(t[i] == s[i]);
                if s[i].addr == v.addr {
                    assert(has_session(s, v.addr)) by {
                        assert(s[i].addr == v.addr);
                    }
                }
            }
        }
    }
    lemma_session_found(t, t.len() - 1);
    assert forall|a: Addr| a != v.addr implies session_get(t, a) == session_get(s, a) by {
        if has_session(t, a) {
            let k = session_at(t, a);
            assert(k < s.len());
            lemma_session_found(s, k);
            lemma_session_found(t, k);
        }
        if has_session(s, a) {
            let k = session_at(s, a);
            lemma_session_found(s, k);
            lemma_session_found(t, k);
        }
    }
}

/// The negotiated sessions, in table order.
pub open spec fn negotiated_sessions(s: Seq<Session>) -> Seq<Session>
    decreases s.len(),
{
    if s.len() == 0 {
        Seq::empty()
    } else {
        let rest = negotiated_sessions(s.drop_last());
        if is_negotiated(s.last()) {
            rest.push(s.last())
        } else {
            rest
        }
    }
}

/// Whether an inventory received from `from` is relayed to this session:
/// it is negotiated, it is not the sender, and it is not the advertiser.
pub open spec fn relay_ok(t: Session, from: Addr, adv: Seq<u8>) -> bool {
    is_negotiated(t) && t.addr != from && session_id(t) != adv
}

/// The relay targets for an inventory from `from` advertised by `adv`,
/// in table order.
pub open spec fn relay_targets(s: Seq<Session>, from: Addr, adv: Seq<u8>) -> Seq<Addr>
    decreases s.len(),
{
    if s.len() == 0 {
        Seq::empty()
    } else {
        let rest = relay_targets(s.drop_last(), from, adv);
        if relay_ok(s.last(), from, adv) {
            rest.push(s.last().addr)
        } else {
            rest
        }
    }
}

/// What makes an address a sound relay target.
pub open spec fn relay_target_valid(s: Seq<Session>, from: Addr, adv: Seq<u8>, a: Addr) -> bool {
    &&& a != from
    &&& (session_get(s, a) matches Some(t) && is_negotiated(t) && session_id(t) != adv)
}

/// Every relay target is a negotiated session other than the sender and
/// the advertiser.
pub proof fn lemma_relay_targets_ok(s: Seq<Session>, from: Addr, adv: Seq<u8>)
    requires
        sessions_wf(s),
    ensures
        forall|k: int|
            0 <= k < relay_targets(s, from, adv).len() ==> relay_target_valid(
                s,
                from,
                adv,
                #[trigger] relay_targets(s, from, adv)[k],
            ),
    decreases s.len(),
{
    if s.len() > 0 {
        let pre = s.drop_last();
        assert(sessions_wf(pre));
        lemma_relay_targets_ok(pre, from, adv);
        let targets = relay_targets(s, from, adv);
        let rest = relay_targets(pre, from, adv);
        assert forall|k: int| 0 <= k < targets.len() implies relay_target_valid(
            s,
            from,
            adv,
            targets[k],
        ) by {
            if k < rest.len() {
                let a = rest[k];
                assert(relay_target_valid(pre, from, adv, a));
                assert(session_get(pre, a) matches Some(t) && is_negotiated(t) && session_id(t)
                    != adv);
                let m = session_at(pre, a);
                assert(pre[m] == s[m]);
                lemma_session_found(s, m);
            } else {
                assert(relay_ok(s.last(), from, adv));
                lemma_session_found(s, s.len() - 1);
            }
        }
    }
}

} // verus!
