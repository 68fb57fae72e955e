use node::config::{Config, ProjectTracking};
use node::identity::{ProjId, PublicKey};
use node::message::{Addr, Command, DisconnectReason, Io, Link, Message, PeerError, Reply};
use node::protocol::Protocol;
use node::{MAX_CONNECTION_ATTEMPTS, MAX_TIME_DELTA, NETWORK_MAGIC, PROTOCOL_PORT};

fn key(n: u8) -> PublicKey {
    PublicKey { bytes: [n; 32] }
}

fn pid(n: u8) -> ProjId {
    ProjId { digest: [n; 32] }
}

fn ip4(a: u8, b: u8, c: u8, d: u8) -> Addr {
    Addr { ip: u32::from_be_bytes([a, b, c, d]), port: PROTOCOL_PORT }
}

fn peer(id: u8, inv: Vec<ProjId>) -> Protocol {
    Protocol::new(Config::default(), key(id), inv, id as u64 + 1)
}

fn peer_with(config: Config, id: PublicKey, inv: Vec<ProjId>) -> Protocol {
    Protocol::new(config, id, inv, 7)
}

/// Drive an outbound connection to `remote` through negotiation: the
/// hello exchange followed by the signer's good verdict.
fn connect_to(p: &mut Protocol, remote: Addr, remote_id: PublicKey) {
    p.attempted(&remote);
    p.connected(&remote, &ip4(1, 1, 1, 1), Link::Outbound);
    let t = p.clock;
    p.received_message(&remote, Message::hello(remote_id, t, vec![], String::new()));
    p.command(Command::HelloVerified(remote, true));
    p.outbox();
}

/// Accept an inbound connection from `remote` through negotiation: the
/// hello exchange followed by the signer's good verdict.
fn connect_from(p: &mut Protocol, remote: Addr, remote_id: PublicKey) {
    p.connected(&remote, &ip4(1, 1, 1, 1), Link::Inbound);
    let t = p.clock;
    p.received_message(&remote, Message::hello(remote_id, t, vec![], String::new()));
    p.command(Command::HelloVerified(remote, true));
    p.outbox();
}

/// The messages written to `to`, in order.
fn messages_to(outbox: &[Io], to: Addr) -> Vec<Message> {
    let mut out = Vec::new();
    for io in outbox {
        if let Io::Write(a, m) = io {
            if *a == to {
                out.push(m.clone());
            }
        }
    }
    out
}

fn negotiated_ids(p: &Protocol) -> Vec<PublicKey> {
    p.negotiated().into_iter().map(|(_, k)| k).collect()
}

#[test]
fn test_outbound_connection() {
    let mut alice = peer(1, vec![]);
    let bob = ip4(9, 9, 9, 9);
    let eve = ip4(7, 7, 7, 7);
    alice.initialize(1000);
    connect_to(&mut alice, bob, key(2));
    connect_to(&mut alice, eve, key(3));
    let ids = negotiated_ids(&alice);
    assert!(ids.contains(&key(2)));
    assert!(ids.contains(&key(3)));
}

#[test]
fn test_inbound_connection() {
    let mut alice = peer(1, vec![]);
    let bob = ip4(9, 9, 9, 9);
    let eve = ip4(7, 7, 7, 7);
    alice.initialize(1000);
    connect_from(&mut alice, bob, key(2));
    connect_from(&mut alice, eve, key(3));
    let ids = negotiated_ids(&alice);
    assert!(ids.contains(&key(2)));
    assert!(ids.contains(&key(3)));
}

#[test]
fn test_persistent_peer_connect() {
    let bob = ip4(9, 9, 9, 9);
    let eve = ip4(7, 7, 7, 7);
    let config = Config { connect: vec![bob, eve], ..Config::default() };
    let mut alice = peer_with(config, key(1), vec![]);
    alice.initialize(1000);
    let out = alice.outbox();
    assert_eq!(out.len(), 2);
    assert!(matches!(out[0], Io::Connect(a) if a == bob));
    assert!(matches!(out[1], Io::Connect(a) if a == eve));
}

#[test]
fn test_wrong_peer_version() {
    let mut alice = peer(1, vec![]);
    let bob = ip4(8, 8, 8, 8);
    alice.initialize(1000);
    alice.connected(&bob, &ip4(1, 1, 1, 1), Link::Inbound);
    alice.outbox();
    let t = alice.clock;
    let bad_version = alice.config().protocol_version + 1;
    alice.received_message(
        &bob,
        Message::Hello {
            id: key(2),
            timestamp: t,
            addrs: vec![],
            git_url: String::new(),
            version: bad_version,
            signature: node::message::Signature::empty(),
        },
    );
    let out = alice.outbox();
    assert!(matches!(
        out[0],
        Io::Disconnect(a, DisconnectReason::Error(PeerError::WrongProtocolVersion(v)))
        if a == bob && v == bad_version
    ));
    assert!(negotiated_ids(&alice).is_empty());
}

#[test]
fn test_handshake_invalid_timestamp() {
    let mut alice = peer(1, vec![]);
    let bob = ip4(8, 8, 8, 8);
    alice.initialize(10000);
    alice.connected(&bob, &ip4(1, 1, 1, 1), Link::Inbound);
    alice.outbox();
    let stale = alice.clock - (MAX_TIME_DELTA + 1);
    alice.received_message(&bob, Message::hello(key(2), stale, vec![], String::new()));
    let out = alice.outbox();
    assert!(matches!(out[0], Io::Disconnect(a, _) if a == bob));
    assert!(negotiated_ids(&alice).is_empty());
}

#[test]
fn test_wrong_peer_magic() {
    let mut alice = peer(1, vec![]);
    let bob = ip4(8, 8, 8, 8);
    alice.initialize(1000);
    connect_from(&mut alice, bob, key(2));
    let frame = node::codec::encode_frame(NETWORK_MAGIC + 1, &Message::Ping { nonce: 42 }).unwrap();
    alice.received_bytes(&bob, &frame);
    let out = alice.outbox();
    assert!(matches!(
        out[0],
        Io::Disconnect(a, DisconnectReason::Error(PeerError::WrongMagic(m)))
        if a == bob && m == NETWORK_MAGIC + 1
    ));
}

#[test]
fn test_inventory_sync() {
    let mut alice = peer(1, vec![]);
    let bob = ip4(8, 8, 8, 8);
    let bob_id = key(2);
    let projs = vec![pid(10), pid(11)];
    alice.initialize(1000);
    connect_to(&mut alice, bob, bob_id);
    let t = alice.clock;
    alice.received_message(
        &bob,
        Message::Inventory { timestamp: t, inv: projs.clone(), origin: None },
    );
    for proj in &projs {
        let seeds = alice.routing().get(proj).expect("the project is routed");
        assert!(seeds.contains(&bob_id));
    }
    // The default policy tracks everything, so both new projects are
    // fetched from Bob.
    let out = alice.outbox();
    let fetched: Vec<ProjId> = out
        .iter()
        .filter_map(|io| match io {
            Io::FetchProject(_, _, p) => Some(*p),
            _ => None,
        })
        .collect();
    assert_eq!(fetched, projs);
}

#[test]
fn test_tracking() {
    let config = Config {
        project_tracking: ProjectTracking::Allowed(vec![]),
        ..Config::default()
    };
    let mut alice = peer_with(config, key(1), vec![]);
    let proj = pid(42);

    alice.command(Command::Track(proj));
    let out = alice.outbox();
    assert!(matches!(out[0], Io::CommandReply(Reply::Tracking(true))));
    assert!(alice.config().is_tracking(&proj));

    alice.command(Command::Track(proj));
    let out = alice.outbox();
    assert!(matches!(out[0], Io::CommandReply(Reply::Tracking(false))));

    alice.command(Command::Untrack(proj));
    let out = alice.outbox();
    assert!(matches!(out[0], Io::CommandReply(Reply::Untracking(true))));
    assert!(!alice.config().is_tracking(&proj));
}

#[test]
fn test_inventory_relay_bad_timestamp() {
    let mut alice = peer(1, vec![]);
    let bob = ip4(8, 8, 8, 8);
    alice.initialize(10000);
    connect_to(&mut alice, bob, key(2));
    let two_hours = 3600 * 2;
    let timestamp = alice.clock - two_hours;
    alice.received_message(
        &bob,
        Message::Inventory { timestamp, inv: vec![], origin: None },
    );
    let out = alice.outbox();
    assert!(matches!(
        out[0],
        Io::Disconnect(a, DisconnectReason::Error(PeerError::InvalidTimestamp(t)))
        if a == bob && t == timestamp
    ));
}

#[test]
fn test_inventory_relay() {
    // Topology is eve <-> alice <-> bob.
    let mut alice = peer(1, vec![]);
    let bob = ip4(8, 8, 8, 8);
    let eve = ip4(9, 9, 9, 9);
    let bob_id = key(2);
    let eve_id = key(3);
    alice.initialize(1000);
    connect_to(&mut alice, bob, bob_id);
    connect_from(&mut alice, eve, eve_id);
    let now = alice.clock;

    // Inventory from Bob is relayed to Eve, with the origin rewritten.
    alice.received_message(
        &bob,
        Message::Inventory { timestamp: now, inv: vec![], origin: None },
    );
    let out = alice.outbox();
    let to_eve = messages_to(&out, eve);
    assert!(matches!(
        &to_eve[0],
        Message::Inventory { timestamp, origin, .. }
        if *origin == Some(bob_id) && *timestamp == now
    ));
    assert!(
        messages_to(&out, bob).is_empty(),
        "The inventory is not sent back to Bob"
    );

    alice.received_message(
        &bob,
        Message::Inventory { timestamp: now, inv: vec![], origin: None },
    );
    let out = alice.outbox();
    assert!(
        messages_to(&out, eve).is_empty(),
        "Sending the same inventory again doesn't trigger a relay"
    );

    alice.received_message(
        &bob,
        Message::Inventory { timestamp: now + 1, inv: vec![], origin: None },
    );
    let out = alice.outbox();
    let to_eve = messages_to(&out, eve);
    assert!(
        matches!(
            &to_eve[0],
            Message::Inventory { timestamp, origin, .. }
            if *origin == Some(bob_id) && *timestamp == now + 1
        ),
        "Sending a new inventory does trigger the relay"
    );

    // Inventory from Eve is relayed to Bob.
    alice.received_message(
        &eve,
        Message::Inventory { timestamp: now, inv: vec![], origin: None },
    );
    let out = alice.outbox();
    let to_bob = messages_to(&out, bob);
    assert!(matches!(
        &to_bob[0],
        Message::Inventory { timestamp, origin, .. }
        if *origin == Some(eve_id) && *timestamp == now
    ));
}

#[test]
fn test_persistent_peer_reconnect() {
    let bob = ip4(8, 8, 8, 8);
    let eve = ip4(9, 9, 9, 9);
    let config = Config { connect: vec![bob, eve], ..Config::default() };
    let mut alice = peer_with(config, key(1), vec![]);
    alice.initialize(1000);
    alice.outbox();
    connect_to(&mut alice, bob, key(2));
    connect_to(&mut alice, eve, key(3));
    let ids = negotiated_ids(&alice);
    assert!(ids.contains(&key(2)));
    assert!(ids.contains(&key(3)));

    // A non-transient disconnect, such as one requested by the user,
    // will not trigger a reconnection.
    alice.disconnected(&eve, DisconnectReason::DialError);
    assert!(alice.outbox().is_empty());

    // A transient error will make Alice retry, a bounded number of times.
    for _ in 0..MAX_CONNECTION_ATTEMPTS {
        alice.disconnected(&bob, DisconnectReason::ConnectionError);
        let out = alice.outbox();
        assert_eq!(out.len(), 1);
        assert!(matches!(out[0], Io::Connect(a) if a == bob));
        alice.attempted(&bob);
        assert!(alice.outbox().is_empty());
    }

    // After the maximum attempts, a disconnect triggers no reconnect.
    alice.disconnected(&bob, DisconnectReason::ConnectionError);
    assert!(alice.outbox().is_empty());
}

#[test]
fn prop_inventory_exchange_dense() {
    // Three fully connected peers with arbitrary local inventories reach
    // a quiescent state in which every routing table maps each project
    // to exactly the peers whose local inventory holds it.
    let mut rng: u64 = 0x12345678;
    let mut roll = || {
        rng = rng.wrapping_mul(6364136223846793005).wrapping_add(1442695040888963407);
        (rng >> 33) as u8
    };
    for round in 0..8 {
        let _ = round;
        let mut invs: Vec<Vec<ProjId>> = Vec::new();
        for _ in 0..3 {
            let n = roll() % 4;
            let mut inv = Vec::new();
            for _ in 0..n {
                let p = pid(roll() % 6);
                if !inv.contains(&p) {
                    inv.push(p);
                }
            }
            invs.push(inv);
        }
        let addrs = [ip4(7, 7, 7, 7), ip4(8, 8, 8, 8), ip4(9, 9, 9, 9)];
        let keys = [key(1), key(2), key(3)];
        let mut peers: Vec<Protocol> = (0..3).map(|i| peer(i as u8 + 1, invs[i].clone())).collect();
        for i in 0..3 {
            peers[i].initialize(1000);
            for j in 0..3 {
                if i != j {
                    connect_to(&mut peers[i], addrs[j], keys[j]);
                }
            }
        }
        for p in peers.iter_mut() {
            p.command(Command::AnnounceInventory);
        }
        // Deliver messages until the network settles.
        let mut steps = 0;
        loop {
            let mut quiet = true;
            for i in 0..3 {
                let out = peers[i].outbox();
                for io in out {
                    if let Io::Write(to, msg) = io {
                        quiet = false;
                        let target = addrs.iter().position(|a| *a == to).unwrap();
                        let from = addrs[i];
                        peers[target].received_message(&from, msg);
                    }
                }
            }
            steps += 1;
            assert!(steps < 100, "the exchange must settle");
            if quiet {
                break;
            }
        }
        // Every peer resolves every project to exactly its holders.
        for proj_n in 0..6 {
            let proj = pid(proj_n);
            let holders: Vec<PublicKey> = (0..3)
                .filter(|i| invs[*i].contains(&proj))
                .map(|i| keys[i])
                .collect();
            for i in 0..3 {
                let lookup = peers[i].lookup(&proj);
                assert_eq!(lookup.local, invs[i].contains(&proj));
                if !lookup.local {
                    let mut remote = lookup.remote.clone();
                    let mut expect: Vec<PublicKey> =
                        holders.iter().filter(|k| **k != keys[i]).cloned().collect();
                    remote.sort_by_key(|k| k.bytes);
                    expect.sort_by_key(|k| k.bytes);
                    assert_eq!(remote, expect, "The remotes match the global routing table");
                }
            }
        }
    }
}

#[test]
fn test_keepalive_ping_and_timeout() {
    let mut alice = peer(1, vec![]);
    let bob = ip4(8, 8, 8, 8);
    alice.initialize(1000);
    connect_to(&mut alice, bob, key(2));
    // Nothing received for IDLE_TIMEOUT seconds: a ping goes out.
    alice.tick(1000 + node::IDLE_TIMEOUT);
    let out = alice.outbox();
    let nonce = match &messages_to(&out, bob)[..] {
        [Message::Ping { nonce }] => *nonce,
        other => panic!("expected one ping, got {:?}", other),
    };
    // The pong clears the probe; the next tick stays quiet.
    alice.received_message(&bob, Message::Pong { nonce });
    alice.tick(1000 + node::IDLE_TIMEOUT + 1);
    assert!(alice.outbox().is_empty());
    // An unanswered ping drops the connection.
    alice.tick(1000 + 2 * node::IDLE_TIMEOUT + 2);
    let out = alice.outbox();
    assert!(matches!(&messages_to(&out, bob)[..], [Message::Ping { .. }]));
    alice.tick(1000 + 2 * node::IDLE_TIMEOUT + 2 + node::PING_TIMEOUT);
    let out = alice.outbox();
    assert!(matches!(
        out[0],
        Io::Disconnect(a, DisconnectReason::KeepAlive) if a == bob
    ));
}

#[test]
fn test_disconnect_prunes_routing() {
    let mut alice = peer(1, vec![]);
    let bob = ip4(8, 8, 8, 8);
    let bob_id = key(2);
    alice.initialize(1000);
    connect_to(&mut alice, bob, bob_id);
    let t = alice.clock;
    alice.received_message(
        &bob,
        Message::Inventory { timestamp: t, inv: vec![pid(5)], origin: None },
    );
    assert!(alice.routing().get(&pid(5)).is_some());
    alice.disconnected(&bob, DisconnectReason::PeerRequested);
    assert!(alice.routing().get(&pid(5)).is_none());
}

#[test]
fn test_get_inventory_answered() {
    let mut alice = peer(1, vec![pid(4), pid(5)]);
    let bob = ip4(8, 8, 8, 8);
    alice.initialize(1000);
    connect_from(&mut alice, bob, key(2));
    alice.received_message(&bob, Message::GetInventory { ids: vec![] });
    let out = alice.outbox();
    let msgs = messages_to(&out, bob);
    assert!(matches!(
        &msgs[0],
        Message::Inventory { inv, origin: None, .. } if *inv == vec![pid(4), pid(5)]
    ));
}

#[test]
fn test_fetch_command() {
    let mut alice = peer(1, vec![]);
    let bob = ip4(8, 8, 8, 8);
    let bob_id = key(2);
    alice.initialize(1000);
    connect_to(&mut alice, bob, bob_id);
    let t = alice.clock;
    alice.received_message(
        &bob,
        Message::Inventory { timestamp: t, inv: vec![pid(6)], origin: None },
    );
    alice.outbox();
    alice.command(Command::Fetch(pid(6)));
    let out = alice.outbox();
    assert!(matches!(out[0], Io::FetchProject(a, _, p) if a == bob && p == pid(6)));
    assert!(matches!(out[1], Io::CommandReply(Reply::Fetching(Some(a))) if a == bob));
    // Fetching something nobody advertises yields no seed.
    alice.command(Command::Fetch(pid(7)));
    let out = alice.outbox();
    assert!(matches!(out[0], Io::CommandReply(Reply::Fetching(None))));
}

#[test]
fn test_gossip_ledger_monotone() {
    let mut alice = peer(1, vec![]);
    let bob = ip4(8, 8, 8, 8);
    let bob_id = key(2);
    alice.initialize(10000);
    connect_to(&mut alice, bob, bob_id);
    let t = alice.clock;
    let entry = |p: &Protocol| {
        p.ledger
            .iter()
            .find(|e| e.peer == bob_id)
            .map(|e| e.timestamp)
    };
    alice.received_message(&bob, Message::Inventory { timestamp: t, inv: vec![], origin: None });
    assert_eq!(entry(&alice), Some(t));
    // An older inventory does not move the ledger back.
    alice.received_message(
        &bob,
        Message::Inventory { timestamp: t - 5, inv: vec![], origin: None },
    );
    assert_eq!(entry(&alice), Some(t));
    // A newer one advances it.
    alice.received_message(
        &bob,
        Message::Inventory { timestamp: t + 5, inv: vec![], origin: None },
    );
    assert_eq!(entry(&alice), Some(t + 5));
}

#[test]
fn test_relay_excludes_origin() {
    // Alice is negotiated with both Bob and Eve. Bob relays Eve's own
    // inventory: Alice must forward it neither back to Bob nor to Eve.
    let mut alice = peer(1, vec![]);
    let bob = ip4(8, 8, 8, 8);
    let eve = ip4(9, 9, 9, 9);
    alice.initialize(1000);
    connect_to(&mut alice, bob, key(2));
    connect_from(&mut alice, eve, key(3));
    let t = alice.clock;
    alice.received_message(
        &bob,
        Message::Inventory { timestamp: t, inv: vec![], origin: Some(key(3)) },
    );
    let out = alice.outbox();
    assert!(messages_to(&out, bob).is_empty());
    assert!(messages_to(&out, eve).is_empty());
}

#[test]
fn test_malformed_bytes_disconnect() {
    let mut alice = peer(1, vec![]);
    let bob = ip4(8, 8, 8, 8);
    alice.initialize(1000);
    connect_from(&mut alice, bob, key(2));
    alice.received_bytes(&bob, &[0, 0, 0, 3, b'{', b'}', b'!']);
    let out = alice.outbox();
    assert!(matches!(
        out[0],
        Io::Disconnect(a, DisconnectReason::Error(PeerError::MalformedMessage)) if a == bob
    ));
}

#[test]
fn test_frame_size_limit() {
    // An envelope past 64 KiB is refused by the framer.
    let reason = "x".repeat(70000);
    let msg = Message::Disconnect { reason };
    assert!(node::codec::encode_frame(NETWORK_MAGIC, &msg).is_none());
    let small = Message::Disconnect { reason: String::from("bye") };
    assert!(node::codec::encode_frame(NETWORK_MAGIC, &small).is_some());
}

#[test]
fn test_hello_signature_verification_flow() {
    // A valid hello asks the signer collaborator for a verdict; the
    // session negotiates only on a good verdict, and a failed one draws
    // the SignatureFailed disconnect.
    let mut alice = peer(1, vec![]);
    let bob = ip4(8, 8, 8, 8);
    alice.initialize(1000);
    alice.connected(&bob, &ip4(1, 1, 1, 1), Link::Inbound);
    alice.outbox();
    let t = alice.clock;
    alice.received_message(&bob, Message::hello(key(2), t, vec![], String::new()));
    let out = alice.outbox();
    assert!(matches!(
        out[0],
        Io::VerifyHello(a, id, ts, _, _) if a == bob && id == key(2) && ts == t
    ));
    // Not negotiated while the verdict is pending.
    assert!(negotiated_ids(&alice).is_empty());
    alice.command(Command::HelloVerified(bob, true));
    assert!(alice.outbox().is_empty());
    assert!(negotiated_ids(&alice).contains(&key(2)));
    alice.command(Command::HelloVerified(bob, false));
    let out = alice.outbox();
    assert!(matches!(
        out[0],
        Io::Disconnect(a, DisconnectReason::Error(PeerError::SignatureFailed)) if a == bob
    ));
}

#[test]
fn test_failed_verification_blocks_negotiation() {
    let mut alice = peer(1, vec![]);
    let bob = ip4(8, 8, 8, 8);
    alice.initialize(1000);
    alice.connected(&bob, &ip4(1, 1, 1, 1), Link::Inbound);
    alice.outbox();
    let t = alice.clock;
    alice.received_message(&bob, Message::hello(key(2), t, vec![], String::new()));
    alice.outbox();
    alice.command(Command::HelloVerified(bob, false));
    let out = alice.outbox();
    assert!(matches!(
        out[0],
        Io::Disconnect(a, DisconnectReason::Error(PeerError::SignatureFailed)) if a == bob
    ));
    assert!(negotiated_ids(&alice).is_empty());
    // An unverified peer is no relay source: its inventory is dropped.
    alice.received_message(
        &bob,
        Message::Inventory { timestamp: t, inv: vec![pid(9)], origin: None },
    );
    assert!(alice.routing().get(&pid(9)).is_none());
}
