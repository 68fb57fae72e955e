//! Protocol messages, I/O intents and local commands.

use vstd::prelude::*;

use crate::identity::{Oid, ProjId, PublicKey};
use crate::PROTOCOL_VERSION;

verus! {

/// Direction of a connection.
#[derive(Clone, Copy, Debug, PartialEq, Eq, Structural)]
pub enum Link {
    Inbound,
    Outbound,
}

/// A network address: an IPv4 address and a port.
#[derive(Clone, Copy, Debug, PartialEq, Eq, Structural)]
pub struct Addr {
    pub ip: u32,
    pub port: u16,
}

impl Addr {
    pub fn new(ip: u32, port: u16) -> (r: Addr)
        ensures
            r == (Addr { ip, port }),
    {
        Addr { ip, port }
    }
}

/// An Ed25519 signature, carried opaquely. The signer collaborator
/// checks it when asked through [`Io::VerifyHello`] and answers with
/// [`Command::HelloVerified`].
#[derive(Clone, Copy, Debug, PartialEq, Eq)]
pub struct Signature {
    pub bytes: [u8; 64],
}

impl View for Signature {
    type V = Seq<u8>;

    open spec fn view(&self) -> Seq<u8> {
        self.bytes@
    }
}

impl Signature {
    /// The placeholder carried in a locally built hello when no signer
    /// has attached a real signature.
    pub fn empty() -> (r: Signature)
        ensures
            r@ == Seq::<u8>::new(64, |i: int| 0u8),
    {
        let bytes: [u8; 64] = vstd::array::array_fill_for_copy_types(0u8);
        proof {
            assert(bytes@ =~= Seq::<u8>::new(64, |i: int| 0u8));
        }
        Signature { bytes }
    }
}

/// One named reference and the object it points at.
#[derive(Clone, Debug)]
pub struct RefEntry {
    pub name: String,
    pub oid: Oid,
}

/// A wire message. Every `timestamp` is in seconds since the Unix epoch.
#[derive(Clone, Debug)]
pub enum Message {
    /// Sent once per peer, immediately after connect, by both sides.
    Hello {
        id: PublicKey,
        timestamp: u64,
        addrs: Vec<Addr>,
        git_url: String,
        version: u32,
        signature: Signature,
    },
    /// Request specific inventories, or all of them when `ids` is empty.
    GetInventory { ids: Vec<ProjId> },
    /// Advertise or relay an inventory. `origin` is `None` when the sender
    /// advertises its own inventory, `Some(source)` when it relays.
    Inventory { timestamp: u64, inv: Vec<ProjId>, origin: Option<PublicKey> },
    /// Request the reference set of a project.
    GetRefs { proj: ProjId },
    /// A signed reference set.
    Refs { proj: ProjId, refs: Vec<RefEntry>, signature: Signature },
    /// Liveness probe.
    Ping { nonce: u64 },
    /// Liveness answer, echoing the probe's nonce.
    Pong { nonce: u64 },
    /// Graceful termination.
    Disconnect { reason: String },
}

impl Message {
    /// Build a `Hello` for the given identity, at the given time.
    pub fn hello(id: PublicKey, timestamp: u64, addrs: Vec<Addr>, git_url: String) -> (r: Message)
        ensures
            (r matches Message::Hello {
                id: i,
                timestamp: t,
                addrs: a,
                git_url: g,
                version: v,
                signature: _,
            } && i == id && t == timestamp && a@ == addrs@ && g@ == git_url@
                && v == PROTOCOL_VERSION),
    {
        Message::Hello {
            id,
            timestamp,
            addrs,
            git_url,
            version: PROTOCOL_VERSION,
            signature: Signature::empty(),
        }
    }
}

/// A protocol violation by the remote peer, fatal to its connection.
#[derive(Clone, Copy, Debug, PartialEq, Eq, Structural)]
pub enum PeerError {
    /// The envelope magic did not match the configured network.
    WrongMagic(u32),
    /// The peer speaks another protocol version.
    WrongProtocolVersion(u32),
    /// A timestamp was too far from the local clock.
    InvalidTimestamp(u64),
    /// The hello signature did not verify against the claimed key.
    SignatureFailed,
    /// Inbound bytes did not parse as a frame or message.
    MalformedMessage,
}

/// Why a connection was or should be dropped.
#[derive(Clone, Copy, Debug, PartialEq, Eq, Structural)]
pub enum DisconnectReason {
    /// The dial failed, or the user asked to disconnect; never retried.
    DialError,
    /// A transient transport error.
    ConnectionError,
    /// The peer stopped answering pings.
    KeepAlive,
    /// The peer asked to terminate.
    PeerRequested,
    /// The peer is banned.
    Banned,
    /// The peer violated the protocol.
    Error(PeerError),
}

/// A reply to a local command, delivered through the outbox in order.
#[derive(Clone, Copy, Debug, PartialEq, Eq)]
pub enum Reply {
    /// Whether `Track` changed the tracking policy.
    Tracking(bool),
    /// Whether `Untrack` changed the tracking policy.
    Untracking(bool),
    /// Where a fetch was directed, if a seed was known.
    Fetching(Option<Addr>),
}

/// An I/O intent. The host drains the outbox after each entry point and
/// performs these in emission order.
#[derive(Clone, Debug)]
pub enum Io {
    /// Open an outbound connection.
    Connect(Addr),
    /// Close a connection.
    Disconnect(Addr, DisconnectReason),
    /// Send a message to a connected peer, enveloped and framed by the codec.
    Write(Addr, Message),
    /// Ask for a wakeup after the given number of seconds.
    SetTimer(u64),
    /// Fetch a project's git data from the given address and git URL.
    FetchProject(Addr, String, ProjId),
    /// Ask the signer collaborator to verify a peer's hello signature
    /// over the handshake material (magic, timestamp, version, id); the
    /// verdict comes back as a [`Command::HelloVerified`].
    VerifyHello(Addr, PublicKey, u64, u32, Signature),
    /// Answer a local command.
    CommandReply(Reply),
}

/// A local command, delivered synchronously to the reactor.
#[derive(Clone, Debug)]
pub enum Command {
    /// Start tracking a project; replies whether the policy changed.
    Track(ProjId),
    /// Stop tracking a project; replies whether the policy changed.
    Untrack(ProjId),
    /// Open a connection to the given address.
    Connect(Addr),
    /// Fetch a project from some advertising peer.
    Fetch(ProjId),
    /// Re-announce the local inventory to every negotiated peer.
    AnnounceInventory,
    /// The local inventory changed; holds the new inventory.
    InventoryChanged(Vec<ProjId>),
    /// The signer collaborator's verdict on a peer's hello signature:
    /// a failed verification drops the connection.
    HelloVerified(Addr, bool),
}

} // verus!
