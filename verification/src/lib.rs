//! Peer-to-peer protocol core of a decentralized code-collaboration network.
//!
//! The library is an I/O-free, deterministic, event-driven reactor: it
//! consumes clock ticks, inbound bytes, local commands and connection
//! lifecycle events, and emits a stream of outbound I/O intents.

use vstd::prelude::*;

pub mod codec;
pub mod config;
pub mod git;
pub mod identity;
pub mod message;
pub mod peer;
pub mod protocol;
pub mod routing;

verus! {

/// The network magic of the main network.
pub const NETWORK_MAGIC: u32 = 0x52414431;

/// The protocol version this node speaks.
pub const PROTOCOL_VERSION: u32 = 1;

/// Default port of the `git` transport protocol.
pub const PROTOCOL_PORT: u16 = 9418;

/// Maximum accepted clock skew, in seconds, for timestamped messages.
pub const MAX_TIME_DELTA: u64 = 3600;

/// Maximum number of consecutive reconnection attempts for a persistent peer.
pub const MAX_CONNECTION_ATTEMPTS: u64 = 3;

/// Seconds of inbound silence after which a ping is sent.
pub const IDLE_TIMEOUT: u64 = 30;

/// Seconds to wait for a pong before dropping the connection.
pub const PING_TIMEOUT: u64 = 10;

} // verus!
