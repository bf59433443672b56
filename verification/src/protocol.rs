//! Rendezvous wire protocol frames.
//!
//! On the wire these travel as tagged JSON over a bidirectional text
//! transport; the framing itself lives outside the library.

use vstd::prelude::*;

verus! {

/// Client-to-server frames of the rendezvous protocol.
#[derive(Debug, Clone)]
pub enum ClientMessage {
    /// Register to a ticket room under an identity.
    Register { ticket: String, node_id: String },
    /// Leave the current room.
    Leave,
    /// Keep-alive probe.
    Ping,
    /// Report that a peer has left, evicting its registration.
    ReportPeerLeft { node_id: String },
}

/// Server-to-client frames of the rendezvous protocol.
#[derive(Debug, Clone)]
pub enum ServerMessage {
    /// The identities already present in the room just joined.
    Peers { node_ids: Vec<String> },
    /// A new peer joined the room.
    PeerJoined { node_id: String },
    /// A peer left the room.
    PeerLeft { node_id: String },
    /// Reply to a keep-alive probe.
    Pong,
    /// A frame could not be honoured.
    Error { message: String },
}

} // verus!
