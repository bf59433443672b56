//! Bridge wire protocol frames and the overlay's gossip payloads.
//!
//! The local application speaks these frames to the bridge; the overlay
//! carries the tagged gossip payloads. On the wire both travel as JSON;
//! the framing itself lives outside the library. A state-update payload is
//! carried opaquely as the text of its fields.

use vstd::prelude::*;

verus! {

/// Local-application-to-bridge commands.
#[derive(Debug, Clone)]
pub enum ClientMessage {
    /// Open a fresh room: new random topic, no bootstrap peers.
    CreateTicket,
    /// Ask for this node's identity.
    GetNodeId,
    /// Join the room a ticket denotes, bootstrapping from the identity
    /// embedded in it.
    JoinTicket(String),
    /// Join via the rendezvous service, bootstrapping from the peers it
    /// reports.
    JoinViaDiscovery { ticket: String, discovery_url: Option<String> },
    /// Broadcast a state update to the room.
    UpdateState { payload: String },
    /// Report a dead peer to the rendezvous service.
    ReportPeerLeft { node_id: String },
    /// Leave the current room.
    LeaveRoom,
}

/// Bridge-to-local-application events.
#[derive(Debug, Clone)]
pub enum ServerMessage {
    TicketCreated(String),
    NodeId(String),
    JoinedRoom { ticket: String },
    InvalidTicket { ticket: String, reason: String },
    PeerJoined { peer_id: String },
    PeerLeft { peer_id: String },
    RemoteStateUpdate { peer_id: String, payload: String },
    SyncConfirmed { peer_id: String },
    Error { message: String },
    Log { level: String, message: String },
    LeftRoom,
}

/// Tagged payloads broadcast on the gossip overlay.
#[derive(Debug, Clone)]
pub enum GossipMessage {
    /// A peer's state changed.
    StateUpdate { peer_id: String, payload: String },
    /// Acknowledges a state update to its sender.
    StateAck { target_peer_id: String },
}

} // verus!
