//! Rendezvous and gossip-bridge core: admission control, ticket-keyed room
//! membership, ticket encoding, and the per-connection protocol state
//! machines, with their behaviour stated in contracts.

pub mod bridge;
pub mod bridge_protocol;
pub mod limiter;
pub mod nodemaster_client;
pub mod protocol;
pub mod room;
pub mod session;
pub mod text;
pub mod ticket;
