//! Per-connection bridge session.
//!
//! Each local connection runs this state machine: commands become overlay
//! subscriptions (optionally seeded through the discovery client), overlay
//! events become client events, and state updates run the acknowledged
//! broadcast sub-protocol. Each step returns the actions to perform, in
//! order; the caller performs them and feeds the results back in. At most
//! one subscription is active at a time: starting a new one always cancels
//! the previous forwarder first.

use vstd::prelude::*;

use crate::bridge_protocol::{ClientMessage, GossipMessage, ServerMessage};
use crate::nodemaster_client::{NMClientMessage, NodeMasterEvent};
use crate::text::str_eq;
use crate::ticket::{
    boot_part, decode_ticket, derive_topic, derived_topic, encode_ticket, hex_bytes, hex_of,
    topic_part, valid_ticket,
};

verus! {

/// An overlay event for the active subscription, with its gossip payload
/// already decoded (`None` when the payload was malformed).
#[derive(Debug, Clone)]
pub enum OverlayEvent {
    /// A broadcast arrived from a peer.
    Received { delivered_from: String, msg: Option<GossipMessage> },
    /// The overlay connected a neighbour for this topic.
    NeighborUp(String),
    /// The overlay lost a neighbour for this topic.
    NeighborDown(String),
    /// Anything else the overlay reports; ignored.
    Other,
}

/// What the forwarding task does with one overlay event.
pub struct ForwardStep {
    /// Event to forward to the local client, if any.
    pub reply: Option<ServerMessage>,
    /// Payload to broadcast back on the overlay, if any.
    pub broadcast: Option<GossipMessage>,
}

/// Translate one overlay event for the client owning `my_node_id`: a state
/// update is forwarded and immediately acknowledged to its sender; an
/// acknowledgement addressed to this node confirms the update to the peer
/// that delivered it; neighbour changes surface as peer events; malformed
/// payloads are dropped silently.
pub fn on_overlay_event(my_node_id: &str, ev: OverlayEvent) -> (r: ForwardStep)
    ensures
        ev matches OverlayEvent::Received { delivered_from, msg: Some(gm) } ==> match gm {
            GossipMessage::StateUpdate { peer_id, payload } => {
                &&& (r.reply matches Some(sm) && (sm matches ServerMessage::RemoteStateUpdate {
                    peer_id: p,
                    payload: pl,
                } && p@ == peer_id@ && pl@ == payload@))
                &&& (r.broadcast matches Some(b) && (b matches GossipMessage::StateAck {
                    target_peer_id: tp,
                } && tp@ == peer_id@))
            },
            GossipMessage::StateAck { target_peer_id } => {
                &&& r.broadcast is None
                &&& (target_peer_id@ == my_node_id@ ==> (r.reply matches Some(sm) && (sm
                    matches ServerMessage::SyncConfirmed { peer_id } && peer_id@
                    == delivered_from@)))
                &&& (target_peer_id@ != my_node_id@ ==> r.reply is None)
            },
        },
        ev matches OverlayEvent::Received { delivered_from, msg: None } ==> r.reply is None
            && r.broadcast is None,
        ev matches OverlayEvent::NeighborUp(id) ==> r.broadcast is None && (r.reply matches Some(
            sm,
        ) && (sm matches ServerMessage::PeerJoined { peer_id } && peer_id@ == id@)),
        ev matches OverlayEvent::NeighborDown(id) ==> r.broadcast is None && (r.reply
            matches Some(sm) && (sm matches ServerMessage::PeerLeft { peer_id } && peer_id@
            == id@)),
        ev is Other ==> r.reply is None && r.broadcast is None,
{
    match ev {
        OverlayEvent::Received { delivered_from, msg } => match msg {
            Some(GossipMessage::StateUpdate { peer_id, payload }) => ForwardStep {
                reply: Some(
                    ServerMessage::RemoteStateUpdate { peer_id: peer_id.clone(), payload },
                ),
                broadcast: Some(GossipMessage::StateAck { target_peer_id: peer_id }),
            },
            Some(GossipMessage::StateAck { target_peer_id }) => {
                if str_eq(target_peer_id.as_str(), my_node_id) {
                    ForwardStep {
                        reply: Some(ServerMessage::SyncConfirmed { peer_id: delivered_from }),
                        broadcast: None,
                    }
                } else {
                    ForwardStep { reply: None, broadcast: None }
                }
            },
            None => ForwardStep { reply: None, broadcast: None },
        },
        OverlayEvent::NeighborUp(id) => ForwardStep {
            reply: Some(ServerMessage::PeerJoined { peer_id: id }),
            broadcast: None,
        },
        OverlayEvent::NeighborDown(id) => ForwardStep {
            reply: Some(ServerMessage::PeerLeft { peer_id: id }),
            broadcast: None,
        },
        OverlayEvent::Other => ForwardStep { reply: None, broadcast: None },
    }
}

/// What the discovery relay task does with one discovery event.
pub struct RelayStep {
    /// Event to forward to the local client, if any.
    pub forward: Option<ServerMessage>,
    /// Whether the relay task ends here.
    pub stop: bool,
}

/// Relay one discovery-client event into the bridge's output: a peer
/// leaving and an error surface to the client, a disconnect ends the
/// relay, and everything else is left to the overlay's own discovery.
pub fn on_discovery_event(ev: NodeMasterEvent) -> (r: RelayStep)
    ensures
        ev matches NodeMasterEvent::PeerLeft(id) ==> !r.stop && (r.forward matches Some(sm) && (sm
            matches ServerMessage::PeerLeft { peer_id } && peer_id@ == id@)),
        ev matches NodeMasterEvent::Error(m) ==> !r.stop && (r.forward matches Some(sm) && (sm
            matches ServerMessage::Error { message } && message@ == m@)),
        ev is Disconnected ==> r.stop && r.forward is None,
        ev is PeerList || ev is PeerJoined || ev is Reconnecting || ev is Reconnected
            ==> !r.stop && r.forward is None,
{
    match ev {
        NodeMasterEvent::PeerLeft(id) => RelayStep {
            forward: Some(ServerMessage::PeerLeft { peer_id: id }),
            stop: false,
        },
        NodeMasterEvent::Error(m) => RelayStep {
            forward: Some(ServerMessage::Error { message: m }),
            stop: false,
        },
        NodeMasterEvent::Disconnected => RelayStep { forward: None, stop: true },
        _ => RelayStep { forward: None, stop: false },
    }
}

/// The initial peer view obtained from the discovery client: the list from
/// a first peer-list event, and empty when the first event is anything
/// else or the channel closed.
pub fn initial_peers_from(ev: Option<NodeMasterEvent>) -> (r: Vec<String>)
    ensures
        ev matches Some(e) ==> match e {
            NodeMasterEvent::PeerList(peers) => r.deep_view() == peers.deep_view(),
            _ => r.deep_view() == Seq::<Seq<char>>::empty(),
        },
        ev is None ==> r.deep_view() == Seq::<Seq<char>>::empty(),
{
    let r = match ev {
        Some(NodeMasterEvent::PeerList(peers)) => peers,
        _ => Vec::new(),
    };
    proof {
        if r.deep_view().len() == 0 {
            assert(r.deep_view() =~= Seq::<Seq<char>>::empty());
        }
    }
    r
}

/// Relies on rand::random: 32 bytes drawn from the thread's generator for
/// a fresh topic. Nothing is assumed of their values.
#[verifier::external_body]
fn fresh_topic() -> (r: Vec<u8>)
    ensures
        r@.len() == 32,
{
    rand::random::<[u8; 32]>().to_vec()
}

/// An overlay operation the session has started and not yet completed.
#[derive(Debug, Clone)]
pub enum PendingOp {
    /// Subscribing to a freshly created topic.
    Create { ticket: String, topic: Vec<u8> },
    /// Subscribing to a joined ticket's topic.
    Join { ticket: String, topic: Vec<u8>, bootstrap: Option<String> },
    /// Waiting for the discovery client to connect and report peers.
    DiscoveryConnect { ticket: String },
    /// Subscribing with the peers the discovery client reported.
    DiscoverySubscribe { ticket: String, topic: Vec<u8> },
}

/// What a step asks the caller to do, in order.
#[derive(Debug, Clone)]
pub enum BridgeAction {
    /// Send an event to the local client.
    Reply(ServerMessage),
    /// Subscribe to an overlay topic with these bootstrap peers; report
    /// the outcome back.
    Subscribe { topic: Vec<u8>, bootstrap: Vec<String> },
    /// Broadcast a payload on the active subscription.
    Broadcast(GossipMessage),
    /// Cancel the running overlay event-forwarding task.
    CancelForwarder,
    /// Start an overlay event-forwarding task for the new subscription.
    StartForwarder,
    /// Cancel the running discovery relay task.
    CancelDiscoveryRelay,
    /// Start the discovery relay task.
    StartDiscoveryRelay,
    /// Connect a discovery client to this address, register the ticket
    /// under this node's identity, await the first event, and report the
    /// outcome back.
    ConnectDiscovery { ticket: String, discovery_url: Option<String>, node_id: String },
    /// Hand a command to the discovery client.
    DiscoveryCommand(NMClientMessage),
    /// Drop the discovery client.
    DropDiscovery,
}

/// Per-connection bridge state: this node's identity, the active
/// subscription's topic (if any), which helper tasks are live, and the
/// operation in flight.
pub struct BridgeSession {
    my_node_id: String,
    active_topic: Option<Vec<u8>>,
    has_forwarder: bool,
    has_discovery: bool,
    has_relay: bool,
    pending: Option<PendingOp>,
}

impl BridgeSession {
    /// This node's identity.
    pub closed spec fn my_id(self) -> Seq<char> {
        self.my_node_id@
    }

    /// The active subscription's topic, if any.
    pub closed spec fn active(self) -> Option<Seq<u8>> {
        match self.active_topic {
            Some(ref t) => Some(t@),
            None => None,
        }
    }

    /// Whether an overlay event-forwarding task is live.
    pub closed spec fn forwarder_live(self) -> bool {
        self.has_forwarder
    }

    /// Whether a discovery client is held.
    pub closed spec fn discovery_live(self) -> bool {
        self.has_discovery
    }

    /// Whether a discovery relay task is live.
    pub closed spec fn relay_live(self) -> bool {
        self.has_relay
    }

    /// The operation in flight, if any.
    pub closed spec fn pending_op(self) -> Option<PendingOp> {
        self.pending
    }

    /// While an operation is in flight, no forwarder is live: replacing a
    /// subscription cancels the old forwarder before the new one starts,
    /// so at most one ever delivers to this session.
    pub open spec fn wf(self) -> bool {
        self.pending_op() is Some ==> !self.forwarder_live()
    }

    /// A session for a fresh local connection of the node with this
    /// identity.
    pub fn new(my_node_id: String) -> (r: Self)
        ensures
            r.wf(),
            r.my_id() == my_node_id@,
            r.active() is None,
            !r.forwarder_live(),
            !r.discovery_live(),
            !r.relay_live(),
            r.pending_op() is None,
    {
        BridgeSession {
            my_node_id,
            active_topic: None,
            has_forwarder: false,
            has_discovery: false,
            has_relay: false,
            pending: None,
        }
    }

    /// Handle one client command.
    pub fn on_command(&mut self, cmd: ClientMessage) -> (actions: Vec<BridgeAction>)
        requires
            old(self).wf(),
        ensures
            final(self).wf(),
            final(self).my_id() == old(self).my_id(),
            // Identity request: answer, change nothing.
            cmd is GetNodeId ==> {
                &&& *final(self) == *old(self)
                &&& actions@.len() == 1
                &&& (actions@[0] matches BridgeAction::Reply(sm) && (sm
                    matches ServerMessage::NodeId(id) && id@ == old(self).my_id()))
            },
            // Fresh room: cancel any forwarder, draw a topic, subscribe
            // with no bootstrap peers; the ticket embeds this identity.
            cmd is CreateTicket ==> {
                &&& final(self).active() == old(self).active()
                &&& !final(self).forwarder_live()
                &&& (final(self).pending_op() matches Some(p) && (p matches PendingOp::Create {
                    ticket,
                    topic,
                } && topic@.len() == 32 && ticket@ == hex_of(topic@) + seq!['|'] + old(
                    self,
                ).my_id() && {
                    let cancels = if old(self).forwarder_live() {
                        1int
                    } else {
                        0int
                    };
                    &&& actions@.len() == cancels + 1
                    &&& (old(self).forwarder_live() ==> actions@[0] is CancelForwarder)
                    &&& (actions@[actions@.len() - 1] matches BridgeAction::Subscribe {
                        topic: st,
                        bootstrap,
                    } && st@ == topic@ && bootstrap.deep_view() == Seq::<Seq<char>>::empty())
                }))
            },
            // Join by ticket: a bad ticket is refused with no state
            // change; a good one cancels any forwarder and subscribes
            // with the embedded bootstrap identity.
            cmd matches ClientMessage::JoinTicket(tk) ==> {
                &&& (!valid_ticket(tk@) ==> {
                    &&& *final(self) == *old(self)
                    &&& actions@.len() == 1
                    &&& (actions@[0] matches BridgeAction::Reply(sm) && (sm
                        matches ServerMessage::InvalidTicket { ticket, reason } && ticket@ == tk@
                        && reason@ == "Invalid ticket format. Expected: topic_hex|node_id"@))
                })
                &&& (valid_ticket(tk@) ==> {
                    &&& final(self).active() == old(self).active()
                    &&& !final(self).forwarder_live()
                    &&& (final(self).pending_op() matches Some(p) && (p matches PendingOp::Join {
                        ticket,
                        topic,
                        bootstrap,
                    } && ticket@ == tk@ && topic@ == hex_bytes(topic_part(tk@)) && (bootstrap
                        matches Some(b) ==> b@ == boot_part(tk@)) && (bootstrap is Some
                        <==> boot_part(tk@).len() > 0) && {
                        let cancels = if old(self).forwarder_live() {
                            1int
                        } else {
                            0int
                        };
                        &&& actions@.len() == cancels + 1
                        &&& (old(self).forwarder_live() ==> actions@[0] is CancelForwarder)
                        &&& (actions@[actions@.len() - 1] matches BridgeAction::Subscribe {
                            topic: st,
                            bootstrap: bs,
                        } && st@ == topic@ && bs.deep_view() == (match bootstrap {
                            Some(b) => seq![b@],
                            None => Seq::<Seq<char>>::empty(),
                        }))
                    }))
                })
            },
            // Join via the rendezvous service: cancel running tasks and
            // hand the connection work to the caller.
            cmd matches ClientMessage::JoinViaDiscovery { ticket: tk, discovery_url } ==> {
                &&& final(self).active() == old(self).active()
                &&& !final(self).forwarder_live()
                &&& !final(self).relay_live()
                &&& (final(self).pending_op() matches Some(p) && (p
                    matches PendingOp::DiscoveryConnect { ticket } && ticket@ == tk@))
                &&& {
                    let cancels = (if old(self).forwarder_live() {
                        1int
                    } else {
                        0int
                    }) + (if old(self).relay_live() {
                        1int
                    } else {
                        0int
                    });
                    &&& actions@.len() == cancels + 1
                    &&& (actions@[actions@.len() - 1] matches BridgeAction::ConnectDiscovery {
                        ticket,
                        discovery_url: du,
                        node_id,
                    } && ticket@ == tk@ && node_id@ == old(self).my_id() && (match (
                        du,
                        discovery_url,
                    ) {
                        (Some(a), Some(b)) => a@ == b@,
                        (None, None) => true,
                        _ => false,
                    }))
                }
            },
            // Broadcast a state update on the active subscription, or
            // refuse when there is none.
            cmd matches ClientMessage::UpdateState { payload } ==> {
                &&& *final(self) == *old(self)
                &&& actions@.len() == 1
                &&& (old(self).active() is Some ==> (actions@[0]
                    matches BridgeAction::Broadcast(gm) && (gm
                    matches GossipMessage::StateUpdate { peer_id, payload: pl } && peer_id@ == old(
                    self,
                ).my_id() && pl@ == payload@)))
                &&& (old(self).active() is None ==> (actions@[0] matches BridgeAction::Reply(sm)
                    && (sm matches ServerMessage::Error { message } && message@
                    == "Not in any room. Call JoinTicket first."@)))
            },
            // Forward a death report to the discovery client, if one is
            // held.
            cmd matches ClientMessage::ReportPeerLeft { node_id } ==> {
                &&& *final(self) == *old(self)
                &&& (old(self).discovery_live() ==> actions@.len() == 1 && (actions@[0]
                    matches BridgeAction::DiscoveryCommand(c) && (c
                    matches NMClientMessage::ReportPeerLeft { node_id: n } && n@ == node_id@)))
                &&& (!old(self).discovery_live() ==> actions@.len() == 0)
            },
            // Leave: tell the discovery client to leave and drop it,
            // cancel both tasks, clear the subscription, and confirm.
            cmd is LeaveRoom ==> {
                &&& final(self).active() is None
                &&& !final(self).forwarder_live()
                &&& !final(self).discovery_live()
                &&& !final(self).relay_live()
                &&& final(self).pending_op() is None
                &&& actions@.len() == (if old(self).discovery_live() {
                    2int
                } else {
                    0int
                }) + (if old(self).forwarder_live() {
                    1int
                } else {
                    0int
                }) + (if old(self).relay_live() {
                    1int
                } else {
                    0int
                }) + 1
                &&& (old(self).discovery_live() ==> (actions@[0]
                    matches BridgeAction::DiscoveryCommand(c) && c is Leave) && actions@[1]
                    is DropDiscovery)
                &&& (actions@[actions@.len() - 1] matches BridgeAction::Reply(sm) && sm
                    is LeftRoom)
            },
    {
        let mut actions: Vec<BridgeAction> = Vec::new();
        match cmd {
            ClientMessage::GetNodeId => {
                actions.push(
                    BridgeAction::Reply(ServerMessage::NodeId(self.my_node_id.clone())),
                );
            },
            ClientMessage::CreateTicket => {
                if self.has_forwarder {
                    actions.push(BridgeAction::CancelForwarder);
                    self.has_forwarder = false;
                }
                let topic = fresh_topic();
                let ticket = encode_ticket(&topic, self.my_node_id.as_str());
                let bs: Vec<String> = Vec::new();
                proof {
                    assert(bs.deep_view() =~= Seq::<Seq<char>>::empty());
                }
                actions.push(BridgeAction::Subscribe { topic: topic.clone(), bootstrap: bs });
                self.pending = Some(PendingOp::Create { ticket, topic });
            },
            ClientMessage::JoinTicket(tk) => {
                match decode_ticket(tk.as_str()) {
                    None => {
                        actions.push(
                            BridgeAction::Reply(
                                ServerMessage::InvalidTicket {
                                    ticket: tk,
                                    reason: String::from_str(
                                        "Invalid ticket format. Expected: topic_hex|node_id",
                                    ),
                                },
                            ),
                        );
                    },
                    Some((topic, bootstrap)) => {
                        if self.has_forwarder {
                            actions.push(BridgeAction::CancelForwarder);
                            self.has_forwarder = false;
                        }
                        let mut bs: Vec<String> = Vec::new();
                        match &bootstrap {
                            Some(b) => {
                                bs.push(b.clone());
                                proof {
                                    assert(bs.deep_view() =~= seq![b@]);
                                }
                            },
                            None => {
                                proof {
                                    assert(bs.deep_view() =~= Seq::<Seq<char>>::empty());
                                }
                            },
                        }
                        actions.push(
                            BridgeAction::Subscribe { topic: topic.clone(), bootstrap: bs },
                        );
                        self.pending = Some(PendingOp::Join { ticket: tk, topic, bootstrap });
                    },
                }
            },
            ClientMessage::JoinViaDiscovery { ticket: tk, discovery_url } => {
                if self.has_forwarder {
                    actions.push(BridgeAction::CancelForwarder);
                    self.has_forwarder = false;
                }
                if self.has_relay {
                    actions.push(BridgeAction::CancelDiscoveryRelay);
                    self.has_relay = false;
                }
                actions.push(
                    BridgeAction::ConnectDiscovery {
                        ticket: tk.clone(),
                        discovery_url,
                        node_id: self.my_node_id.clone(),
                    },
                );
                self.pending = Some(PendingOp::DiscoveryConnect { ticket: tk });
            },
            ClientMessage::UpdateState { payload } => {
                if self.active_topic.is_some() {
                    actions.push(
                        BridgeAction::Broadcast(
                            GossipMessage::StateUpdate {
                                peer_id: self.my_node_id.clone(),
                                payload,
                            },
                        ),
                    );
                } else {
                    actions.push(
                        BridgeAction::Reply(
                            ServerMessage::Error {
                                message: String::from_str(
                                    "Not in any room. Call JoinTicket first.",
                                ),
                            },
                        ),
                    );
                }
            },
            ClientMessage::ReportPeerLeft { node_id } => {
                if self.has_discovery {
                    actions.push(
                        BridgeAction::DiscoveryCommand(NMClientMessage::ReportPeerLeft { node_id }),
                    );
                }
            },
            ClientMessage::LeaveRoom => {
                if self.has_discovery {
                    actions.push(BridgeAction::DiscoveryCommand(NMClientMessage::Leave));
                    actions.push(BridgeAction::DropDiscovery);
                    self.has_discovery = false;
                }
                if self.has_forwarder {
                    actions.push(BridgeAction::CancelForwarder);
                    self.has_forwarder = false;
                }
                if self.has_relay {
                    actions.push(BridgeAction::CancelDiscoveryRelay);
                    self.has_relay = false;
                }
                self.active_topic = None;
                self.pending = None;
                actions.push(BridgeAction::Reply(ServerMessage::LeftRoom));
            },
        }
        actions
    }

    /// The discovery client connected, registered and reported the initial
    /// peer view: derive the topic from the ticket and subscribe with
    /// those peers as bootstrap.
    pub fn on_discovery_ready(&mut self, initial_peers: Vec<String>) -> (actions: Vec<
        BridgeAction,
    >)
        requires
            old(self).wf(),
            old(self).pending_op() matches Some(p) && p is DiscoveryConnect,
        ensures
            final(self).wf(),
            final(self).my_id() == old(self).my_id(),
            final(self).active() == old(self).active(),
            final(self).discovery_live(),
            !final(self).forwarder_live(),
            old(self).pending_op() matches Some(p0) && (p0 matches PendingOp::DiscoveryConnect {
                ticket: tk0,
            } ==> {
                &&& (final(self).pending_op() matches Some(p) && (p
                    matches PendingOp::DiscoverySubscribe { ticket, topic } && ticket@ == tk0@
                    && topic@ == derived_topic(tk0@)))
                &&& actions@.len() == 1
                &&& (actions@[0] matches BridgeAction::Subscribe { topic, bootstrap } && topic@
                    == derived_topic(tk0@) && bootstrap.deep_view() == initial_peers.deep_view())
            }),
    {
        let mut actions: Vec<BridgeAction> = Vec::new();
        let tk = match self.pending.take() {
            Some(PendingOp::DiscoveryConnect { ticket }) => ticket,
            _ => {
                proof {
                    assert(false);
                }
                unreached()
            },
        };
        let topic = derive_topic(tk.as_str());
        self.has_discovery = true;
        actions.push(
            BridgeAction::Subscribe { topic: topic.clone(), bootstrap: initial_peers },
        );
        self.pending = Some(PendingOp::DiscoverySubscribe { ticket: tk, topic });
        actions
    }

    /// The discovery client could not connect: report it and abandon the
    /// operation; the session itself stays up.
    pub fn on_discovery_connect_failed(&mut self, detail: &str) -> (actions: Vec<BridgeAction>)
        requires
            old(self).wf(),
            old(self).pending_op() matches Some(p) && p is DiscoveryConnect,
        ensures
            final(self).wf(),
            final(self).my_id() == old(self).my_id(),
            final(self).active() == old(self).active(),
            final(self).pending_op() is None,
            final(self).discovery_live() == old(self).discovery_live(),
            actions@.len() == 1,
            (actions@[0] matches BridgeAction::Reply(sm) && (sm matches ServerMessage::Error {
                message,
            } && message@ == "NodeMaster connection failed: "@ + detail@)),
    {
        self.pending = None;
        let mut message = String::from_str("NodeMaster connection failed: ");
        message.append(detail);
        let mut actions: Vec<BridgeAction> = Vec::new();
        actions.push(BridgeAction::Reply(ServerMessage::Error { message }));
        actions
    }

    /// The overlay subscription succeeded: install the topic, confirm to
    /// the client, and start the forwarding task (and, after a discovery
    /// join, the relay task). A created room is confirmed with its ticket;
    /// a joined room with the ticket that was joined.
    pub fn on_subscribe_ok(&mut self) -> (actions: Vec<BridgeAction>)
        requires
            old(self).wf(),
            old(self).pending_op() matches Some(p) && (p is Create || p is Join
                || p is DiscoverySubscribe),
        ensures
            final(self).wf(),
            final(self).my_id() == old(self).my_id(),
            final(self).pending_op() is None,
            final(self).forwarder_live(),
            final(self).discovery_live() == old(self).discovery_live(),
            old(self).pending_op() matches Some(p0) ==> match p0 {
                PendingOp::Create { ticket, topic } => {
                    &&& final(self).active() == Some(topic@)
                    &&& final(self).relay_live() == old(self).relay_live()
                    &&& actions@.len() == 2
                    &&& (actions@[0] matches BridgeAction::Reply(sm) && (sm
                        matches ServerMessage::TicketCreated(t) && t@ == ticket@))
                    &&& actions@[1] is StartForwarder
                },
                PendingOp::Join { ticket, topic, bootstrap } => {
                    &&& final(self).active() == Some(topic@)
                    &&& final(self).relay_live() == old(self).relay_live()
                    &&& actions@.len() == 2
                    &&& (actions@[0] matches BridgeAction::Reply(sm) && (sm
                        matches ServerMessage::JoinedRoom { ticket: t } && t@ == ticket@))
                    &&& actions@[1] is StartForwarder
                },
                PendingOp::DiscoverySubscribe { ticket, topic } => {
                    &&& final(self).active() == Some(topic@)
                    &&& final(self).relay_live()
                    &&& actions@.len() == 3
                    &&& (actions@[0] matches BridgeAction::Reply(sm) && (sm
                        matches ServerMessage::JoinedRoom { ticket: t } && t@ == ticket@))
                    &&& actions@[1] is StartForwarder
                    &&& actions@[2] is StartDiscoveryRelay
                },
                PendingOp::DiscoveryConnect { ticket } => false,
            },
    {
        let mut actions: Vec<BridgeAction> = Vec::new();
        match self.pending.take() {
            Some(PendingOp::Create { ticket, topic }) => {
                self.active_topic = Some(topic);
                self.has_forwarder = true;
                actions.push(BridgeAction::Reply(ServerMessage::TicketCreated(ticket)));
                actions.push(BridgeAction::StartForwarder);
            },
            Some(PendingOp::Join { ticket, topic, bootstrap: _ }) => {
                self.active_topic = Some(topic);
                self.has_forwarder = true;
                actions.push(BridgeAction::Reply(ServerMessage::JoinedRoom { ticket }));
                actions.push(BridgeAction::StartForwarder);
            },
            Some(PendingOp::DiscoverySubscribe { ticket, topic }) => {
                self.active_topic = Some(topic);
                self.has_forwarder = true;
                self.has_relay = true;
                actions.push(BridgeAction::Reply(ServerMessage::JoinedRoom { ticket }));
                actions.push(BridgeAction::StartForwarder);
                actions.push(BridgeAction::StartDiscoveryRelay);
            },
            _ => {
                proof {
                    assert(false);
                }
                unreached()
            },
        }
        actions
    }

    /// The overlay subscription failed: report it with the cause's text
    /// and abandon the operation; the client may retry.
    pub fn on_subscribe_err(&mut self, detail: &str) -> (actions: Vec<BridgeAction>)
        requires
            old(self).wf(),
            old(self).pending_op() matches Some(p) && (p is Create || p is Join
                || p is DiscoverySubscribe),
        ensures
            final(self).wf(),
            final(self).my_id() == old(self).my_id(),
            final(self).pending_op() is None,
            final(self).active() == old(self).active(),
            final(self).forwarder_live() == old(self).forwarder_live(),
            actions@.len() == 1,
            old(self).pending_op() matches Some(p0) ==> match p0 {
                PendingOp::DiscoverySubscribe { .. } => (actions@[0] matches BridgeAction::Reply(
                    sm,
                ) && (sm matches ServerMessage::Error { message } && message@
                    == "Gossip subscribe failed: "@ + detail@)),
                _ => (actions@[0] matches BridgeAction::Reply(sm) && (sm
                    matches ServerMessage::Error { message } && message@ == detail@)),
            },
    {
        let mut actions: Vec<BridgeAction> = Vec::new();
        let was_discovery = match &self.pending {
            Some(PendingOp::DiscoverySubscribe { .. }) => true,
            _ => false,
        };
        self.pending = None;
        if was_discovery {
            let mut message = String::from_str("Gossip subscribe failed: ");
            message.append(detail);
            actions.push(BridgeAction::Reply(ServerMessage::Error { message }));
        } else {
            actions.push(
                BridgeAction::Reply(ServerMessage::Error { message: String::from_str(detail) }),
            );
        }
        actions
    }
}

} // verus!
