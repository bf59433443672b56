//! Discovery client for the rendezvous service.
//!
//! The client registers with the rendezvous server to discover peers in
//! the same ticket room and heals itself: connection loss is retried with
//! exponential backoff up to a fixed number of attempts, and the last
//! registration is replayed after every reconnect. This module is the
//! decision core: each step takes what happened on the transport and
//! says which events to publish, which frames to send and how long to
//! sleep; performing them is the caller's concern.

use vstd::prelude::*;

verus! {

/// First delay before a reconnect attempt, in milliseconds.
pub const INITIAL_BACKOFF_MS: u64 = 2000;

/// Ceiling on the reconnect delay, in milliseconds.
pub const MAX_BACKOFF_MS: u64 = 30000;

/// Failures tolerated before the client gives up for good.
pub const MAX_RECONNECT_ATTEMPTS: u32 = 10;

/// Client-to-server frames of the rendezvous protocol, as this client
/// sends them.
#[derive(Debug, Clone)]
pub enum NMClientMessage {
    Register { ticket: String, node_id: String },
    Leave,
    Ping,
    ReportPeerLeft { node_id: String },
}

/// Server-to-client frames of the rendezvous protocol, as this client
/// reads them.
#[derive(Debug, Clone)]
pub enum NMServerMessage {
    Peers { node_ids: Vec<String> },
    PeerJoined { node_id: String },
    PeerLeft { node_id: String },
    Pong,
    Error { message: String },
}

/// Events the client publishes to its owner.
#[derive(Debug, Clone)]
pub enum NodeMasterEvent {
    /// Initial peer list when joining a room.
    PeerList(Vec<String>),
    /// A new peer joined.
    PeerJoined(String),
    /// A peer left.
    PeerLeft(String),
    /// Connection error.
    Error(String),
    /// Disconnected from the server for good.
    Disconnected,
    /// Attempting to reconnect.
    Reconnecting,
    /// Successfully reconnected.
    Reconnected,
}

/// What a step asks the caller to do, in order.
#[derive(Debug, Clone)]
pub enum ClientAction {
    /// Publish an event to the owner.
    Emit(NodeMasterEvent),
    /// Send a frame to the server.
    SendWire(NMClientMessage),
    /// Sleep this many milliseconds before the next connection attempt.
    SleepMs(u64),
}

/// Where the client stands.
#[derive(Debug, Clone, Copy, PartialEq, Eq, Structural)]
pub enum ClientPhase {
    /// About to attempt a transport connection.
    Connecting,
    /// A connection is up and frames flow.
    Connected,
    /// A deliberate leave ended the client; no reconnect follows.
    Closed,
    /// The retry budget is spent; no reconnect follows.
    Failed,
}

/// The reconnect state machine: phase, backoff, failure count and the
/// registration memo replayed after a reconnect.
pub struct NodeMasterClient {
    phase: ClientPhase,
    backoff_ms: u64,
    attempt: u32,
    memo_ticket: Option<String>,
    memo_node_id: Option<String>,
}

impl NodeMasterClient {
    /// The client's phase.
    pub closed spec fn phase(self) -> ClientPhase {
        self.phase
    }

    /// The delay before the next reconnect attempt.
    pub closed spec fn backoff(self) -> u64 {
        self.backoff_ms
    }

    /// Consecutive failures since the last successful connection.
    pub closed spec fn attempts(self) -> u32 {
        self.attempt
    }

    /// The last registration sent, replayed after a reconnect.
    pub closed spec fn memo(self) -> Option<(Seq<char>, Seq<char>)> {
        match (self.memo_ticket, self.memo_node_id) {
            (Some(ref t), Some(ref n)) => Some((t@, n@)),
            _ => None,
        }
    }

    /// The state every reachable client satisfies: the backoff stays
    /// between its initial value and its ceiling, and the failure count
    /// exceeds the budget only once the client has failed for good.
    pub open spec fn wf(self) -> bool {
        &&& INITIAL_BACKOFF_MS <= self.backoff() <= MAX_BACKOFF_MS
        &&& (self.attempts() > MAX_RECONNECT_ATTEMPTS ==> self.phase() is Failed)
    }

    /// Whether the loop should keep running: a closed or failed client
    /// never reconnects.
    pub fn is_active(&self) -> (r: bool)
        ensures
            r == (self.phase() is Connecting || self.phase() is Connected),
    {
        match self.phase {
            ClientPhase::Connecting => true,
            ClientPhase::Connected => true,
            ClientPhase::Closed => false,
            ClientPhase::Failed => false,
        }
    }

    /// A fresh client about to make its first connection attempt.
    pub fn new() -> (r: Self)
        ensures
            r.wf(),
            r.phase() is Connecting,
            r.backoff() == INITIAL_BACKOFF_MS,
            r.attempts() == 0,
            r.memo() is None,
    {
        NodeMasterClient {
            phase: ClientPhase::Connecting,
            backoff_ms: INITIAL_BACKOFF_MS,
            attempt: 0,
            memo_ticket: None,
            memo_node_id: None,
        }
    }

    /// A transport connection came up: reset the backoff and the failure
    /// count, report the recovery when this follows a failure, and replay
    /// the last registration if one was ever sent.
    pub fn on_connect_succeeded(&mut self) -> (actions: Vec<ClientAction>)
        requires
            old(self).wf(),
            old(self).phase() is Connecting,
        ensures
            final(self).wf(),
            final(self).phase() is Connected,
            final(self).backoff() == INITIAL_BACKOFF_MS,
            final(self).attempts() == 0,
            final(self).memo() == old(self).memo(),
            actions@.len() == (if old(self).attempts() > 0 {
                1int
            } else {
                0int
            }) + (if old(self).memo() is Some {
                1int
            } else {
                0int
            }),
            old(self).attempts() > 0 ==> (actions@[0] matches ClientAction::Emit(e) && e
                is Reconnected),
            old(self).memo() matches Some(m) ==> (actions@[actions@.len() - 1]
                matches ClientAction::SendWire(w) && (w matches NMClientMessage::Register {
                ticket,
                node_id,
            } && ticket@ == m.0 && node_id@ == m.1)),
    {
        let mut actions: Vec<ClientAction> = Vec::new();
        if self.attempt > 0 {
            actions.push(ClientAction::Emit(NodeMasterEvent::Reconnected));
        }
        self.phase = ClientPhase::Connected;
        self.backoff_ms = INITIAL_BACKOFF_MS;
        self.attempt = 0;
        match (&self.memo_ticket, &self.memo_node_id) {
            (Some(t), Some(n)) => {
                actions.push(
                    ClientAction::SendWire(
                        NMClientMessage::Register { ticket: t.clone(), node_id: n.clone() },
                    ),
                );
            },
            _ => {},
        }
        actions
    }

    /// The connection attempt failed, the transport dropped unexpectedly,
    /// or a send failed: count the failure. Within the budget, report a
    /// reconnect attempt, sleep the current backoff and double it up to
    /// the ceiling; past the budget, report one terminal error and stop
    /// for good.
    pub fn on_disconnected(&mut self) -> (actions: Vec<ClientAction>)
        requires
            old(self).wf(),
            old(self).phase() is Connecting || old(self).phase() is Connected,
        ensures
            final(self).wf(),
            final(self).memo() == old(self).memo(),
            final(self).attempts() == old(self).attempts() + 1,
            old(self).attempts() >= MAX_RECONNECT_ATTEMPTS ==> {
                &&& final(self).phase() is Failed
                &&& actions@.len() == 1
                &&& (actions@[0] matches ClientAction::Emit(e) && (e
                    matches NodeMasterEvent::Error(m) && m@
                    == "Max reconnect attempts reached"@))
            },
            old(self).attempts() < MAX_RECONNECT_ATTEMPTS ==> {
                &&& final(self).phase() is Connecting
                &&& final(self).backoff() == (if 2 * old(self).backoff() <= MAX_BACKOFF_MS {
                    2 * old(self).backoff()
                } else {
                    MAX_BACKOFF_MS as int
                })
                &&& actions@.len() == 2
                &&& (actions@[0] matches ClientAction::Emit(e) && e is Reconnecting)
                &&& actions@[1] == ClientAction::SleepMs(old(self).backoff())
            },
    {
        let mut actions: Vec<ClientAction> = Vec::new();
        self.attempt = self.attempt + 1;
        if self.attempt > MAX_RECONNECT_ATTEMPTS {
            self.phase = ClientPhase::Failed;
            actions.push(
                ClientAction::Emit(
                    NodeMasterEvent::Error(String::from_str("Max reconnect attempts reached")),
                ),
            );
        } else {
            self.phase = ClientPhase::Connecting;
            actions.push(ClientAction::Emit(NodeMasterEvent::Reconnecting));
            actions.push(ClientAction::SleepMs(self.backoff_ms));
            let doubled = self.backoff_ms * 2;
            self.backoff_ms = if doubled <= MAX_BACKOFF_MS {
                doubled
            } else {
                MAX_BACKOFF_MS
            };
        }
        actions
    }

    /// An owner command arrived while connected: a registration updates
    /// the memo and goes out on the wire; a leave goes out and ends the
    /// client deliberately, with a disconnected event and no reconnect;
    /// anything else just goes out.
    pub fn on_command(&mut self, cmd: NMClientMessage) -> (actions: Vec<ClientAction>)
        requires
            old(self).wf(),
            old(self).phase() is Connected,
        ensures
            final(self).wf(),
            final(self).backoff() == old(self).backoff(),
            final(self).attempts() == old(self).attempts(),
            cmd matches NMClientMessage::Register { ticket, node_id } ==> {
                &&& final(self).phase() is Connected
                &&& final(self).memo() == Some((ticket@, node_id@))
                &&& actions@.len() == 1
                &&& actions@[0] == ClientAction::SendWire(cmd)
            },
            cmd is Leave ==> {
                &&& final(self).phase() is Closed
                &&& final(self).memo() == old(self).memo()
                &&& actions@.len() == 2
                &&& actions@[0] == ClientAction::SendWire(cmd)
                &&& (actions@[1] matches ClientAction::Emit(e) && e is Disconnected)
            },
            cmd is Ping || cmd is ReportPeerLeft ==> {
                &&& *final(self) == *old(self)
                &&& actions@.len() == 1
                &&& actions@[0] == ClientAction::SendWire(cmd)
            },
    {
        let mut actions: Vec<ClientAction> = Vec::new();
        match &cmd {
            NMClientMessage::Register { ticket, node_id } => {
                self.memo_ticket = Some(ticket.clone());
                self.memo_node_id = Some(node_id.clone());
                actions.push(ClientAction::SendWire(cmd));
            },
            NMClientMessage::Leave => {
                self.phase = ClientPhase::Closed;
                actions.push(ClientAction::SendWire(cmd));
                actions.push(ClientAction::Emit(NodeMasterEvent::Disconnected));
            },
            NMClientMessage::Ping => {
                actions.push(ClientAction::SendWire(cmd));
            },
            NMClientMessage::ReportPeerLeft { .. } => {
                actions.push(ClientAction::SendWire(cmd));
            },
        }
        actions
    }

    /// The command that registers to a ticket room: once it passes through
    /// `on_command`, it is recorded in the memo and replayed after every
    /// reconnect.
    pub fn register(ticket: String, node_id: String) -> (r: NMClientMessage)
        ensures
            r matches NMClientMessage::Register { ticket: t, node_id: n } && t@ == ticket@ && n@
                == node_id@,
    {
        NMClientMessage::Register { ticket, node_id }
    }

    /// The command that leaves the current room: once it passes through
    /// `on_command`, it ends the client deliberately, with no reconnect.
    pub fn leave() -> (r: NMClientMessage)
        ensures
            r is Leave,
    {
        NMClientMessage::Leave
    }

    /// The command that reports a dead peer for eviction.
    pub fn report_peer_left(node_id: String) -> (r: NMClientMessage)
        ensures
            r matches NMClientMessage::ReportPeerLeft { node_id: n } && n@ == node_id@,
    {
        NMClientMessage::ReportPeerLeft { node_id }
    }

    /// The transport closed without a deliberate leave while connected:
    /// treated as a retryable failure.
    pub fn on_server_closed(&mut self) -> (actions: Vec<ClientAction>)
        requires
            old(self).wf(),
            old(self).phase() is Connected,
        ensures
            final(self).wf(),
            final(self).memo() == old(self).memo(),
            final(self).attempts() == old(self).attempts() + 1,
            old(self).attempts() >= MAX_RECONNECT_ATTEMPTS ==> final(self).phase() is Failed,
            old(self).attempts() < MAX_RECONNECT_ATTEMPTS ==> final(self).phase() is Connecting,
    {
        self.on_disconnected()
    }
}

/// Translate one inbound frame into the event the owner sees: a peer list,
/// a join, a leave or an error surface as events, and a pong is swallowed.
pub fn translate_inbound(msg: NMServerMessage) -> (r: Option<NodeMasterEvent>)
    ensures
        msg matches NMServerMessage::Peers { node_ids } ==> (r matches Some(e) && (e
            matches NodeMasterEvent::PeerList(ids) && ids.deep_view() == node_ids.deep_view())),
        msg matches NMServerMessage::PeerJoined { node_id } ==> (r matches Some(e) && (e
            matches NodeMasterEvent::PeerJoined(id) && id@ == node_id@)),
        msg matches NMServerMessage::PeerLeft { node_id } ==> (r matches Some(e) && (e
            matches NodeMasterEvent::PeerLeft(id) && id@ == node_id@)),
        msg is Pong ==> r is None,
        msg matches NMServerMessage::Error { message } ==> (r matches Some(e) && (e
            matches NodeMasterEvent::Error(m) && m@ == message@)),
{
    match msg {
        NMServerMessage::Peers { node_ids } => Some(NodeMasterEvent::PeerList(node_ids)),
        NMServerMessage::PeerJoined { node_id } => Some(NodeMasterEvent::PeerJoined(node_id)),
        NMServerMessage::PeerLeft { node_id } => Some(NodeMasterEvent::PeerLeft(node_id)),
        NMServerMessage::Pong => None,
        NMServerMessage::Error { message } => Some(NodeMasterEvent::Error(message)),
    }
}

/// One doubling of the backoff, capped at the ceiling.
pub open spec fn double_capped(b: u64) -> int {
    if 2 * b <= MAX_BACKOFF_MS {
        2 * b
    } else {
        MAX_BACKOFF_MS as int
    }
}

/// The backoff in force after `n` failures, starting fresh.
pub open spec fn backoff_after(n: nat) -> int
    decreases n,
{
    if n == 0 {
        INITIAL_BACKOFF_MS as int
    } else {
        double_capped(backoff_after((n - 1) as nat) as u64)
    }
}

/// The delays a freshly connected client observes are 2000, 4000, 8000,
/// 16000 and then 30000 milliseconds for every further attempt: the n-th
/// failure sleeps `backoff_after(n)`, which doubles from its initial value
/// and is capped at the ceiling from the fifth attempt on.
pub proof fn lemma_backoff_schedule(n: nat)
    ensures
        backoff_after(n) == if n == 0 {
            2000int
        } else if n == 1 {
            4000int
        } else if n == 2 {
            8000int
        } else if n == 3 {
            16000int
        } else {
            30000int
        },
    decreases n,
{
    if n > 0 {
        lemma_backoff_schedule((n - 1) as nat);
    }
}

} // verus!
