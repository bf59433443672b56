use peerbridge::bridge::{
    initial_peers_from, on_discovery_event, on_overlay_event, BridgeAction, BridgeSession,
    OverlayEvent,
};
use peerbridge::bridge_protocol::{ClientMessage, GossipMessage, ServerMessage};
use peerbridge::nodemaster_client::{NMClientMessage, NodeMasterEvent};
use peerbridge::ticket::decode_ticket;

#[test]
fn create_then_join_then_neighbor_up() {
    // Client A creates a room.
    let mut alpha = BridgeSession::new("node-a".to_string());
    let actions = alpha.on_command(ClientMessage::CreateTicket);
    let topic_a = match &actions[0] {
        BridgeAction::Subscribe { topic, bootstrap } => {
            assert!(bootstrap.is_empty());
            topic.clone()
        }
        other => panic!("expected subscribe, got {:?}", other),
    };
    let actions = alpha.on_subscribe_ok();
    let ticket = match &actions[0] {
        BridgeAction::Reply(ServerMessage::TicketCreated(t)) => t.clone(),
        other => panic!("expected ticket, got {:?}", other),
    };
    assert!(matches!(actions[1], BridgeAction::StartForwarder));
    // The ticket embeds A's topic and identity.
    let (bytes, boot) = decode_ticket(&ticket).expect("created ticket must decode");
    assert_eq!(bytes, topic_a);
    assert_eq!(boot.as_deref(), Some("node-a"));

    // Client B joins with that ticket.
    let mut beta = BridgeSession::new("node-b".to_string());
    let actions = beta.on_command(ClientMessage::JoinTicket(ticket.clone()));
    match &actions[0] {
        BridgeAction::Subscribe { topic, bootstrap } => {
            assert_eq!(topic, &topic_a);
            assert_eq!(bootstrap, &vec!["node-a".to_string()]);
        }
        other => panic!("expected subscribe, got {:?}", other),
    }
    let actions = beta.on_subscribe_ok();
    assert!(
        matches!(&actions[0], BridgeAction::Reply(ServerMessage::JoinedRoom { ticket: t }) if t == &ticket)
    );
    assert!(matches!(actions[1], BridgeAction::StartForwarder));

    // A's forwarder sees B come up and tells A.
    let step = on_overlay_event("node-a", OverlayEvent::NeighborUp("node-b".to_string()));
    assert!(
        matches!(step.reply, Some(ServerMessage::PeerJoined { peer_id }) if peer_id == "node-b")
    );
    assert!(step.broadcast.is_none());
}

#[test]
fn update_state_is_acknowledged_and_confirmed() {
    // B broadcasts an update.
    let mut beta = BridgeSession::new("node-b".to_string());
    beta.on_command(ClientMessage::CreateTicket);
    beta.on_subscribe_ok();
    let actions = beta.on_command(ClientMessage::UpdateState {
        payload: "{\"field\":1}".to_string(),
    });
    let update = match &actions[0] {
        BridgeAction::Broadcast(gm) => gm.clone(),
        other => panic!("expected broadcast, got {:?}", other),
    };
    match &update {
        GossipMessage::StateUpdate { peer_id, payload } => {
            assert_eq!(peer_id, "node-b");
            assert_eq!(payload, "{\"field\":1}");
        }
        other => panic!("expected state update, got {:?}", other),
    }

    // A's forwarder receives it: forward to A's client and acknowledge.
    let step = on_overlay_event(
        "node-a",
        OverlayEvent::Received { delivered_from: "node-b".to_string(), msg: Some(update) },
    );
    match step.reply {
        Some(ServerMessage::RemoteStateUpdate { peer_id, payload }) => {
            assert_eq!(peer_id, "node-b");
            assert_eq!(payload, "{\"field\":1}");
        }
        other => panic!("expected remote state update, got {:?}", other),
    }
    let ack = match step.broadcast {
        Some(gm) => gm,
        None => panic!("expected an acknowledgement"),
    };
    assert!(
        matches!(&ack, GossipMessage::StateAck { target_peer_id } if target_peer_id == "node-b")
    );

    // B's forwarder receives the ack delivered by A: confirm the sync.
    let step = on_overlay_event(
        "node-b",
        OverlayEvent::Received { delivered_from: "node-a".to_string(), msg: Some(ack.clone()) },
    );
    assert!(
        matches!(step.reply, Some(ServerMessage::SyncConfirmed { peer_id }) if peer_id == "node-a")
    );
    assert!(step.broadcast.is_none());

    // A third node ignores an ack addressed to B.
    let step = on_overlay_event(
        "node-c",
        OverlayEvent::Received { delivered_from: "node-a".to_string(), msg: Some(ack) },
    );
    assert!(step.reply.is_none());
    assert!(step.broadcast.is_none());
}

#[test]
fn malformed_gossip_payload_is_dropped() {
    let step = on_overlay_event(
        "node-a",
        OverlayEvent::Received { delivered_from: "node-b".to_string(), msg: None },
    );
    assert!(step.reply.is_none());
    assert!(step.broadcast.is_none());
}

#[test]
fn neighbor_down_forwards_peer_left() {
    let step = on_overlay_event("node-a", OverlayEvent::NeighborDown("node-b".to_string()));
    assert!(
        matches!(step.reply, Some(ServerMessage::PeerLeft { peer_id }) if peer_id == "node-b")
    );
}

#[test]
fn get_node_id_answers() {
    let mut session = BridgeSession::new("node-x".to_string());
    let actions = session.on_command(ClientMessage::GetNodeId);
    assert!(
        matches!(&actions[0], BridgeAction::Reply(ServerMessage::NodeId(id)) if id == "node-x")
    );
}

#[test]
fn invalid_ticket_is_refused_without_state_change() {
    let mut session = BridgeSession::new("node-x".to_string());
    let actions = session.on_command(ClientMessage::JoinTicket("bogus".to_string()));
    assert_eq!(actions.len(), 1);
    match &actions[0] {
        BridgeAction::Reply(ServerMessage::InvalidTicket { ticket, reason }) => {
            assert_eq!(ticket, "bogus");
            assert_eq!(reason, "Invalid ticket format. Expected: topic_hex|node_id");
        }
        other => panic!("expected invalid-ticket, got {:?}", other),
    }
    // Still no room: an update is refused.
    let actions = session.on_command(ClientMessage::UpdateState { payload: "{}".to_string() });
    assert!(
        matches!(&actions[0], BridgeAction::Reply(ServerMessage::Error { message })
            if message == "Not in any room. Call JoinTicket first.")
    );
}

#[test]
fn join_via_discovery_flow() {
    let mut session = BridgeSession::new("node-x".to_string());
    let actions = session.on_command(ClientMessage::JoinViaDiscovery {
        ticket: "lobby-42".to_string(),
        discovery_url: Some("ws://rendezvous.example:31337".to_string()),
    });
    match &actions[0] {
        BridgeAction::ConnectDiscovery { ticket, discovery_url, node_id } => {
            assert_eq!(ticket, "lobby-42");
            assert_eq!(discovery_url.as_deref(), Some("ws://rendezvous.example:31337"));
            assert_eq!(node_id, "node-x");
        }
        other => panic!("expected discovery connect, got {:?}", other),
    }
    // The discovery client reported one peer.
    let peers = initial_peers_from(Some(NodeMasterEvent::PeerList(vec!["p1".to_string()])));
    let actions = session.on_discovery_ready(peers);
    let topic = match &actions[0] {
        BridgeAction::Subscribe { topic, bootstrap } => {
            assert_eq!(bootstrap, &vec!["p1".to_string()]);
            topic.clone()
        }
        other => panic!("expected subscribe, got {:?}", other),
    };
    // The same ticket always derives the same topic.
    assert_eq!(topic, peerbridge::ticket::derive_topic("lobby-42"));
    let actions = session.on_subscribe_ok();
    assert!(
        matches!(&actions[0], BridgeAction::Reply(ServerMessage::JoinedRoom { ticket }) if ticket == "lobby-42")
    );
    assert!(matches!(actions[1], BridgeAction::StartForwarder));
    assert!(matches!(actions[2], BridgeAction::StartDiscoveryRelay));
}

#[test]
fn discovery_connect_failure_is_reported() {
    let mut session = BridgeSession::new("node-x".to_string());
    session.on_command(ClientMessage::JoinViaDiscovery {
        ticket: "lobby".to_string(),
        discovery_url: None,
    });
    let actions = session.on_discovery_connect_failed("connection refused");
    assert!(
        matches!(&actions[0], BridgeAction::Reply(ServerMessage::Error { message })
            if message == "NodeMaster connection failed: connection refused")
    );
}

#[test]
fn subscribe_failure_is_reported() {
    let mut session = BridgeSession::new("node-x".to_string());
    session.on_command(ClientMessage::CreateTicket);
    let actions = session.on_subscribe_err("no overlay");
    assert!(
        matches!(&actions[0], BridgeAction::Reply(ServerMessage::Error { message })
            if message == "no overlay")
    );
}

#[test]
fn initial_peers_default_to_empty() {
    assert!(initial_peers_from(None).is_empty());
    assert!(initial_peers_from(Some(NodeMasterEvent::Reconnecting)).is_empty());
    let peers = initial_peers_from(Some(NodeMasterEvent::PeerList(vec!["a".to_string()])));
    assert_eq!(peers, vec!["a".to_string()]);
}

#[test]
fn discovery_relay_translates_events() {
    let step = on_discovery_event(NodeMasterEvent::PeerLeft("p".to_string()));
    assert!(!step.stop);
    assert!(matches!(step.forward, Some(ServerMessage::PeerLeft { peer_id }) if peer_id == "p"));
    let step = on_discovery_event(NodeMasterEvent::Error("gone".to_string()));
    assert!(!step.stop);
    assert!(matches!(step.forward, Some(ServerMessage::Error { message }) if message == "gone"));
    let step = on_discovery_event(NodeMasterEvent::Disconnected);
    assert!(step.stop);
    assert!(step.forward.is_none());
    let step = on_discovery_event(NodeMasterEvent::PeerJoined("p".to_string()));
    assert!(!step.stop);
    assert!(step.forward.is_none());
}

#[test]
fn leave_room_cancels_everything() {
    let mut session = BridgeSession::new("node-x".to_string());
    session.on_command(ClientMessage::JoinViaDiscovery {
        ticket: "lobby".to_string(),
        discovery_url: None,
    });
    session.on_discovery_ready(Vec::new());
    session.on_subscribe_ok();
    let actions = session.on_command(ClientMessage::LeaveRoom);
    assert!(matches!(
        &actions[0],
        BridgeAction::DiscoveryCommand(NMClientMessage::Leave)
    ));
    assert!(matches!(actions[1], BridgeAction::DropDiscovery));
    assert!(matches!(actions[2], BridgeAction::CancelForwarder));
    assert!(matches!(actions[3], BridgeAction::CancelDiscoveryRelay));
    assert!(matches!(
        actions.last(),
        Some(BridgeAction::Reply(ServerMessage::LeftRoom))
    ));
    // After leaving, updates are refused again.
    let actions = session.on_command(ClientMessage::UpdateState { payload: "{}".to_string() });
    assert!(matches!(&actions[0], BridgeAction::Reply(ServerMessage::Error { .. })));
}

#[test]
fn report_peer_left_forwards_only_with_discovery() {
    let mut session = BridgeSession::new("node-x".to_string());
    let actions = session.on_command(ClientMessage::ReportPeerLeft {
        node_id: "dead".to_string(),
    });
    assert!(actions.is_empty());
    session.on_command(ClientMessage::JoinViaDiscovery {
        ticket: "lobby".to_string(),
        discovery_url: None,
    });
    session.on_discovery_ready(Vec::new());
    let actions = session.on_command(ClientMessage::ReportPeerLeft {
        node_id: "dead".to_string(),
    });
    assert!(matches!(
        &actions[0],
        BridgeAction::DiscoveryCommand(NMClientMessage::ReportPeerLeft { node_id }) if node_id == "dead"
    ));
}
