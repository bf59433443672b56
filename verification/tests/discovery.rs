use peerbridge::nodemaster_client::{
    translate_inbound, ClientAction, NMClientMessage, NMServerMessage, NodeMasterClient,
    NodeMasterEvent, INITIAL_BACKOFF_MS, MAX_BACKOFF_MS, MAX_RECONNECT_ATTEMPTS,
};

#[test]
fn constants_match_policy() {
    assert_eq!(INITIAL_BACKOFF_MS, 2000);
    assert_eq!(MAX_BACKOFF_MS, 30000);
    assert_eq!(MAX_RECONNECT_ATTEMPTS, 10);
}

#[test]
fn eleven_failures_give_one_terminal_error_and_capped_backoffs() {
    let mut client = NodeMasterClient::new();
    let mut delays: Vec<u64> = Vec::new();
    let mut reconnecting_events = 0usize;
    let mut terminal_errors = 0usize;
    for _ in 0..11 {
        assert!(client.is_active());
        for action in client.on_disconnected() {
            match action {
                ClientAction::SleepMs(ms) => delays.push(ms),
                ClientAction::Emit(NodeMasterEvent::Reconnecting) => reconnecting_events += 1,
                ClientAction::Emit(NodeMasterEvent::Error(m)) => {
                    terminal_errors += 1;
                    assert_eq!(m, "Max reconnect attempts reached");
                }
                other => panic!("unexpected action {:?}", other),
            }
        }
    }
    assert_eq!(terminal_errors, 1);
    assert_eq!(reconnecting_events, 10);
    assert_eq!(
        delays,
        vec![2000, 4000, 8000, 16000, 30000, 30000, 30000, 30000, 30000, 30000]
    );
    // Spent for good: the loop must not run again.
    assert!(!client.is_active());
}

#[test]
fn deliberate_leave_disconnects_without_reconnect() {
    let mut client = NodeMasterClient::new();
    client.on_connect_succeeded();
    let actions = client.on_command(NodeMasterClient::leave());
    assert_eq!(actions.len(), 2);
    assert!(matches!(&actions[0], ClientAction::SendWire(NMClientMessage::Leave)));
    assert!(matches!(
        &actions[1],
        ClientAction::Emit(NodeMasterEvent::Disconnected)
    ));
    // No reconnect follows a deliberate leave.
    assert!(!client.is_active());
}

#[test]
fn registration_is_replayed_after_reconnect() {
    let mut client = NodeMasterClient::new();
    let actions = client.on_connect_succeeded();
    // First connection, nothing to replay, nothing to announce.
    assert!(actions.is_empty());
    client.on_command(NodeMasterClient::register("t".to_string(), "me".to_string()));
    // The connection drops once and comes back.
    let actions = client.on_disconnected();
    assert_eq!(actions.len(), 2);
    assert!(matches!(
        &actions[0],
        ClientAction::Emit(NodeMasterEvent::Reconnecting)
    ));
    assert!(matches!(&actions[1], ClientAction::SleepMs(2000)));
    let actions = client.on_connect_succeeded();
    assert_eq!(actions.len(), 2);
    assert!(matches!(
        &actions[0],
        ClientAction::Emit(NodeMasterEvent::Reconnected)
    ));
    match &actions[1] {
        ClientAction::SendWire(NMClientMessage::Register { ticket, node_id }) => {
            assert_eq!(ticket, "t");
            assert_eq!(node_id, "me");
        }
        other => panic!("expected replayed registration, got {:?}", other),
    }
}

#[test]
fn backoff_resets_after_success() {
    let mut client = NodeMasterClient::new();
    client.on_disconnected();
    client.on_disconnected();
    client.on_connect_succeeded();
    let actions = client.on_disconnected();
    let delay = actions.iter().find_map(|a| match a {
        ClientAction::SleepMs(ms) => Some(*ms),
        _ => None,
    });
    assert_eq!(delay, Some(2000));
}

#[test]
fn server_close_counts_as_retryable() {
    let mut client = NodeMasterClient::new();
    client.on_connect_succeeded();
    let actions = client.on_server_closed();
    assert!(matches!(
        &actions[0],
        ClientAction::Emit(NodeMasterEvent::Reconnecting)
    ));
    assert!(client.is_active());
}

#[test]
fn inbound_frames_translate_to_events() {
    match translate_inbound(NMServerMessage::Peers {
        node_ids: vec!["a".to_string(), "b".to_string()],
    }) {
        Some(NodeMasterEvent::PeerList(ids)) => {
            assert_eq!(ids, vec!["a".to_string(), "b".to_string()])
        }
        other => panic!("expected peer list, got {:?}", other),
    }
    assert!(matches!(
        translate_inbound(NMServerMessage::PeerJoined { node_id: "x".to_string() }),
        Some(NodeMasterEvent::PeerJoined(id)) if id == "x"
    ));
    assert!(matches!(
        translate_inbound(NMServerMessage::PeerLeft { node_id: "x".to_string() }),
        Some(NodeMasterEvent::PeerLeft(id)) if id == "x"
    ));
    assert!(translate_inbound(NMServerMessage::Pong).is_none());
    assert!(matches!(
        translate_inbound(NMServerMessage::Error { message: "boom".to_string() }),
        Some(NodeMasterEvent::Error(m)) if m == "boom"
    ));
}

#[test]
fn register_while_connected_updates_memo_and_sends() {
    let mut client = NodeMasterClient::new();
    client.on_connect_succeeded();
    let actions = client.on_command(NMClientMessage::Register {
        ticket: "t2".to_string(),
        node_id: "n".to_string(),
    });
    assert_eq!(actions.len(), 1);
    assert!(matches!(
        &actions[0],
        ClientAction::SendWire(NMClientMessage::Register { .. })
    ));
    // A later registration overwrites the memo.
    client.on_command(NMClientMessage::Register {
        ticket: "t3".to_string(),
        node_id: "n".to_string(),
    });
    client.on_disconnected();
    let actions = client.on_connect_succeeded();
    match actions.last() {
        Some(ClientAction::SendWire(NMClientMessage::Register { ticket, .. })) => {
            assert_eq!(ticket, "t3")
        }
        other => panic!("expected replay of the latest registration, got {:?}", other),
    }
}
