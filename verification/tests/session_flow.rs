use peerbridge::limiter::ConnectionLimiter;
use peerbridge::protocol::{ClientMessage, ServerMessage};
use peerbridge::room::RoomManager;
use peerbridge::session::{RendezvousSession, HEARTBEAT_TIMEOUT_SECS};

#[test]
fn heartbeat_window_is_45_seconds() {
    assert_eq!(HEARTBEAT_TIMEOUT_SECS, 45);
}

#[test]
fn ping_answers_pong() {
    let mut rooms = RoomManager::new();
    let mut session = RendezvousSession::new(1, 10);
    let (notices, replies) = session.on_frame(
        &mut rooms,
        ClientMessage::Ping,
    );
    assert!(notices.is_empty());
    assert_eq!(replies.len(), 1);
    assert!(matches!(replies[0], ServerMessage::Pong));
}

#[test]
fn register_replies_with_peer_list() {
    let mut rooms = RoomManager::new();
    let mut alpha = RendezvousSession::new(1, 10);
    let mut beta = RendezvousSession::new(2, 20);
    let (_, replies) = alpha.on_frame(
        &mut rooms,
        ClientMessage::Register { ticket: "t".to_string(), node_id: "a".to_string() },
    );
    match &replies[0] {
        ServerMessage::Peers { node_ids } => assert!(node_ids.is_empty()),
        other => panic!("expected peers, got {:?}", other),
    }
    let (notices, replies) = beta.on_frame(
        &mut rooms,
        ClientMessage::Register { ticket: "t".to_string(), node_id: "b".to_string() },
    );
    match &replies[0] {
        ServerMessage::Peers { node_ids } => assert_eq!(node_ids, &vec!["a".to_string()]),
        other => panic!("expected peers, got {:?}", other),
    }
    assert_eq!(notices.len(), 1);
    assert_eq!(notices[0].handle, 10);
    assert!(matches!(&notices[0].msg, ServerMessage::PeerJoined { node_id } if node_id == "b"));
}

#[test]
fn leave_frame_unregisters() {
    let mut rooms = RoomManager::new();
    let mut session = RendezvousSession::new(1, 10);
    session.on_frame(
        &mut rooms,
        ClientMessage::Register { ticket: "t".to_string(), node_id: "a".to_string() },
    );
    let (notices, replies) = session.on_frame(&mut rooms, ClientMessage::Leave);
    assert!(notices.is_empty());
    assert!(replies.is_empty());
    assert_eq!(rooms.stats(), (0, 0));
}

#[test]
fn report_ignored_when_unregistered() {
    let mut rooms = RoomManager::new();
    rooms.register("t".to_string(), "victim".to_string(), 5);
    let mut session = RendezvousSession::new(1, 10);
    session.on_frame(
        &mut rooms,
        ClientMessage::ReportPeerLeft { node_id: "victim".to_string() },
    );
    // Not registered: the report is ignored.
    assert_eq!(rooms.stats(), (1, 1));
}

#[test]
fn report_evicts_when_registered() {
    let mut rooms = RoomManager::new();
    rooms.register("t".to_string(), "victim".to_string(), 5);
    let mut session = RendezvousSession::new(1, 10);
    session.on_frame(
        &mut rooms,
        ClientMessage::Register { ticket: "t".to_string(), node_id: "host".to_string() },
    );
    let (notices, _) = session.on_frame(
        &mut rooms,
        ClientMessage::ReportPeerLeft { node_id: "victim".to_string() },
    );
    assert_eq!(rooms.stats(), (1, 1));
    assert_eq!(notices.len(), 1);
    assert!(matches!(&notices[0].msg, ServerMessage::PeerLeft { node_id } if node_id == "victim"));
}

#[test]
fn identity_switch_on_one_connection() {
    let mut rooms = RoomManager::new();
    rooms.register("t".to_string(), "other".to_string(), 5);
    let mut session = RendezvousSession::new(1, 10);
    session.on_frame(
        &mut rooms,
        ClientMessage::Register { ticket: "t".to_string(), node_id: "first".to_string() },
    );
    // Same connection re-registers under a new identity: the old one is
    // evicted first.
    let (notices, replies) = session.on_frame(
        &mut rooms,
        ClientMessage::Register { ticket: "t".to_string(), node_id: "second".to_string() },
    );
    match &replies[0] {
        ServerMessage::Peers { node_ids } => assert_eq!(node_ids, &vec!["other".to_string()]),
        other => panic!("expected peers, got {:?}", other),
    }
    // One peer-left for "first" to "other", then one peer-joined for
    // "second" to "other".
    assert_eq!(notices.len(), 2);
    assert!(matches!(&notices[0].msg, ServerMessage::PeerLeft { node_id } if node_id == "first"));
    assert!(
        matches!(&notices[1].msg, ServerMessage::PeerJoined { node_id } if node_id == "second")
    );
    assert_eq!(rooms.stats(), (1, 2));
}

#[test]
fn malformed_frame_reply() {
    let session = RendezvousSession::new(1, 10);
    let reply = session.on_malformed("missing field `type`");
    assert!(
        matches!(reply, ServerMessage::Error { message }
            if message == "Invalid message format: missing field `type`")
    );
}

#[test]
fn connection_end_releases_exactly_once() {
    let mut rooms = RoomManager::new();
    let mut limiter = ConnectionLimiter::new();
    assert!(limiter.try_connect(1).is_ok());
    let mut session = RendezvousSession::new(1, 10);
    session.on_frame(
        &mut rooms,
        ClientMessage::Register { ticket: "t".to_string(), node_id: "a".to_string() },
    );
    assert_eq!(limiter.stats().0, 1);
    assert_eq!(rooms.stats(), (1, 1));
    // The idle timeout (or any other end) triggers one cleanup.
    session.on_end(&mut rooms, &mut limiter);
    assert_eq!(limiter.stats().0, 0);
    assert_eq!(rooms.stats(), (0, 0));
    // A second cleanup of the same session changes nothing.
    assert!(limiter.try_connect(2).is_ok());
    session.on_end(&mut rooms, &mut limiter);
    assert_eq!(limiter.stats().0, 1);
}
