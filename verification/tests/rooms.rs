use peerbridge::protocol::ServerMessage;
use peerbridge::room::{Room, RoomManager};

#[test]
fn add_member_reports_prior_peers() {
    let mut room = Room::new();
    let (peers, notices) = room.add_member("a".to_string(), 1);
    assert!(peers.is_empty());
    assert!(notices.is_empty());
    let (peers, notices) = room.add_member("b".to_string(), 2);
    assert_eq!(peers, vec!["a".to_string()]);
    assert_eq!(notices.len(), 1);
    assert_eq!(notices[0].handle, 1);
    assert_eq!(notices[0].node_id, "a");
    match &notices[0].msg {
        ServerMessage::PeerJoined { node_id } => assert_eq!(node_id, "b"),
        other => panic!("expected peer-joined, got {:?}", other),
    }
}

#[test]
fn add_member_never_reports_self() {
    let mut room = Room::new();
    room.add_member("a".to_string(), 1);
    room.add_member("b".to_string(), 2);
    // Re-adding an existing identity must not report it to itself, and the
    // other member is told once.
    let (peers, notices) = room.add_member("a".to_string(), 3);
    assert_eq!(peers, vec!["b".to_string()]);
    assert_eq!(notices.len(), 1);
    assert_eq!(notices[0].node_id, "b");
}

#[test]
fn remove_member_notifies_remaining() {
    let mut room = Room::new();
    room.add_member("a".to_string(), 1);
    room.add_member("b".to_string(), 2);
    room.add_member("c".to_string(), 3);
    let notices = room.remove_member("b");
    assert_eq!(notices.len(), 2);
    for n in &notices {
        match &n.msg {
            ServerMessage::PeerLeft { node_id } => assert_eq!(node_id, "b"),
            other => panic!("expected peer-left, got {:?}", other),
        }
    }
    assert!(!room.is_empty());
    room.remove_member("a");
    room.remove_member("c");
    assert!(room.is_empty());
}

#[test]
fn register_returns_existing_peers_only() {
    let mut manager = RoomManager::new();
    let (peers, _) = manager.register("t1".to_string(), "a".to_string(), 1);
    assert!(peers.is_empty());
    let (peers, _) = manager.register("t1".to_string(), "b".to_string(), 2);
    assert_eq!(peers, vec!["a".to_string()]);
    // Re-registering must not report the registering identity itself.
    let (peers, _) = manager.register("t1".to_string(), "a".to_string(), 1);
    assert_eq!(peers, vec!["b".to_string()]);
}

#[test]
fn register_then_leave_deletes_room() {
    let mut manager = RoomManager::new();
    manager.register("ticket".to_string(), "solo".to_string(), 9);
    let (rooms, clients) = manager.stats();
    assert_eq!((rooms, clients), (1, 1));
    let notices = manager.leave("solo");
    assert!(notices.is_empty());
    let (rooms, clients) = manager.stats();
    assert_eq!((rooms, clients), (0, 0));
}

#[test]
fn switching_rooms_notifies_old_room_once() {
    let mut manager = RoomManager::new();
    manager.register("t1".to_string(), "a".to_string(), 1);
    manager.register("t1".to_string(), "b".to_string(), 2);
    manager.register("t2".to_string(), "c".to_string(), 3);
    // `b` switches from t1 to t2: `a` hears exactly one peer-left for `b`,
    // then `c` hears a peer-joined.
    let (peers, notices) = manager.register("t2".to_string(), "b".to_string(), 2);
    assert_eq!(peers, vec!["c".to_string()]);
    assert_eq!(notices.len(), 2);
    assert_eq!(notices[0].handle, 1);
    match &notices[0].msg {
        ServerMessage::PeerLeft { node_id } => assert_eq!(node_id, "b"),
        other => panic!("expected peer-left, got {:?}", other),
    }
    assert_eq!(notices[1].handle, 3);
    match &notices[1].msg {
        ServerMessage::PeerJoined { node_id } => assert_eq!(node_id, "b"),
        other => panic!("expected peer-joined, got {:?}", other),
    }
    // t1 still exists (a remains); one room per ticket.
    let (rooms, clients) = manager.stats();
    assert_eq!((rooms, clients), (2, 3));
    // `b` is only in t2 now: leaving t2's `b` does not disturb t1.
    let notices = manager.leave("b");
    assert_eq!(notices.len(), 1);
    assert_eq!(notices[0].handle, 3);
}

#[test]
fn leave_unregistered_is_noop() {
    let mut manager = RoomManager::new();
    manager.register("t".to_string(), "a".to_string(), 1);
    let notices = manager.leave("ghost");
    assert!(notices.is_empty());
    let (rooms, clients) = manager.stats();
    assert_eq!((rooms, clients), (1, 1));
}

#[test]
fn last_member_leaving_deletes_room_others_stay() {
    let mut manager = RoomManager::new();
    manager.register("t1".to_string(), "a".to_string(), 1);
    manager.register("t2".to_string(), "b".to_string(), 2);
    manager.leave("a");
    let (rooms, clients) = manager.stats();
    assert_eq!((rooms, clients), (1, 1));
}
