//! Per-connection rendezvous session.
//!
//! Each connection runs this state machine over the rendezvous wire
//! protocol: it consults the admission gate before it exists, drives the
//! room directory on register, leave and report frames, and releases its
//! membership and admission slot exactly once when the connection ends,
//! whether by idle timeout, client close or transport error. Reading
//! frames, timing the heartbeat and delivering replies are the caller's
//! concern.

use vstd::prelude::*;

use crate::limiter::ConnectionLimiter;
use crate::protocol::{ClientMessage, ServerMessage};
use crate::room::{ids_of, remove_id, Notice, RoomManager, RoomMember};
use crate::text::str_eq;

verus! {

/// Seconds of inbound silence after which a connection is ended.
pub const HEARTBEAT_TIMEOUT_SECS: u64 = 45;

/// The members of the room for `t2` after a session holding identity `o`
/// leaves it to register `new_id`: when the session switches identity,
/// `o`'s room loses `o`.
pub open spec fn after_session_leave(
    rooms0: RoomManager,
    o: Option<Seq<char>>,
    new_id: Seq<char>,
    t2: Seq<char>,
) -> Seq<RoomMember> {
    match o {
        Some(oid) => if oid != new_id && rooms0.ticket_of(oid) == Some(t2) {
            remove_id(rooms0.room_members(t2), oid)
        } else {
            rooms0.room_members(t2)
        },
        None => rooms0.room_members(t2),
    }
}

/// The members of the room for `t2` once `new_id` registers elsewhere
/// while the session possibly held identity `o`: the session first leaves
/// `o`'s room (when switching identity), then the registration takes
/// `new_id` out of its previous room.
pub open spec fn members_after_switch(
    rooms0: RoomManager,
    o: Option<Seq<char>>,
    new_id: Seq<char>,
    t2: Seq<char>,
) -> Seq<RoomMember> {
    if rooms0.ticket_of(new_id) == Some(t2) {
        remove_id(after_session_leave(rooms0, o, new_id, t2), new_id)
    } else {
        after_session_leave(rooms0, o, new_id, t2)
    }
}

/// The member list a registration reports and notifies: the target room's
/// members before insertion, with the registering identity and the
/// session's former identity (when switching) taken out.
pub open spec fn join_base(
    rooms0: RoomManager,
    o: Option<Seq<char>>,
    new_id: Seq<char>,
    ticket: Seq<char>,
) -> Seq<RoomMember> {
    remove_id(after_session_leave(rooms0, o, new_id, ticket), new_id)
}

/// Whether registering `new_id` under a session holding `o` removes a
/// member from the room for `t2`.
pub open spec fn switch_touches(
    rooms0: RoomManager,
    o: Option<Seq<char>>,
    new_id: Seq<char>,
    t2: Seq<char>,
) -> bool {
    ||| (o matches Some(oid) && oid != new_id && rooms0.ticket_of(oid) == Some(t2))
    ||| rooms0.ticket_of(new_id) == Some(t2)
}

/// The members owed a peer-left notice because the session switched
/// identity: the remaining members of the former identity's room.
pub open spec fn switch_leave_base(
    rooms0: RoomManager,
    o: Option<Seq<char>>,
    new_id: Seq<char>,
) -> Seq<RoomMember> {
    match o {
        Some(oid) => if oid != new_id {
            match rooms0.ticket_of(oid) {
                Some(t_old) => remove_id(rooms0.room_members(t_old), oid),
                None => Seq::empty(),
            }
        } else {
            Seq::empty()
        },
        None => Seq::empty(),
    }
}

/// The members owed a peer-left notice because `new_id` left its previous
/// room for the target one.
pub open spec fn register_leave_base(
    rooms0: RoomManager,
    o: Option<Seq<char>>,
    new_id: Seq<char>,
    ticket: Seq<char>,
) -> Seq<RoomMember> {
    match rooms0.ticket_of(new_id) {
        Some(tb) => if tb != ticket {
            remove_id(after_session_leave(rooms0, o, new_id, tb), new_id)
        } else {
            Seq::empty()
        },
        None => Seq::empty(),
    }
}

/// Per-connection rendezvous state: the client's address, the identity it
/// registered (if any), its outbound-delivery handle, and whether its end
/// has already been cleaned up.
pub struct RendezvousSession {
    ip: u128,
    handle: u64,
    node_id: Option<String>,
    closed: bool,
}

impl RendezvousSession {
    /// The client's address.
    pub closed spec fn ip_spec(self) -> u128 {
        self.ip
    }

    /// This connection's outbound-delivery handle.
    pub closed spec fn handle_spec(self) -> u64 {
        self.handle
    }

    /// The identity this connection registered, if any.
    pub closed spec fn registered_id(self) -> Option<Seq<char>> {
        match self.node_id {
            Some(ref id) => Some(id@),
            None => None,
        }
    }

    /// Whether the connection's end has been cleaned up.
    pub closed spec fn is_closed(self) -> bool {
        self.closed
    }

    /// A session for a freshly admitted connection.
    pub fn new(ip: u128, handle: u64) -> (r: Self)
        ensures
            r.ip_spec() == ip,
            r.handle_spec() == handle,
            r.registered_id() is None,
            !r.is_closed(),
    {
        RendezvousSession { ip, handle, node_id: None, closed: false }
    }

    /// Reply to a frame that could not be parsed: the connection stays
    /// open and the client is told.
    pub fn on_malformed(&self, detail: &str) -> (r: ServerMessage)
        ensures
            r matches ServerMessage::Error { message } && message@ == "Invalid message format: "@
                + detail@,
    {
        let mut message = String::from_str("Invalid message format: ");
        message.append(detail);
        ServerMessage::Error { message }
    }

    /// Handle one parsed frame: update the directory, owe the notices it
    /// reports, and reply to this client.
    pub fn on_frame(&mut self, rooms: &mut RoomManager, msg: ClientMessage) -> (r: (
        Vec<Notice>,
        Vec<ServerMessage>,
    ))
        requires
            !old(self).is_closed(),
            old(rooms).wf(),
        ensures
            final(rooms).wf(),
            !final(self).is_closed(),
            final(self).ip_spec() == old(self).ip_spec(),
            final(self).handle_spec() == old(self).handle_spec(),
            // A liveness probe: reply pong, change nothing.
            msg is Ping ==> {
                &&& *final(self) == *old(self)
                &&& *final(rooms) == *old(rooms)
                &&& r.0@.len() == 0
                &&& r.1@.len() == 1 && r.1@[0] is Pong
            },
            // Leave the current room, if any, and become unregistered.
            msg is Leave ==> {
                &&& final(self).registered_id() is None
                &&& r.1@.len() == 0
                &&& match old(self).registered_id() {
                    Some(id) => {
                        &&& final(rooms).ticket_of(id) is None
                        &&& (forall|other: Seq<char>|
                            other != id ==> #[trigger] final(rooms).ticket_of(other) == old(
                                rooms,
                            ).ticket_of(other))
                        &&& (old(rooms).ticket_of(id) matches Some(t) ==> {
                            &&& final(rooms).room_members(t) == remove_id(
                                old(rooms).room_members(t),
                                id,
                            )
                            &&& (final(rooms).has_room(t) <==> remove_id(
                                old(rooms).room_members(t),
                                id,
                            ).len() > 0)
                            &&& r.0@.len() == remove_id(old(rooms).room_members(t), id).len()
                            &&& (forall|k: int|
                                0 <= k < r.0@.len() ==> crate::room::is_peer_left_notice(
                                    #[trigger] r.0@[k],
                                    remove_id(old(rooms).room_members(t), id)[k],
                                    id,
                                ))
                        })
                        &&& (old(rooms).ticket_of(id) is None ==> *final(rooms) == *old(rooms)
                            && r.0@.len() == 0)
                    },
                    None => *final(rooms) == *old(rooms) && *final(self) == *old(self)
                        && r.0@.len() == 0,
                }
            },
            // Evict a reported identity, honoured only when registered.
            msg matches ClientMessage::ReportPeerLeft { node_id: rep } ==> {
                &&& *final(self) == *old(self)
                &&& r.1@.len() == 0
                &&& (old(self).registered_id() is None ==> *final(rooms) == *old(rooms)
                    && r.0@.len() == 0)
                &&& (old(self).registered_id() is Some ==> {
                    &&& final(rooms).ticket_of(rep@) is None
                    &&& (forall|other: Seq<char>|
                        other != rep@ ==> #[trigger] final(rooms).ticket_of(other) == old(
                            rooms,
                        ).ticket_of(other))
                    &&& (old(rooms).ticket_of(rep@) matches Some(t) ==> {
                        &&& final(rooms).room_members(t) == remove_id(
                            old(rooms).room_members(t),
                            rep@,
                        )
                        &&& (final(rooms).has_room(t) <==> remove_id(
                            old(rooms).room_members(t),
                            rep@,
                        ).len() > 0)
                        &&& r.0@.len() == remove_id(old(rooms).room_members(t), rep@).len()
                        &&& (forall|k: int|
                            0 <= k < r.0@.len() ==> crate::room::is_peer_left_notice(
                                #[trigger] r.0@[k],
                                remove_id(old(rooms).room_members(t), rep@)[k],
                                rep@,
                            ))
                    })
                    &&& (old(rooms).ticket_of(rep@) is None ==> *final(rooms) == *old(rooms))
                })
            },
            // Register: leave any room held under another identity, join
            // the ticket's room, and reply with the prior member list.
            msg matches ClientMessage::Register { ticket, node_id: new_id } ==> {
                let o = old(self).registered_id();
                let base = join_base(*old(rooms), o, new_id@, ticket@);
                let seg1 = switch_leave_base(*old(rooms), o, new_id@);
                let seg2 = register_leave_base(*old(rooms), o, new_id@, ticket@);
                &&& final(self).registered_id() == Some(new_id@)
                &&& final(rooms).ticket_of(new_id@) == Some(ticket@)
                &&& (o matches Some(oid) ==> (oid != new_id@ ==> final(rooms).ticket_of(oid)
                    is None))
                &&& (forall|other: Seq<char>|
                    other != new_id@ && Some(other) != o ==> #[trigger] final(rooms).ticket_of(
                        other,
                    ) == old(rooms).ticket_of(other))
                &&& final(rooms).room_members(ticket@) == base.push(
                    (RoomMember { node_id: new_id, sender: old(self).handle_spec() }),
                )
                &&& final(rooms).has_room(ticket@)
                &&& (forall|t2: Seq<char>|
                    t2 != ticket@ ==> #[trigger] final(rooms).room_members(t2)
                        == members_after_switch(*old(rooms), o, new_id@, t2))
                &&& (forall|t2: Seq<char>|
                    t2 != ticket@ && !switch_touches(*old(rooms), o, new_id@, t2)
                        ==> #[trigger] final(rooms).has_room(t2) == old(rooms).has_room(t2))
                &&& (forall|t2: Seq<char>|
                    t2 != ticket@ && switch_touches(*old(rooms), o, new_id@, t2)
                        ==> (#[trigger] final(rooms).has_room(t2) <==> members_after_switch(
                        *old(rooms),
                        o,
                        new_id@,
                        t2,
                    ).len() > 0))
                &&& r.1@.len() == 1
                &&& (r.1@[0] matches ServerMessage::Peers { node_ids } && node_ids.deep_view()
                    == ids_of(base))
                &&& r.0@.len() == seg1.len() + seg2.len() + base.len()
                &&& (o matches Some(oid) ==> forall|j: int|
                    0 <= j < seg1.len() ==> crate::room::is_peer_left_notice(
                        #[trigger] r.0@[j],
                        seg1[j],
                        oid,
                    ))
                &&& (forall|j: int|
                    seg1.len() <= j < seg1.len() + seg2.len()
                        ==> crate::room::is_peer_left_notice(
                        #[trigger] r.0@[j],
                        seg2[j - seg1.len()],
                        new_id@,
                    ))
                &&& (forall|j: int|
                    seg1.len() + seg2.len() <= j < r.0@.len()
                        ==> crate::room::is_peer_joined_notice(
                        #[trigger] r.0@[j],
                        base[j - seg1.len() - seg2.len()],
                        new_id@,
                    ))
            },
    {
        match msg {
            ClientMessage::Ping => {
                let mut replies: Vec<ServerMessage> = Vec::new();
                replies.push(ServerMessage::Pong);
                (Vec::new(), replies)
            },
            ClientMessage::Leave => {
                match self.node_id.take() {
                    Some(id) => {
                        let notices = rooms.leave(id.as_str());
                        (notices, Vec::new())
                    },
                    None => (Vec::new(), Vec::new()),
                }
            },
            ClientMessage::ReportPeerLeft { node_id: rep } => {
                if self.node_id.is_some() {
                    let notices = rooms.leave(rep.as_str());
                    (notices, Vec::new())
                } else {
                    (Vec::new(), Vec::new())
                }
            },
            ClientMessage::Register { ticket, node_id: new_id } => {
                let ghost rooms0 = *rooms;
                let ghost o = old(self).registered_id();
                let ghost nid = new_id@;
                let ghost t = ticket@;
                let switching = match self.node_id {
                    Some(ref old_id) => !str_eq(old_id.as_str(), new_id.as_str()),
                    None => false,
                };
                if switching {
                    let old_id = self.node_id.take().unwrap();
                    let ghost oid = old_id@;
                    let mut lv = rooms.leave(old_id.as_str());
                    let ghost rooms1 = *rooms;
                    proof {
                        // The session's leave realises `after_session_leave`
                        // at every ticket, and does not touch the index
                        // entry of the identity about to register.
                        assert(o == Some(oid));
                        assert forall|t2: Seq<char>|
                            #[trigger] rooms1.room_members(t2) == after_session_leave(
                                rooms0,
                                o,
                                nid,
                                t2,
                            ) by {
                            if rooms0.ticket_of(oid) != Some(t2) {
                                assert(rooms1.room_members(t2) == rooms0.room_members(t2));
                            }
                        }
                        assert(rooms1.ticket_of(nid) == rooms0.ticket_of(nid));
                    }
                    self.node_id = Some(new_id.clone());
                    let (peers, mut jn) = rooms.register(ticket, new_id, self.handle);
                    proof {
                        let stf = *rooms;
                        // Bridge the registration's guarantees, stated
                        // against the intermediate state, back to the
                        // state the frame arrived in.
                        assert(stf.ticket_of(oid) is None) by {
                            assert(stf.ticket_of(oid) == rooms1.ticket_of(oid));
                        }
                        assert forall|other: Seq<char>| other != nid && Some(other) != o
                            implies #[trigger] stf.ticket_of(other) == rooms0.ticket_of(other) by {
                            assert(stf.ticket_of(other) == rooms1.ticket_of(other));
                            assert(rooms1.ticket_of(other) == rooms0.ticket_of(other));
                        }
                        assert(rooms1.room_members(t) == after_session_leave(rooms0, o, nid, t));
                        assert forall|t2: Seq<char>| t2 != t
                            implies #[trigger] stf.room_members(t2) == members_after_switch(
                            rooms0,
                            o,
                            nid,
                            t2,
                        ) by {
                            assert(rooms1.room_members(t2) == after_session_leave(
                                rooms0,
                                o,
                                nid,
                                t2,
                            ));
                            if rooms1.ticket_of(nid) == Some(t2) {
                                assert(stf.room_members(t2) == remove_id(
                                    rooms1.room_members(t2),
                                    nid,
                                ));
                            } else {
                                assert(stf.room_members(t2) == rooms1.room_members(t2));
                            }
                        }
                        assert forall|t2: Seq<char>| t2 != t && !switch_touches(rooms0, o, nid, t2)
                            implies #[trigger] stf.has_room(t2) == rooms0.has_room(t2) by {
                            assert(stf.has_room(t2) == rooms1.has_room(t2));
                            assert(rooms1.has_room(t2) == rooms0.has_room(t2));
                        }
                        assert forall|t2: Seq<char>| t2 != t && switch_touches(rooms0, o, nid, t2)
                            implies (#[trigger] stf.has_room(t2) <==> members_after_switch(
                            rooms0,
                            o,
                            nid,
                            t2,
                        ).len() > 0) by {
                            assert(rooms1.room_members(t2) == after_session_leave(
                                rooms0,
                                o,
                                nid,
                                t2,
                            ));
                            if rooms1.ticket_of(nid) == Some(t2) {
                                assert(stf.has_room(t2) <==> remove_id(
                                    rooms1.room_members(t2),
                                    nid,
                                ).len() > 0);
                            } else {
                                assert(stf.has_room(t2) == rooms1.has_room(t2));
                                assert(rooms0.ticket_of(oid) == Some(t2));
                                assert(rooms1.has_room(t2) <==> remove_id(
                                    rooms0.room_members(t2),
                                    oid,
                                ).len() > 0);
                            }
                        }
                        assert(lv@.len() == switch_leave_base(rooms0, o, nid).len());
                        assert(register_leave_base(rooms0, o, nid, t) == (match rooms1.ticket_of(
                            nid,
                        ) {
                            Some(tb) => if tb != t {
                                remove_id(rooms1.room_members(tb), nid)
                            } else {
                                Seq::<RoomMember>::empty()
                            },
                            None => Seq::<RoomMember>::empty(),
                        })) by {
                            match rooms1.ticket_of(nid) {
                                Some(tb) => {
                                    if tb != t {
                                        assert(rooms1.room_members(tb) == after_session_leave(
                                            rooms0,
                                            o,
                                            nid,
                                            tb,
                                        ));
                                    }
                                },
                                None => {},
                            }
                        }
                    }
                    let ghost lv0 = lv@;
                    let ghost jn0 = jn@;
                    lv.append(&mut jn);
                    proof {
                        let seg1v = switch_leave_base(rooms0, o, nid);
                        let seg2v = register_leave_base(rooms0, o, nid, t);
                        let basev = join_base(rooms0, o, nid, t);
                        let lb = (match rooms1.ticket_of(nid) {
                            Some(t0) => if t0 != t {
                                remove_id(rooms1.room_members(t0), nid)
                            } else {
                                Seq::<RoomMember>::empty()
                            },
                            None => Seq::<RoomMember>::empty(),
                        });
                        assert(seg2v == lb);
                        assert(basev == remove_id(rooms1.room_members(t), nid));
                        assert(seg1v.len() == lv0.len());
                        assert forall|j: int| seg1v.len() + seg2v.len() <= j < lv@.len()
                            implies crate::room::is_peer_joined_notice(
                            #[trigger] lv@[j],
                            basev[j - seg1v.len() - seg2v.len()],
                            nid,
                        ) by {
                            assert(lv@[j] == jn0[j - lv0.len()]);
                            assert(crate::room::is_peer_joined_notice(
                                jn0[j - lv0.len()],
                                basev[(j - lv0.len()) - lb.len()],
                                nid,
                            ));
                        }
                        assert forall|j: int| seg1v.len() <= j < seg1v.len() + seg2v.len()
                            implies crate::room::is_peer_left_notice(
                            #[trigger] lv@[j],
                            seg2v[j - seg1v.len()],
                            nid,
                        ) by {
                            assert(lv@[j] == jn0[j - lv0.len()]);
                            assert(crate::room::is_peer_left_notice(
                                jn0[j - lv0.len()],
                                lb[j - lv0.len()],
                                nid,
                            ));
                        }
                        assert forall|j: int| 0 <= j < seg1v.len()
                            implies crate::room::is_peer_left_notice(
                            #[trigger] lv@[j],
                            seg1v[j],
                            oid,
                        ) by {
                            assert(lv@[j] == lv0[j]);
                            assert(crate::room::is_peer_left_notice(lv0[j], seg1v[j], oid));
                        }
                    }
                    let mut replies: Vec<ServerMessage> = Vec::new();
                    replies.push(ServerMessage::Peers { node_ids: peers });
                    (lv, replies)
                } else {
                    proof {
                        // No identity switch: the session-leave step is the
                        // identity on every room.
                        assert forall|t2: Seq<char>|
                            #[trigger] after_session_leave(rooms0, o, nid, t2)
                                == rooms0.room_members(t2) by {}
                    }
                    self.node_id = Some(new_id.clone());
                    let (peers, jn) = rooms.register(ticket, new_id, self.handle);
                    proof {
                        let seg1v = switch_leave_base(rooms0, o, nid);
                        let seg2v = register_leave_base(rooms0, o, nid, t);
                        let basev = join_base(rooms0, o, nid, t);
                        let lb = (match rooms0.ticket_of(nid) {
                            Some(t0) => if t0 != t {
                                remove_id(rooms0.room_members(t0), nid)
                            } else {
                                Seq::<RoomMember>::empty()
                            },
                            None => Seq::<RoomMember>::empty(),
                        });
                        assert(seg1v.len() == 0);
                        assert(seg2v == lb);
                        assert(basev == remove_id(rooms0.room_members(t), nid));
                        assert forall|j: int| seg1v.len() + seg2v.len() <= j < jn@.len()
                            implies crate::room::is_peer_joined_notice(
                            #[trigger] jn@[j],
                            basev[j - seg1v.len() - seg2v.len()],
                            nid,
                        ) by {
                            assert(crate::room::is_peer_joined_notice(
                                jn@[j],
                                basev[j - lb.len()],
                                nid,
                            ));
                        }
                        assert forall|j: int| seg1v.len() <= j < seg1v.len() + seg2v.len()
                            implies crate::room::is_peer_left_notice(
                            #[trigger] jn@[j],
                            seg2v[j - seg1v.len()],
                            nid,
                        ) by {
                            assert(crate::room::is_peer_left_notice(jn@[j], lb[j], nid));
                        }
                    }
                    let mut replies: Vec<ServerMessage> = Vec::new();
                    replies.push(ServerMessage::Peers { node_ids: peers });
                    (jn, replies)
                }
            },
        }
    }

    /// Clean up when the connection ends, by idle timeout past the
    /// heartbeat window, client close or transport error: leave the held
    /// room (if any) and release the admission slot. The first call does
    /// all of this; a repeated call changes nothing, so release happens
    /// exactly once.
    pub fn on_end(&mut self, rooms: &mut RoomManager, limiter: &mut ConnectionLimiter) -> (notices:
        Vec<Notice>)
        requires
            old(rooms).wf(),
            old(limiter).wf(),
        ensures
            final(rooms).wf(),
            final(limiter).wf(),
            final(self).is_closed(),
            old(self).is_closed() ==> *final(self) == *old(self) && *final(rooms) == *old(rooms)
                && *final(limiter) == *old(limiter) && notices@.len() == 0,
            !old(self).is_closed() ==> {
                &&& final(limiter).total() == if old(limiter).total() > 0 {
                    old(limiter).total() - 1
                } else {
                    0int
                }
                &&& final(limiter).count_of(old(self).ip_spec()) == if old(limiter).count_of(
                    old(self).ip_spec(),
                ) > 0 {
                    old(limiter).count_of(old(self).ip_spec()) - 1
                } else {
                    0int
                }
                &&& (forall|other: u128|
                    other != old(self).ip_spec() ==> #[trigger] final(limiter).count_of(other)
                        == old(limiter).count_of(other))
                &&& match old(self).registered_id() {
                    Some(id) => {
                        &&& final(rooms).ticket_of(id) is None
                        &&& (forall|other: Seq<char>|
                            other != id ==> #[trigger] final(rooms).ticket_of(other) == old(
                                rooms,
                            ).ticket_of(other))
                        &&& (old(rooms).ticket_of(id) matches Some(t) ==> {
                            &&& final(rooms).room_members(t) == remove_id(
                                old(rooms).room_members(t),
                                id,
                            )
                            &&& (final(rooms).has_room(t) <==> remove_id(
                                old(rooms).room_members(t),
                                id,
                            ).len() > 0)
                            &&& notices@.len() == remove_id(old(rooms).room_members(t), id).len()
                            &&& (forall|k: int|
                                0 <= k < notices@.len() ==> crate::room::is_peer_left_notice(
                                    #[trigger] notices@[k],
                                    remove_id(old(rooms).room_members(t), id)[k],
                                    id,
                                ))
                        })
                        &&& (old(rooms).ticket_of(id) is None ==> *final(rooms) == *old(rooms))
                    },
                    None => *final(rooms) == *old(rooms) && notices@.len() == 0,
                }
            },
    {
        if self.closed {
            return Vec::new();
        }
        self.closed = true;
        let notices = match self.node_id.take() {
            Some(id) => rooms.leave(id.as_str()),
            None => Vec::new(),
        };
        limiter.disconnect(self.ip);
        notices
    }
}

/// Closing a connection releases its admission slot and its room
/// membership exactly once: the first close lowers the address's and the
/// global counters by one and unregisters the held identity, and a second
/// close of the same session changes neither the limiter nor the
/// directory. The hypotheses are what `on_end` guarantees for the two
/// calls.
pub proof fn lemma_cleanup_exactly_once(
    s0: RendezvousSession,
    s1: RendezvousSession,
    s2: RendezvousSession,
    r0: RoomManager,
    r1: RoomManager,
    r2: RoomManager,
    l0: ConnectionLimiter,
    l1: ConnectionLimiter,
    l2: ConnectionLimiter,
)
    requires
        !s0.is_closed(),
        l0.total() > 0,
        s1.is_closed(),
        l1.total() == l0.total() - 1,
        (s0.registered_id() matches Some(id) ==> r1.ticket_of(id) is None),
        s1.is_closed() ==> s2 == s1 && r2 == r1 && l2 == l1,
    ensures
        l1.total() == l0.total() - 1,
        l2.total() == l0.total() - 1,
        (s0.registered_id() matches Some(id) ==> r2.ticket_of(id) is None),
        r2 == r1,
        l2 == l1,
{
}

} // verus!
