//! Ticket-keyed room membership.
//!
//! A room maps member identities to outbound-delivery handles; the manager
//! maps tickets to rooms and keeps every identity in at most one room.
//! Operations report the notifications they owe other members as explicit
//! [`Notice`] values; delivering them is the caller's concern.

use vstd::prelude::*;

use crate::protocol::ServerMessage;
use crate::text::str_eq;

verus! {

/// One member of a room: an identity and its outbound-delivery handle.
///
/// The handle is an opaque value by which the caller finds the member's
/// outbound channel.
pub struct RoomMember {
    pub node_id: String,
    pub sender: u64,
}

/// A notification owed to a current room member.
pub struct Notice {
    /// Delivery handle of the recipient.
    pub handle: u64,
    /// Identity of the recipient.
    pub node_id: String,
    /// What to deliver.
    pub msg: ServerMessage,
}

/// The identities of a member sequence, in order.
pub open spec fn ids_of(s: Seq<RoomMember>) -> Seq<Seq<char>> {
    s.map_values(|m: RoomMember| m.node_id@)
}

/// Whether some member of `s` has identity `id`.
pub open spec fn has_id(s: Seq<RoomMember>, id: Seq<char>) -> bool {
    exists|i: int| 0 <= i < s.len() && (#[trigger] s[i]).node_id@ == id
}

/// Whether no identity occurs twice in `s`.
pub open spec fn unique_ids(s: Seq<RoomMember>) -> bool {
    forall|i: int, j: int|
        0 <= i < j < s.len() ==> (#[trigger] s[i]).node_id@ != (#[trigger] s[j]).node_id@
}

/// `s` with its first member of identity `id` taken out (unchanged when
/// there is none).
pub open spec fn remove_id(s: Seq<RoomMember>, id: Seq<char>) -> Seq<RoomMember>
    decreases s.len(),
{
    if s.len() == 0 {
        s
    } else if s[0].node_id@ == id {
        s.drop_first()
    } else {
        seq![s[0]] + remove_id(s.drop_first(), id)
    }
}

pub proof fn lemma_remove_id_absent(s: Seq<RoomMember>, id: Seq<char>)
    requires
        !has_id(s, id),
    ensures
        remove_id(s, id) == s,
    decreases s.len(),
{
    if s.len() > 0 {
        assert(s[0].node_id@ != id);
        assert forall|i: int| 0 <= i < s.drop_first().len()
            implies (#[trigger] s.drop_first()[i]).node_id@ != id by {
            assert(s.drop_first()[i] == s[i + 1]);
        }
        lemma_remove_id_absent(s.drop_first(), id);
        assert(remove_id(s, id) =~= s);
    }
}

pub proof fn lemma_remove_id_at(s: Seq<RoomMember>, id: Seq<char>, i: int)
    requires
        0 <= i < s.len(),
        s[i].node_id@ == id,
        forall|j: int| 0 <= j < i ==> (#[trigger] s[j]).node_id@ != id,
    ensures
        remove_id(s, id) == s.subrange(0, i) + s.subrange(i + 1, s.len() as int),
    decreases i,
{
    if i == 0 {
        assert(remove_id(s, id) =~= s.subrange(0, 0) + s.subrange(1, s.len() as int));
    } else {
        assert forall|j: int| 0 <= j < i - 1
            implies (#[trigger] s.drop_first()[j]).node_id@ != id by {
            assert(s.drop_first()[j] == s[j + 1]);
        }
        assert(s.drop_first()[i - 1] == s[i]);
        lemma_remove_id_at(s.drop_first(), id, i - 1);
        assert(remove_id(s, id) =~= s.subrange(0, i) + s.subrange(i + 1, s.len() as int));
    }
}

/// Taking one identity out keeps the others: membership of every other
/// identity is unchanged, and under uniqueness the removed one is gone.
pub proof fn lemma_remove_id_keeps_others(s: Seq<RoomMember>, id: Seq<char>)
    requires
        unique_ids(s),
    ensures
        unique_ids(remove_id(s, id)),
        !has_id(remove_id(s, id), id),
        forall|other: Seq<char>| other != id ==> #[trigger] has_id(remove_id(s, id), other) == has_id(s, other),
{
    if has_id(s, id) {
        let i = choose|i: int| 0 <= i < s.len() && (#[trigger] s[i]).node_id@ == id;
        assert forall|j: int| 0 <= j < i implies (#[trigger] s[j]).node_id@ != id by {}
        lemma_remove_id_at(s, id, i);
        let r = s.subrange(0, i) + s.subrange(i + 1, s.len() as int);
        assert forall|a: int, b: int| 0 <= a < b < r.len()
            implies (#[trigger] r[a]).node_id@ != (#[trigger] r[b]).node_id@ by {
            let a0 = if a < i { a } else { a + 1 };
            let b0 = if b < i { b } else { b + 1 };
            assert(r[a] == s[a0]);
            assert(r[b] == s[b0]);
        }
        assert forall|k: int| 0 <= k < r.len() implies (#[trigger] r[k]).node_id@ != id by {
            let k0 = if k < i { k } else { k + 1 };
            assert(r[k] == s[k0]);
        }
        assert forall|other: Seq<char>| other != id
            implies #[trigger] has_id(r, other) == has_id(s, other) by {
            if has_id(s, other) {
                let k = choose|k: int| 0 <= k < s.len() && (#[trigger] s[k]).node_id@ == other;
                if k < i {
                    assert(r[k] == s[k]);
                } else {
                    assert(r[k - 1] == s[k]);
                }
            }
            if has_id(r, other) {
                let k = choose|k: int| 0 <= k < r.len() && (#[trigger] r[k]).node_id@ == other;
                let k0 = if k < i { k } else { k + 1 };
                assert(r[k] == s[k0]);
            }
        }
    } else {
        lemma_remove_id_absent(s, id);
    }
}

/// A room: the set of members currently sharing one ticket.
pub struct Room {
    members: Vec<RoomMember>,
}

impl Room {
    /// The members, in insertion order.
    pub closed spec fn members_seq(self) -> Seq<RoomMember> {
        self.members@
    }

    /// The member identities, in insertion order.
    pub open spec fn member_ids(self) -> Seq<Seq<char>> {
        ids_of(self.members_seq())
    }

    /// Whether `id` is a member.
    pub open spec fn has_member(self, id: Seq<char>) -> bool {
        has_id(self.members_seq(), id)
    }

    /// A room never holds the same identity twice.
    pub open spec fn wf(self) -> bool {
        unique_ids(self.members_seq())
    }

    /// An empty room.
    pub fn new() -> (r: Self)
        ensures
            r.wf(),
            r.members_seq() == Seq::<RoomMember>::empty(),
    {
        Room { members: Vec::new() }
    }

    fn find_member(&self, node_id: &str) -> (r: Option<usize>)
        ensures
            match r {
                Some(i) => i < self.members_seq().len() && self.members_seq()[i as int].node_id@
                    == node_id@ && forall|j: int|
                    0 <= j < i ==> (#[trigger] self.members_seq()[j]).node_id@ != node_id@,
                None => !self.has_member(node_id@),
            },
    {
        let n = self.members.len();
        let mut i: usize = 0;
        while i < n
            invariant
                i <= n,
                n == self.members@.len(),
                forall|j: int| 0 <= j < i ==> (#[trigger] self.members@[j]).node_id@ != node_id@,
            decreases n - i,
        {
            if str_eq(self.members[i].node_id.as_str(), node_id) {
                return Some(i);
            }
            i += 1;
        }
        None
    }

    /// Add a member: report the identities present before the call (never
    /// the joining identity itself), owe each of them a peer-joined notice,
    /// and insert the new member. A stale entry under the same identity is
    /// replaced without a notice.
    pub fn add_member(&mut self, node_id: String, sender: u64) -> (r: (Vec<String>, Vec<Notice>))
        requires
            old(self).wf(),
        ensures
            final(self).wf(),
            final(self).members_seq() == remove_id(old(self).members_seq(), node_id@).push(
                (RoomMember { node_id: node_id, sender: sender }),
            ),
            r.0.deep_view() == ids_of(remove_id(old(self).members_seq(), node_id@)),
            r.1@.len() == remove_id(old(self).members_seq(), node_id@).len(),
            forall|k: int|
                0 <= k < r.1@.len() ==> {
                    let m = remove_id(old(self).members_seq(), node_id@)[k];
                    &&& (#[trigger] r.1@[k]).handle == m.sender
                    &&& r.1@[k].node_id@ == m.node_id@
                    &&& r.1@[k].msg matches ServerMessage::PeerJoined { node_id: joined } && joined@
                        == node_id@
                },
    {
        proof {
            lemma_remove_id_keeps_others(self.members@, node_id@);
        }
        match self.find_member(node_id.as_str()) {
            Some(i) => {
                self.members.remove(i);
                proof {
                    lemma_remove_id_at(old(self).members_seq(), node_id@, i as int);
                    assert(self.members@ =~= remove_id(old(self).members_seq(), node_id@));
                }
            },
            None => {
                proof {
                    lemma_remove_id_absent(old(self).members_seq(), node_id@);
                }
            },
        }
        let ghost base = self.members@;
        let n = self.members.len();
        let mut peers: Vec<String> = Vec::new();
        let mut notices: Vec<Notice> = Vec::new();
        let mut i: usize = 0;
        while i < n
            invariant
                i <= n,
                n == self.members@.len(),
                self.members@ == base,
                peers@.len() == i,
                notices@.len() == i,
                forall|k: int| 0 <= k < i ==> (#[trigger] peers@[k])@ == base[k].node_id@,
                forall|k: int|
                    0 <= k < i ==> {
                        &&& (#[trigger] notices@[k]).handle == base[k].sender
                        &&& notices@[k].node_id@ == base[k].node_id@
                        &&& notices@[k].msg matches ServerMessage::PeerJoined { node_id: joined }
                            && joined@ == node_id@
                    },
            decreases n - i,
        {
            peers.push(self.members[i].node_id.clone());
            notices.push(
                Notice {
                    handle: self.members[i].sender,
                    node_id: self.members[i].node_id.clone(),
                    msg: ServerMessage::PeerJoined { node_id: node_id.clone() },
                },
            );
            i += 1;
        }
        self.members.push(RoomMember { node_id, sender });
        proof {
            assert(peers.deep_view() =~= ids_of(base));
        }
        (peers, notices)
    }

    /// Remove a member (a no-op for a non-member) and owe every remaining
    /// member a peer-left notice for the removed identity.
    pub fn remove_member(&mut self, node_id: &str) -> (notices: Vec<Notice>)
        requires
            old(self).wf(),
        ensures
            final(self).wf(),
            final(self).members_seq() == remove_id(old(self).members_seq(), node_id@),
            notices@.len() == final(self).members_seq().len(),
            forall|k: int|
                0 <= k < notices@.len() ==> {
                    let m = final(self).members_seq()[k];
                    &&& (#[trigger] notices@[k]).handle == m.sender
                    &&& notices@[k].node_id@ == m.node_id@
                    &&& notices@[k].msg matches ServerMessage::PeerLeft { node_id: left } && left@
                        == node_id@
                },
    {
        proof {
            lemma_remove_id_keeps_others(self.members@, node_id@);
        }
        match self.find_member(node_id) {
            Some(i) => {
                self.members.remove(i);
                proof {
                    lemma_remove_id_at(old(self).members_seq(), node_id@, i as int);
                    assert(self.members@ =~= remove_id(old(self).members_seq(), node_id@));
                }
            },
            None => {
                proof {
                    lemma_remove_id_absent(old(self).members_seq(), node_id@);
                }
            },
        }
        let ghost base = self.members@;
        let n = self.members.len();
        let mut notices: Vec<Notice> = Vec::new();
        let mut i: usize = 0;
        while i < n
            invariant
                i <= n,
                n == self.members@.len(),
                self.members@ == base,
                notices@.len() == i,
                forall|k: int|
                    0 <= k < i ==> {
                        &&& (#[trigger] notices@[k]).handle == base[k].sender
                        &&& notices@[k].node_id@ == base[k].node_id@
                        &&& notices@[k].msg matches ServerMessage::PeerLeft { node_id: left }
                            && left@ == node_id@
                    },
            decreases n - i,
        {
            notices.push(
                Notice {
                    handle: self.members[i].sender,
                    node_id: self.members[i].node_id.clone(),
                    msg: ServerMessage::PeerLeft { node_id: String::from_str(node_id) },
                },
            );
            i += 1;
        }
        notices
    }

    /// Whether the room has no members.
    pub fn is_empty(&self) -> (r: bool)
        ensures
            r == (self.members_seq().len() == 0),
    {
        self.members.is_empty()
    }
}

/// One identity's current ticket in the membership index.
pub struct TicketEntry {
    pub node_id: String,
    pub ticket: String,
}

/// One ticket's room in the directory.
pub struct RoomEntry {
    pub ticket: String,
    pub room: Room,
}

/// The ticket that the index `s` records for `id`, if any
/// (the first matching entry counts; well-formed states have at most one).
pub open spec fn ticket_in(s: Seq<TicketEntry>, id: Seq<char>) -> Option<Seq<char>>
    decreases s.len(),
{
    if s.len() == 0 {
        None
    } else if s[0].node_id@ == id {
        Some(s[0].ticket@)
    } else {
        ticket_in(s.drop_first(), id)
    }
}

/// Whether no identity holds two index entries in `s`.
pub open spec fn unique_client_ids(s: Seq<TicketEntry>) -> bool {
    forall|i: int, j: int|
        0 <= i < j < s.len() ==> (#[trigger] s[i]).node_id@ != (#[trigger] s[j]).node_id@
}

/// The members of the room that `rooms` records for `t` (empty when there
/// is none; the first matching room counts).
pub open spec fn rooms_members_in(rooms: Seq<RoomEntry>, t: Seq<char>) -> Seq<RoomMember>
    decreases rooms.len(),
{
    if rooms.len() == 0 {
        Seq::empty()
    } else if rooms[0].ticket@ == t {
        rooms[0].room.members_seq()
    } else {
        rooms_members_in(rooms.drop_first(), t)
    }
}

/// Whether `rooms` holds a room for `t`.
pub open spec fn rooms_has(rooms: Seq<RoomEntry>, t: Seq<char>) -> bool {
    exists|i: int| 0 <= i < rooms.len() && (#[trigger] rooms[i]).ticket@ == t
}

/// Whether no ticket holds two rooms in `rooms`.
pub open spec fn unique_tickets(rooms: Seq<RoomEntry>) -> bool {
    forall|i: int, j: int|
        0 <= i < j < rooms.len() ==> (#[trigger] rooms[i]).ticket@ != (#[trigger] rooms[j]).ticket@
}

proof fn lemma_ticket_at(s: Seq<TicketEntry>, id: Seq<char>, k: int)
    requires
        0 <= k < s.len(),
        s[k].node_id@ == id,
        forall|j: int| 0 <= j < k ==> (#[trigger] s[j]).node_id@ != id,
    ensures
        ticket_in(s, id) == Some(s[k].ticket@),
    decreases k,
{
    if k > 0 {
        assert forall|j: int| 0 <= j < k - 1 implies (#[trigger] s.drop_first()[j]).node_id@ != id by {
            assert(s.drop_first()[j] == s[j + 1]);
        }
        assert(s.drop_first()[k - 1] == s[k]);
        lemma_ticket_at(s.drop_first(), id, k - 1);
    }
}

proof fn lemma_ticket_absent(s: Seq<TicketEntry>, id: Seq<char>)
    requires
        forall|j: int| 0 <= j < s.len() ==> (#[trigger] s[j]).node_id@ != id,
    ensures
        ticket_in(s, id) is None,
    decreases s.len(),
{
    if s.len() > 0 {
        assert forall|j: int| 0 <= j < s.len() - 1
            implies (#[trigger] s.drop_first()[j]).node_id@ != id by {
            assert(s.drop_first()[j] == s[j + 1]);
        }
        lemma_ticket_absent(s.drop_first(), id);
    }
}

proof fn lemma_rooms_at(rooms: Seq<RoomEntry>, t: Seq<char>, i: int)
    requires
        0 <= i < rooms.len(),
        rooms[i].ticket@ == t,
        forall|j: int| 0 <= j < i ==> (#[trigger] rooms[j]).ticket@ != t,
    ensures
        rooms_members_in(rooms, t) == rooms[i].room.members_seq(),
        rooms_has(rooms, t),
    decreases i,
{
    if i > 0 {
        assert forall|j: int| 0 <= j < i - 1
            implies (#[trigger] rooms.drop_first()[j]).ticket@ != t by {
            assert(rooms.drop_first()[j] == rooms[j + 1]);
        }
        assert(rooms.drop_first()[i - 1] == rooms[i]);
        lemma_rooms_at(rooms.drop_first(), t, i - 1);
    }
}

proof fn lemma_rooms_absent(rooms: Seq<RoomEntry>, t: Seq<char>)
    requires
        forall|j: int| 0 <= j < rooms.len() ==> (#[trigger] rooms[j]).ticket@ != t,
    ensures
        rooms_members_in(rooms, t) == Seq::<RoomMember>::empty(),
        !rooms_has(rooms, t),
    decreases rooms.len(),
{
    if rooms.len() > 0 {
        assert forall|j: int| 0 <= j < rooms.len() - 1
            implies (#[trigger] rooms.drop_first()[j]).ticket@ != t by {
            assert(rooms.drop_first()[j] == rooms[j + 1]);
        }
        lemma_rooms_absent(rooms.drop_first(), t);
    }
}

/// Manager for all rooms and for the membership index that keeps every
/// identity in at most one room.
pub struct RoomManager {
    rooms: Vec<RoomEntry>,
    client_tickets: Vec<TicketEntry>,
}

impl RoomManager {
    /// The rooms, in creation order.
    pub closed spec fn rooms_seq(self) -> Seq<RoomEntry> {
        self.rooms@
    }

    /// The membership index entries, in registration order.
    pub closed spec fn tickets_seq(self) -> Seq<TicketEntry> {
        self.client_tickets@
    }

    /// The ticket currently held by `id`, if any.
    pub open spec fn ticket_of(self, id: Seq<char>) -> Option<Seq<char>> {
        ticket_in(self.tickets_seq(), id)
    }

    /// The members of the room for `t` (empty when there is none).
    pub open spec fn room_members(self, t: Seq<char>) -> Seq<RoomMember> {
        rooms_members_in(self.rooms_seq(), t)
    }

    /// The member identities of the room for `t`.
    pub open spec fn room_ids(self, t: Seq<char>) -> Seq<Seq<char>> {
        ids_of(self.room_members(t))
    }

    /// Whether a room for `t` exists.
    pub open spec fn has_room(self, t: Seq<char>) -> bool {
        rooms_has(self.rooms_seq(), t)
    }

    /// Structural well-formedness: tickets and identities are unique, every
    /// room is well-formed and non-empty (an empty room never persists), and
    /// every room member's index entry names that room's ticket.
    pub open spec fn wf_core(self) -> bool {
        &&& unique_tickets(self.rooms_seq())
        &&& unique_client_ids(self.tickets_seq())
        &&& forall|i: int|
            0 <= i < self.rooms_seq().len() ==> (#[trigger] self.rooms_seq()[i]).room.wf()
                && self.rooms_seq()[i].room.members_seq().len() > 0
        &&& forall|i: int, j: int|
            0 <= i < self.rooms_seq().len() && 0 <= j
                < self.rooms_seq()[i].room.members_seq().len() ==> ticket_in(
                self.tickets_seq(),
                (#[trigger] self.rooms_seq()[i].room.members_seq()[j]).node_id@,
            ) == Some(self.rooms_seq()[i].ticket@)
    }

    /// The index entry at position `k` agrees with the rooms: its identity
    /// is a member of the room its ticket names.
    pub open spec fn entry_ok(self, k: int) -> bool {
        has_id(
            rooms_members_in(self.rooms_seq(), self.tickets_seq()[k].ticket@),
            self.tickets_seq()[k].node_id@,
        )
    }

    /// The invariant the manager always satisfies: structural
    /// well-formedness, and the membership index agrees with exactly the
    /// rooms' membership.
    pub open spec fn wf(self) -> bool {
        &&& self.wf_core()
        &&& forall|k: int| 0 <= k < self.tickets_seq().len() ==> #[trigger] self.entry_ok(k)
    }

    /// A fresh manager with no rooms and no registrations.
    pub fn new() -> (r: Self)
        ensures
            r.wf(),
            forall|id: Seq<char>| #[trigger] r.ticket_of(id) is None,
            forall|t: Seq<char>| #[trigger] r.room_members(t) == Seq::<RoomMember>::empty(),
            forall|t: Seq<char>| !(#[trigger] r.has_room(t)),
    {
        let r = RoomManager { rooms: Vec::new(), client_tickets: Vec::new() };
        proof {
            assert forall|id: Seq<char>| #[trigger] r.ticket_of(id) is None by {
                lemma_ticket_absent(r.tickets_seq(), id);
            }
            assert forall|t: Seq<char>|
                #[trigger] r.room_members(t) == Seq::<RoomMember>::empty() && !r.has_room(t) by {
                lemma_rooms_absent(r.rooms_seq(), t);
            }
        }
        r
    }

    fn find_entry(&self, node_id: &str) -> (r: Option<usize>)
        ensures
            match r {
                Some(k) => k < self.tickets_seq().len() && self.tickets_seq()[k as int].node_id@
                    == node_id@ && forall|j: int|
                    0 <= j < k ==> (#[trigger] self.tickets_seq()[j]).node_id@ != node_id@,
                None => forall|j: int|
                    0 <= j < self.tickets_seq().len()
                        ==> (#[trigger] self.tickets_seq()[j]).node_id@ != node_id@,
            },
    {
        let n = self.client_tickets.len();
        let mut i: usize = 0;
        while i < n
            invariant
                i <= n,
                n == self.client_tickets@.len(),
                forall|j: int| 0 <= j < i ==> (#[trigger] self.client_tickets@[j]).node_id@ != node_id@,
            decreases n - i,
        {
            if str_eq(self.client_tickets[i].node_id.as_str(), node_id) {
                return Some(i);
            }
            i += 1;
        }
        None
    }

    fn find_room(&self, ticket: &str) -> (r: Option<usize>)
        ensures
            match r {
                Some(i) => i < self.rooms_seq().len() && self.rooms_seq()[i as int].ticket@
                    == ticket@ && forall|j: int|
                    0 <= j < i ==> (#[trigger] self.rooms_seq()[j]).ticket@ != ticket@,
                None => forall|j: int|
                    0 <= j < self.rooms_seq().len()
                        ==> (#[trigger] self.rooms_seq()[j]).ticket@ != ticket@,
            },
    {
        let n = self.rooms.len();
        let mut i: usize = 0;
        while i < n
            invariant
                i <= n,
                n == self.rooms@.len(),
                forall|j: int| 0 <= j < i ==> (#[trigger] self.rooms@[j]).ticket@ != ticket@,
            decreases n - i,
        {
            if str_eq(self.rooms[i].ticket.as_str(), ticket) {
                return Some(i);
            }
            i += 1;
        }
        None
    }

    /// Remove `node_id` from its current room, if any: delete its index
    /// entry, take it out of the room, owe every remaining member a
    /// peer-left notice, and delete the room once empty. A no-op for an
    /// unregistered identity.
    pub fn leave(&mut self, node_id: &str) -> (notices: Vec<Notice>)
        requires
            old(self).wf(),
        ensures
            final(self).wf(),
            final(self).ticket_of(node_id@) is None,
            forall|other: Seq<char>|
                other != node_id@ ==> #[trigger] final(self).ticket_of(other) == old(self).ticket_of(
                    other,
                ),
            old(self).ticket_of(node_id@) matches Some(t) ==> {
                &&& final(self).room_members(t) == remove_id(old(self).room_members(t), node_id@)
                &&& (final(self).has_room(t) <==> remove_id(
                    old(self).room_members(t),
                    node_id@,
                ).len() > 0)
            },
            forall|t2: Seq<char>|
                old(self).ticket_of(node_id@) != Some(t2) ==> #[trigger] final(self).room_members(t2)
                    == old(self).room_members(t2),
            forall|t2: Seq<char>|
                old(self).ticket_of(node_id@) != Some(t2) ==> #[trigger] final(self).has_room(t2)
                    == old(self).has_room(t2),
            old(self).ticket_of(node_id@) is None ==> *final(self) == *old(self),
            notices@.len() == (match old(self).ticket_of(node_id@) {
                Some(t) => remove_id(old(self).room_members(t), node_id@).len(),
                None => 0,
            }),
            old(self).ticket_of(node_id@) matches Some(t) ==> forall|k: int|
                0 <= k < notices@.len() ==> {
                    let m = remove_id(old(self).room_members(t), node_id@)[k];
                    &&& (#[trigger] notices@[k]).handle == m.sender
                    &&& notices@[k].node_id@ == m.node_id@
                    &&& notices@[k].msg matches ServerMessage::PeerLeft { node_id: left } && left@
                        == node_id@
                },
    {
        let entry_idx = match self.find_entry(node_id) {
            None => {
                proof {
                    lemma_ticket_absent(self.tickets_seq(), node_id@);
                }
                return Vec::new();
            },
            Some(k) => k,
        };
        let ghost st0 = *self;
        let ghost t = self.client_tickets@[entry_idx as int].ticket@;
        proof {
            lemma_ticket_at(self.tickets_seq(), node_id@, entry_idx as int);
        }
        let removed = self.client_tickets.remove(entry_idx);
        let ghost st1 = *self;
        proof {
            // The index now records nothing for `node_id` and is unchanged
            // for every other identity.
            let k = entry_idx as int;
            let before = st0.tickets_seq();
            let after = st1.tickets_seq();
            assert forall|j: int| 0 <= j < after.len()
                implies (#[trigger] after[j]).node_id@ != node_id@ by {
                if j < k {
                    assert(after[j] == before[j]);
                } else {
                    assert(after[j] == before[j + 1]);
                }
            }
            lemma_ticket_absent(after, node_id@);
            assert forall|other: Seq<char>| other != node_id@
                implies #[trigger] ticket_in(after, other) == ticket_in(before, other) by {
                lemma_ticket_moved(before, after, k, other);
            }
        }
        let room_idx = match self.find_room(removed.ticket.as_str()) {
            None => {
                proof {
                    // The invariant ties every index entry to an existing
                    // room, so the entry just removed names one: this branch
                    // cannot be reached from a well-formed state.
                    assert(st0.entry_ok(entry_idx as int));
                    assert(removed.ticket@ == t);
                    assert(self.rooms_seq() == st0.rooms_seq());
                    let members = rooms_members_in(st0.rooms_seq(), t);
                    assert(has_id(members, node_id@));
                    let j0 = choose|j0: int|
                        0 <= j0 < members.len() && (#[trigger] members[j0]).node_id@ == node_id@;
                    lemma_rooms_nonempty_has(st0.rooms_seq(), t);
                    let w = choose|i: int|
                        0 <= i < st0.rooms_seq().len() && (#[trigger] st0.rooms_seq()[i]).ticket@
                            == t;
                    assert(self.rooms_seq()[w].ticket@ == t);
                    assert(false);
                }
                return Vec::new();
            },
            Some(i) => i,
        };
        let mut entry = self.rooms.remove(room_idx);
        let notices = entry.room.remove_member(node_id);
        let keep = !entry.room.is_empty();
        let ghost entry_after = entry;
        if keep {
            self.rooms.insert(room_idx, entry);
        }
        proof {
            let ri = room_idx as int;
            let before = st0.rooms_seq();
            let after = self.rooms_seq();
            let old_members = before[ri].room.members_seq();
            let new_members = remove_id(old_members, node_id@);
            lemma_rooms_at(before, t, ri);
            lemma_remove_id_keeps_others(old_members, node_id@);
            if keep {
                assert(after =~= before.update(ri, entry_after));
                assert(after[ri].ticket@ == t);
                assert(after[ri].room.members_seq() == new_members);
                assert forall|j: int| 0 <= j < ri implies (#[trigger] after[j]).ticket@ != t by {
                    assert(after[j] == before[j]);
                }
                lemma_rooms_at(after, t, ri);
                assert forall|t2: Seq<char>| t2 != t
                    implies #[trigger] rooms_members_in(after, t2) == rooms_members_in(before, t2)
                        && rooms_has(after, t2) == rooms_has(before, t2) by {
                    lemma_rooms_agree(before, after, t2);
                }
                assert forall|t2: Seq<char>| t2 != t
                    implies #[trigger] rooms_has(after, t2) == rooms_has(before, t2) by {
                    lemma_rooms_agree(before, after, t2);
                }
            } else {
                assert(new_members.len() == 0);
                assert forall|j: int| 0 <= j < after.len()
                    implies (#[trigger] after[j]).ticket@ != t by {
                    if j < ri {
                        assert(after[j] == before[j]);
                    } else {
                        assert(after[j] == before[j + 1]);
                    }
                }
                lemma_rooms_absent(after, t);
                assert(rooms_members_in(after, t) =~= new_members);
                assert forall|t2: Seq<char>| t2 != t
                    implies #[trigger] rooms_members_in(after, t2) == rooms_members_in(before, t2)
                        && rooms_has(after, t2) == rooms_has(before, t2) by {
                    lemma_rooms_moved(before, after, ri, t2);
                }
                assert forall|t2: Seq<char>| t2 != t
                    implies #[trigger] rooms_has(after, t2) == rooms_has(before, t2) by {
                    lemma_rooms_moved(before, after, ri, t2);
                }
            }
            // Re-establish the invariant.
            self.lemma_wf_after_leave(st0, node_id@, t, entry_idx as int, ri, keep);
        }
        notices
    }

    fn join_room(&mut self, ticket: String, node_id: String, sender: u64) -> (r: (
        Vec<String>,
        Vec<Notice>,
    ))
        requires
            old(self).wf_core(),
            forall|k: int|
                0 <= k < old(self).tickets_seq().len() && old(self).tickets_seq()[k].node_id@
                    != node_id@ ==> #[trigger] old(self).entry_ok(k),
            old(self).ticket_of(node_id@) == Some(ticket@),
        ensures
            final(self).wf(),
            final(self).tickets_seq() == old(self).tickets_seq(),
            final(self).room_members(ticket@) == remove_id(
                old(self).room_members(ticket@),
                node_id@,
            ).push((RoomMember { node_id: node_id, sender: sender })),
            final(self).has_room(ticket@),
            forall|t2: Seq<char>|
                t2 != ticket@ ==> #[trigger] final(self).room_members(t2) == old(self).room_members(
                    t2,
                ),
            forall|t2: Seq<char>|
                t2 != ticket@ ==> #[trigger] final(self).has_room(t2) == old(self).has_room(t2),
            r.0.deep_view() == ids_of(remove_id(old(self).room_members(ticket@), node_id@)),
            r.1@.len() == remove_id(old(self).room_members(ticket@), node_id@).len(),
            forall|k: int|
                0 <= k < r.1@.len() ==> {
                    let m = remove_id(old(self).room_members(ticket@), node_id@)[k];
                    &&& (#[trigger] r.1@[k]).handle == m.sender
                    &&& r.1@[k].node_id@ == m.node_id@
                    &&& r.1@[k].msg matches ServerMessage::PeerJoined { node_id: joined } && joined@
                        == node_id@
                },
    {
        let ghost st0 = *self;
        let ghost id = node_id@;
        let ghost t = ticket@;
        let ghost m_new = (RoomMember { node_id: node_id, sender: sender });
        match self.find_room(ticket.as_str()) {
            Some(ri_usize) => {
                let ghost ri = ri_usize as int;
                proof {
                    lemma_rooms_at(st0.rooms_seq(), t, ri);
                }
                let mut entry = self.rooms.remove(ri_usize);
                let (peers, jn) = entry.room.add_member(node_id, sender);
                let ghost entry_after = entry;
                self.rooms.insert(ri_usize, entry);
                proof {
                    let before_r = st0.rooms_seq();
                    let after_r = self.rooms_seq();
                    let before_t = st0.tickets_seq();
                    let old_members = before_r[ri].room.members_seq();
                    let new_members = remove_id(old_members, id).push(m_new);
                    lemma_remove_id_keeps_others(old_members, id);
                    assert(after_r =~= before_r.update(ri, entry_after));
                    assert(after_r[ri].ticket@ == t);
                    assert(after_r[ri].room.members_seq() == new_members);
                    assert forall|j: int| 0 <= j < ri implies (#[trigger] after_r[j]).ticket@
                        != t by {
                        assert(after_r[j] == before_r[j]);
                    }
                    lemma_rooms_at(after_r, t, ri);
                    assert forall|t2: Seq<char>| t2 != t
                        implies #[trigger] rooms_members_in(after_r, t2) == rooms_members_in(
                        before_r,
                        t2,
                    ) by {
                        lemma_rooms_agree(before_r, after_r, t2);
                    }
                    assert forall|t2: Seq<char>| t2 != t
                        implies #[trigger] rooms_has(after_r, t2) == rooms_has(before_r, t2) by {
                        lemma_rooms_agree(before_r, after_r, t2);
                    }
                    self.lemma_wf_after_join(st0, id, t, ri, old_members, m_new);
                }
                (peers, jn)
            },
            None => {
                proof {
                    lemma_rooms_absent(st0.rooms_seq(), t);
                }
                let mut room = Room::new();
                let (peers, jn) = room.add_member(node_id, sender);
                let ghost room_after = room;
                self.rooms.push(RoomEntry { ticket, room });
                proof {
                    let before_r = st0.rooms_seq();
                    let after_r = self.rooms_seq();
                    let n = before_r.len() as int;
                    let old_members = rooms_members_in(before_r, t);
                    assert(old_members == Seq::<RoomMember>::empty());
                    assert(remove_id(old_members, id) =~= old_members);
                    assert(after_r[n].ticket@ == t);
                    assert(after_r[n].room.members_seq() == remove_id(old_members, id).push(m_new));
                    assert forall|j: int| 0 <= j < n implies (#[trigger] after_r[j]).ticket@
                        != t by {
                        assert(after_r[j] == before_r[j]);
                    }
                    lemma_rooms_at(after_r, t, n);
                    assert forall|t2: Seq<char>| t2 != t
                        implies #[trigger] rooms_members_in(after_r, t2) == rooms_members_in(
                        before_r,
                        t2,
                    ) by {
                        lemma_rooms_pushed(before_r, after_r[n], t2);
                    }
                    assert forall|t2: Seq<char>| t2 != t
                        implies #[trigger] rooms_has(after_r, t2) == rooms_has(before_r, t2) by {
                        lemma_rooms_pushed(before_r, after_r[n], t2);
                    }
                    self.lemma_wf_after_join(st0, id, t, n, old_members, m_new);
                }
                (peers, jn)
            },
        }
    }

    proof fn lemma_wf_after_join(
        &self,
        st0: RoomManager,
        id: Seq<char>,
        t: Seq<char>,
        ri: int,
        old_members: Seq<RoomMember>,
        m_new: RoomMember,
    )
        requires
            st0.wf_core(),
            forall|k: int|
                0 <= k < st0.tickets_seq().len() && st0.tickets_seq()[k].node_id@ != id
                    ==> #[trigger] st0.entry_ok(k),
            st0.ticket_of(id) == Some(t),
            self.tickets_seq() == st0.tickets_seq(),
            old_members == rooms_members_in(st0.rooms_seq(), t),
            unique_ids(old_members),
            m_new.node_id@ == id,
            0 <= ri < self.rooms_seq().len(),
            self.rooms_seq()[ri].ticket@ == t,
            forall|j: int| 0 <= j < ri ==> (#[trigger] self.rooms_seq()[j]).ticket@ != t,
            self.rooms_seq()[ri].room.wf(),
            self.rooms_seq()[ri].room.members_seq() == remove_id(old_members, id).push(m_new),
            forall|j: int|
                0 <= j < self.rooms_seq().len() && j != ri ==> #[trigger] self.rooms_seq()[j]
                    == st0.rooms_seq()[j],
            self.rooms_seq().len() == st0.rooms_seq().len() || (self.rooms_seq().len()
                == st0.rooms_seq().len() + 1 && ri == st0.rooms_seq().len()),
            self.rooms_seq().len() == st0.rooms_seq().len() ==> st0.rooms_seq()[ri].ticket@ == t,
        ensures
            self.wf(),
    {
        let before_r = st0.rooms_seq();
        let after_r = self.rooms_seq();
        let before_t = st0.tickets_seq();
        let same_len = after_r.len() == before_r.len();
        let base = remove_id(old_members, id);
        let new_members = after_r[ri].room.members_seq();
        lemma_remove_id_keeps_others(old_members, id);
        lemma_rooms_at(after_r, t, ri);
        if same_len {
            assert forall|j: int| 0 <= j < before_r.len() && j != ri
                implies (#[trigger] before_r[j]).ticket@ != t by {
                if j < ri {
                    assert(before_r[j].ticket@ != before_r[ri].ticket@);
                } else {
                    assert(before_r[ri].ticket@ != before_r[j].ticket@);
                }
            }
            assert forall|j: int| 0 <= j < ri
                implies (#[trigger] before_r[j]).ticket@ != t by {}
            lemma_rooms_at(before_r, t, ri);
            assert(old_members == before_r[ri].room.members_seq());
        } else {
            assert forall|j: int| 0 <= j < before_r.len()
                implies (#[trigger] before_r[j]).ticket@ != t by {
                assert(after_r[j] == before_r[j]);
            }
            lemma_rooms_absent(before_r, t);
            assert(old_members.len() == 0);
            assert(base =~= old_members);
        }
        assert(unique_tickets(after_r)) by {
            assert forall|a: int, b: int| 0 <= a < b < after_r.len()
                implies (#[trigger] after_r[a]).ticket@ != (#[trigger] after_r[b]).ticket@ by {
                if a != ri && b != ri {
                    assert(after_r[a] == before_r[a]);
                    assert(after_r[b] == before_r[b]);
                } else if a == ri {
                    assert(after_r[b] == before_r[b]);
                } else {
                    assert(after_r[a] == before_r[a]);
                }
            }
        }
        assert forall|i: int| 0 <= i < after_r.len()
            implies (#[trigger] after_r[i]).room.wf() && after_r[i].room.members_seq().len()
                > 0 by {
            if i != ri {
                assert(after_r[i] == before_r[i]);
            }
        }
        // Every member of every room has an index entry naming that room.
        assert forall|i: int, j: int|
            0 <= i < after_r.len() && 0 <= j < after_r[i].room.members_seq().len()
            implies ticket_in(
                self.tickets_seq(),
                (#[trigger] after_r[i].room.members_seq()[j]).node_id@,
            ) == Some(after_r[i].ticket@) by {
            if i == ri {
                let m = new_members[j];
                if j < base.len() {
                    assert(m == base[j]);
                    assert(has_id(base, m.node_id@));
                    assert(m.node_id@ != id);
                    assert(has_id(old_members, m.node_id@));
                    let j0 = choose|j0: int|
                        0 <= j0 < old_members.len() && (#[trigger] old_members[j0]).node_id@
                            == m.node_id@;
                    // The old room for `t` held this member, so its entry
                    // names `t`.
                    assert(same_len);
                    assert(before_r[ri].room.members_seq()[j0] == old_members[j0]);
                    assert(ticket_in(before_t, m.node_id@) == Some(before_r[ri].ticket@));
                } else {
                    assert(m == m_new);
                }
            } else {
                assert(after_r[i] == before_r[i]);
                let m = after_r[i].room.members_seq()[j];
                assert(before_r[i].room.members_seq()[j] == m);
                assert(ticket_in(before_t, m.node_id@) == Some(before_r[i].ticket@));
                assert(m.node_id@ != id) by {
                    if m.node_id@ == id {
                        assert(before_r[i].ticket@ == t);
                    }
                }
            }
        }
        // Every index entry's identity is a member of the room its ticket
        // names.
        assert forall|kk: int| 0 <= kk < self.tickets_seq().len()
            implies #[trigger] self.entry_ok(kk) by {
            let e = self.tickets_seq()[kk];
            if e.node_id@ == id {
                assert(ticket_in(before_t, id) == Some(t));
                lemma_ticket_first(before_t, id, kk);
                assert(e.ticket@ == t);
                assert(new_members[base.len() as int] == m_new);
                assert(has_id(new_members, id));
            } else {
                assert(st0.entry_ok(kk));
                if e.ticket@ == t {
                    assert(same_len);
                    assert(has_id(old_members, e.node_id@));
                    assert(has_id(base, e.node_id@));
                    let w = choose|w: int|
                        0 <= w < base.len() && (#[trigger] base[w]).node_id@ == e.node_id@;
                    assert(new_members[w] == base[w]);
                    assert(has_id(new_members, e.node_id@));
                } else {
                    let members2 = rooms_members_in(before_r, e.ticket@);
                    assert(rooms_members_in(after_r, e.ticket@) == members2) by {
                        self.lemma_rooms_same_other(st0, t, ri, e.ticket@);
                    }
                }
            }
        }
    }

    proof fn lemma_rooms_same_other(&self, st0: RoomManager, t: Seq<char>, ri: int, t2: Seq<char>)
        requires
            t2 != t,
            0 <= ri < self.rooms_seq().len(),
            self.rooms_seq()[ri].ticket@ == t,
            forall|j: int|
                0 <= j < self.rooms_seq().len() && j != ri ==> #[trigger] self.rooms_seq()[j]
                    == st0.rooms_seq()[j],
            self.rooms_seq().len() == st0.rooms_seq().len() || (self.rooms_seq().len()
                == st0.rooms_seq().len() + 1 && ri == st0.rooms_seq().len()),
            self.rooms_seq().len() == st0.rooms_seq().len() ==> st0.rooms_seq()[ri].ticket@ == t,
            unique_tickets(st0.rooms_seq()),
        ensures
            rooms_members_in(self.rooms_seq(), t2) == rooms_members_in(st0.rooms_seq(), t2),
            rooms_has(self.rooms_seq(), t2) == rooms_has(st0.rooms_seq(), t2),
    {
        let before_r = st0.rooms_seq();
        let after_r = self.rooms_seq();
        if rooms_has(before_r, t2) {
            let i = choose|i: int| 0 <= i < before_r.len() && (#[trigger] before_r[i]).ticket@ == t2;
            assert forall|j: int| 0 <= j < i implies (#[trigger] before_r[j]).ticket@ != t2 by {}
            lemma_rooms_at(before_r, t2, i);
            assert(i != ri) by {
                if i == ri {
                    assert(before_r.len() == after_r.len());
                }
            }
            assert(after_r[i] == before_r[i]);
            assert forall|j: int| 0 <= j < i implies (#[trigger] after_r[j]).ticket@ != t2 by {
                if j != ri {
                    assert(after_r[j] == before_r[j]);
                }
            }
            lemma_rooms_at(after_r, t2, i);
        } else {
            lemma_rooms_absent(before_r, t2);
            assert forall|j: int| 0 <= j < after_r.len()
                implies (#[trigger] after_r[j]).ticket@ != t2 by {
                if j != ri {
                    assert(after_r[j] == before_r[j]);
                }
            }
            lemma_rooms_absent(after_r, t2);
        }
    }

    /// Register `node_id` to the room for `ticket`, leaving any other room
    /// it was in first: record the identity's ticket, owe the old room's
    /// remaining members peer-left notices (when switching rooms), owe the
    /// joined room's existing members peer-joined notices, and report the
    /// identities present before the call, never the registering identity.
    pub fn register(&mut self, ticket: String, node_id: String, sender: u64) -> (r: (
        Vec<String>,
        Vec<Notice>,
    ))
        requires
            old(self).wf(),
        ensures
            final(self).wf(),
            final(self).ticket_of(node_id@) == Some(ticket@),
            forall|other: Seq<char>|
                other != node_id@ ==> #[trigger] final(self).ticket_of(other) == old(
                    self,
                ).ticket_of(other),
            final(self).room_members(ticket@) == remove_id(
                old(self).room_members(ticket@),
                node_id@,
            ).push((RoomMember { node_id: node_id, sender: sender })),
            final(self).has_room(ticket@),
            old(self).ticket_of(node_id@) matches Some(t0) ==> (t0 != ticket@ ==> {
                &&& final(self).room_members(t0) == remove_id(
                    old(self).room_members(t0),
                    node_id@,
                )
                &&& (final(self).has_room(t0) <==> remove_id(
                    old(self).room_members(t0),
                    node_id@,
                ).len() > 0)
            }),
            forall|t2: Seq<char>|
                t2 != ticket@ && old(self).ticket_of(node_id@) != Some(t2)
                    ==> #[trigger] final(self).room_members(t2) == old(self).room_members(t2),
            forall|t2: Seq<char>|
                t2 != ticket@ && old(self).ticket_of(node_id@) != Some(t2)
                    ==> #[trigger] final(self).has_room(t2) == old(self).has_room(t2),
            r.0.deep_view() == ids_of(remove_id(old(self).room_members(ticket@), node_id@)),
            ({
                let leave_base = match old(self).ticket_of(node_id@) {
                    Some(t0) => if t0 != ticket@ {
                        remove_id(old(self).room_members(t0), node_id@)
                    } else {
                        Seq::<RoomMember>::empty()
                    },
                    None => Seq::<RoomMember>::empty(),
                };
                let join_base = remove_id(old(self).room_members(ticket@), node_id@);
                &&& r.1@.len() == leave_base.len() + join_base.len()
                &&& (forall|j: int|
                    0 <= j < leave_base.len() ==> is_peer_left_notice(
                        #[trigger] r.1@[j],
                        leave_base[j],
                        node_id@,
                    ))
                &&& (forall|j: int|
                    leave_base.len() <= j < r.1@.len() ==> is_peer_joined_notice(
                        #[trigger] r.1@[j],
                        join_base[j - leave_base.len()],
                        node_id@,
                    ))
            }),
    {
        let ghost st0 = *self;
        let ghost id = node_id@;
        let ghost t = ticket@;
        let ghost mut st1 = *self;
        let mut notices: Vec<Notice> = Vec::new();
        match self.find_entry(node_id.as_str()) {
            Some(k) => {
                proof {
                    lemma_ticket_at(st0.tickets_seq(), id, k as int);
                }
                if !str_eq(self.client_tickets[k].ticket.as_str(), ticket.as_str()) {
                    let mut lv = self.leave(node_id.as_str());
                    notices.append(&mut lv);
                    proof {
                        st1 = *self;
                    }
                    self.client_tickets.push(
                        TicketEntry { node_id: node_id.clone(), ticket: ticket.clone() },
                    );
                    proof {
                        self.lemma_after_index_push(st1, id, t);
                    }
                } else {
                    proof {
                        assert(st0.ticket_of(id) == Some(t));
                    }
                }
            },
            None => {
                proof {
                    lemma_ticket_absent(st0.tickets_seq(), id);
                }
                self.client_tickets.push(
                    TicketEntry { node_id: node_id.clone(), ticket: ticket.clone() },
                );
                proof {
                    self.lemma_after_index_push(st0, id, t);
                }
            },
        }
        let ghost st2 = *self;
        proof {
            assert forall|other: Seq<char>| other != id
                implies #[trigger] st2.ticket_of(other) == st0.ticket_of(other) by {
                assert(st2.ticket_of(other) == st1.ticket_of(other));
                assert(st1.ticket_of(other) == st0.ticket_of(other));
            }
            assert forall|t2: Seq<char>| st0.ticket_of(id) != Some(t2)
                implies #[trigger] st2.room_members(t2) == st0.room_members(t2)
                    && #[trigger] st2.has_room(t2) == st0.has_room(t2) by {
                assert(st2.room_members(t2) == st1.room_members(t2));
                assert(st2.has_room(t2) == st1.has_room(t2));
                assert(st1.room_members(t2) == st0.room_members(t2));
                assert(st1.has_room(t2) == st0.has_room(t2));
            }
            match st0.ticket_of(id) {
                Some(t0) => {
                    if t0 != t {
                        assert(st2.room_members(t0) == st1.room_members(t0));
                        assert(st2.has_room(t0) == st1.has_room(t0));
                        assert(st1.room_members(t0) == remove_id(st0.room_members(t0), id));
                        assert(st1.has_room(t0) <==> remove_id(st0.room_members(t0), id).len()
                            > 0);
                    } else {
                        assert(st2.room_members(t) == st0.room_members(t));
                    }
                },
                None => {},
            }
            assert(st2.room_members(t) == st0.room_members(t));
        }
        let (peers, mut jn) = self.join_room(ticket, node_id, sender);
        notices.append(&mut jn);
        proof {
            let stf = *self;
            assert(stf.tickets_seq() == st2.tickets_seq());
            assert forall|other: Seq<char>| other != id
                implies #[trigger] stf.ticket_of(other) == st0.ticket_of(other) by {
                assert(stf.ticket_of(other) == st2.ticket_of(other));
                assert(st2.ticket_of(other) == st0.ticket_of(other));
            }
            assert forall|t2: Seq<char>| t2 != t && st0.ticket_of(id) != Some(t2)
                implies #[trigger] stf.room_members(t2) == st0.room_members(t2)
                    && #[trigger] stf.has_room(t2) == st0.has_room(t2) by {
                assert(stf.room_members(t2) == st2.room_members(t2));
                assert(stf.has_room(t2) == st2.has_room(t2));
                assert(st2.room_members(t2) == st0.room_members(t2));
                assert(st2.has_room(t2) == st0.has_room(t2));
            }
            match st0.ticket_of(id) {
                Some(t0) => {
                    if t0 != t {
                        assert(stf.room_members(t0) == st2.room_members(t0));
                        assert(stf.has_room(t0) == st2.has_room(t0));
                    }
                },
                None => {},
            }
        }
        (peers, notices)
    }

    /// After an index push for `id` with ticket `t` onto a state where `id`
    /// is unregistered and in no room, the preconditions of the joining
    /// phase hold.
    proof fn lemma_after_index_push(&self, st1: RoomManager, id: Seq<char>, t: Seq<char>)
        requires
            st1.wf(),
            st1.ticket_of(id) is None,
            st1.tickets_seq().len() + 1 == self.tickets_seq().len(),
            self.tickets_seq() == st1.tickets_seq().push(self.tickets_seq().last()),
            self.tickets_seq().last().node_id@ == id,
            self.tickets_seq().last().ticket@ == t,
            self.rooms_seq() == st1.rooms_seq(),
        ensures
            self.wf_core(),
            forall|k: int|
                0 <= k < self.tickets_seq().len() && self.tickets_seq()[k].node_id@ != id
                    ==> #[trigger] self.entry_ok(k),
            self.ticket_of(id) == Some(t),
            forall|other: Seq<char>|
                other != id ==> #[trigger] self.ticket_of(other) == st1.ticket_of(other),
            forall|t2: Seq<char>| #[trigger] self.room_members(t2) == st1.room_members(t2),
            forall|t2: Seq<char>| #[trigger] self.has_room(t2) == st1.has_room(t2),
    {
        let before_t = st1.tickets_seq();
        let after_t = self.tickets_seq();
        let n = before_t.len() as int;
        lemma_ticket_none_absent(before_t, id);
        assert forall|j: int| 0 <= j < n implies (#[trigger] after_t[j]).node_id@ != id by {
            assert(after_t[j] == before_t[j]);
        }
        lemma_ticket_at(after_t, id, n);
        assert forall|other: Seq<char>| other != id
            implies #[trigger] ticket_in(after_t, other) == ticket_in(before_t, other) by {
            lemma_ticket_pushed(before_t, after_t.last(), other);
        }
        assert(unique_client_ids(after_t)) by {
            assert forall|a: int, b: int| 0 <= a < b < after_t.len()
                implies (#[trigger] after_t[a]).node_id@ != (#[trigger] after_t[b]).node_id@ by {
                if b < n {
                    assert(after_t[a] == before_t[a]);
                    assert(after_t[b] == before_t[b]);
                } else {
                    assert(after_t[a] == before_t[a]);
                }
            }
        }
        // No room holds `id`, so extending the index for `id` preserves the
        // member-to-index agreement.
        assert forall|i: int, j: int|
            0 <= i < self.rooms_seq().len() && 0 <= j
                < self.rooms_seq()[i].room.members_seq().len()
            implies ticket_in(
            after_t,
            (#[trigger] self.rooms_seq()[i].room.members_seq()[j]).node_id@,
        ) == Some(self.rooms_seq()[i].ticket@) by {
            let m = self.rooms_seq()[i].room.members_seq()[j];
            assert(st1.rooms_seq()[i].room.members_seq()[j] == m);
            assert(ticket_in(before_t, m.node_id@) == Some(st1.rooms_seq()[i].ticket@));
            assert(m.node_id@ != id);
        }
        assert forall|k: int|
            0 <= k < after_t.len() && after_t[k].node_id@ != id
            implies #[trigger] self.entry_ok(k) by {
            assert(after_t[k] == before_t[k]);
            assert(st1.entry_ok(k));
        }
    }

    /// Current totals: rooms and registered identities.
    pub fn stats(&self) -> (r: (usize, usize))
        ensures
            r.0 == self.rooms_seq().len(),
            r.1 == self.tickets_seq().len(),
    {
        (self.rooms.len(), self.client_tickets.len())
    }
}

/// Whether `n` is a peer-left notice for `id`, addressed to member `m`.
pub open spec fn is_peer_left_notice(n: Notice, m: RoomMember, id: Seq<char>) -> bool {
    &&& n.handle == m.sender
    &&& n.node_id@ == m.node_id@
    &&& n.msg matches ServerMessage::PeerLeft { node_id: left } && left@ == id
}

/// Whether `n` is a peer-joined notice for `id`, addressed to member `m`.
pub open spec fn is_peer_joined_notice(n: Notice, m: RoomMember, id: Seq<char>) -> bool {
    &&& n.handle == m.sender
    &&& n.node_id@ == m.node_id@
    &&& n.msg matches ServerMessage::PeerJoined { node_id: joined } && joined@ == id
}

/// A non-empty first-match member list implies the room exists.
proof fn lemma_rooms_nonempty_has(rooms: Seq<RoomEntry>, t: Seq<char>)
    requires
        rooms_members_in(rooms, t).len() > 0,
    ensures
        rooms_has(rooms, t),
    decreases rooms.len(),
{
    if rooms.len() > 0 {
        if rooms[0].ticket@ == t {
        } else {
            lemma_rooms_nonempty_has(rooms.drop_first(), t);
            let i = choose|i: int|
                0 <= i < rooms.drop_first().len() && (#[trigger] rooms.drop_first()[i]).ticket@ == t;
            assert(rooms[i + 1].ticket@ == t);
        }
    }
}

/// Two room tables that agree entrywise on every room whose ticket is `t2`
/// record the same membership for `t2`.
proof fn lemma_rooms_agree(before: Seq<RoomEntry>, after: Seq<RoomEntry>, t2: Seq<char>)
    requires
        before.len() == after.len(),
        forall|j: int| 0 <= j < before.len() ==> (#[trigger] before[j]).ticket@ == after[j].ticket@,
        forall|j: int|
            0 <= j < before.len() && (#[trigger] before[j]).ticket@ == t2 ==> before[j]
                == after[j],
    ensures
        rooms_members_in(after, t2) == rooms_members_in(before, t2),
        rooms_has(after, t2) == rooms_has(before, t2),
    decreases before.len(),
{
    if before.len() > 0 {
        if before[0].ticket@ == t2 {
        } else {
            assert forall|j: int| 0 <= j < before.len() - 1
                implies (#[trigger] before.drop_first()[j]).ticket@
                    == after.drop_first()[j].ticket@ by {
                assert(before.drop_first()[j] == before[j + 1]);
                assert(after.drop_first()[j] == after[j + 1]);
            }
            assert forall|j: int|
                0 <= j < before.len() - 1 && (#[trigger] before.drop_first()[j]).ticket@ == t2
                implies before.drop_first()[j] == after.drop_first()[j] by {
                assert(before.drop_first()[j] == before[j + 1]);
                assert(after.drop_first()[j] == after[j + 1]);
            }
            lemma_rooms_agree(before.drop_first(), after.drop_first(), t2);
            if rooms_has(before, t2) {
                let i = choose|i: int| 0 <= i < before.len() && (#[trigger] before[i]).ticket@ == t2;
                assert(before.drop_first()[i - 1].ticket@ == t2);
            }
            if rooms_has(after, t2) {
                let i = choose|i: int| 0 <= i < after.len() && (#[trigger] after[i]).ticket@ == t2;
                assert(before[i].ticket@ == t2);
                assert(before.drop_first()[i - 1].ticket@ == t2);
            }
            if rooms_has(before.drop_first(), t2) {
                let i = choose|i: int|
                    0 <= i < before.drop_first().len() && (#[trigger] before.drop_first()[i]).ticket@
                        == t2;
                assert(before[i + 1].ticket@ == t2);
                assert(after[i + 1].ticket@ == before[i + 1].ticket@);
            }
        }
    }
}

/// Removing the room at index `ri` leaves every other ticket's membership
/// and existence unchanged, provided no other room shares its ticket.
proof fn lemma_rooms_moved(before: Seq<RoomEntry>, after: Seq<RoomEntry>, ri: int, t2: Seq<char>)
    requires
        0 <= ri < before.len(),
        after == before.remove(ri),
        unique_tickets(before),
        t2 != before[ri].ticket@,
    ensures
        rooms_members_in(after, t2) == rooms_members_in(before, t2),
        rooms_has(after, t2) == rooms_has(before, t2),
{
    if rooms_has(before, t2) {
        let i = choose|i: int| 0 <= i < before.len() && (#[trigger] before[i]).ticket@ == t2;
        assert forall|j: int| 0 <= j < i implies (#[trigger] before[j]).ticket@ != t2 by {}
        lemma_rooms_at(before, t2, i);
        if i < ri {
            assert(after[i] == before[i]);
            assert forall|j: int| 0 <= j < i implies (#[trigger] after[j]).ticket@ != t2 by {
                assert(after[j] == before[j]);
            }
            lemma_rooms_at(after, t2, i);
        } else {
            assert(i != ri);
            assert(after[i - 1] == before[i]);
            assert forall|j: int| 0 <= j < i - 1 implies (#[trigger] after[j]).ticket@ != t2 by {
                if j < ri {
                    assert(after[j] == before[j]);
                } else {
                    assert(after[j] == before[j + 1]);
                }
            }
            lemma_rooms_at(after, t2, i - 1);
        }
    } else {
        lemma_rooms_absent(before, t2);
        assert forall|j: int| 0 <= j < after.len() implies (#[trigger] after[j]).ticket@ != t2 by {
            if j < ri {
                assert(after[j] == before[j]);
            } else {
                assert(after[j] == before[j + 1]);
            }
        }
        lemma_rooms_absent(after, t2);
    }
}

/// Removing the index entry at `k` leaves every other identity's ticket
/// unchanged.
proof fn lemma_ticket_moved(before: Seq<TicketEntry>, after: Seq<TicketEntry>, k: int, other: Seq<char>)
    requires
        0 <= k < before.len(),
        after == before.remove(k),
        unique_client_ids(before),
        other != before[k].node_id@,
    ensures
        ticket_in(after, other) == ticket_in(before, other),
{
    if exists|i: int| 0 <= i < before.len() && (#[trigger] before[i]).node_id@ == other {
        let i = choose|i: int| 0 <= i < before.len() && (#[trigger] before[i]).node_id@ == other;
        assert forall|j: int| 0 <= j < i implies (#[trigger] before[j]).node_id@ != other by {}
        lemma_ticket_at(before, other, i);
        if i < k {
            assert(after[i] == before[i]);
            assert forall|j: int| 0 <= j < i implies (#[trigger] after[j]).node_id@ != other by {
                assert(after[j] == before[j]);
            }
            lemma_ticket_at(after, other, i);
        } else {
            assert(i != k);
            assert(after[i - 1] == before[i]);
            assert forall|j: int| 0 <= j < i - 1 implies (#[trigger] after[j]).node_id@ != other by {
                if j < k {
                    assert(after[j] == before[j]);
                } else {
                    assert(after[j] == before[j + 1]);
                }
            }
            lemma_ticket_at(after, other, i - 1);
        }
    } else {
        lemma_ticket_absent(before, other);
        assert forall|j: int| 0 <= j < after.len() implies (#[trigger] after[j]).node_id@ != other by {
            if j < k {
                assert(after[j] == before[j]);
            } else {
                assert(after[j] == before[j + 1]);
            }
        }
        lemma_ticket_absent(after, other);
    }
}

/// A first-match lookup that found nothing means no entry matches.
proof fn lemma_ticket_none_absent(s: Seq<TicketEntry>, id: Seq<char>)
    requires
        ticket_in(s, id) is None,
    ensures
        forall|j: int| 0 <= j < s.len() ==> (#[trigger] s[j]).node_id@ != id,
    decreases s.len(),
{
    if s.len() > 0 {
        lemma_ticket_none_absent(s.drop_first(), id);
        assert forall|j: int| 0 <= j < s.len() implies (#[trigger] s[j]).node_id@ != id by {
            if j > 0 {
                assert(s.drop_first()[j - 1] == s[j]);
            }
        }
    }
}

/// With unique identities, any matching entry is the first match.
proof fn lemma_ticket_first(s: Seq<TicketEntry>, id: Seq<char>, k: int)
    requires
        unique_client_ids(s),
        0 <= k < s.len(),
        s[k].node_id@ == id,
    ensures
        ticket_in(s, id) == Some(s[k].ticket@),
{
    assert forall|j: int| 0 <= j < k implies (#[trigger] s[j]).node_id@ != id by {}
    lemma_ticket_at(s, id, k);
}

/// Appending an entry for one identity leaves every other identity's
/// lookup unchanged.
proof fn lemma_ticket_pushed(s: Seq<TicketEntry>, e: TicketEntry, other: Seq<char>)
    requires
        other != e.node_id@,
    ensures
        ticket_in(s.push(e), other) == ticket_in(s, other),
    decreases s.len(),
{
    if s.len() == 0 {
        assert(s.push(e)[0] == e);
        assert(s.push(e).drop_first() =~= Seq::<TicketEntry>::empty());
    } else {
        assert(s.push(e)[0] == s[0]);
        if s[0].node_id@ != other {
            assert(s.push(e).drop_first() =~= s.drop_first().push(e));
            lemma_ticket_pushed(s.drop_first(), e, other);
        }
    }
}

/// Appending a room for one ticket leaves every other ticket's membership
/// and existence unchanged.
proof fn lemma_rooms_pushed(rooms: Seq<RoomEntry>, e: RoomEntry, t2: Seq<char>)
    requires
        t2 != e.ticket@,
    ensures
        rooms_members_in(rooms.push(e), t2) == rooms_members_in(rooms, t2),
        rooms_has(rooms.push(e), t2) == rooms_has(rooms, t2),
    decreases rooms.len(),
{
    if rooms.len() == 0 {
        assert(rooms.push(e)[0] == e);
        assert(rooms.push(e).drop_first() =~= Seq::<RoomEntry>::empty());
        assert(rooms_members_in(rooms.push(e), t2) == rooms_members_in(
            Seq::<RoomEntry>::empty(),
            t2,
        ));
    } else {
        assert(rooms.push(e)[0] == rooms[0]);
        if rooms[0].ticket@ != t2 {
            assert(rooms.push(e).drop_first() =~= rooms.drop_first().push(e));
            lemma_rooms_pushed(rooms.drop_first(), e, t2);
            assert(rooms_members_in(rooms.push(e), t2) == rooms_members_in(
                rooms.drop_first().push(e),
                t2,
            ));
        } else {
            assert(rooms_members_in(rooms.push(e), t2) == rooms.push(e)[0].room.members_seq());
            assert(rooms_members_in(rooms, t2) == rooms[0].room.members_seq());
        }
    }
    if rooms_has(rooms, t2) {
        let i = choose|i: int| 0 <= i < rooms.len() && (#[trigger] rooms[i]).ticket@ == t2;
        assert(rooms.push(e)[i] == rooms[i]);
    }
    if rooms_has(rooms.push(e), t2) {
        let i = choose|i: int|
            0 <= i < rooms.push(e).len() && (#[trigger] rooms.push(e)[i]).ticket@ == t2;
        assert(i < rooms.len());
        assert(rooms[i] == rooms.push(e)[i]);
    }
}

impl RoomManager {
    proof fn lemma_wf_after_leave(
        &self,
        st0: RoomManager,
        id: Seq<char>,
        t: Seq<char>,
        k: int,
        ri: int,
        keep: bool,
    )
        requires
            st0.wf(),
            0 <= k < st0.tickets_seq().len(),
            st0.tickets_seq()[k].node_id@ == id,
            st0.ticket_of(id) == Some(t),
            self.tickets_seq() == st0.tickets_seq().remove(k),
            0 <= ri < st0.rooms_seq().len(),
            st0.rooms_seq()[ri].ticket@ == t,
            st0.tickets_seq()[k].ticket@ == t,
            keep ==> self.rooms_seq().len() == st0.rooms_seq().len() && (forall|j: int|
                0 <= j < st0.rooms_seq().len() && j != ri ==> #[trigger] self.rooms_seq()[j]
                    == st0.rooms_seq()[j]) && self.rooms_seq()[ri].ticket@ == t
                && self.rooms_seq()[ri].room.members_seq() == remove_id(
                st0.rooms_seq()[ri].room.members_seq(),
                id,
            ) && remove_id(st0.rooms_seq()[ri].room.members_seq(), id).len() > 0,
            !keep ==> self.rooms_seq() == st0.rooms_seq().remove(ri) && remove_id(
                st0.rooms_seq()[ri].room.members_seq(),
                id,
            ).len() == 0,
            forall|other: Seq<char>|
                other != id ==> #[trigger] ticket_in(self.tickets_seq(), other) == ticket_in(
                    st0.tickets_seq(),
                    other,
                ),
            ticket_in(self.tickets_seq(), id) is None,
        ensures
            self.wf(),
    {
        let before_r = st0.rooms_seq();
        let after_r = self.rooms_seq();
        let before_t = st0.tickets_seq();
        let after_t = self.tickets_seq();
        let old_members = before_r[ri].room.members_seq();
        lemma_remove_id_keeps_others(old_members, id);
        // Uniqueness of tickets and identities survives shrinking.
        assert(unique_tickets(after_r)) by {
            if keep {
                assert forall|a: int, b: int| 0 <= a < b < after_r.len()
                    implies (#[trigger] after_r[a]).ticket@ != (#[trigger] after_r[b]).ticket@ by {
                    assert(after_r[a].ticket@ == before_r[a].ticket@);
                    assert(after_r[b].ticket@ == before_r[b].ticket@);
                }
            } else {
                assert forall|a: int, b: int| 0 <= a < b < after_r.len()
                    implies (#[trigger] after_r[a]).ticket@ != (#[trigger] after_r[b]).ticket@ by {
                    let a0 = if a < ri { a } else { a + 1 };
                    let b0 = if b < ri { b } else { b + 1 };
                    assert(after_r[a] == before_r[a0]);
                    assert(after_r[b] == before_r[b0]);
                }
            }
        }
        assert(unique_client_ids(after_t)) by {
            assert forall|a: int, b: int| 0 <= a < b < after_t.len()
                implies (#[trigger] after_t[a]).node_id@ != (#[trigger] after_t[b]).node_id@ by {
                let a0 = if a < k { a } else { a + 1 };
                let b0 = if b < k { b } else { b + 1 };
                assert(after_t[a] == before_t[a0]);
                assert(after_t[b] == before_t[b0]);
            }
        }
        // Rooms stay well-formed and non-empty.
        assert forall|i: int| 0 <= i < after_r.len()
            implies (#[trigger] after_r[i]).room.wf() && after_r[i].room.members_seq().len() > 0 by {
            if keep {
                if i != ri {
                    assert(after_r[i] == before_r[i]);
                }
            } else {
                let i0 = if i < ri { i } else { i + 1 };
                assert(after_r[i] == before_r[i0]);
            }
        }
        // Every member of a room appears in the index with that room's ticket.
        assert forall|i: int, j: int|
            0 <= i < after_r.len() && 0 <= j < after_r[i].room.members_seq().len()
            implies ticket_in(
                after_t,
                (#[trigger] after_r[i].room.members_seq()[j]).node_id@,
            ) == Some(after_r[i].ticket@) by {
            if keep && i == ri {
                let m = after_r[ri].room.members_seq()[j];
                assert(has_id(remove_id(old_members, id), m.node_id@));
                assert(m.node_id@ != id);
                assert(has_id(old_members, m.node_id@));
                let j0 = choose|j0: int|
                    0 <= j0 < old_members.len() && (#[trigger] old_members[j0]).node_id@
                        == m.node_id@;
                assert(before_r[ri].room.members_seq()[j0] == old_members[j0]);
                assert(ticket_in(before_t, m.node_id@) == Some(before_r[ri].ticket@));
            } else {
                let i0 = if keep || i < ri { i } else { i + 1 };
                assert(after_r[i] == before_r[i0]);
                assert(i0 != ri);
                let m = after_r[i].room.members_seq()[j];
                assert(before_r[i0].room.members_seq()[j] == m);
                assert(ticket_in(before_t, m.node_id@) == Some(before_r[i0].ticket@));
                assert(m.node_id@ != id) by {
                    if m.node_id@ == id {
                        assert(ticket_in(before_t, id) == Some(before_r[i0].ticket@));
                        assert(before_r[i0].ticket@ == t);
                        if i0 < ri {
                            assert(before_r[i0].ticket@ != before_r[ri].ticket@);
                        } else {
                            assert(before_r[ri].ticket@ != before_r[i0].ticket@);
                        }
                    }
                }
            }
        }
        // Every index entry's identity is a member of the room its ticket
        // names.
        assert forall|kk: int| 0 <= kk < after_t.len() implies #[trigger] self.entry_ok(kk) by {
            let k0 = if kk < k { kk } else { kk + 1 };
            assert(after_t[kk] == before_t[k0]);
            let e = before_t[k0];
            assert(st0.entry_ok(k0));
            assert(e.node_id@ != id) by {
                if e.node_id@ == id {
                    assert(k0 != k);
                }
            }
            if e.ticket@ == t {
                assert forall|j: int| 0 <= j < ri implies (#[trigger] before_r[j]).ticket@ != t by {}
                lemma_rooms_at(before_r, t, ri);
                assert(has_id(old_members, e.node_id@));
                assert(has_id(remove_id(old_members, id), e.node_id@));
                if keep {
                    assert forall|j: int| 0 <= j < ri
                        implies (#[trigger] after_r[j]).ticket@ != t by {
                        assert(after_r[j] == before_r[j]);
                    }
                    lemma_rooms_at(after_r, t, ri);
                } else {
                    assert(remove_id(old_members, id).len() == 0);
                    assert(!has_id(remove_id(old_members, id), e.node_id@));
                    assert(false);
                }
            } else {
                if keep {
                    lemma_rooms_agree(before_r, after_r, e.ticket@);
                } else {
                    lemma_rooms_moved(before_r, after_r, ri, e.ticket@);
                }
            }
        }
    }
}

/// With unique tickets, the recorded members of `t` are those of the one
/// room entry whose ticket is `t`.
proof fn lemma_members_source(rooms: Seq<RoomEntry>, t: Seq<char>, i: int)
    requires
        unique_tickets(rooms),
        0 <= i < rooms.len(),
        rooms[i].ticket@ == t,
    ensures
        rooms_members_in(rooms, t) == rooms[i].room.members_seq(),
{
    assert forall|j: int| 0 <= j < i implies (#[trigger] rooms[j]).ticket@ != t by {}
    lemma_rooms_at(rooms, t, i);
}

proof fn lemma_ticket_some_witness(s: Seq<TicketEntry>, id: Seq<char>)
    requires
        ticket_in(s, id) is Some,
    ensures
        exists|k: int|
            0 <= k < s.len() && (#[trigger] s[k]).node_id@ == id && ticket_in(s, id) == Some(
                s[k].ticket@,
            ),
    decreases s.len(),
{
    if s.len() > 0 {
        if s[0].node_id@ == id {
            assert(s[0].node_id@ == id && ticket_in(s, id) == Some(s[0].ticket@));
        } else {
            lemma_ticket_some_witness(s.drop_first(), id);
            let k = choose|k: int|
                0 <= k < s.drop_first().len() && (#[trigger] s.drop_first()[k]).node_id@ == id
                    && ticket_in(s.drop_first(), id) == Some(s.drop_first()[k].ticket@);
            assert(s[k + 1] == s.drop_first()[k]);
            assert(s[k + 1].node_id@ == id && ticket_in(s, id) == Some(s[k + 1].ticket@));
        }
    }
}

/// In a well-formed manager, every room's member list has unique
/// identities.
pub proof fn lemma_room_members_unique(m: RoomManager, t: Seq<char>)
    requires
        m.wf(),
    ensures
        unique_ids(m.room_members(t)),
{
    if rooms_has(m.rooms_seq(), t) {
        let i = choose|i: int|
            0 <= i < m.rooms_seq().len() && (#[trigger] m.rooms_seq()[i]).ticket@ == t;
        lemma_members_source(m.rooms_seq(), t, i);
    } else {
        lemma_rooms_absent(m.rooms_seq(), t);
    }
}

/// An identity is a member of the room for its registered ticket and of no
/// other room: membership agrees with the index in every well-formed state.
pub proof fn lemma_member_only_where_registered(m: RoomManager, id: Seq<char>, t: Seq<char>)
    requires
        m.wf(),
        m.ticket_of(id) == Some(t),
    ensures
        has_id(m.room_members(t), id),
        forall|t2: Seq<char>| t2 != t ==> !has_id(#[trigger] m.room_members(t2), id),
{
    lemma_ticket_some_witness(m.tickets_seq(), id);
    let k = choose|k: int|
        0 <= k < m.tickets_seq().len() && (#[trigger] m.tickets_seq()[k]).node_id@ == id
            && ticket_in(m.tickets_seq(), id) == Some(m.tickets_seq()[k].ticket@);
    assert(m.entry_ok(k));
    assert(m.tickets_seq()[k].ticket@ == t);
    assert forall|t2: Seq<char>| t2 != t implies !has_id(#[trigger] m.room_members(t2), id) by {
        if has_id(m.room_members(t2), id) {
            let j = choose|j: int|
                0 <= j < m.room_members(t2).len() && (#[trigger] m.room_members(t2)[j]).node_id@
                    == id;
            lemma_rooms_nonempty_has(m.rooms_seq(), t2);
            let i = choose|i: int|
                0 <= i < m.rooms_seq().len() && (#[trigger] m.rooms_seq()[i]).ticket@ == t2;
            lemma_members_source(m.rooms_seq(), t2, i);
            assert(m.rooms_seq()[i].room.members_seq()[j].node_id@ == id);
            assert(ticket_in(m.tickets_seq(), id) == Some(m.rooms_seq()[i].ticket@));
            assert(false);
        }
    }
}

/// What a registration reports is the joined room's prior membership with
/// the registering identity taken out: it never includes that identity,
/// and when the identity was not already a member it is exactly the prior
/// member list.
pub proof fn lemma_register_reports_prior_peers(m: RoomManager, t: Seq<char>, id: Seq<char>)
    requires
        m.wf(),
    ensures
        !ids_of(remove_id(m.room_members(t), id)).contains(id),
        !has_id(m.room_members(t), id) ==> ids_of(remove_id(m.room_members(t), id)) == m.room_ids(
            t,
        ),
{
    lemma_room_members_unique(m, t);
    lemma_remove_id_keeps_others(m.room_members(t), id);
    let base = remove_id(m.room_members(t), id);
    assert(!ids_of(base).contains(id)) by {
        if ids_of(base).contains(id) {
            let k = choose|k: int| 0 <= k < ids_of(base).len() && ids_of(base)[k] == id;
            assert(base[k].node_id@ == id);
            assert(has_id(base, id));
        }
    }
    if !has_id(m.room_members(t), id) {
        lemma_remove_id_absent(m.room_members(t), id);
    }
}

/// Registering an identity to a previously-unseen ticket and immediately
/// leaving deletes the ticket's room: the hypotheses on `m1` and `m2` are
/// what `register` and `leave` guarantee for those two calls.
pub proof fn lemma_register_then_leave_removes_room(
    m0: RoomManager,
    m1: RoomManager,
    m2: RoomManager,
    t: Seq<char>,
    id: Seq<char>,
    member: RoomMember,
)
    requires
        !m0.has_room(t),
        member.node_id@ == id,
        m1.room_members(t) == remove_id(m0.room_members(t), id).push(member),
        (m2.has_room(t) <==> remove_id(m1.room_members(t), id).len() > 0),
    ensures
        !m2.has_room(t),
{
    assert forall|j: int| 0 <= j < m0.rooms_seq().len()
        implies (#[trigger] m0.rooms_seq()[j]).ticket@ != t by {}
    lemma_rooms_absent(m0.rooms_seq(), t);
    assert(remove_id(m0.room_members(t), id) == Seq::<RoomMember>::empty());
    assert(m1.room_members(t).len() == 1);
    assert(m1.room_members(t)[0] == member);
    assert(remove_id(m1.room_members(t), id) == m1.room_members(t).drop_first());
}

/// Registering an identity that currently holds `t1` to a different ticket
/// `t2` leaves it a member of `t2`'s room and of no other, and the
/// registration owes exactly one peer-left notice to each remaining member
/// of `t1`'s room: the hypotheses on `m2` and `notices` are what `register`
/// guarantees for that call.
pub proof fn lemma_switch_room(
    m1: RoomManager,
    m2: RoomManager,
    t1: Seq<char>,
    t2: Seq<char>,
    id: Seq<char>,
    notices: Seq<Notice>,
)
    requires
        m1.wf(),
        m2.wf(),
        t1 != t2,
        m1.ticket_of(id) == Some(t1),
        m2.ticket_of(id) == Some(t2),
        m2.room_members(t1) == remove_id(m1.room_members(t1), id),
        notices.len() >= remove_id(m1.room_members(t1), id).len(),
        forall|k: int|
            0 <= k < remove_id(m1.room_members(t1), id).len() ==> is_peer_left_notice(
                #[trigger] notices[k],
                remove_id(m1.room_members(t1), id)[k],
                id,
            ),
    ensures
        has_id(m2.room_members(t2), id),
        forall|t3: Seq<char>| t3 != t2 ==> !has_id(#[trigger] m2.room_members(t3), id),
        !has_id(m2.room_members(t1), id),
        unique_ids(m2.room_members(t1)),
        forall|k: int|
            0 <= k < m2.room_members(t1).len() ==> is_peer_left_notice(
                #[trigger] notices[k],
                m2.room_members(t1)[k],
                id,
            ),
{
    lemma_member_only_where_registered(m2, id, t2);
    lemma_room_members_unique(m2, t1);
}

} // verus!
