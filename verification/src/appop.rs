//! The state of the application behind its windows, and what it does on the
//! user's and the server's events: room members, invitations, read markers,
//! the queue of messages to send and the room directory.
use vstd::prelude::*;
use crate::json::{Json, JsonV, str_eq};
use crate::members::{insert_member, remove_member, member_map, members_view, unique_uids};
use crate::seqs::{first_index, lemma_first_index, lemma_first_index_found};
use crate::text::{contains, seq_contains};
use crate::types::{Event, EventV, Member, MemberV, Message, MessageV, Room, RoomV, opt_view};

verus! {

/// What the user search dialog is for.
pub enum SearchType {
    Invite,
    DirectChat,
}

/// Where a message stands with respect to the last one the user has seen.
#[derive(PartialEq, Eq, Structural)]
pub enum LastViewed {
    /// It is the last message seen, with newer ones after it.
    Inline,
    /// It is the last message seen, and the last of its room.
    Last,
    /// It is not the last message seen.
    No,
}

/// The application state that the logic reads and changes.
pub struct AppModel {
    /// The rooms by id, each id once.
    pub rooms: Vec<Room>,
    pub active_room: Option<String>,
    pub uid: Option<String>,
    pub username: Option<String>,
    /// For each room id, the id of the last message the user has seen.
    pub last_viewed_messages: Vec<(String, String)>,
    /// For each room id, its first new message.
    pub first_new_messages: Vec<(String, Option<Message>)>,
    /// Messages waiting to be sent, the next one last.
    pub msg_queue: Vec<Message>,
    pub sending_message: bool,
    pub invite_list: Vec<Member>,
    pub search_type: SearchType,
    pub invitation_roomid: Option<String>,
    /// Older messages are being loaded.
    pub loading_more: bool,
    /// How many messages of the active room are shown.
    pub shown_messages: usize,
    /// The rooms the directory search has found so far.
    pub directory: Vec<Room>,
    /// The history scrolls down to new messages as they come.
    pub autoscroll: bool,
    /// The session, once the user has logged in.
    pub login_data: Option<LoginData>,
}

/// What the client keeps of a session.
pub struct LoginData {
    pub server_url: String,
    pub access_token: String,
    pub uid: String,
}

/// Rooms whose id is `id`.
pub open spec fn room_has_id(id: Seq<char>) -> spec_fn(Room) -> bool {
    |r: Room| r.id@ == id
}

/// The position of room `id`.
pub open spec fn room_index(rooms: Seq<Room>, id: Seq<char>) -> Option<int> {
    first_index(rooms, room_has_id(id))
}

/// `s.unwrap_or_default()` for an optional string.
pub open spec fn or_empty(o: Option<String>) -> Seq<char> {
    match o {
        Some(s) => s@,
        None => Seq::empty(),
    }
}

/// Pairs whose key is `key`.
pub open spec fn pair_key_is<V>(key: Seq<char>) -> spec_fn((String, V)) -> bool {
    |e: (String, V)| e.0@ == key
}

/// The value for `key` in a list of pairs used as a map.
pub open spec fn pair_lookup<V>(m: Seq<(String, V)>, key: Seq<char>) -> Option<V> {
    match first_index(m, pair_key_is(key)) {
        Some(i) => Some(m[i].1),
        None => None,
    }
}

/// The position of room `id` in `rooms`.
pub fn find_room(rooms: &Vec<Room>, id: &str) -> (r: Option<usize>)
    ensures
        r matches Some(i) ==> room_index(rooms@, id@) == Some(i as int) && i < rooms@.len(),
        r is None ==> room_index(rooms@, id@) is None,
{
    let ghost p = room_has_id(id@);
    let mut i: usize = 0;
    while i < rooms.len()
        invariant
            i <= rooms.len(),
            p == room_has_id(id@),
            forall|j: int| 0 <= j < i ==> !p(#[trigger] rooms@[j]),
        decreases rooms.len() - i,
    {
        if str_eq(rooms[i].id.as_str(), id) {
            proof {
                lemma_first_index(rooms@, p, i as int);
            }
            return Some(i);
        }
        i = i + 1;
    }
    proof {
        lemma_first_index(rooms@, p, rooms@.len() as int);
    }
    None
}

/// The position of `key` in a list of pairs used as a map.
pub fn find_pair<V>(m: &Vec<(String, V)>, key: &str) -> (r: Option<usize>)
    ensures
        r matches Some(i) ==> first_index(m@, pair_key_is::<V>(key@)) == Some(i as int) && i < m@.len(),
        r is None ==> first_index(m@, pair_key_is::<V>(key@)) is None,
{
    let ghost p = pair_key_is::<V>(key@);
    let mut i: usize = 0;
    while i < m.len()
        invariant
            i <= m.len(),
            p == pair_key_is::<V>(key@),
            forall|j: int| 0 <= j < i ==> !p(#[trigger] m@[j]),
        decreases m.len() - i,
    {
        if str_eq(m[i].0.as_str(), key) {
            proof {
                lemma_first_index(m@, p, i as int);
            }
            return Some(i);
        }
        i = i + 1;
    }
    proof {
        lemma_first_index(m@, p, m@.len() as int);
    }
    None
}

fn opt_or_empty(o: &Option<String>) -> (r: &str)
    ensures
        r@ == or_empty(*o),
{
    match o {
        Some(s) => s.as_str(),
        None => {
            proof {
                reveal_strlit("");
            }
            ""
        },
    }
}

/// The power level of a member in the active room, 0 without one.
pub open spec fn spec_member_level(m: AppModel, uid: Seq<char>) -> i32 {
    match room_index(m.rooms@, or_empty(m.active_room)) {
        Some(i) => match pair_lookup(m.rooms@[i].power_levels@, uid) {
            Some(l) => l,
            None => 0,
        },
        None => 0,
    }
}

impl AppModel {
    /// Every room keeps each member once.
    pub open spec fn wf(&self) -> bool {
        forall|i: int| 0 <= i < self.rooms@.len() ==> unique_uids(members_view(#[trigger] self.rooms@[i].members@))
    }

    /// The member's power level in the active room, or 0.
    pub fn member_level(&self, member: &Member) -> (r: i32)
        ensures
            r == spec_member_level(*self, member.uid@),
    {
        proof {
            assert(""@ =~= Seq::<char>::empty()) by {
                reveal_strlit("");
            }
        }
        let active = opt_or_empty(&self.active_room);
        if let Some(i) = find_room(&self.rooms, active) {
            if let Some(j) = find_pair(&self.rooms[i].power_levels, member.uid.as_str()) {
                return self.rooms[i].power_levels[j].1;
            }
        }
        0
    }

    /// All but the rooms are as in `other`.
    pub open spec fn same_but_rooms(&self, other: &AppModel) -> bool {
        &&& self.active_room == other.active_room
        &&& self.uid == other.uid
        &&& self.username == other.username
        &&& self.last_viewed_messages == other.last_viewed_messages
        &&& self.first_new_messages == other.first_new_messages
        &&& self.msg_queue == other.msg_queue
        &&& self.sending_message == other.sending_message
        &&& self.invite_list == other.invite_list
        &&& self.search_type == other.search_type
        &&& self.invitation_roomid == other.invitation_roomid
        &&& self.loading_more == other.loading_more
        &&& self.shown_messages == other.shown_messages
        &&& self.directory == other.directory
    }

    /// The members of room `roomid` become `members`, by
    /// user id, the last one with an id deciding. Nothing changes without such a room.
    pub fn set_room_members(&mut self, roomid: &str, members: Vec<Member>)
        requires
            old(self).wf(),
        ensures
            final(self).wf(),
            final(self).same_but_rooms(&*old(self)),
            final(self).rooms@.len() == old(self).rooms@.len(),
            match room_index(old(self).rooms@, roomid@) {
                Some(i) => {
                    &&& forall|k: int| 0 <= k < old(self).rooms@.len() && k != i ==> final(self).rooms@[k] == old(self).rooms@[k]
                    &&& final(self).rooms@[i]@ == (RoomV { members: final(self).rooms@[i]@.members, ..old(self).rooms@[i]@ })
                    &&& member_map(final(self).rooms@[i]@.members) == member_map(members_view(members@))
                },
                None => final(self).rooms@ == old(self).rooms@,
            },
    {
        if let Some(i) = find_room(&self.rooms, roomid) {
            let mut fresh: Vec<Member> = Vec::new();
            let mut j: usize = 0;
            proof {
                assert(members_view(fresh@) =~= Seq::<MemberV>::empty());
                assert(members_view(members@).take(0) =~= Seq::<MemberV>::empty());
            }
            while j < members.len()
                invariant
                    j <= members.len(),
                    unique_uids(members_view(fresh@)),
                    member_map(members_view(fresh@)) == member_map(members_view(members@).take(j as int)),
                decreases members.len() - j,
            {
                proof {
                    assert(members_view(members@).take(j + 1).drop_last() =~= members_view(members@).take(j as int));
                }
                insert_member(&mut fresh, members[j].duplicate());
                j = j + 1;
            }
            proof {
                assert(members_view(members@).take(members@.len() as int) =~= members_view(members@));
            }
            let ghost before = self.rooms@;
            self.rooms[i].members = fresh;
            proof {
                assert forall|k: int| 0 <= k < self.rooms@.len() implies unique_uids(members_view(#[trigger] self.rooms@[k].members@)) by {
                    if k != i {
                        assert(self.rooms@[k] == before[k]);
                    }
                }
                assert(self.rooms@[i as int]@.members == members_view(self.rooms@[i as int].members@));
            }
        }
    }

    /// A member event changes the members of its room:
    /// who leaves is removed, who joins is added or replaced, with an empty
    /// display name and avatar where the event has none. Other memberships,
    /// and events for rooms the client does not know, change nothing.
    pub fn room_member_event(&mut self, ev: Event)
        requires
            old(self).wf(),
        ensures
            final(self).wf(),
            final(self).same_but_rooms(&*old(self)),
            final(self).rooms@.len() == old(self).rooms@.len(),
            match (room_index(old(self).rooms@, ev.room@), member_change(ev@)) {
                (Some(i), Some(change)) => {
                    &&& forall|k: int| 0 <= k < old(self).rooms@.len() && k != i ==> final(self).rooms@[k] == old(self).rooms@[k]
                    &&& final(self).rooms@[i]@ == (RoomV { members: final(self).rooms@[i]@.members, ..old(self).rooms@[i]@ })
                    &&& member_map(final(self).rooms@[i]@.members) == match change {
                        Some(m) => member_map(old(self).rooms@[i]@.members).insert(m.uid, m),
                        None => member_map(old(self).rooms@[i]@.members).remove(ev.sender@),
                    }
                },
                _ => final(self).rooms@ == old(self).rooms@,
            },
    {
        let membership = ev.content.field_str("membership");
        let leave = match membership {
            Some(m) => str_eq(m, "leave"),
            None => false,
        };
        let join = match membership {
            Some(m) => str_eq(m, "join"),
            None => false,
        };
        if !leave && !join {
            return;
        }
        if let Some(i) = find_room(&self.rooms, ev.room.as_str()) {
            let ghost before = self.rooms@;
            if leave {
                remove_member(&mut self.rooms[i].members, ev.sender.as_str());
            } else {
                let m = Member {
                    avatar: Some(match ev.content.field_str("avatar_url") {
                        Some(a) => a.to_owned(),
                        None => String::new(),
                    }),
                    alias: Some(match ev.content.field_str("displayname") {
                        Some(a) => a.to_owned(),
                        None => String::new(),
                    }),
                    uid: ev.sender.clone(),
                };
                insert_member(&mut self.rooms[i].members, m);
            }
            proof {
                assert forall|k: int| 0 <= k < self.rooms@.len() implies unique_uids(members_view(#[trigger] self.rooms@[k].members@)) by {
                    if k != i {
                        assert(self.rooms@[k] == before[k]);
                    }
                }
            }
        }
    }
}

/// What member event `ev` does to the members of its room: `Some(Some(m))`
/// adds or replaces `m`, `Some(None)` removes the sender, `None` does nothing.
pub open spec fn member_change(ev: EventV) -> Option<Option<MemberV>> {
    let membership = ev.content.field("membership"@).str_of();
    if membership == Some("leave"@) {
        Some(None)
    } else if membership == Some("join"@) {
        Some(Some(MemberV {
            uid: ev.sender,
            alias: Some(ev.content.field("displayname"@).str_or(Seq::empty())),
            avatar: Some(ev.content.field("avatar_url"@).str_or(Seq::empty())),
        }))
    } else {
        None
    }
}

/// A search term that looks like a user id: it holds an `@` and a `:`.
pub open spec fn looks_like_uid(t: Seq<char>) -> bool {
    seq_contains(t, "@"@) && seq_contains(t, ":"@)
}

/// The users to list for search term `term`; a term that
/// looks like a user id and is none of the users found comes first, as a
/// user of its own.
pub fn search_results(users: Vec<Member>, term: Option<String>) -> (r: Vec<Member>)
    ensures
        members_view(r@) == ({
            let t = or_empty(term);
            if looks_like_uid(t) && !(exists|i: int| 0 <= i < users@.len() && (#[trigger] users@[i]).uid@ == t) {
                seq![MemberV { uid: t, alias: None, avatar: None }] + members_view(users@)
            } else {
                members_view(users@)
            }
        }),
{
    let t = match term {
        Some(t) => t,
        None => String::new(),
    };
    proof {
        assert(""@ =~= Seq::<char>::empty()) by {
            reveal_strlit("");
        }
    }
    let mut users = users;
    let uid_in_term = contains(t.as_str(), "@") && contains(t.as_str(), ":");
    if uid_in_term {
        match crate::members::member_position(&users, t.as_str()) {
            Some(_) => {},
            None => {
                let ghost before = members_view(users@);
                users.insert(0, Member { uid: t, alias: None, avatar: None });
                proof {
                    assert(members_view(users@) =~= seq![users@[0]@] + before);
                }
            },
        }
    }
    users
}

impl AppModel {
    /// Adds `u` to the users to invite, unless a user with
    /// its id is there already; for a direct chat it becomes the only one.
    /// The result tells whether it was added.
    pub fn add_to_invite(&mut self, u: Member) -> (added: bool)
        ensures
            added == !(exists|i: int| 0 <= i < old(self).invite_list@.len() && (#[trigger] old(self).invite_list@[i]).uid@ == u.uid@),
            *final(self) == (AppModel { invite_list: final(self).invite_list, ..*old(self) }),
            added ==> members_view(final(self).invite_list@) == (if old(self).search_type is DirectChat {
                Seq::<MemberV>::empty()
            } else {
                members_view(old(self).invite_list@)
            }).push(u@),
            !added ==> final(self).invite_list == old(self).invite_list,
    {
        if let Some(_) = crate::members::member_position(&self.invite_list, u.uid.as_str()) {
            return false;
        }
        if let SearchType::DirectChat = self.search_type {
            self.invite_list = Vec::new();
        }
        let ghost before = members_view(self.invite_list@);
        self.invite_list.push(u);
        proof {
            assert(members_view(self.invite_list@) =~= before.push(self.invite_list@.last()@));
        }
        true
    }

    /// Removes the user with id `uid` from the users to
    /// invite. The result tells whether none is left.
    pub fn rm_from_invite(&mut self, uid: &str) -> (empty: bool)
        ensures
            *final(self) == (AppModel { invite_list: final(self).invite_list, ..*old(self) }),
            match first_index(old(self).invite_list@, |m: Member| m.uid@ == uid@) {
                Some(i) => final(self).invite_list@ == old(self).invite_list@.remove(i),
                None => final(self).invite_list@ == old(self).invite_list@,
            },
            empty == (final(self).invite_list@.len() == 0),
    {
        let ghost p = |m: Member| m.uid@ == uid@;
        match crate::members::member_position(&self.invite_list, uid) {
            Some(i) => {
                proof {
                    lemma_first_index(self.invite_list@, p, i as int);
                }
                self.invite_list.remove(i);
            },
            None => {
                proof {
                    lemma_first_index(self.invite_list@, p, self.invite_list@.len() as int);
                }
            },
        }
        self.invite_list.len() == 0
    }

    /// The pending invitation and whether it is accepted, for
    /// the server; the invitation is no longer pending.
    pub fn accept_inv(&mut self, accept: bool) -> (r: Option<(String, bool)>)
        ensures
            *final(self) == (AppModel { invitation_roomid: None, ..*old(self) }),
            match old(self).invitation_roomid {
                Some(id) => r matches Some((rid, a)) && rid@ == id@ && a == accept,
                None => r is None,
            },
    {
        let r = match &self.invitation_roomid {
            Some(rid) => Some((rid.clone(), accept)),
            None => None,
        };
        self.invitation_roomid = None;
        r
    }

    /// The room `roomid` is forgotten.
    pub fn remove_inv(&mut self, roomid: &str)
        ensures
            *final(self) == (AppModel { rooms: final(self).rooms, ..*old(self) }),
            final(self).rooms@ == old(self).rooms@.filter(|r: Room| r.id@ != roomid@),
    {
        let ghost p = |r: Room| r.id@ != roomid@;
        let ghost all = self.rooms@;
        let ghost mut j: int = 0;
        let mut i: usize = 0;
        proof {
            assert(all.take(0).filter(p) =~= Seq::<Room>::empty());
            assert(self.rooms@ =~= all.take(0).filter(p) + all.skip(0));
        }
        while i < self.rooms.len()
            invariant
                0 <= j <= all.len(),
                p == (|r: Room| r.id@ != roomid@),
                i == all.take(j).filter(p).len(),
                self.rooms@ == all.take(j).filter(p) + all.skip(j),
                *self == (AppModel { rooms: self.rooms, ..*old(self) }),
            decreases all.len() - j,
        {
            proof {
                crate::seqs::lemma_filter_step(all, p, j);
                assert(self.rooms@[i as int] == all[j]);
            }
            let ghost kept = all.take(j).filter(p);
            if str_eq(self.rooms[i].id.as_str(), roomid) {
                self.rooms.remove(i);
                proof {
                    assert(self.rooms@ =~= kept + all.skip(j + 1));
                }
            } else {
                proof {
                    assert(self.rooms@ =~= kept.push(all[j]) + all.skip(j + 1));
                }
                i = i + 1;
            }
            proof {
                j = j + 1;
            }
        }
        proof {
            assert(j == all.len()) by {
                if j < all.len() {
                    assert((all.take(j).filter(p) + all.skip(j)).len() > i);
                }
            }
            assert(all.take(j) =~= all);
            assert(self.rooms@ =~= all.filter(p));
        }
    }

    /// The invitation to `r` is the one pending; the dialog
    /// shows the room's name (empty without one) and the name of who invited,
    /// when known.
    pub fn show_inv_dialog(&mut self, r: &Room) -> (d: (String, Option<String>))
        ensures
            *final(self) == (AppModel { invitation_roomid: final(self).invitation_roomid, ..*old(self) }),
            opt_view(final(self).invitation_roomid) == Some(r.id@),
            d.0@ == or_empty(r.name),
            opt_view(d.1) == match r.inv_sender {
                Some(m) => Some(crate::widgets::member_alias(m@)),
                None => None::<Seq<char>>,
            },
    {
        let room_name = match &r.name {
            Some(n) => n.clone(),
            None => String::new(),
        };
        proof {
            assert(""@ =~= Seq::<char>::empty()) by {
                reveal_strlit("");
            }
        }
        let sender = match &r.inv_sender {
            Some(m) => Some(m.get_alias()),
            None => None,
        };
        self.invitation_roomid = Some(r.id.clone());
        (room_name, sender)
    }
}

/// The ids of the users of `list` whose pill is `deleted`, in order.
pub open spec fn deleted_uids(list: Seq<Member>, deleted: Seq<bool>) -> Seq<Seq<char>>
    decreases list.len(),
{
    if list.len() == 0 {
        Seq::empty()
    } else {
        deleted_uids(list.drop_last(), deleted.drop_last()) + if deleted.last() {
            seq![list.last().uid@]
        } else {
            Seq::empty()
        }
    }
}

/// The title of the dialog that invites users to the active room, when the
/// client knows that room.
pub open spec fn invite_title(m: AppModel) -> Option<Seq<char>> {
    match m.active_room {
        Some(a) => match room_index(m.rooms@, a@) {
            Some(i) => Some(match m.rooms@[i].name {
                Some(n) => "Invite to "@ + n@,
                None => "Invite"@,
            }),
            None => None,
        },
        None => None,
    }
}

impl AppModel {
    /// Closing the invitation or direct chat dialog: no user is chosen any
    /// more.
    pub fn close_invite_dialog(&mut self)
        ensures
            *final(self) == (AppModel { invite_list: final(self).invite_list, ..*old(self) }),
            final(self).invite_list@.len() == 0,
    {
        self.invite_list = Vec::new();
    }

    /// Each chosen user is invited to the active room (nobody
    /// without an active room), in order; then the dialog closes.
    pub fn invite(&mut self) -> (r: Vec<(String, String)>)
        ensures
            *final(self) == (AppModel { invite_list: final(self).invite_list, ..*old(self) }),
            final(self).invite_list@.len() == 0,
            match old(self).active_room {
                Some(room) => r@.len() == old(self).invite_list@.len() && forall|i: int| 0 <= i < r@.len()
                    ==> (#[trigger] r@[i]).0@ == room@ && r@[i].1@ == old(self).invite_list@[i].uid@,
                None => r@.len() == 0,
            },
    {
        let mut out: Vec<(String, String)> = Vec::new();
        if let Some(room) = &self.active_room {
            let mut i: usize = 0;
            while i < self.invite_list.len()
                invariant
                    i <= self.invite_list.len(),
                    out@.len() == i,
                    forall|k: int| 0 <= k < i ==> (#[trigger] out@[k]).0@ == room@ && out@[k].1@ == self.invite_list@[k].uid@,
                decreases self.invite_list.len() - i,
            {
                out.push((room.clone(), self.invite_list[i].uid.clone()));
                i = i + 1;
            }
        }
        self.close_invite_dialog();
        out
    }

    /// With exactly one user chosen and a session, a direct chat with that
    /// user is asked for and the dialog closes; otherwise nothing happens.
    pub fn start_chat(&mut self) -> (r: Option<String>)
        ensures
            (old(self).invite_list@.len() == 1 && old(self).login_data is Some) ==> (r matches Some(u)
                && u@ == old(self).invite_list@[0].uid@
                && *final(self) == (AppModel { invite_list: final(self).invite_list, ..*old(self) })
                && final(self).invite_list@.len() == 0),
            !(old(self).invite_list@.len() == 1 && old(self).login_data is Some) ==> r is None && *final(self) == *old(self),
    {
        if self.invite_list.len() != 1 {
            return None;
        }
        if self.login_data.is_none() {
            return None;
        }
        let member = self.invite_list[0].uid.clone();
        self.close_invite_dialog();
        Some(member)
    }

    /// The user search is for invitations; the
    /// title names the active room when the client knows it, and stays as it
    /// was otherwise.
    pub fn show_invite_user_dialog(&mut self) -> (title: Option<String>)
        ensures
            *final(self) == (AppModel { search_type: SearchType::Invite, ..*old(self) }),
            opt_view(title) == invite_title(*old(self)),
    {
        self.search_type = SearchType::Invite;
        match &self.active_room {
            Some(a) => match find_room(&self.rooms, a.as_str()) {
                Some(i) => match &self.rooms[i].name {
                    Some(n) => Some(crate::text::concat("Invite to ", n.as_str())),
                    None => Some("Invite".to_owned()),
                },
                None => None,
            },
            None => None,
        }
    }

    /// The user search is for a direct chat.
    pub fn show_direct_chat_dialog(&mut self)
        ensures
            *final(self) == (AppModel { search_type: SearchType::DirectChat, ..*old(self) }),
    {
        self.search_type = SearchType::DirectChat;
    }

    /// The users whose pill was deleted from the
    /// text, given for each chosen user whether it was, to take off the list.
    pub fn removed_invites(&self, deleted: &Vec<bool>) -> (r: Vec<String>)
        requires
            deleted@.len() == self.invite_list@.len(),
        ensures
            r@.map_values(|s: String| s@) == deleted_uids(self.invite_list@, deleted@),
    {
        let mut out: Vec<String> = Vec::new();
        let mut i: usize = 0;
        proof {
            assert(self.invite_list@.take(0) =~= Seq::<Member>::empty());
            assert(out@.map_values(|s: String| s@) =~= Seq::<Seq<char>>::empty());
        }
        while i < self.invite_list.len()
            invariant
                deleted@.len() == self.invite_list@.len(),
                i <= self.invite_list.len(),
                out@.map_values(|s: String| s@) == deleted_uids(self.invite_list@.take(i as int), deleted@.take(i as int)),
            decreases self.invite_list.len() - i,
        {
            proof {
                assert(self.invite_list@.take(i + 1).drop_last() =~= self.invite_list@.take(i as int));
                assert(deleted@.take(i + 1).drop_last() =~= deleted@.take(i as int));
            }
            let ghost before = out@.map_values(|s: String| s@);
            if deleted[i] {
                out.push(self.invite_list[i].uid.clone());
                proof {
                    assert(out@.map_values(|s: String| s@) =~= before.push(self.invite_list@[i as int].uid@));
                }
            } else {
                proof {
                    assert(before + Seq::<Seq<char>>::empty() =~= before);
                }
            }
            i = i + 1;
        }
        proof {
            assert(self.invite_list@.take(self.invite_list@.len() as int) =~= self.invite_list@);
            assert(deleted@.take(deleted@.len() as int) =~= deleted@);
        }
        out
    }
}

impl AppModel {
    /// The room `room_id`, where the client knows
    /// it, now has `n` unread messages, `h` of them highlighted.
    pub fn set_room_notifications(&mut self, room_id: &str, n: i32, h: i32)
        ensures
            *final(self) == (AppModel { rooms: final(self).rooms, ..*old(self) }),
            match room_index(old(self).rooms@, room_id@) {
                Some(i) => final(self).rooms@ == old(self).rooms@.update(
                    i,
                    Room { notifications: n, highlight: h, ..old(self).rooms@[i] },
                ),
                None => final(self).rooms@ == old(self).rooms@,
            },
    {
        if let Some(i) = find_room(&self.rooms, room_id) {
            self.rooms[i].notifications = n;
            self.rooms[i].highlight = h;
            proof {
                assert(self.rooms@ =~= old(self).rooms@.update(
                    i as int,
                    Room { notifications: n, highlight: h, ..old(self).rooms@[i as int] },
                ));
            }
        }
    }

    /// The room has nothing unread any more (and
    /// its entry in the room list is no longer bold).
    pub fn clear_room_notifications(&mut self, room_id: &str)
        ensures
            *final(self) == (AppModel { rooms: final(self).rooms, ..*old(self) }),
            match room_index(old(self).rooms@, room_id@) {
                Some(i) => final(self).rooms@ == old(self).rooms@.update(
                    i,
                    Room { notifications: 0, highlight: 0, ..old(self).rooms@[i] },
                ),
                None => final(self).rooms@ == old(self).rooms@,
            },
    {
        self.set_room_notifications(room_id, 0, 0);
    }
}

/// A member who joins a room and then leaves it is no longer among its
/// members, whatever they were before (`room_member_event`, twice).
pub proof fn lemma_join_then_leave(members: Map<Seq<char>, MemberV>, join: EventV, leave: EventV)
    requires
        member_change(join) matches Some(Some(_)),
        member_change(leave) == Some(None::<MemberV>),
        leave.sender == join.sender,
    ensures
        ({
            let m = member_change(join)->0->0;
            members.insert(m.uid, m).remove(leave.sender) == members.remove(join.sender)
        }),
{
    let m = member_change(join)->0->0;
    assert(members.insert(m.uid, m).remove(leave.sender) =~= members.remove(join.sender));
}

/// Adding a user to the users to invite twice adds them once: after
/// `add_to_invite(u)`, a user with `u`'s id is on the list, so the second
/// call adds nothing.
pub proof fn lemma_invite_once(before: Seq<MemberV>, u: MemberV)
    ensures
        exists|i: int| 0 <= i < before.push(u).len() && (#[trigger] before.push(u)[i]).uid == u.uid,
{
    assert(before.push(u)[before.len() as int].uid == u.uid);
}

} // verus!
