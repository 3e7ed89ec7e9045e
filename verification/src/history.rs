//! The messages of the rooms as the application keeps and shows them: what
//! the user has read, what is new, and the queue of messages to send.
use vstd::prelude::*;
use crate::appop::{AppModel, LastViewed, find_pair, find_room, or_empty, pair_lookup, room_index};
use crate::json::str_eq;
use crate::seqs::{first_index, lemma_first_index};
use crate::types::{LocalTime, Message, MessageV, Room, RoomV, opt_view};
use crate::message::messages_view;

verus! {

/// `a > b` for messages: they are different messages (by id) and `a` is later.
pub open spec fn msg_after(a: MessageV, b: MessageV) -> bool {
    a.id != b.id && b.date.before(a.date)
}

/// Where message `msg` stands with respect to the last
/// message seen in its room.
pub open spec fn spec_last_viewed(m: AppModel, msg: MessageV) -> LastViewed {
    match pair_lookup(m.last_viewed_messages@, msg.room) {
        Some(lvm) => if msg.id == Some(lvm@) {
            match room_index(m.rooms@, msg.room) {
                Some(i) => if m.rooms@[i].messages@.len() > 0 && m.rooms@[i].messages@.last()@.id == msg.id {
                    LastViewed::Last
                } else {
                    LastViewed::Inline
                },
                None => LastViewed::Inline,
            }
        } else {
            LastViewed::No
        },
        None => LastViewed::No,
    }
}

/// Messages newer than `last` that someone other than `uid` sent.
pub open spec fn new_from(last: MessageV, uid: Seq<char>) -> spec_fn(Message) -> bool {
    |x: Message| msg_after(x@, last) && x.sender@ != uid
}

/// The first message after the last one seen that
/// another user sent, when the last one seen is not the last of its room.
pub open spec fn spec_first_new_from_last(m: AppModel, last: MessageV) -> Option<MessageV> {
    match spec_last_viewed(m, last) {
        LastViewed::Inline => match room_index(m.rooms@, last.room) {
            Some(i) => match first_index(m.rooms@[i].messages@, new_from(last, or_empty(m.uid))) {
                Some(j) => Some(m.rooms@[i].messages@[j]@),
                None => None,
            },
            None => None,
        },
        _ => None,
    }
}

/// Messages whose id, or the empty string without one, is `id`.
pub open spec fn has_id(id: Seq<char>) -> spec_fn(Message) -> bool {
    |x: Message| or_empty(x.id) == id
}

/// The first message of room `roomid` with id `msg_id`.
pub open spec fn spec_msg_from_id(m: AppModel, roomid: Seq<char>, msg_id: Seq<char>) -> Option<MessageV> {
    match room_index(m.rooms@, roomid) {
        Some(i) => match first_index(m.rooms@[i].messages@, has_id(msg_id)) {
            Some(j) => Some(m.rooms@[i].messages@[j]@),
            None => None,
        },
        None => None,
    }
}

/// `msg` is the first new message recorded for its room.
pub open spec fn spec_is_first_new(m: AppModel, msg: MessageV) -> bool {
    match pair_lookup(m.first_new_messages@, msg.room) {
        Some(Some(n)) => n@.id == msg.id,
        _ => false,
    }
}

/// Whether two optional ids are the same.
pub(crate) fn same_id(a: &Option<String>, b: &Option<String>) -> (r: bool)
    ensures
        r == (opt_view(*a) == opt_view(*b)),
{
    opt_str_eq(a, b)
}

fn opt_str_eq(a: &Option<String>, b: &Option<String>) -> (r: bool)
    ensures
        r == (opt_view(*a) == opt_view(*b)),
{
    match (a, b) {
        (Some(x), Some(y)) => str_eq(x.as_str(), y.as_str()),
        (None, None) => true,
        _ => false,
    }
}

fn opt_or_empty(o: &Option<String>) -> (r: &str)
    ensures
        r@ == or_empty(*o),
{
    match o {
        Some(s) => s.as_str(),
        None => {
            proof {
                reveal_strlit("");
            }
            ""
        },
    }
}

/// The position of the first message of `msgs` after `last` that someone
/// other than `uid` sent.
fn first_new(msgs: &Vec<Message>, last: &Message, uid: &str) -> (r: Option<usize>)
    ensures
        r matches Some(j) ==> first_index(msgs@, new_from(last@, uid@)) == Some(j as int) && j < msgs@.len(),
        r is None ==> first_index(msgs@, new_from(last@, uid@)) is None,
{
    let ghost p = new_from(last@, uid@);
    let mut i: usize = 0;
    while i < msgs.len()
        invariant
            i <= msgs.len(),
            p == new_from(last@, uid@),
            forall|k: int| 0 <= k < i ==> !p(#[trigger] msgs@[k]),
        decreases msgs.len() - i,
    {
        let x = &msgs[i];
        if !opt_str_eq(&x.id, &last.id) && last.date.is_before(&x.date) && !str_eq(x.sender.as_str(), uid) {
            proof {
                lemma_first_index(msgs@, p, i as int);
            }
            return Some(i);
        }
        i = i + 1;
    }
    proof {
        lemma_first_index(msgs@, p, msgs@.len() as int);
    }
    None
}

impl AppModel {
    /// Where `msg` stands with respect to the last message
    /// the user has seen in its room.
    pub fn is_last_viewed(&self, msg: &Message) -> (r: LastViewed)
        ensures
            r == spec_last_viewed(*self, msg@),
    {
        match find_pair(&self.last_viewed_messages, msg.room.as_str()) {
            Some(k) => {
                let same = match &msg.id {
                    Some(id) => str_eq(self.last_viewed_messages[k].1.as_str(), id.as_str()),
                    None => false,
                };
                if !same {
                    return LastViewed::No;
                }
                match find_room(&self.rooms, msg.room.as_str()) {
                    Some(i) => {
                        let n = self.rooms[i].messages.len();
                        if n > 0 && opt_str_eq(&self.rooms[i].messages[n - 1].id, &msg.id) {
                            LastViewed::Last
                        } else {
                            LastViewed::Inline
                        }
                    },
                    None => LastViewed::Inline,
                }
            },
            None => LastViewed::No,
        }
    }

    /// The first message after `last_msg` that
    /// another user sent, when `last_msg` is the last one seen and newer ones follow.
    pub fn get_first_new_from_last(&self, last_msg: &Message) -> (r: Option<Message>)
        ensures
            match r {
                Some(m) => spec_first_new_from_last(*self, last_msg@) == Some(m@),
                None => spec_first_new_from_last(*self, last_msg@) is None,
            },
    {
        match self.is_last_viewed(last_msg) {
            LastViewed::Inline => {
                match find_room(&self.rooms, last_msg.room.as_str()) {
                    Some(i) => {
                        let uid = opt_or_empty(&self.uid);
                        match first_new(&self.rooms[i].messages, last_msg, uid) {
                            Some(j) => {
                                let m = self.rooms[i].messages[j].duplicate();
                                proof {
                                    assert(spec_last_viewed(*self, last_msg@) is Inline);
                                    assert(room_index(self.rooms@, last_msg@.room) == Some(i as int));
                                    assert(uid@ == or_empty(self.uid));
                                }
                                Some(m)
                            },
                            None => None,
                        }
                    },
                    None => None,
                }
            },
            _ => None,
        }
    }

    /// The first message of room `roomid` whose id is `msg_id`.
    pub fn get_msg_from_id(&self, roomid: &str, msg_id: &str) -> (r: Option<Message>)
        ensures
            match r {
                Some(m) => spec_msg_from_id(*self, roomid@, msg_id@) == Some(m@),
                None => spec_msg_from_id(*self, roomid@, msg_id@) is None,
            },
    {
        let i = match find_room(&self.rooms, roomid) {
            Some(i) => i,
            None => return None,
        };
        let msgs = &self.rooms[i].messages;
        let ghost p = has_id(msg_id@);
        let mut j: usize = 0;
        while j < msgs.len()
            invariant
                j <= msgs.len(),
                p == has_id(msg_id@),
                room_index(self.rooms@, roomid@) == Some(i as int),
                i < self.rooms@.len(),
                msgs@ == self.rooms@[i as int].messages@,
                forall|k: int| 0 <= k < j ==> !p(#[trigger] msgs@[k]),
            decreases msgs.len() - j,
        {
            if str_eq(opt_or_empty(&msgs[j].id), msg_id) {
                proof {
                    lemma_first_index(msgs@, p, j as int);
                }
                return Some(msgs[j].duplicate());
            }
            j = j + 1;
        }
        proof {
            lemma_first_index(msgs@, p, msgs@.len() as int);
        }
        None
    }

    /// Whether `msg` is the first new message of its room.
    pub fn is_first_new(&self, msg: &Message) -> (r: bool)
        ensures
            r == spec_is_first_new(*self, msg@),
    {
        match find_pair(&self.first_new_messages, msg.room.as_str()) {
            Some(k) => match &self.first_new_messages[k].1 {
                Some(n) => opt_str_eq(&n.id, &msg.id),
                None => false,
            },
            None => false,
        }
    }
}

/// The view of a list of pairs of strings.
pub open spec fn pairs_view(v: Seq<(String, String)>) -> Seq<(Seq<char>, Seq<char>)> {
    v.map_values(|p: (String, String)| (p.0@, p.1@))
}

/// Pairs of texts whose key is `key`.
pub open spec fn text_key_is(key: Seq<char>) -> spec_fn((Seq<char>, Seq<char>)) -> bool {
    |e: (Seq<char>, Seq<char>)| e.0 == key
}

/// The position of `key` among the pairs.
pub open spec fn key_index(m: Seq<(Seq<char>, Seq<char>)>, key: Seq<char>) -> Option<int> {
    first_index(m, text_key_is(key))
}

/// `map.insert(key, value)` on pairs used as a map.
pub open spec fn pairs_insert(m: Seq<(Seq<char>, Seq<char>)>, key: Seq<char>, value: Seq<char>) -> Seq<(Seq<char>, Seq<char>)> {
    match key_index(m, key) {
        Some(i) => m.update(i, (key, value)),
        None => m.push((key, value)),
    }
}

/// Messages with an id that user `uid` has a read receipt on.
pub open spec fn read_by(uid: Seq<char>) -> spec_fn(Message) -> bool {
    |x: Message| x.id is Some && exists|k: int| 0 <= k < x.receipt@.len() && (#[trigger] x.receipt@[k]).0@ == uid
}

/// The last viewed messages, room after room: a room without a last viewed
/// message gets the first one of its messages that `uid` has read.
pub open spec fn spec_set_last_viewed(rooms: Seq<Room>, lv: Seq<(Seq<char>, Seq<char>)>, uid: Seq<char>) -> Seq<(Seq<char>, Seq<char>)>
    decreases rooms.len(),
{
    if rooms.len() == 0 {
        lv
    } else {
        let before = spec_set_last_viewed(rooms.drop_last(), lv, uid);
        let r = rooms.last();
        if key_index(before, r.id@) is Some {
            before
        } else {
            match first_index(r.messages@, read_by(uid)) {
                Some(j) => before.push((r.id@, r.messages@[j].id->0@)),
                None => before,
            }
        }
    }
}

fn has_receipt(m: &Message, uid: &str) -> (r: bool)
    ensures
        r == exists|k: int| 0 <= k < m.receipt@.len() && (#[trigger] m.receipt@[k]).0@ == uid@,
{
    let mut k: usize = 0;
    while k < m.receipt.len()
        invariant
            k <= m.receipt@.len(),
            forall|j: int| 0 <= j < k ==> (#[trigger] m.receipt@[j]).0@ != uid@,
        decreases m.receipt@.len() - k,
    {
        if str_eq(m.receipt[k].0.as_str(), uid) {
            return true;
        }
        k = k + 1;
    }
    false
}

/// The position of the first message with an id that `uid` has read.
fn first_read(msgs: &Vec<Message>, uid: &str) -> (r: Option<usize>)
    ensures
        r matches Some(j) ==> first_index(msgs@, read_by(uid@)) == Some(j as int) && j < msgs@.len()
            && msgs@[j as int].id is Some,
        r is None ==> first_index(msgs@, read_by(uid@)) is None,
{
    let ghost p = read_by(uid@);
    let mut j: usize = 0;
    while j < msgs.len()
        invariant
            j <= msgs.len(),
            p == read_by(uid@),
            forall|k: int| 0 <= k < j ==> !p(#[trigger] msgs@[k]),
        decreases msgs.len() - j,
    {
        if msgs[j].id.is_some() && has_receipt(&msgs[j], uid) {
            proof {
                lemma_first_index(msgs@, p, j as int);
            }
            return Some(j);
        }
        j = j + 1;
    }
    proof {
        lemma_first_index(msgs@, p, msgs@.len() as int);
    }
    None
}

/// The position of `key` among pairs of strings.
fn key_position(m: &Vec<(String, String)>, key: &str) -> (r: Option<usize>)
    ensures
        r matches Some(i) ==> key_index(pairs_view(m@), key@) == Some(i as int) && i < m@.len(),
        r is None ==> key_index(pairs_view(m@), key@) is None,
{
    let ghost v = pairs_view(m@);
    let ghost p = text_key_is(key@);
    let mut i: usize = 0;
    while i < m.len()
        invariant
            i <= m.len(),
            v == pairs_view(m@),
            p == text_key_is(key@),
            forall|k: int| 0 <= k < i ==> !p(#[trigger] v[k]),
        decreases m.len() - i,
    {
        if str_eq(m[i].0.as_str(), key) {
            proof {
                lemma_first_index(v, p, i as int);
            }
            return Some(i);
        }
        i = i + 1;
    }
    proof {
        lemma_first_index(v, p, v.len() as int);
    }
    None
}

/// `map.insert(key, value)` on pairs of strings used as a map.
fn insert_pair(m: &mut Vec<(String, String)>, key: String, value: String)
    ensures
        pairs_view(final(m)@) == pairs_insert(pairs_view(old(m)@), key@, value@),
{
    let ghost before = pairs_view(m@);
    match key_position(m, key.as_str()) {
        Some(i) => {
            m.set(i, (key, value));
            proof {
                assert(pairs_view(m@) =~= before.update(i as int, (key@, value@)));
            }
        },
        None => {
            m.push((key, value));
            proof {
                assert(pairs_view(m@) =~= before.push((key@, value@)));
            }
        },
    }
}

impl AppModel {
    /// For each room without a last viewed
    /// message, the first of its messages the user has read becomes it.
    /// Without a user id nothing changes.
    pub fn set_last_viewed_messages(&mut self)
        ensures
            *final(self) == (AppModel { last_viewed_messages: final(self).last_viewed_messages, ..*old(self) }),
            pairs_view(final(self).last_viewed_messages@) == match old(self).uid {
                Some(u) => spec_set_last_viewed(old(self).rooms@, pairs_view(old(self).last_viewed_messages@), u@),
                None => pairs_view(old(self).last_viewed_messages@),
            },
    {
        let uid = match &self.uid {
            Some(u) => u.clone(),
            None => return,
        };
        let ghost lv0 = pairs_view(self.last_viewed_messages@);
        let mut i: usize = 0;
        proof {
            assert(self.rooms@.take(0) =~= Seq::<Room>::empty());
        }
        while i < self.rooms.len()
            invariant
                i <= self.rooms@.len(),
                *self == (AppModel { last_viewed_messages: self.last_viewed_messages, ..*old(self) }),
                old(self).uid matches Some(u) && u@ == uid@,
                lv0 == pairs_view(old(self).last_viewed_messages@),
                pairs_view(self.last_viewed_messages@) == spec_set_last_viewed(self.rooms@.take(i as int), lv0, uid@),
            decreases self.rooms@.len() - i,
        {
            proof {
                assert(self.rooms@.take(i + 1).drop_last() =~= self.rooms@.take(i as int));
                assert(self.rooms@.take(i + 1).last() == self.rooms@[i as int]);
            }
            if key_position(&self.last_viewed_messages, self.rooms[i].id.as_str()).is_none() {
                let msgs = &self.rooms[i].messages;
                let ghost p = read_by(uid@);
                let found = first_read(msgs, uid.as_str());
                match found {
                    Some(j) => {
                        let id = opt_or_empty(&msgs[j].id).to_owned();
                        let ghost before = pairs_view(self.last_viewed_messages@);
                        self.last_viewed_messages.push((self.rooms[i].id.clone(), id));
                        proof {
                            assert(pairs_view(self.last_viewed_messages@) =~= before.push((self.rooms@[i as int].id@, id@)));
                        }
                    },
                    None => {},
                }
            }
            i = i + 1;
        }
        proof {
            assert(self.rooms@.take(self.rooms@.len() as int) =~= self.rooms@);
        }
    }

    /// When the window is active, or `force` is given, `msg`
    /// becomes the last viewed message of its room and the server is told
    /// (the room and the message id, empty without one, are returned).
    pub fn mark_as_read(&mut self, msg: &Message, force: bool, window_active: bool) -> (r: Option<(String, String)>)
        ensures
            *final(self) == (AppModel { last_viewed_messages: final(self).last_viewed_messages, ..*old(self) }),
            (window_active || force) ==> (r matches Some((room, id)) && room@ == msg.room@ && id@ == or_empty(msg.id)
                && pairs_view(final(self).last_viewed_messages@) == pairs_insert(
                pairs_view(old(self).last_viewed_messages@),
                msg.room@,
                or_empty(msg.id),
            )),
            !(window_active || force) ==> r is None && final(self).last_viewed_messages == old(self).last_viewed_messages,
    {
        if window_active || force {
            let id = opt_or_empty(&msg.id).to_owned();
            insert_pair(&mut self.last_viewed_messages, msg.room.clone(), id.clone());
            Some((msg.room.clone(), id))
        } else {
            None
        }
    }
}

pub open spec fn rooms_view(v: Seq<Room>) -> Seq<RoomV> {
    v.map_values(|r: Room| r@)
}

/// Room views whose id is `id`.
pub open spec fn view_has_id(id: Seq<char>) -> spec_fn(RoomV) -> bool {
    |r: RoomV| r.id == id
}

/// The position of room `id` among room views.
pub open spec fn room_index_v(rs: Seq<RoomV>, id: Seq<char>) -> Option<int> {
    first_index(rs, view_has_id(id))
}

/// `ms` holds a message equal to `m` (by id).
pub open spec fn holds_message(ms: Seq<MessageV>, m: MessageV) -> bool {
    exists|j: int| 0 <= j < ms.len() && (#[trigger] ms[j]).id == m.id
}

/// One new message: a room the client knows that does not hold it yet gets
/// it at its end, and it counts as added.
pub open spec fn add_message(st: (Seq<RoomV>, Seq<MessageV>), msg: MessageV) -> (Seq<RoomV>, Seq<MessageV>) {
    let rs = st.0;
    match room_index_v(rs, msg.room) {
        Some(i) => if holds_message(rs[i].messages, msg) {
            st
        } else {
            (rs.update(i, RoomV { messages: rs[i].messages.push(msg), ..rs[i] }), st.1.push(msg))
        },
        None => st,
    }
}

/// New messages, in order: the rooms after them, and those added.
pub open spec fn add_messages(rs: Seq<RoomV>, msgs: Seq<MessageV>) -> (Seq<RoomV>, Seq<MessageV>)
    decreases msgs.len(),
{
    if msgs.len() == 0 {
        (rs, Seq::empty())
    } else {
        add_message(add_messages(rs, msgs.drop_last()), msgs.last())
    }
}

proof fn lemma_room_index_view(rooms: Seq<Room>, id: Seq<char>)
    ensures
        room_index(rooms, id) == room_index_v(rooms_view(rooms), id),
{
    let f = |r: Room| r@;
    crate::seqs::lemma_first_index_map(rooms, f, view_has_id(id), crate::appop::room_has_id(id));
    assert(rooms.map_values(f) =~= rooms_view(rooms));
}

fn holds_id(ms: &Vec<Message>, m: &Message) -> (r: bool)
    ensures
        r == holds_message(messages_view(ms@), m@),
{
    let mut j: usize = 0;
    while j < ms.len()
        invariant
            j <= ms@.len(),
            forall|k: int| 0 <= k < j ==> (#[trigger] ms@[k])@.id != m@.id,
        decreases ms@.len() - j,
    {
        if opt_str_eq(&ms[j].id, &m.id) {
            proof {
                assert(messages_view(ms@)[j as int].id == m@.id);
            }
            return true;
        }
        j = j + 1;
    }
    proof {
        assert forall|k: int| 0 <= k < ms@.len() implies (#[trigger] messages_view(ms@)[k]).id != m@.id by {
            assert(messages_view(ms@)[k] == ms@[k]@);
        }
    }
    false
}

impl AppModel {
    /// Showing new messages, first part: each new message joins its room,
    /// unless the room is unknown or holds it already; the messages added
    /// are returned, in order.
    pub fn add_new_messages(&mut self, newmsgs: &Vec<Message>) -> (added: Vec<Message>)
        requires
            old(self).wf(),
        ensures
            final(self).wf(),
            *final(self) == (AppModel { rooms: final(self).rooms, ..*old(self) }),
            (rooms_view(final(self).rooms@), messages_view(added@)) == add_messages(
                rooms_view(old(self).rooms@),
                messages_view(newmsgs@),
            ),
    {
        let mut added: Vec<Message> = Vec::new();
        let mut k: usize = 0;
        proof {
            assert(messages_view(newmsgs@).take(0) =~= Seq::<MessageV>::empty());
            assert(messages_view(added@) =~= Seq::<MessageV>::empty());
        }
        while k < newmsgs.len()
            invariant
                k <= newmsgs@.len(),
                self.wf(),
                *self == (AppModel { rooms: self.rooms, ..*old(self) }),
                (rooms_view(self.rooms@), messages_view(added@)) == add_messages(
                    rooms_view(old(self).rooms@),
                    messages_view(newmsgs@).take(k as int),
                ),
            decreases newmsgs@.len() - k,
        {
            let msg = &newmsgs[k];
            proof {
                assert(messages_view(newmsgs@).take(k + 1).drop_last() =~= messages_view(newmsgs@).take(k as int));
                assert(messages_view(newmsgs@).take(k + 1).last() == msg@);
                lemma_room_index_view(self.rooms@, msg.room@);
            }
            match find_room(&self.rooms, msg.room.as_str()) {
                Some(i) => {
                    proof {
                        assert(rooms_view(self.rooms@)[i as int] == self.rooms@[i as int]@);
                    }
                    if !holds_id(&self.rooms[i].messages, msg) {
                        let ghost before = self.rooms@;
                        let ghost added_before = messages_view(added@);
                        self.rooms[i].messages.push(msg.duplicate());
                        added.push(msg.duplicate());
                        proof {
                            assert(self.rooms@[i as int]@.messages =~= before[i as int]@.messages.push(msg@));
                            assert(self.rooms@[i as int]@ == (RoomV { messages: before[i as int]@.messages.push(msg@), ..before[i as int]@ }));
                            assert(rooms_view(self.rooms@) =~= rooms_view(before).update(
                                i as int,
                                RoomV { messages: before[i as int]@.messages.push(msg@), ..before[i as int]@ },
                            ));
                            assert(messages_view(added@) =~= added_before.push(msg@));
                            assert forall|r: int| 0 <= r < self.rooms@.len() implies crate::members::unique_uids(
                                crate::members::members_view(#[trigger] self.rooms@[r].members@),
                            ) by {
                                if r != i {
                                    assert(self.rooms@[r] == before[r]);
                                }
                            }
                        }
                    }
                },
                None => {},
            }
            k = k + 1;
        }
        proof {
            assert(messages_view(newmsgs@).take(newmsgs@.len() as int) =~= messages_view(newmsgs@));
        }
        added
    }
}

/// What the user interface is asked to do with the messages of a room.
pub enum RoomAction {
    /// Notify the user of a new message.
    Notify(Message),
    /// Show a message in the history, at its top or bottom, after `prev`;
    /// `last` marks the last of a batch shown at the top, `first_new` the
    /// first new message of its room.
    AddRoomMessage { msg: Message, top: bool, prev: Option<Message>, last: bool, first_new: bool },
    /// Move the room up in the room list.
    MoveUp(String),
    /// Show the room in bold in the room list.
    SetBold(String),
    /// Tell the server that the message with this id was read in this room.
    MarkAsRead(String, String),
    /// Show the room's history.
    ShowRoom,
    /// Loading older messages is over.
    LoadMoreNormal,
    /// Ask the server for the messages before this one.
    GetMessageContext(Message),
}

pub enum RoomActionV {
    Notify(MessageV),
    AddRoomMessage { msg: MessageV, top: bool, prev: Option<MessageV>, last: bool, first_new: bool },
    MoveUp(Seq<char>),
    SetBold(Seq<char>),
    MarkAsRead(Seq<char>, Seq<char>),
    ShowRoom,
    LoadMoreNormal,
    GetMessageContext(MessageV),
}

pub open spec fn opt_msg_view(o: Option<Message>) -> Option<MessageV> {
    match o {
        Some(m) => Some(m@),
        None => None,
    }
}

impl View for RoomAction {
    type V = RoomActionV;

    open spec fn view(&self) -> RoomActionV {
        match self {
            RoomAction::Notify(m) => RoomActionV::Notify(m@),
            RoomAction::AddRoomMessage { msg, top, prev, last, first_new } => RoomActionV::AddRoomMessage {
                msg: msg@,
                top: *top,
                prev: opt_msg_view(*prev),
                last: *last,
                first_new: *first_new,
            },
            RoomAction::MoveUp(r) => RoomActionV::MoveUp(r@),
            RoomAction::SetBold(r) => RoomActionV::SetBold(r@),
            RoomAction::MarkAsRead(r, id) => RoomActionV::MarkAsRead(r@, id@),
            RoomAction::ShowRoom => RoomActionV::ShowRoom,
            RoomAction::LoadMoreNormal => RoomActionV::LoadMoreNormal,
            RoomAction::GetMessageContext(m) => RoomActionV::GetMessageContext(m@),
        }
    }
}

pub open spec fn actions_view(v: Seq<RoomAction>) -> Seq<RoomActionV> {
    v.map_values(|a: RoomAction| a@)
}

/// Whether a new message is notified: it names the user or comes in a
/// direct chat, the history is not being filled for the first time, and
/// someone else sent it. `None` where the user name, or the user id when it
/// is needed, is missing: the client then stops.
pub open spec fn should_notify(m: AppModel, msg: MessageV, init: bool) -> Option<bool> {
    match m.username {
        None => None,
        Some(user) => {
            let direct = match room_index(m.rooms@, msg.room) {
                Some(i) => m.rooms@[i].direct,
                None => false,
            };
            if (crate::text::seq_contains(msg.body, user@) || direct) && !init {
                match m.uid {
                    Some(u) => Some(msg.sender != u@),
                    None => None,
                }
            } else {
                Some(false)
            }
        },
    }
}

/// The actions for the messages `msgs` added at the bottom of their rooms,
/// in order, and whether the client went through them all.
pub open spec fn message_actions(m: AppModel, msgs: Seq<MessageV>, init: bool) -> (Seq<RoomActionV>, bool)
    decreases msgs.len(),
{
    if msgs.len() == 0 {
        (Seq::empty(), true)
    } else {
        let before = message_actions(m, msgs.drop_last(), init);
        let msg = msgs.last();
        if !before.1 {
            before
        } else {
            match should_notify(m, msg, init) {
                None => (before.0, false),
                Some(n) => {
                    let prev = if msgs.len() > 1 { Some(msgs[msgs.len() - 2]) } else { None };
                    let a1 = if n { before.0.push(RoomActionV::Notify(msg)) } else { before.0 };
                    let a2 = a1.push(RoomActionV::AddRoomMessage {
                        msg,
                        top: false,
                        prev,
                        last: false,
                        first_new: spec_is_first_new(m, msg),
                    });
                    let a3 = if !init {
                        a2.push(RoomActionV::MoveUp(msg.room)).push(RoomActionV::SetBold(msg.room))
                    } else {
                        a2
                    };
                    (a3, true)
                },
            }
        }
    }
}

impl AppModel {
    /// Whether new message `msg` is notified; `None` where the user name, or
    /// the user id when needed, is missing.
    fn notify_decision(&self, msg: &Message, init: bool) -> (r: Option<bool>)
        ensures
            r == should_notify(*self, msg@, init),
    {
        let user = match &self.username {
            Some(u) => u,
            None => return None,
        };
        let direct = match find_room(&self.rooms, msg.room.as_str()) {
            Some(i) => self.rooms[i].direct,
            None => false,
        };
        if (crate::text::contains(msg.body.as_str(), user.as_str()) || direct) && !init {
            match &self.uid {
                Some(u) => Some(!str_eq(msg.sender.as_str(), u.as_str())),
                None => None,
            }
        } else {
            Some(false)
        }
    }

    /// Showing new messages, second part: the actions for the messages added
    /// at the bottom of their rooms, and whether the client went through them all.
    pub fn new_message_actions(&self, added: &Vec<Message>, init: bool) -> (r: (Vec<RoomAction>, bool))
        ensures
            (actions_view(r.0@), r.1) == message_actions(*self, messages_view(added@), init),
    {
        let ghost ms = messages_view(added@);
        let mut acts: Vec<RoomAction> = Vec::new();
        let mut k: usize = 0;
        proof {
            assert(ms.take(0) =~= Seq::<MessageV>::empty());
            assert(actions_view(acts@) =~= Seq::<RoomActionV>::empty());
        }
        while k < added.len()
            invariant
                k <= added@.len(),
                ms == messages_view(added@),
                (actions_view(acts@), true) == message_actions(*self, ms.take(k as int), init),
            decreases added@.len() - k,
        {
            let msg = &added[k];
            proof {
                assert(ms.take(k + 1).drop_last() =~= ms.take(k as int));
                assert(ms.take(k + 1).last() == msg@);
                assert(ms.take(k + 1).len() == k + 1);
                if k > 0 {
                    assert(ms.take(k + 1)[k - 1] == added@[k - 1]@);
                }
            }
            let n = match self.notify_decision(msg, init) {
                Some(n) => n,
                None => {
                    proof {
                        lemma_actions_stop(*self, ms, init, k as int + 1);
                    }
                    return (acts, false);
                },
            };
            let ghost before = actions_view(acts@);
            if n {
                acts.push(RoomAction::Notify(msg.duplicate()));
            }
            let prev = if k > 0 {
                Some(added[k - 1].duplicate())
            } else {
                None
            };
            let first_new = self.is_first_new(msg);
            acts.push(RoomAction::AddRoomMessage { msg: msg.duplicate(), top: false, prev, last: false, first_new });
            if !init {
                acts.push(RoomAction::MoveUp(msg.room.clone()));
                acts.push(RoomAction::SetBold(msg.room.clone()));
            }
            proof {
                let a1 = if n { before.push(RoomActionV::Notify(msg@)) } else { before };
                let a2 = a1.push(RoomActionV::AddRoomMessage {
                    msg: msg@,
                    top: false,
                    prev: if k > 0 { Some(ms[k - 1]) } else { None },
                    last: false,
                    first_new,
                });
                let a3 = if !init {
                    a2.push(RoomActionV::MoveUp(msg@.room)).push(RoomActionV::SetBold(msg@.room))
                } else {
                    a2
                };
                assert(actions_view(acts@) =~= a3);
            }
            k = k + 1;
        }
        proof {
            assert(ms.take(ms.len() as int) =~= ms);
        }
        (acts, true)
    }
}

/// No notification is about a message the user sent, or comes while the
/// history is filled for the first time: each `Notify` among the actions for
/// new messages `msgs` is for a message whose sender is not the user's own
/// id (and the id is known).
proof fn lemma_message_actions_not_own(m: AppModel, msgs: Seq<MessageV>, init: bool)
    ensures
        forall|k: int| 0 <= k < message_actions(m, msgs, init).0.len() ==>
            (#[trigger] message_actions(m, msgs, init).0[k] matches RoomActionV::Notify(x)
                ==> (m.uid is Some && x.sender != m.uid->0@ && !init)),
    decreases msgs.len(),
{
    if msgs.len() > 0 {
        lemma_message_actions_not_own(m, msgs.drop_last(), init);
        let before = message_actions(m, msgs.drop_last(), init);
        let acts = message_actions(m, msgs, init).0;
        let msg = msgs.last();
        if before.1 {
            if let Some(n) = should_notify(m, msg, init) {
                let len = before.0.len();
                assert forall|k: int| 0 <= k < acts.len() implies
                    (#[trigger] acts[k] matches RoomActionV::Notify(x) ==> (m.uid is Some && x.sender != m.uid->0@ && !init)) by {
                    if k < len {
                        assert(acts[k] == before.0[k]);
                    } else if n && k == len {
                        assert(acts[k] == RoomActionV::Notify(msg));
                    }
                }
            }
        }
    }
}

/// The user is never notified of their own messages, nor of any message
/// while a room's history is filled for the first time: whatever messages
/// are shown, every `Notify` action that showing them asks for is about a
/// message whose sender differs from the user's id, and comes after the
/// first filling.
pub proof fn lemma_own_messages_not_notified(m: AppModel, added: Seq<MessageV>, init: bool, window_active: bool)
    ensures
        forall|k: int| 0 <= k < show_actions(m, added, init, window_active).0.len() ==>
            (#[trigger] show_actions(m, added, init, window_active).0[k] matches RoomActionV::Notify(x)
                ==> (m.uid is Some && x.sender != m.uid->0@ && !init)),
{
    lemma_message_actions_not_own(m, added, init);
    let acts = message_actions(m, added, init).0;
    let all = show_actions(m, added, init, window_active).0;
    assert forall|k: int| 0 <= k < all.len() implies
        (#[trigger] all[k] matches RoomActionV::Notify(x) ==> (m.uid is Some && x.sender != m.uid->0@ && !init)) by {
        if k < acts.len() {
            assert(all[k] == acts[k]);
        }
    }
}

/// A message from someone else that names the user, or that comes in a
/// direct chat, is notified after the first filling: with the user's name
/// and id known, showing it asks first of all to notify the user of it.
pub proof fn lemma_mentions_are_notified(m: AppModel, msg: MessageV, window_active: bool)
    requires
        m.username is Some,
        m.uid is Some,
        msg.sender != m.uid->0@,
        crate::text::seq_contains(msg.body, m.username->0@) || (room_index(m.rooms@, msg.room) matches Some(i)
            && m.rooms@[i].direct),
    ensures
        show_actions(m, seq![msg], false, window_active).0.len() > 0,
        show_actions(m, seq![msg], false, window_active).0[0] == RoomActionV::Notify(msg),
{
    let ms = seq![msg];
    assert(ms.drop_last() =~= Seq::<MessageV>::empty());
    assert(ms.last() == msg);
    assert(message_actions(m, Seq::<MessageV>::empty(), false) == (Seq::<RoomActionV>::empty(), true));
    assert(message_actions(m, ms.drop_last(), false) == (Seq::<RoomActionV>::empty(), true));
    assert(should_notify(m, msg, false) == Some(true));
    let acts = message_actions(m, ms, false).0;
    assert(acts[0] == RoomActionV::Notify(msg));
    assert(show_actions(m, ms, false, window_active).0[0] == acts[0]);
}

/// Once the actions stop for a prefix of the messages, they stop there for all.
proof fn lemma_actions_stop(m: AppModel, msgs: Seq<MessageV>, init: bool, i: int)
    requires
        0 <= i <= msgs.len(),
        !message_actions(m, msgs.take(i), init).1,
    ensures
        message_actions(m, msgs, init) == message_actions(m, msgs.take(i), init),
    decreases msgs.len(),
{
    if i == msgs.len() {
        assert(msgs.take(i) =~= msgs);
    } else {
        assert(msgs.drop_last().take(i) =~= msgs.take(i));
        lemma_actions_stop(m, msgs.drop_last(), init, i);
    }
}

/// The position of the last message of `msgs` in room `room`.
pub open spec fn last_in_room(msgs: Seq<MessageV>, room: Seq<char>) -> Option<int>
    decreases msgs.len(),
{
    if msgs.len() == 0 {
        None
    } else if msgs.last().room == room {
        Some(msgs.len() - 1)
    } else {
        last_in_room(msgs.drop_last(), room)
    }
}

/// The text of an optional string, empty without one.
pub open spec fn text_or_empty(o: Option<Seq<char>>) -> Seq<char> {
    match o {
        Some(s) => s,
        None => Seq::empty(),
    }
}

/// The message marked as read after new messages were added: the last one
/// added in the active room, when the window is active.
pub open spec fn read_mark(m: AppModel, added: Seq<MessageV>, window_active: bool) -> Option<(Seq<char>, Seq<char>)> {
    if window_active {
        match last_in_room(added, or_empty(m.active_room)) {
            Some(j) => Some((added[j].room, text_or_empty(added[j].id))),
            None => None,
        }
    } else {
        None
    }
}

/// All the actions of showing new messages once the messages `added` were
/// added, and whether the client went through them all.
pub open spec fn show_actions(m: AppModel, added: Seq<MessageV>, init: bool, window_active: bool) -> (Seq<RoomActionV>, bool) {
    let (acts, ok) = message_actions(m, added, init);
    if !ok {
        (acts, false)
    } else {
        let a1 = match read_mark(m, added, window_active) {
            Some((room, id)) => acts.push(RoomActionV::MarkAsRead(room, id)),
            None => acts,
        };
        (if init { a1.push(RoomActionV::ShowRoom) } else { a1 }, true)
    }
}

/// The position of the last message of `msgs` in room `room`.
fn last_in(msgs: &Vec<Message>, room: &str) -> (r: Option<usize>)
    ensures
        r matches Some(j) ==> last_in_room(messages_view(msgs@), room@) == Some(j as int) && j < msgs@.len(),
        r is None ==> last_in_room(messages_view(msgs@), room@) is None,
{
    let ghost ms = messages_view(msgs@);
    let mut j: usize = msgs.len();
    proof {
        assert(ms.take(j as int) =~= ms);
    }
    while j > 0
        invariant
            j <= msgs@.len(),
            ms == messages_view(msgs@),
            last_in_room(ms, room@) == last_in_room(ms.take(j as int), room@),
        decreases j,
    {
        proof {
            assert(ms.take(j as int).last() == msgs@[j - 1]@);
            assert(ms.take(j as int).drop_last() =~= ms.take(j - 1));
        }
        if str_eq(msgs[j - 1].room.as_str(), room) {
            return Some(j - 1);
        }
        j = j - 1;
    }
    None
}

impl AppModel {
    /// New messages join their rooms (see
    /// `add_new_messages`); then the user interface is asked to show and
    /// notify them (see `new_message_actions`), the last one added in the
    /// active room is marked as read when the window is active, and on a
    /// first filling the room is shown. The flag is false where the client
    /// stopped for want of a user name or id.
    pub fn show_room_messages(&mut self, newmsgs: Vec<Message>, init: bool, window_active: bool) -> (r: (Vec<RoomAction>, bool))
        requires
            old(self).wf(),
        ensures
            final(self).wf(),
            rooms_view(final(self).rooms@) == add_messages(rooms_view(old(self).rooms@), messages_view(newmsgs@)).0,
            *final(self) == (AppModel {
                rooms: final(self).rooms,
                last_viewed_messages: final(self).last_viewed_messages,
                ..*old(self)
            }),
            ({
                let m = AppModel { rooms: final(self).rooms, ..*old(self) };
                let added = add_messages(rooms_view(old(self).rooms@), messages_view(newmsgs@)).1;
                &&& (actions_view(r.0@), r.1) == show_actions(m, added, init, window_active)
                &&& pairs_view(final(self).last_viewed_messages@) == if r.1 {
                    match read_mark(m, added, window_active) {
                        Some((room, id)) => pairs_insert(pairs_view(old(self).last_viewed_messages@), room, id),
                        None => pairs_view(old(self).last_viewed_messages@),
                    }
                } else {
                    pairs_view(old(self).last_viewed_messages@)
                }
            }),
    {
        let added = self.add_new_messages(&newmsgs);
        let (mut acts, ok) = self.new_message_actions(&added, init);
        if !ok {
            return (acts, false);
        }
        let active = opt_or_empty(&self.active_room).to_owned();
        if window_active {
            if let Some(j) = last_in(&added, active.as_str()) {
                let mark = self.mark_as_read(&added[j], false, true);
                if let Some((room, id)) = mark {
                    acts.push(RoomAction::MarkAsRead(room, id));
                }
            }
        }
        let ghost mid = actions_view(acts@);
        if init {
            acts.push(RoomAction::ShowRoom);
        }
        proof {
            if init {
                assert(actions_view(acts@) =~= mid.push(RoomActionV::ShowRoom));
            }
        }
        (acts, true)
    }
}

/// How many messages older ones are loaded by.
pub const INITIAL_MESSAGES: usize = 40;

/// The actions that show `cnt` older messages of room messages `ms`, of which
/// `shown` are shown already: from the newest of them back.
pub open spec fn older_actions(m: AppModel, ms: Seq<MessageV>, shown: int, cnt: int) -> Seq<RoomActionV> {
    Seq::new(cnt as nat, |k: int| RoomActionV::AddRoomMessage {
        msg: ms[ms.len() - 1 - shown - k],
        top: true,
        prev: None,
        last: k == cnt - 1,
        first_new: spec_is_first_new(m, ms[ms.len() - 1 - shown - k]),
    })
}

/// What showing older messages of the active room asks.
pub open spec fn spec_load_more(m: AppModel) -> Seq<RoomActionV> {
    match room_index(m.rooms@, or_empty(m.active_room)) {
        Some(i) => {
            let ms = messages_view(m.rooms@[i].messages@);
            if m.shown_messages < ms.len() {
                let rest = ms.len() - m.shown_messages;
                let cnt = if rest < INITIAL_MESSAGES { rest } else { INITIAL_MESSAGES as int };
                older_actions(m, ms, m.shown_messages as int, cnt).push(RoomActionV::LoadMoreNormal)
            } else if ms.len() > 0 {
                seq![RoomActionV::GetMessageContext(ms[0])]
            } else {
                Seq::empty()
            }
        },
        None => Seq::empty(),
    }
}

/// Room messages `msgs` put before those of their rooms, the last first.
pub open spec fn prepend_one(rs: Seq<RoomV>, msg: MessageV) -> Seq<RoomV> {
    match room_index_v(rs, msg.room) {
        Some(i) => rs.update(i, RoomV { messages: seq![msg] + rs[i].messages, ..rs[i] }),
        None => rs,
    }
}

/// Older messages `msgs`, in order, put at the start of their rooms.
pub open spec fn prepend_messages(rs: Seq<RoomV>, msgs: Seq<MessageV>) -> Seq<RoomV>
    decreases msgs.len(),
{
    if msgs.len() == 0 {
        rs
    } else {
        prepend_one(prepend_messages(rs, msgs.drop_first()), msgs[0])
    }
}

/// The actions that show older messages `msgs` at the top of the history,
/// the newest first, each after the one before it.
pub open spec fn top_actions(m: AppModel, msgs: Seq<MessageV>) -> Seq<RoomActionV> {
    let n = msgs.len() as int;
    Seq::new(msgs.len(), |i: int| RoomActionV::AddRoomMessage {
        msg: msgs[n - 1 - i],
        top: true,
        prev: if n - 1 - i > 0 { Some(msgs[n - 2 - i]) } else { None },
        last: false,
        first_new: spec_is_first_new(m, msgs[n - 1 - i]),
    }).push(RoomActionV::LoadMoreNormal)
}

impl AppModel {
    /// The last message of the active room is
    /// marked as read, the window being active or not.
    pub fn mark_active_room_messages(&mut self) -> (r: Option<(String, String)>)
        ensures
            *final(self) == (AppModel { last_viewed_messages: final(self).last_viewed_messages, ..*old(self) }),
            match room_index(old(self).rooms@, or_empty(old(self).active_room)) {
                Some(i) if old(self).rooms@[i].messages@.len() > 0 => {
                    let last = old(self).rooms@[i].messages@.last();
                    r matches Some((room, id)) && room@ == last.room@ && id@ == or_empty(last.id)
                        && pairs_view(final(self).last_viewed_messages@) == pairs_insert(
                        pairs_view(old(self).last_viewed_messages@),
                        last.room@,
                        or_empty(last.id),
                    )
                },
                _ => r is None && final(self).last_viewed_messages == old(self).last_viewed_messages,
            },
    {
        let active = opt_or_empty(&self.active_room).to_owned();
        let i = match find_room(&self.rooms, active.as_str()) {
            Some(i) => i,
            None => return None,
        };
        let n = self.rooms[i].messages.len();
        if n == 0 {
            return None;
        }
        let last = self.rooms[i].messages[n - 1].duplicate();
        let r = self.mark_as_read(&last, true, false);
        r
    }

    /// Unless loading is under way, it starts: the next
    /// older messages of the active room not shown yet are shown, up to
    /// `INITIAL_MESSAGES` of them, newest first; with none left, the server is
    /// asked for the messages before the first one.
    pub fn load_more_messages(&mut self) -> (r: Vec<RoomAction>)
        ensures
            old(self).loading_more ==> r@.len() == 0 && *final(self) == *old(self),
            !old(self).loading_more ==> *final(self) == (AppModel { loading_more: true, ..*old(self) })
                && actions_view(r@) == spec_load_more(*old(self)),
    {
        if self.loading_more {
            return Vec::new();
        }
        self.loading_more = true;
        let mut acts: Vec<RoomAction> = Vec::new();
        proof {
            assert(actions_view(acts@) =~= Seq::<RoomActionV>::empty());
        }
        let active = opt_or_empty(&self.active_room).to_owned();
        let i = match find_room(&self.rooms, active.as_str()) {
            Some(i) => i,
            None => return acts,
        };
        let n = self.rooms[i].messages.len();
        let shown = self.shown_messages;
        let ghost ms = messages_view(self.rooms@[i as int].messages@);
        let ghost m0 = *old(self);
        if shown < n {
            let rest = n - shown;
            let cnt = if rest < INITIAL_MESSAGES { rest } else { INITIAL_MESSAGES };
            let mut k: usize = 0;
            while k < cnt
                invariant
                    k <= cnt <= rest,
                    rest == n - shown,
                    n == self.rooms@[i as int].messages@.len(),
                    i < self.rooms@.len(),
                    ms == messages_view(self.rooms@[i as int].messages@),
                    *self == (AppModel { loading_more: true, ..m0 }),
                    acts@.len() == k,
                    actions_view(acts@) == older_actions(m0, ms, shown as int, cnt as int).take(k as int),
                decreases cnt - k,
            {
                let idx = n - 1 - shown - k;
                let msg = self.rooms[i].messages[idx].duplicate();
                let first_new = self.is_first_new(&msg);
                let ghost before = actions_view(acts@);
                acts.push(RoomAction::AddRoomMessage { msg, top: true, prev: None, last: k + 1 == cnt, first_new });
                proof {
                    let older = older_actions(m0, ms, shown as int, cnt as int);
                    assert(ms[idx as int] == self.rooms@[i as int].messages@[idx as int]@);
                    assert(spec_is_first_new(*self, ms[idx as int]) == spec_is_first_new(m0, ms[idx as int]));
                    assert(acts@.len() == k + 1);
                    assert(actions_view(acts@)[k as int] == acts@[k as int]@);
                    assert(acts@[k as int]@ == RoomActionV::AddRoomMessage {
                        msg: ms[idx as int],
                        top: true,
                        prev: None,
                        last: k + 1 == cnt,
                        first_new: spec_is_first_new(m0, ms[idx as int]),
                    });
                    assert(older[k as int] == RoomActionV::AddRoomMessage {
                        msg: ms[idx as int],
                        top: true,
                        prev: None,
                        last: k + 1 == cnt,
                        first_new: spec_is_first_new(m0, ms[idx as int]),
                    });
                    assert(actions_view(acts@)[k as int] == older[k as int]);
                    assert(actions_view(acts@) =~= older.take(k + 1));
                }
                k = k + 1;
            }
            let ghost before = actions_view(acts@);
            acts.push(RoomAction::LoadMoreNormal);
            proof {
                let older = older_actions(m0, ms, shown as int, cnt as int);
                assert(older.take(cnt as int) =~= older);
                assert(actions_view(acts@) =~= before.push(RoomActionV::LoadMoreNormal));
            }
        } else if n > 0 {
            acts.push(RoomAction::GetMessageContext(self.rooms[i].messages[0].duplicate()));
            proof {
                assert(actions_view(acts@) =~= seq![RoomActionV::GetMessageContext(ms[0])]);
            }
        }
        acts
    }

    /// Loading older messages is over.
    pub fn load_more_normal(&mut self)
        ensures
            *final(self) == (AppModel { loading_more: false, ..*old(self) }),
    {
        self.loading_more = false;
    }

    /// Older messages `msgs` join the start of
    /// their rooms and are shown at the top of the history, newest first;
    /// with none, loading is over at once.
    pub fn show_room_messages_top(&mut self, msgs: Vec<Message>) -> (r: Vec<RoomAction>)
        requires
            old(self).wf(),
        ensures
            final(self).wf(),
            *final(self) == (AppModel { rooms: final(self).rooms, ..*old(self) }),
            rooms_view(final(self).rooms@) == prepend_messages(rooms_view(old(self).rooms@), messages_view(msgs@)),
            msgs@.len() == 0 ==> actions_view(r@) == seq![RoomActionV::LoadMoreNormal],
            msgs@.len() > 0 ==> actions_view(r@) == top_actions(*final(self), messages_view(msgs@)),
    {
        let mut acts: Vec<RoomAction> = Vec::new();
        if msgs.len() == 0 {
            acts.push(RoomAction::LoadMoreNormal);
            proof {
                assert(actions_view(acts@) =~= seq![RoomActionV::LoadMoreNormal]);
                assert(rooms_view(self.rooms@) == prepend_messages(rooms_view(old(self).rooms@), messages_view(msgs@)));
            }
            return acts;
        }
        let ghost mv = messages_view(msgs@);
        let mut k: usize = msgs.len();
        proof {
            assert(mv.skip(k as int) =~= Seq::<MessageV>::empty());
        }
        while k > 0
            invariant
                k <= msgs@.len(),
                mv == messages_view(msgs@),
                self.wf(),
                *self == (AppModel { rooms: self.rooms, ..*old(self) }),
                rooms_view(self.rooms@) == prepend_messages(rooms_view(old(self).rooms@), mv.skip(k as int)),
            decreases k,
        {
            let msg = &msgs[k - 1];
            proof {
                assert(mv.skip(k - 1).drop_first() =~= mv.skip(k as int));
                assert(mv.skip(k - 1)[0] == msg@);
                lemma_room_index_view(self.rooms@, msg.room@);
            }
            match find_room(&self.rooms, msg.room.as_str()) {
                Some(i) => {
                    let ghost before = self.rooms@;
                    self.rooms[i].messages.insert(0, msg.duplicate());
                    proof {
                        assert(self.rooms@[i as int]@.messages =~= seq![msg@] + before[i as int]@.messages);
                        assert(rooms_view(self.rooms@) =~= rooms_view(before).update(
                            i as int,
                            RoomV { messages: seq![msg@] + before[i as int]@.messages, ..before[i as int]@ },
                        ));
                        assert forall|r: int| 0 <= r < self.rooms@.len() implies crate::members::unique_uids(
                            crate::members::members_view(#[trigger] self.rooms@[r].members@),
                        ) by {
                            if r != i {
                                assert(self.rooms@[r] == before[r]);
                            }
                        }
                    }
                },
                None => {},
            }
            k = k - 1;
        }
        proof {
            assert(mv.skip(0) =~= mv);
        }
        let n = msgs.len();
        let mut i: usize = 0;
        proof {
            assert(actions_view(acts@) =~= Seq::<RoomActionV>::empty());
        }
        while i < n
            invariant
                i <= n,
                n == msgs@.len(),
                mv == messages_view(msgs@),
                acts@.len() == i,
                actions_view(acts@) == top_actions(*self, mv).take(i as int),
            decreases n - i,
        {
            let idx = n - 1 - i;
            let msg = msgs[idx].duplicate();
            let prev = if idx > 0 {
                Some(msgs[idx - 1].duplicate())
            } else {
                None
            };
            let first_new = self.is_first_new(&msg);
            let ghost before = actions_view(acts@);
            acts.push(RoomAction::AddRoomMessage { msg, top: true, prev, last: false, first_new });
            proof {
                let all = top_actions(*self, mv);
                assert(mv[idx as int] == msgs@[idx as int]@);
                if idx > 0 {
                    assert(mv[idx - 1] == msgs@[idx - 1]@);
                }
                assert(actions_view(acts@)[i as int] == all[i as int]);
                assert(actions_view(acts@) =~= all.take(i + 1));
            }
            i = i + 1;
        }
        let ghost before = actions_view(acts@);
        acts.push(RoomAction::LoadMoreNormal);
        proof {
            let all = top_actions(*self, mv);
            assert(all.take(n as int) =~= all.drop_last());
            assert(all.last() == RoomActionV::LoadMoreNormal);
            assert(all.drop_last().push(all.last()) =~= all);
            assert(actions_view(acts@) =~= before.push(RoomActionV::LoadMoreNormal));
            assert(actions_view(acts@) =~= all);
        }
        acts
    }
}

/// Looking a key up among pairs of strings is looking it up in their view.
proof fn lemma_pair_lookup_view(m: Seq<(String, String)>, key: Seq<char>)
    ensures
        match key_index(pairs_view(m), key) {
            Some(i) => pair_lookup(m, key) matches Some(v) && v@ == pairs_view(m)[i].1 && 0 <= i < m.len(),
            None => pair_lookup(m, key) is None,
        },
{
    let f = |p: (String, String)| (p.0@, p.1@);
    crate::seqs::lemma_first_index_map(m, f, text_key_is(key), crate::appop::pair_key_is::<String>(key));
    assert(m.map_values(f) =~= pairs_view(m));
    crate::seqs::lemma_first_index_found(pairs_view(m), text_key_is(key));
}

/// After `key` is given `value`, looking it up gives `value`.
proof fn lemma_pairs_insert_lookup(m: Seq<(Seq<char>, Seq<char>)>, key: Seq<char>, value: Seq<char>)
    ensures
        key_index(pairs_insert(m, key, value), key) matches Some(i) && pairs_insert(m, key, value)[i].1 == value,
{
    let p = text_key_is(key);
    crate::seqs::lemma_first_index_found(m, p);
    match key_index(m, key) {
        Some(i) => {
            let t = m.update(i, (key, value));
            assert forall|j: int| 0 <= j < i implies !p(#[trigger] t[j]) by {
                assert(t[j] == m[j]);
            }
            lemma_first_index(t, p, i);
        },
        None => {
            let t = m.push((key, value));
            assert forall|j: int| 0 <= j < m.len() implies !p(#[trigger] t[j]) by {
                assert(t[j] == m[j]);
            }
            lemma_first_index(t, p, m.len() as int);
        },
    }
}

/// A message marked as read (`mark_as_read`) is the last message the user
/// has seen in its room (`is_last_viewed` no longer says `No`), when it has an id.
pub proof fn lemma_marked_is_last_viewed(after: AppModel, before: AppModel, msg: MessageV)
    requires
        msg.id is Some,
        pairs_view(after.last_viewed_messages@) == pairs_insert(
            pairs_view(before.last_viewed_messages@),
            msg.room,
            msg.id->0,
        ),
    ensures
        spec_last_viewed(after, msg) != LastViewed::No,
{
    lemma_pairs_insert_lookup(pairs_view(before.last_viewed_messages@), msg.room, msg.id->0);
    lemma_pair_lookup_view(after.last_viewed_messages@, msg.room);
}

} // verus!
