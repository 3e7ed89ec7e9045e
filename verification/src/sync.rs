//! What the client makes of a sync response: the new messages of the joined
//! rooms, their unread counts, who is typing, and the changes that the other
//! timeline events make to the rooms.
use vstd::prelude::*;
use crate::backend::{RoomElement, RoomElementError, RoomMessagesError, element_kind, room_element, typing_all, typing_users};
use crate::json::{Json, JsonV, view_items, lemma_view_items, str_eq};
use crate::message::{valid_user_id, valid_event_id, messages_view, spec_messages_of, check_user_id, check_event_id};
use crate::types::{Event, EventV, Member, MemberV, Message, MessageV, Room, opt_view};
use crate::appop::{find_room, room_index};

verus! {

/// One joined room of a sync response, with what the client reads of it.
pub struct JoinedRoom {
    pub id: String,
    /// The room's timeline events.
    pub timeline: Vec<Json>,
    /// The room's ephemeral events.
    pub ephemeral: Vec<Json>,
    /// The unread highlighted notifications, when the server counted them.
    pub highlight_count: Option<u64>,
    /// The unread notifications, when the server counted them.
    pub notification_count: Option<u64>,
}

/// The messages of all joined rooms, room after room; `None` when one room
/// has an event that should be a message and does not parse.
pub open spec fn spec_room_messages(join: Seq<JoinedRoom>) -> Option<Seq<MessageV>>
    decreases join.len(),
{
    if join.len() == 0 {
        Some(Seq::empty())
    } else {
        match (
            spec_room_messages(join.drop_last()),
            spec_messages_of(join.last().id@, view_items(join.last().timeline@)),
        ) {
            (Some(a), Some(b)) => Some(a + b),
            _ => None,
        }
    }
}

/// The messages of the joined rooms.
pub fn room_messages(join: &Vec<JoinedRoom>) -> (r: Result<Vec<Message>, RoomMessagesError>)
    ensures
        r matches Ok(v) ==> spec_room_messages(join@) == Some(messages_view(v@)),
        r is Err <==> spec_room_messages(join@) is None,
{
    let mut out: Vec<Message> = Vec::new();
    let mut i: usize = 0;
    proof {
        assert(join@.take(0) =~= Seq::<JoinedRoom>::empty());
        assert(messages_view(out@) =~= Seq::<MessageV>::empty());
    }
    while i < join.len()
        invariant
            i <= join.len(),
            spec_room_messages(join@.take(i as int)) == Some(messages_view(out@)),
        decreases join.len() - i,
    {
        proof {
            assert(join@.take(i + 1).drop_last() =~= join@.take(i as int));
            assert(join@.take(i + 1).last() == join@[i as int]);
        }
        match Message::from_json_events_iter(join[i].id.as_str(), &join[i].timeline) {
            Ok(mut ms) => {
                let ghost before = out@;
                let ghost added = ms@;
                out.append(&mut ms);
                proof {
                    assert(messages_view(out@) =~= messages_view(before) + messages_view(added));
                }
            },
            Err(_) => {
                proof {
                    lemma_room_messages_fail(join@, i as int);
                }
                return Err(RoomMessagesError("invalid identifier in a room message".to_owned()));
            },
        }
        i = i + 1;
    }
    proof {
        assert(join@.take(join@.len() as int) =~= join@);
    }
    Ok(out)
}

/// Once one room's messages fail to parse, the messages of any longer prefix fail too.
proof fn lemma_room_messages_fail(join: Seq<JoinedRoom>, i: int)
    requires
        0 <= i < join.len(),
        spec_messages_of(join[i].id@, view_items(join[i].timeline@)) is None,
    ensures
        spec_room_messages(join) is None,
    decreases join.len(),
{
    if i < join.len() - 1 {
        assert(join.drop_last()[i] == join[i]);
        lemma_room_messages_fail(join.drop_last(), i);
    }
}

/// Each joined room with its unread counts, in order.
pub fn room_notifications(join: &Vec<JoinedRoom>) -> (r: Vec<(String, Option<u64>, Option<u64>)>)
    ensures
        r@.len() == join@.len(),
        forall|i: int| 0 <= i < join@.len() ==> (#[trigger] r@[i]).0@ == join@[i].id@
            && r@[i].1 == join@[i].highlight_count && r@[i].2 == join@[i].notification_count,
{
    let mut out: Vec<(String, Option<u64>, Option<u64>)> = Vec::new();
    let mut i: usize = 0;
    while i < join.len()
        invariant
            i <= join.len(),
            out@.len() == i,
            forall|k: int| 0 <= k < i ==> (#[trigger] out@[k]).0@ == join@[k].id@
                && out@[k].1 == join@[k].highlight_count && out@[k].2 == join@[k].notification_count,
        decreases join.len() - i,
    {
        out.push((join[i].id.clone(), join[i].highlight_count, join[i].notification_count));
        i = i + 1;
    }
    out
}

/// The member the client makes of a typing user.
pub open spec fn typing_member(u: Seq<char>) -> MemberV {
    MemberV { uid: u, alias: None, avatar: None }
}

/// For each joined room, in order, the members typing in it other than `user_id`.
pub fn typing_updates(join: &Vec<JoinedRoom>, user_id: &str) -> (r: Vec<(String, Vec<Member>)>)
    ensures
        r@.len() == join@.len(),
        forall|i: int| 0 <= i < join@.len() ==> (#[trigger] r@[i]).0@ == join@[i].id@
            && r@[i].1@.map_values(|m: Member| m@) == typing_all(view_items(join@[i].ephemeral@), user_id@).map_values(
                |u: Seq<char>| typing_member(u),
            ),
{
    let mut out: Vec<(String, Vec<Member>)> = Vec::new();
    let mut i: usize = 0;
    while i < join.len()
        invariant
            i <= join.len(),
            out@.len() == i,
            forall|k: int| 0 <= k < i ==> (#[trigger] out@[k]).0@ == join@[k].id@
                && out@[k].1@.map_values(|m: Member| m@) == typing_all(view_items(join@[k].ephemeral@), user_id@).map_values(
                    |u: Seq<char>| typing_member(u),
                ),
        decreases join.len() - i,
    {
        let typing = typing_users(&join[i].ephemeral, user_id);
        proof {
            assert(typing_all(view_items(join@[i as int].ephemeral@), user_id@).map_values(|u: Seq<char>| typing_member(u))
                =~= typing_all(view_items(join@[i as int].ephemeral@), user_id@).map_values(
                |u: Seq<char>| MemberV { uid: u, alias: None, avatar: None },
            ));
        }
        out.push((join[i].id.clone(), typing));
        i = i + 1;
    }
    out
}

/// The mathematical value of a [`RoomElement`].
pub enum RoomElementV {
    Name(Seq<char>, Seq<char>),
    Topic(Seq<char>, Seq<char>),
    NewAvatar(Seq<char>),
    MemberEvent(EventV),
    RemoveMessage(Seq<char>, Seq<char>),
}

impl View for RoomElement {
    type V = RoomElementV;

    open spec fn view(&self) -> RoomElementV {
        match self {
            RoomElement::Name(r, n) => RoomElementV::Name(r@, n@),
            RoomElement::Topic(r, t) => RoomElementV::Topic(r@, t@),
            RoomElement::NewAvatar(r) => RoomElementV::NewAvatar(r@),
            RoomElement::MemberEvent(e) => RoomElementV::MemberEvent(e@),
            RoomElement::RemoveMessage(r, id) => RoomElementV::RemoveMessage(r@, id@),
        }
    }
}

/// The change that event `e` makes to its room, for the types a sync handles.
pub open spec fn element_of(e: EventV) -> Option<RoomElementV> {
    let k = element_kind(e.stype);
    if k == 1 {
        Some(RoomElementV::Name(e.room, e.content.field("name"@).str_or(Seq::empty())))
    } else if k == 2 {
        Some(RoomElementV::Topic(e.room, e.content.field("topic"@).str_or(Seq::empty())))
    } else if k == 3 {
        Some(RoomElementV::NewAvatar(e.room))
    } else if k == 4 {
        Some(RoomElementV::MemberEvent(e))
    } else if k == 5 {
        Some(RoomElementV::RemoveMessage(e.room, e.redacts->0))
    } else {
        None
    }
}

/// The event a timeline entry `ev` of room `room` stands for; `None` when its
/// sender is no valid user id, or it names a redacted event by an invalid id.
pub open spec fn spec_sync_event(room: Seq<char>, ev: JsonV) -> Option<EventV> {
    let sender = ev.field("sender"@).str_or(Seq::empty());
    let redacts = ev.field("redacts"@).str_of();
    if !valid_user_id(sender) {
        None
    } else if redacts is Some && !valid_event_id(redacts->0) {
        None
    } else {
        Some(EventV {
            room,
            sender,
            content: ev.field("content"@),
            stype: ev.field("type"@).str_or(Seq::empty()),
            id: ev.field("id"@).str_or(Seq::empty()),
            redacts,
        })
    }
}

/// Where the reading of the other events stands: the changes so far, a
/// failure to read an event, or a redaction without the event it removes,
/// on which the client stops.
pub enum ElementsV {
    Elements(Seq<RoomElementV>),
    Failed,
    Aborts,
}

/// The elements after reading timeline entry `ev` of room `room`.
pub open spec fn element_step(st: ElementsV, room: Seq<char>, ev: JsonV) -> ElementsV {
    match st {
        ElementsV::Elements(acc) => {
            if ev.field("type"@).is_text("m.room.message"@) {
                st
            } else {
                match spec_sync_event(room, ev) {
                    None => ElementsV::Failed,
                    Some(e) => if e.stype == "m.room.redaction"@ && e.redacts is None {
                        ElementsV::Aborts
                    } else {
                        match element_of(e) {
                            Some(x) => ElementsV::Elements(acc.push(x)),
                            None => st,
                        }
                    },
                }
            }
        },
        _ => st,
    }
}

/// The elements after reading the entries `evs` of room `room`, from `st`.
pub open spec fn room_elements(st: ElementsV, room: Seq<char>, evs: Seq<JsonV>) -> ElementsV
    decreases evs.len(),
{
    if evs.len() == 0 {
        st
    } else {
        element_step(room_elements(st, room, evs.drop_last()), room, evs.last())
    }
}

/// The changes the timeline events of the joined rooms make, room after room.
pub open spec fn spec_other_elements(join: Seq<JoinedRoom>) -> ElementsV
    decreases join.len(),
{
    if join.len() == 0 {
        ElementsV::Elements(Seq::empty())
    } else {
        room_elements(
            spec_other_elements(join.drop_last()),
            join.last().id@,
            view_items(join.last().timeline@),
        )
    }
}

pub open spec fn elements_view(v: Seq<RoomElement>) -> Seq<RoomElementV> {
    v.map_values(|x: RoomElement| x@)
}

/// The event for timeline entry `ev` of room `room`, as `spec_sync_event` says.
fn sync_event_of(room: &str, ev: &Json) -> (r: Option<Event>)
    ensures
        r matches Some(e) ==> spec_sync_event(room@, ev.view()) == Some(e@),
        r is None ==> spec_sync_event(room@, ev.view()) is None,
{
    let sender = match ev.field_str("sender") {
        Some(s) => s.to_owned(),
        None => String::new(),
    };
    if !check_user_id(sender.as_str()) {
        return None;
    }
    let redacts = match ev.field_str("redacts") {
        Some(id) => {
            if !check_event_id(id) {
                return None;
            }
            Some(id.to_owned())
        },
        None => None,
    };
    let content = match ev.get("content") {
        Some(c) => c.duplicate(),
        None => Json::Null,
    };
    let stype = match ev.field_str("type") {
        Some(s) => s.to_owned(),
        None => String::new(),
    };
    let id = match ev.field_str("id") {
        Some(s) => s.to_owned(),
        None => String::new(),
    };
    Some(Event { room: room.to_owned(), sender, content, stype, id, redacts })
}

/// Reads the other events of the joined rooms: the changes, whether an event
/// could not be read, and whether a redaction named no event.
fn read_elements(join: &Vec<JoinedRoom>) -> (r: (Vec<RoomElement>, bool, bool))
    ensures
        match spec_other_elements(join@) {
            ElementsV::Elements(acc) => !r.1 && !r.2 && elements_view(r.0@) == acc,
            ElementsV::Failed => r.1 && !r.2,
            ElementsV::Aborts => r.2 && !r.1,
        },
{
    let mut out: Vec<RoomElement> = Vec::new();
    let mut failed = false;
    let mut aborted = false;
    let mut i: usize = 0;
    proof {
        assert(join@.take(0) =~= Seq::<JoinedRoom>::empty());
        assert(elements_view(out@) =~= Seq::<RoomElementV>::empty());
    }
    while i < join.len()
        invariant
            i <= join.len(),
            match spec_other_elements(join@.take(i as int)) {
                ElementsV::Elements(acc) => !failed && !aborted && elements_view(out@) == acc,
                ElementsV::Failed => failed && !aborted,
                ElementsV::Aborts => aborted && !failed,
            },
        decreases join.len() - i,
    {
        proof {
            assert(join@.take(i + 1).drop_last() =~= join@.take(i as int));
            assert(join@.take(i + 1).last() == join@[i as int]);
        }
        let room = join[i].id.as_str();
        let evs = &join[i].timeline;
        let ghost items = view_items(evs@);
        let ghost start = spec_other_elements(join@.take(i as int));
        proof {
            lemma_view_items(evs@);
            assert(items.take(0) =~= Seq::<JsonV>::empty());
        }
        let mut j: usize = 0;
        while j < evs.len()
            invariant
                j <= evs.len(),
                items == view_items(evs@),
                items.len() == evs@.len(),
                forall|k: int| 0 <= k < evs@.len() ==> #[trigger] items[k] == evs@[k].view(),
                match room_elements(start, room@, items.take(j as int)) {
                    ElementsV::Elements(acc) => !failed && !aborted && elements_view(out@) == acc,
                    ElementsV::Failed => failed && !aborted,
                    ElementsV::Aborts => aborted && !failed,
                },
            decreases evs.len() - j,
        {
            proof {
                assert(items.take(j + 1).drop_last() =~= items.take(j as int));
                assert(items.take(j + 1).last() == items[j as int]);
            }
            let ev = &evs[j];
            if !failed && !aborted && !ev.field_is("type", "m.room.message") {
                match sync_event_of(room, ev) {
                    None => {
                        failed = true;
                    },
                    Some(e) => {
                        if str_eq(e.stype.as_str(), "m.room.redaction") && e.redacts.is_none() {
                            aborted = true;
                        } else {
                            let ghost ev_view = e@;
                            let ghost before = out@;
                            match room_element(e) {
                                Some(x) => {
                                    out.push(x);
                                    proof {
                                        assert(elements_view(out@) =~= elements_view(before).push(
                                            element_of(ev_view)->0,
                                        ));
                                    }
                                },
                                None => {},
                            }
                        }
                    },
                }
            }
            j = j + 1;
        }
        proof {
            assert(items.take(items.len() as int) =~= items);
        }
        i = i + 1;
    }
    proof {
        assert(join@.take(join@.len() as int) =~= join@);
    }
    (out, failed, aborted)
}

/// The changes that the timeline events other than messages make to
/// the joined rooms, in order; an error when one of them cannot be read.
pub fn other_elements(join: &Vec<JoinedRoom>) -> (r: Result<Vec<RoomElement>, RoomElementError>)
    requires
        !(spec_other_elements(join@) is Aborts),
    ensures
        r matches Ok(v) ==> spec_other_elements(join@) == ElementsV::Elements(elements_view(v@)),
        r is Err <==> spec_other_elements(join@) is Failed,
{
    let (out, failed, _aborted) = read_elements(join);
    if failed {
        Err(RoomElementError("invalid identifier in a room event".to_owned()))
    } else {
        Ok(out)
    }
}

/// What a sync with a `since` token brings.
pub struct SyncUpdate {
    pub room_messages: Result<Vec<Message>, RoomMessagesError>,
    pub room_notifications: Vec<(String, Option<u64>, Option<u64>)>,
    /// For each joined room, the members typing in it.
    pub typing: Vec<(String, Vec<Member>)>,
    pub other: Result<Vec<RoomElement>, RoomElementError>,
    pub next_batch: String,
}

/// A sync with a `since` token: what the response brings for the joined
/// rooms `join`; `None` where a redaction names no event, on which the client
/// stops.
pub fn sync_update(join: &Vec<JoinedRoom>, user_id: &str, next_batch: String) -> (r: Option<SyncUpdate>)
    ensures
        r is None <==> spec_other_elements(join@) is Aborts,
        r matches Some(u) ==> {
            &&& (u.room_messages matches Ok(v) ==> spec_room_messages(join@) == Some(messages_view(v@)))
            &&& (u.room_messages is Err <==> spec_room_messages(join@) is None)
            &&& u.room_notifications@.len() == join@.len()
            &&& (forall|i: int| 0 <= i < join@.len() ==> (#[trigger] u.room_notifications@[i]).0@ == join@[i].id@
                && u.room_notifications@[i].1 == join@[i].highlight_count
                && u.room_notifications@[i].2 == join@[i].notification_count)
            &&& u.typing@.len() == join@.len()
            &&& (forall|i: int| 0 <= i < join@.len() ==> (#[trigger] u.typing@[i]).0@ == join@[i].id@
                && u.typing@[i].1@.map_values(|m: Member| m@) == typing_all(view_items(join@[i].ephemeral@), user_id@).map_values(
                    |v: Seq<char>| typing_member(v),
                ))
            &&& (u.other matches Ok(v) ==> spec_other_elements(join@) == ElementsV::Elements(elements_view(v@)))
            &&& (u.other is Err <==> spec_other_elements(join@) is Failed)
            &&& u.next_batch@ == next_batch@
        },
{
    let (elements, failed, aborted) = read_elements(join);
    if aborted {
        return None;
    }
    let other = if failed {
        Err(RoomElementError("invalid identifier in a room event".to_owned()))
    } else {
        Ok(elements)
    };
    Some(SyncUpdate {
        room_messages: room_messages(join),
        room_notifications: room_notifications(join),
        typing: typing_updates(join, user_id),
        other,
        next_batch,
    })
}

/// A sync without a `since` token: the position of the room to open, the
/// one with id `join_to_room` when the rooms hold it.
pub fn default_room(rooms: &Vec<Room>, join_to_room: Option<&str>) -> (r: Option<usize>)
    ensures
        join_to_room is None ==> r is None,
        join_to_room matches Some(id) ==> match room_index(rooms@, id@) {
            Some(k) => r == Some(k as usize),
            None => r is None,
        },
{
    match join_to_room {
        Some(id) => find_room(rooms, id),
        None => None,
    }
}

} // verus!
