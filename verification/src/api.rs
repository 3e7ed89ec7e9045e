//! Reading the Matrix server's JSON: room state, members, notifications and
//! the events of a sync response.
use vstd::prelude::*;
use crate::json::{Json, JsonV, view_items, view_members, lemma_view_items, lemma_view_members};
use crate::seqs::{first_index, lemma_first_index, lemma_filter_step};
use crate::text::{concat, i64_to_string};
use crate::types::{Member, MemberV, Event, EventV, Error, opt_view};

verus! {

/// Events whose `type` is `t`.
pub open spec fn has_type(t: Seq<char>) -> spec_fn(JsonV) -> bool {
    |x: JsonV| x.field("type"@).is_text(t)
}

/// The string `content[field]` of the first event of type `t`, or the
/// empty string when there is none, it is no string, or `events` is no array.
pub open spec fn spec_evc(events: JsonV, t: Seq<char>, field: Seq<char>) -> Seq<char> {
    match events {
        JsonV::Array(arr) => match first_index(arr, has_type(t)) {
            Some(i) => arr[i].field("content"@).field(field).str_or(Seq::empty()),
            None => Seq::empty(),
        },
        _ => Seq::empty(),
    }
}

/// `Some(s)` as an owned string, or the empty string.
fn owned_or_empty(s: Option<&str>) -> (r: String)
    ensures
        s matches Some(t) ==> r@ == t@,
        s is None ==> r@ == Seq::<char>::empty(),
{
    match s {
        Some(t) => t.to_owned(),
        None => String::new(),
    }
}

/// `value[k1][k2].as_str()`.
pub fn path_str<'a>(v: &'a Json, k1: &str, k2: &str) -> (r: Option<&'a str>)
    ensures
        r matches Some(s) ==> v.view().field(k1@).field(k2@).str_of() == Some(s@),
        r is None ==> v.view().field(k1@).field(k2@).str_of() is None,
{
    match v.get(k1) {
        Some(c) => c.field_str(k2),
        None => None,
    }
}

/// `value[k1][k2] == t` for a string `t`.
pub fn path_is(v: &Json, k1: &str, k2: &str, t: &str) -> (r: bool)
    ensures
        r == v.view().field(k1@).field(k2@).is_text(t@),
{
    match path_str(v, k1, k2) {
        Some(s) => crate::json::str_eq(s, t),
        None => false,
    }
}

/// The value of `field` in the content of the first event of type `t`.
pub fn evc(events: &Json, t: &str, field: &str) -> (r: String)
    ensures
        r@ == spec_evc(events.view(), t@, field@),
{
    match events.as_array() {
        Some(arr) => {
            let ghost items = view_items(arr@);
            proof {
                lemma_view_items(arr@);
            }
            let mut i: usize = 0;
            while i < arr.len()
                invariant
                    i <= arr.len(),
                    items == view_items(arr@),
                    items.len() == arr@.len(),
                    forall|k: int| 0 <= k < arr@.len() ==> #[trigger] items[k] == arr@[k].view(),
                    events.view() == JsonV::Array(items),
                    forall|j: int| 0 <= j < i ==> !(#[trigger] has_type(t@)(items[j])),
                decreases arr.len() - i,
            {
                if arr[i].field_is("type", t) {
                    proof {
                        lemma_first_index(items, has_type(t@), i as int);
                    }
                    return owned_or_empty(path_str(&arr[i], "content", field));
                }
                i = i + 1;
            }
            proof {
                lemma_first_index(items, has_type(t@), items.len() as int);
            }
            String::new()
        },
        None => String::new(),
    }
}


/// State events that name a member other than `userid`: one who joined and
/// did not send the event themselves, or one invited whose state key is not `userid`.
pub open spec fn other_member(userid: Seq<char>) -> spec_fn(JsonV) -> bool {
    |x: JsonV|
        x.field("type"@).is_text("m.room.member"@) && ((x.field("content"@).field(
            "membership"@,
        ).is_text("join"@) && !x.field("sender"@).is_text(userid)) || (x.field(
            "content"@,
        ).field("membership"@).is_text("invite"@) && !x.field("state_key"@).is_text(userid)))
}

/// The name shown for a member event: its display name, else its sender, else `NONAMED`.
pub open spec fn member_event_name(x: JsonV) -> Seq<char> {
    x.field("content"@).field("displayname"@).str_or(x.field("sender"@).str_or("NONAMED"@))
}

/// The name computed from the members when the room has neither a name nor
/// an alias. With exactly two other members it is the first one's name and
/// " and " with nothing after it: the second name is looked up one member
/// too far on, where there is none, and comes out empty.
pub open spec fn members_room_name(ms: Seq<JsonV>) -> Seq<char> {
    if ms.len() == 0 {
        "EMPTY ROOM"@
    } else if ms.len() == 1 {
        member_event_name(ms[0])
    } else if ms.len() == 2 {
        // the second name is taken one member too far on, where there is none
        member_event_name(ms[0]) + " and "@
    } else {
        member_event_name(ms[0]) + " and Others"@
    }
}

/// The room name from its state events: the first `m.room.name` event's
/// non-empty name, else the first `m.room.canonical_alias` event's alias,
/// else a name made from the other members.
pub open spec fn name_from_state(evs: Seq<JsonV>, userid: Seq<char>) -> Seq<char> {
    let n = first_index(evs, has_type("m.room.name"@));
    let a = first_index(evs, has_type("m.room.canonical_alias"@));
    if n is Some && evs[n->0].field("content"@).field("name"@).str_of() is Some
        && evs[n->0].field("content"@).field("name"@).str_of()->0.len() > 0 {
        evs[n->0].field("content"@).field("name"@).str_of()->0
    } else if a is Some && evs[a->0].field("content"@).field("alias"@).str_of() is Some {
        evs[a->0].field("content"@).field("alias"@).str_of()->0
    } else {
        members_room_name(evs.filter(other_member(userid)))
    }
}

/// `None` stands for the error of a state that is no array.
pub open spec fn spec_room_name(roomst: JsonV, userid: Seq<char>) -> Option<Seq<char>> {
    match roomst {
        JsonV::Array(evs) => Some(name_from_state(evs, userid)),
        _ => None,
    }
}

/// The index of the first event of type `t` in `arr`, if any.
fn find_type(arr: &Vec<Json>, t: &str) -> (r: Option<usize>)
    ensures
        r matches Some(i) ==> first_index(view_items(arr@), has_type(t@)) == Some(i as int) && i
            < arr.len(),
        r is None ==> first_index(view_items(arr@), has_type(t@)) is None,
{
    let ghost items = view_items(arr@);
    proof {
        lemma_view_items(arr@);
    }
    let mut i: usize = 0;
    while i < arr.len()
        invariant
            i <= arr.len(),
            items == view_items(arr@),
            items.len() == arr@.len(),
            forall|k: int| 0 <= k < arr@.len() ==> #[trigger] items[k] == arr@[k].view(),
            forall|j: int| 0 <= j < i ==> !(#[trigger] has_type(t@)(items[j])),
        decreases arr.len() - i,
    {
        if arr[i].field_is("type", t) {
            proof {
                lemma_first_index(items, has_type(t@), i as int);
            }
            return Some(i);
        }
        i = i + 1;
    }
    proof {
        lemma_first_index(items, has_type(t@), items.len() as int);
    }
    None
}

/// Whether a state event names a member other than `userid`.
fn is_other_member(x: &Json, userid: &str) -> (r: bool)
    ensures
        r == other_member(userid@)(x.view()),
{
    let membership_join = match x.get("content") {
        Some(c) => c.field_is("membership", "join"),
        None => false,
    };
    let membership_invite = match x.get("content") {
        Some(c) => c.field_is("membership", "invite"),
        None => false,
    };
    x.field_is("type", "m.room.member") && ((membership_join && !x.field_is("sender", userid)) || (
    membership_invite && !x.field_is("state_key", userid)))
}

/// The name shown for a member event.
fn member_name(x: &Json) -> (r: &str)
    ensures
        r@ == member_event_name(x.view()),
{
    let sender = match x.field_str("sender") {
        Some(s) => s,
        None => "NONAMED",
    };
    match path_str(x, "content", "displayname") {
        Some(s) => s,
        None => sender,
    }
}

/// The name to show for a room, from its state events (see
/// [`name_from_state`]; with two other members it ends in " and ").
pub fn calculate_room_name(roomst: &Json, userid: &str) -> (r: Result<String, Error>)
    ensures
        r matches Ok(s) ==> spec_room_name(roomst.view(), userid@) == Some(s@),
        r is Err ==> spec_room_name(roomst.view(), userid@) is None && r == Err::<String, Error>(
            Error::BackendError,
        ),
{
    let events = match roomst.as_array() {
        Some(a) => a,
        None => return Err(Error::BackendError),
    };
    let ghost items = view_items(events@);
    proof {
        lemma_view_items(events@);
    }
    if let Some(n) = find_type(events, "m.room.name") {
        if let Some(name) = path_str(&events[n], "content", "name") {
            if !name.is_empty() {
                return Ok(name.to_owned());
            }
        }
    }
    if let Some(a) = find_type(events, "m.room.canonical_alias") {
        if let Some(alias) = path_str(&events[a], "content", "alias") {
            return Ok(alias.to_owned());
        }
    }
    let ghost p = other_member(userid@);
    let mut count: usize = 0;
    let mut first: Option<&str> = None;
    let mut i: usize = 0;
    while i < events.len()
        invariant
            i <= events.len(),
            items == view_items(events@),
            items.len() == events@.len(),
            forall|k: int| 0 <= k < events@.len() ==> #[trigger] items[k] == events@[k].view(),
            p == other_member(userid@),
            count == items.take(i as int).filter(p).len(),
            count <= i,
            count == 0 <==> first is None,
            first matches Some(f) ==> f@ == member_event_name(items.take(i as int).filter(p)[0]),
        decreases events.len() - i,
    {
        proof {
            lemma_filter_step(items, p, i as int);
        }
        if is_other_member(&events[i], userid) {
            if count == 0 {
                first = Some(member_name(&events[i]));
            }
            count = count + 1;
        }
        i = i + 1;
    }
    proof {
        assert(items.take(items.len() as int) =~= items);
    }
    let name = match first {
        None => "EMPTY ROOM".to_owned(),
        Some(m1) => {
            if count == 1 {
                m1.to_owned()
            } else if count == 2 {
                concat(m1, " and ")
            } else {
                concat(m1, " and Others")
            }
        },
    };
    Ok(name)
}

/// A joined member from a member event, `None` for any other membership.
pub open spec fn spec_room_member(msg: JsonV) -> Option<MemberV> {
    if msg.field("content"@).field("membership"@).str_of() == Some("join"@) {
        Some(
            MemberV {
                uid: msg.field("sender"@).str_or(Seq::empty()),
                alias: msg.field("content"@).field("displayname"@).str_of(),
                avatar: msg.field("content"@).field("avatar_url"@).str_of(),
            },
        )
    } else {
        None
    }
}

fn owned(s: Option<&str>) -> (r: Option<String>)
    ensures
        s matches Some(t) ==> r matches Some(u) && u@ == t@,
        s is None ==> r is None,
{
    match s {
        Some(t) => Some(t.to_owned()),
        None => None,
    }
}

/// The member a `m.room.member` event describes, if it joined.
pub fn parse_room_member(msg: &Json) -> (r: Option<Member>)
    ensures
        r matches Some(m) ==> spec_room_member(msg.view()) == Some(m@),
        r is None ==> spec_room_member(msg.view()) is None,
{
    let sender = owned_or_empty(msg.field_str("sender"));
    let membership = path_str(msg, "content", "membership");
    let joined = match membership {
        Some(m) => crate::json::str_eq(m, "join"),
        None => false,
    };
    if !joined {
        return None;
    }
    Some(
        Member {
            uid: sender,
            alias: owned(path_str(msg, "content", "displayname")),
            avatar: owned(path_str(msg, "content", "avatar_url")),
        },
    )
}


/// The notification or highlight count of a joined room, as `i32`, 0 when absent.
pub open spec fn unread_count(room: JsonV, which: Seq<char>) -> i32 {
    match room.field("unread_notifications"@).field(which).i64_of() {
        Some(n) => n as i64 as i32,
        None => 0,
    }
}

/// For each joined room, in order, its id and
/// its notification and highlight counts; `None` where `rooms.join` is no object.
pub open spec fn spec_rooms_notifies(r: JsonV) -> Option<Seq<(Seq<char>, i32, i32)>> {
    match r.field("rooms"@).field("join"@) {
        JsonV::Object(m) => Some(
            m.map_values(
                |kv: (Seq<char>, JsonV)|
                    (
                        kv.0,
                        unread_count(kv.1, "notification_count"@),
                        unread_count(kv.1, "highlight_count"@),
                    ),
            ),
        ),
        _ => None,
    }
}

pub open spec fn notifies_view(v: Seq<(String, i32, i32)>) -> Seq<(Seq<char>, i32, i32)> {
    v.map_values(|t: (String, i32, i32)| (t.0@, t.1, t.2))
}

/// `room[unread_notifications][which]` as `i32`, 0 when absent.
pub(crate) fn unread(room: &Json, which: &str) -> (r: i32)
    ensures
        r == unread_count(room.view(), which@),
{
    let n = match room.get("unread_notifications") {
        Some(u) => match u.get(which) {
            Some(c) => c.as_i64(),
            None => None,
        },
        None => None,
    };
    match n {
        Some(n) => n as i32,
        None => 0,
    }
}

/// `rooms.join` of a sync response, if it is an object.
fn joined_rooms(r: &Json) -> (m: Option<&Vec<(String, Json)>>)
    ensures
        m matches Some(m) ==> r.view().field("rooms"@).field("join"@) == JsonV::Object(
            view_members(m@),
        ),
        m is None ==> !(r.view().field("rooms"@).field("join"@) is Object),
{
    match r.get("rooms") {
        Some(rooms) => match rooms.get("join") {
            Some(j) => j.as_object(),
            None => None,
        },
        None => None,
    }
}

/// The id and the notification and highlight counts of each joined room.
pub fn get_rooms_notifies_from_json(r: &Json) -> (res: Result<Vec<(String, i32, i32)>, Error>)
    ensures
        res matches Ok(v) ==> spec_rooms_notifies(r.view()) == Some(notifies_view(v@)),
        res is Err ==> spec_rooms_notifies(r.view()) is None && res == Err::<
            Vec<(String, i32, i32)>,
            Error,
        >(Error::BackendError),
{
    let join = match joined_rooms(r) {
        Some(j) => j,
        None => return Err(Error::BackendError),
    };
    let ghost mv = view_members(join@);
    proof {
        lemma_view_members(join@);
    }
    let mut out: Vec<(String, i32, i32)> = Vec::new();
    let mut i: usize = 0;
    while i < join.len()
        invariant
            i <= join.len(),
            mv == view_members(join@),
            mv.len() == join@.len(),
            forall|k: int| 0 <= k < join@.len() ==> #[trigger] mv[k] == (join@[k].0@, join@[k].1.view()),
            out@.len() == i,
            forall|k: int|
                0 <= k < i ==> #[trigger] out@[k] == (
                    out@[k].0,
                    unread_count(mv[k].1, "notification_count"@),
                    unread_count(mv[k].1, "highlight_count"@),
                ) && out@[k].0@ == mv[k].0,
        decreases join.len() - i,
    {
        let n = unread(&join[i].1, "notification_count");
        let h = unread(&join[i].1, "highlight_count");
        out.push((join[i].0.clone(), n, h));
        i = i + 1;
    }
    proof {
        let f = |kv: (Seq<char>, JsonV)|
            (kv.0, unread_count(kv.1, "notification_count"@), unread_count(kv.1, "highlight_count"@));
        assert(notifies_view(out@) =~= mv.map_values(f));
    }
    Ok(out)
}

/// Timeline events that are not messages.
pub open spec fn not_message() -> spec_fn(JsonV) -> bool {
    |x: JsonV| !x.field("type"@).is_text("m.room.message"@)
}

/// The event a sync response's timeline entry `ev` of room `room` stands for.
pub open spec fn sync_event(room: Seq<char>, ev: JsonV) -> EventV {
    EventV {
        room,
        sender: ev.field("sender"@).str_or(Seq::empty()),
        content: ev.field("content"@),
        stype: ev.field("type"@).str_or(Seq::empty()),
        id: ev.field("id"@).str_or(Seq::empty()),
        redacts: None,
    }
}

/// The non-message events of one room's timeline, in order.
pub open spec fn room_sync_events(room: Seq<char>, evs: Seq<JsonV>) -> Seq<EventV>
    decreases evs.len(),
{
    if evs.len() == 0 {
        Seq::empty()
    } else {
        (if not_message()(evs[0]) {
            seq![sync_event(room, evs[0])]
        } else {
            Seq::empty()
        }) + room_sync_events(room, evs.drop_first())
    }
}

/// The non-message events of the joined rooms, room after room, up to the
/// first room whose timeline has no event array.
pub open spec fn collect_sync_events(join: Seq<(Seq<char>, JsonV)>) -> Seq<EventV>
    decreases join.len(),
{
    if join.len() == 0 {
        Seq::empty()
    } else {
        match join[0].1.field("timeline"@).field("events"@) {
            JsonV::Array(evs) => room_sync_events(join[0].0, evs) + collect_sync_events(
                join.drop_first(),
            ),
            _ => Seq::empty(),
        }
    }
}

/// `parse_sync_events`; `None` where `rooms.join` is no object.
pub open spec fn spec_sync_events(r: JsonV) -> Option<Seq<EventV>> {
    match r.field("rooms"@).field("join"@) {
        JsonV::Object(m) => Some(collect_sync_events(m)),
        _ => None,
    }
}

pub open spec fn events_view(v: Seq<Event>) -> Seq<EventV> {
    v.map_values(|e: Event| e@)
}

/// The event for the timeline entry `ev` of room `room`.
fn make_sync_event(room: &String, ev: &Json) -> (e: Event)
    ensures
        e@ == sync_event(room@, ev.view()),
{
    let content = match ev.get("content") {
        Some(c) => c.duplicate(),
        None => Json::Null,
    };
    Event {
        room: room.clone(),
        sender: owned_or_empty(ev.field_str("sender")),
        content,
        stype: owned_or_empty(ev.field_str("type")),
        id: owned_or_empty(ev.field_str("id")),
        redacts: None,
    }
}

/// The events of a sync response that are not messages.
pub fn parse_sync_events(r: &Json) -> (res: Result<Vec<Event>, Error>)
    ensures
        res matches Ok(v) ==> spec_sync_events(r.view()) == Some(events_view(v@)),
        res is Err ==> spec_sync_events(r.view()) is None && res == Err::<Vec<Event>, Error>(
            Error::BackendError,
        ),
{
    let join = match joined_rooms(r) {
        Some(j) => j,
        None => return Err(Error::BackendError),
    };
    let ghost mv = view_members(join@);
    proof {
        lemma_view_members(join@);
    }
    let mut evs: Vec<Event> = Vec::new();
    let mut i: usize = 0;
    proof {
        assert(mv.subrange(0, mv.len() as int) =~= mv);
        assert(events_view(evs@) =~= Seq::<EventV>::empty());
        assert(events_view(evs@) + collect_sync_events(mv) =~= collect_sync_events(mv));
    }
    while i < join.len()
        invariant
            i <= join.len(),
            mv == view_members(join@),
            mv.len() == join@.len(),
            forall|k: int| 0 <= k < join@.len() ==> #[trigger] mv[k] == (join@[k].0@, join@[k].1.view()),
            r.view().field("rooms"@).field("join"@) == JsonV::Object(mv),
            collect_sync_events(mv) == events_view(evs@) + collect_sync_events(
                mv.subrange(i as int, mv.len() as int),
            ),
        decreases join.len() - i,
    {
        let ghost rest = mv.subrange(i as int, mv.len() as int);
        proof {
            assert(rest[0] == mv[i as int]);
            assert(rest.drop_first() =~= mv.subrange(i + 1, mv.len() as int));
        }
        let timeline = match join[i].1.get("timeline") {
            Some(t) => match t.get("events") {
                Some(e) => e.as_array(),
                None => None,
            },
            None => None,
        };
        let tl = match timeline {
            Some(tl) => tl,
            None => {
                proof {
                    assert(mv[i as int] == (join@[i as int].0@, join@[i as int].1.view()));
                    assert(!(rest[0].1.field("timeline"@).field("events"@) is Array));
                    assert(collect_sync_events(rest) == Seq::<EventV>::empty());
                    assert(events_view(evs@) + Seq::<EventV>::empty() =~= events_view(evs@));
                }
                return Ok(evs);
            },
        };
        let ghost items = view_items(tl@);
        let ghost room = mv[i as int].0;
        proof {
            lemma_view_items(tl@);
        }
        let ghost before = events_view(evs@);
        let mut j: usize = 0;
        proof {
            assert(items.subrange(0, items.len() as int) =~= items);
            assert(events_view(evs@).subrange(before.len() as int, events_view(evs@).len() as int) =~= Seq::<EventV>::empty());
            assert(events_view(evs@).subrange(0, before.len() as int) =~= before);
            assert(Seq::<EventV>::empty() + room_sync_events(room, items) =~= room_sync_events(room, items));
        }
        while j < tl.len()
            invariant
                j <= tl.len(),
                i < join.len(),
                items == view_items(tl@),
                items.len() == tl@.len(),
                forall|k: int| 0 <= k < tl@.len() ==> #[trigger] items[k] == tl@[k].view(),
                room == join@[i as int].0@,
                room_sync_events(room, items) == events_view(evs@).subrange(
                    before.len() as int,
                    events_view(evs@).len() as int,
                ) + room_sync_events(room, items.subrange(j as int, items.len() as int)),
                events_view(evs@).len() >= before.len(),
                events_view(evs@).subrange(0, before.len() as int) == before,
            decreases tl.len() - j,
        {
            let ghost irest = items.subrange(j as int, items.len() as int);
            let ghost old_evs = events_view(evs@);
            proof {
                assert(irest[0] == items[j as int]);
                assert(irest.drop_first() =~= items.subrange(j + 1, items.len() as int));
            }
            if !tl[j].field_is("type", "m.room.message") {
                let e = make_sync_event(&join[i].0, &tl[j]);
                evs.push(e);
                proof {
                    assert(events_view(evs@) =~= old_evs.push(sync_event(room, items[j as int])));
                    assert(events_view(evs@).subrange(before.len() as int, events_view(evs@).len() as int)
                        =~= old_evs.subrange(before.len() as int, old_evs.len() as int).push(
                        sync_event(room, items[j as int])));
                    assert(events_view(evs@).subrange(0, before.len() as int) =~= old_evs.subrange(0, before.len() as int));
                }
            }
            j = j + 1;
        }
        proof {
            assert(items.subrange(tl.len() as int, items.len() as int) =~= Seq::<JsonV>::empty());
            assert(events_view(evs@) =~= before + events_view(evs@).subrange(before.len() as int, events_view(evs@).len() as int));
        }
        i = i + 1;
    }
    proof {
        assert(mv.subrange(mv.len() as int, mv.len() as int) =~= Seq::<(Seq<char>, JsonV)>::empty());
        assert(events_view(evs@) + Seq::<EventV>::empty() =~= events_view(evs@));
    }
    Ok(evs)
}

} // verus!
