//! The room list of a first sync: joined rooms with their names, messages and
//! members, the rooms left, and the invitations.
use vstd::prelude::*;
use crate::api::{calculate_room_name, evc, parse_room_member, spec_evc, spec_room_member, spec_room_name, unread_count, unread};
use crate::json::{Json, JsonV, str_eq, view_items, view_members, lemma_view_items, lemma_view_members};
use crate::members::{insert_member, member_map, members_view, unique_uids};
use crate::message::{local_now, messages_view};
use crate::seqs::{first_index, lemma_first_index};
use crate::types::{Error, LocalTime, Member, MemberV, Message, MessageV, Room, RoomV, opt_view, receipt_view};
use crate::widgets::div_trunc;

verus! {

/// What `chrono` gives for the instant `d` whole seconds before the instant
/// `secs` seconds and `nanos` nanoseconds after the epoch
/// (`DateTime::checked_sub_signed`): `None` where that leaves chrono's range.
pub uninterp spec fn seconds_earlier(secs: i64, nanos: u32, d: i64) -> Option<(i64, u32)>;

/// `DateTime::checked_sub_signed` with a whole number of seconds. The instant
/// it gives is named by [`seconds_earlier`]; outside a leap second it is `d`
/// seconds earlier with the same nanoseconds. Where chrono's range ends is not
/// stated.
#[verifier::external_body]
fn minus_seconds(t: &LocalTime, d: i64) -> (r: Option<LocalTime>)
    requires
        -(i64::MAX / 1000) <= d <= i64::MAX / 1000,
    ensures
        r matches Some(u) ==> seconds_earlier(t.secs, t.nanos, d) == Some((u.secs, u.nanos)),
        r is None ==> seconds_earlier(t.secs, t.nanos, d) is None,
        t.nanos < 1_000_000_000 ==> (r matches Some(u) ==> u.secs == t.secs - d && u.nanos == t.nanos),
{
    let start = chrono::DateTime::<chrono::Utc>::from_timestamp(t.secs, t.nanos)?;
    let moved = start.checked_sub_signed(chrono::TimeDelta::seconds(d))?;
    Some(LocalTime { secs: moved.timestamp(), nanos: moved.timestamp_subsec_nanos() })
}

/// Whole seconds in `ms` milliseconds, rounded toward zero.
pub fn whole_seconds(ms: i64) -> (r: i64)
    ensures
        r == div_trunc(ms as int, 1000),
        -(i64::MAX / 1000) <= r <= i64::MAX / 1000,
{
    if ms >= 0 {
        ms / 1000
    } else {
        let pos: i128 = 0i128 - (ms as i128);
        let q: i128 = pos / 1000;
        proof {
            assert(q <= 9223372036854776) by (nonlinear_arith)
                requires
                    pos <= 9223372036854775808,
                    q == pos / 1000,
                    pos >= 0,
            ;
            assert(q <= 9223372036854775) by (nonlinear_arith)
                requires
                    pos <= 9223372036854775808,
                    q == pos / 1000,
                    pos >= 0,
            ;
        }
        (0i128 - q) as i64
    }
}

/// The instant `age` milliseconds before `now`, on a whole number of seconds'
/// difference; `None` where chrono cannot hold it.
pub open spec fn spec_date_from_age(now: LocalTime, age: int) -> Option<LocalTime> {
    match seconds_earlier(now.secs, now.nanos, div_trunc(age, 1000) as i64) {
        Some((s, n)) => Some(LocalTime { secs: s, nanos: n }),
        None => None,
    }
}

/// The time of an event `age` milliseconds old, seen at `now`.
pub fn date_from_age(now: &LocalTime, age: i64) -> (r: Option<LocalTime>)
    ensures
        r == spec_date_from_age(*now, age as int),
        now.nanos < 1_000_000_000 ==> (r matches Some(t) ==> t.secs == now.secs - div_trunc(age as int, 1000)
            && t.nanos == now.nanos),
{
    let d = whole_seconds(age);
    minus_seconds(now, d)
}

/// The local time `age` milliseconds ago, on a whole number
/// of seconds, counted from the instant the clock gives. Where that time is
/// out of chrono's range the result is `None`. Which instant the clock gives
/// is not stated: the result is what [`date_from_age`] gives at some instant.
pub fn age_to_datetime(age: i64) -> (r: Option<LocalTime>)
    ensures
        exists|now: LocalTime| {
            &&& #[trigger] spec_date_from_age(now, age as int) == r
            &&& now.nanos < 1_000_000_000 ==> (r matches Some(t) ==> t.secs == now.secs - div_trunc(age as int, 1000)
                && t.nanos == now.nanos)
        },
{
    let now = local_now();
    date_from_age(&now, age)
}

/// The message types whose content is a file with a thumbnail.
pub open spec fn is_media_type(t: Seq<char>) -> bool {
    t == "m.image"@ || t == "m.file"@ || t == "m.video"@ || t == "m.audio"@
}

/// `x.as_i64().unwrap_or(0)`.
pub open spec fn i64_or_zero(x: JsonV) -> int {
    match x.i64_of() {
        Some(n) => n,
        None => 0,
    }
}

/// The age of an event: its `age`, or where that is absent or zero its `unsigned.age`.
pub open spec fn message_age(msg: JsonV) -> int {
    let a = i64_or_zero(msg.field("age"@));
    if a == 0 {
        i64_or_zero(msg.field("unsigned"@).field("age"@))
    } else {
        a
    }
}

/// The media to fetch as the thumbnail of a file message with content `c`:
/// its `info.thumbnail_url`, or its `url` when that is empty.
pub open spec fn thumb_request(c: JsonV) -> Seq<char> {
    let url = c.field("url"@).str_or(Seq::empty());
    let t = c.field("info"@).field("thumbnail_url"@).str_or(Seq::empty());
    if t == Seq::<char>::empty() && url != Seq::<char>::empty() {
        url
    } else {
        t
    }
}

/// The message that room event `msg` of room `room` stands for, dated `date`,
/// with an empty thumbnail path until the thumbnail is fetched.
pub open spec fn sync_message(room: Seq<char>, msg: JsonV, date: LocalTime) -> MessageV {
    let c = msg.field("content"@);
    let mtype = c.field("msgtype"@).str_or(Seq::empty());
    MessageV {
        sender: msg.field("sender"@).str_or(Seq::empty()),
        mtype,
        body: c.field("body"@).str_or(Seq::empty()),
        date,
        room,
        thumb: Some(Seq::empty()),
        url: Some(if is_media_type(mtype) { c.field("url"@).str_or(Seq::empty()) } else { Seq::empty() }),
        id: Some(msg.field("event_id"@).str_or(Seq::empty())),
        formatted_body: c.field("formatted_body"@).str_of(),
        format: c.field("format"@).str_of(),
        receipt: Seq::empty(),
        redacted: false,
        in_reply_to: None,
        replace: None,
    }
}

/// `parse_room_message` of a sync: the message and, for a file message, the
/// media to fetch as its thumbnail; `None` where its date is out of chrono's
/// range.
pub open spec fn spec_sync_message(room: Seq<char>, msg: JsonV, now: LocalTime) -> Option<(MessageV, Option<Seq<char>>)> {
    match spec_date_from_age(now, message_age(msg)) {
        Some(d) => {
            let m = sync_message(room, msg, d);
            Some((m, if is_media_type(m.mtype) { Some(thumb_request(msg.field("content"@))) } else { None }))
        },
        None => None,
    }
}

fn str_or_empty(s: Option<&str>) -> (r: String)
    ensures
        s matches Some(t) ==> r@ == t@,
        s is None ==> r@ == Seq::<char>::empty(),
{
    match s {
        Some(t) => t.to_owned(),
        None => String::new(),
    }
}

fn str_opt(s: Option<&str>) -> (r: Option<String>)
    ensures
        opt_view(r) == match s { Some(t) => Some(t@), None => None::<Seq<char>> },
{
    match s {
        Some(t) => Some(t.to_owned()),
        None => None,
    }
}

fn i64_field_or_zero(v: Option<&Json>) -> (r: i64)
    ensures
        r == match v { Some(j) => i64_or_zero(j.view()), None => 0 },
{
    match v {
        Some(j) => match j.as_i64() {
            Some(n) => n,
            None => 0,
        },
        None => 0,
    }
}

fn is_media(t: &str) -> (r: bool)
    ensures
        r == is_media_type(t@),
{
    str_eq(t, "m.image") || str_eq(t, "m.file") || str_eq(t, "m.video") || str_eq(t, "m.audio")
}

/// A room message in the old form a sync uses: the message that event
/// `msg` of room `room` stands for, seen at `now`, and for a file message the
/// media to fetch as its thumbnail; `None` where the message's date is out of
/// chrono's range.
pub fn parse_sync_message(room: &str, msg: &Json, now: &LocalTime) -> (r: Option<(Message, Option<String>)>)
    ensures
        r matches Some((m, t)) ==> spec_sync_message(room@, msg.view(), *now) == Some((m@, opt_view(t))),
        r is None ==> spec_sync_message(room@, msg.view(), *now) is None,
{
    let mut age = i64_field_or_zero(msg.get("age"));
    if age == 0 {
        age = match msg.get("unsigned") {
            Some(u) => i64_field_or_zero(u.get("age")),
            None => 0,
        };
    }
    let date = match date_from_age(now, age) {
        Some(d) => d,
        None => return None,
    };
    let null = Json::Null;
    let c = match msg.get("content") {
        Some(c) => c,
        None => &null,
    };
    let mtype = str_or_empty(c.field_str("msgtype"));
    let media = is_media(mtype.as_str());
    let url = if media {
        str_or_empty(c.field_str("url"))
    } else {
        String::new()
    };
    let thumb = if media {
        let t = match c.get("info") {
            Some(i) => str_or_empty(i.field_str("thumbnail_url")),
            None => String::new(),
        };
        proof {
            assert(""@ =~= Seq::<char>::empty()) by {
                reveal_strlit("");
            }
        }
        if str_eq(t.as_str(), "") && !str_eq(url.as_str(), "") {
            Some(url.as_str().to_owned())
        } else {
            Some(t)
        }
    } else {
        None
    };
    let m = Message {
        sender: str_or_empty(msg.field_str("sender")),
        mtype,
        body: str_or_empty(c.field_str("body")),
        date,
        room: room.to_owned(),
        thumb: Some(String::new()),
        url: Some(url),
        id: Some(str_or_empty(msg.field_str("event_id"))),
        formatted_body: str_opt(c.field_str("formatted_body")),
        format: str_opt(c.field_str("format")),
        receipt: Vec::new(),
        redacted: false,
        in_reply_to: None,
        replace: None,
    };
    proof {
        assert(receipt_view(m.receipt@) =~= Seq::<(Seq<char>, i64)>::empty());
    }
    Some((m, thumb))
}

/// The strings of an array, in order; none for any other value.
pub open spec fn string_items(v: JsonV) -> Seq<Seq<char>> {
    match v {
        JsonV::Array(a) => a.filter(|x: JsonV| x.str_of() is Some).map_values(|x: JsonV| x.str_of()->0),
        _ => Seq::empty(),
    }
}

/// The strings of the arrays that are the members of an object, member after member.
pub open spec fn member_strings(m: Seq<(Seq<char>, JsonV)>) -> Seq<Seq<char>>
    decreases m.len(),
{
    if m.len() == 0 {
        Seq::empty()
    } else {
        member_strings(m.drop_last()) + string_items(m.last().1)
    }
}

/// The ids of the direct chats of a sync response `r`: the rooms listed, per
/// user, in the content of its first account data event of type `m.direct`.
pub open spec fn direct_ids(r: JsonV) -> Seq<Seq<char>> {
    match r.field("account_data"@).field("events"@) {
        JsonV::Array(evs) => match first_index(evs, crate::api::has_type("m.direct"@)) {
            Some(i) => match evs[i].field("content"@) {
                JsonV::Object(m) => member_strings(m),
                _ => Seq::empty(),
            },
            None => Seq::empty(),
        },
        _ => Seq::empty(),
    }
}

/// The strings of an array, appended to `out`.
fn push_strings(v: &Json, out: &mut Vec<String>)
    ensures
        final(out)@.map_values(|s: String| s@) == old(out)@.map_values(|s: String| s@) + string_items(v.view()),
{
    let ghost before = out@.map_values(|s: String| s@);
    let ghost pred = |x: JsonV| x.str_of() is Some;
    match v.as_array() {
        Some(a) => {
            let ghost items = view_items(a@);
            proof {
                lemma_view_items(a@);
                assert(items.take(0).filter(pred) =~= Seq::<JsonV>::empty());
                assert(out@.map_values(|s: String| s@) =~= before + items.take(0).filter(pred).map_values(|x: JsonV| x.str_of()->0));
            }
            let mut i: usize = 0;
            while i < a.len()
                invariant
                    i <= a.len(),
                    items == view_items(a@),
                    items.len() == a@.len(),
                    forall|k: int| 0 <= k < a@.len() ==> #[trigger] items[k] == a@[k].view(),
                    pred == (|x: JsonV| x.str_of() is Some),
                    out@.map_values(|s: String| s@) == before + items.take(i as int).filter(pred).map_values(
                        |x: JsonV| x.str_of()->0,
                    ),
                decreases a.len() - i,
            {
                proof {
                    crate::seqs::lemma_filter_step(items, pred, i as int);
                }
                let ghost old_out = out@.map_values(|s: String| s@);
                if let Some(t) = a[i].as_str() {
                    out.push(t.to_owned());
                    proof {
                        assert(out@.map_values(|s: String| s@) =~= old_out.push(t@));
                        assert(before + items.take(i + 1).filter(pred).map_values(|x: JsonV| x.str_of()->0)
                            =~= old_out.push(t@));
                    }
                } else {
                    proof {
                        assert(before + items.take(i + 1).filter(pred).map_values(|x: JsonV| x.str_of()->0)
                            =~= old_out);
                    }
                }
                i = i + 1;
            }
            proof {
                assert(items.take(items.len() as int) =~= items);
            }
        },
        None => {
            proof {
                assert(out@.map_values(|s: String| s@) =~= before + string_items(v.view()));
            }
        },
    }
}

/// The ids of the direct chats of sync response `r`.
pub fn direct_rooms(r: &Json) -> (d: Vec<String>)
    ensures
        d@.map_values(|s: String| s@) == direct_ids(r.view()),
{
    let mut out: Vec<String> = Vec::new();
    proof {
        assert(out@.map_values(|s: String| s@) =~= Seq::<Seq<char>>::empty());
    }
    let evs = match r.get("account_data") {
        Some(a) => match a.get("events") {
            Some(e) => e.as_array(),
            None => None,
        },
        None => None,
    };
    let evs = match evs {
        Some(e) => e,
        None => return out,
    };
    let ghost items = view_items(evs@);
    let ghost p = crate::api::has_type("m.direct"@);
    proof {
        lemma_view_items(evs@);
    }
    let mut i: usize = 0;
    while i < evs.len()
        invariant
            i <= evs.len(),
            items == view_items(evs@),
            items.len() == evs@.len(),
            forall|k: int| 0 <= k < evs@.len() ==> #[trigger] items[k] == evs@[k].view(),
            p == crate::api::has_type("m.direct"@),
            r.view().field("account_data"@).field("events"@) == JsonV::Array(items),
            forall|k: int| 0 <= k < i ==> !p(#[trigger] items[k]),
            out@.len() == 0,
        decreases evs.len() - i,
    {
        if evs[i].field_is("type", "m.direct") {
            proof {
                lemma_first_index(items, p, i as int);
            }
            match evs[i].get("content") {
                Some(c) => match c.as_object() {
                    Some(m) => {
                        let ghost mv = view_members(m@);
                        proof {
                            lemma_view_members(m@);
                            assert(mv.take(0) =~= Seq::<(Seq<char>, JsonV)>::empty());
                            assert(out@.map_values(|s: String| s@) =~= Seq::<Seq<char>>::empty());
                        }
                        let mut j: usize = 0;
                        while j < m.len()
                            invariant
                                j <= m.len(),
                                mv == view_members(m@),
                                mv.len() == m@.len(),
                                forall|k: int| 0 <= k < m@.len() ==> #[trigger] mv[k] == (m@[k].0@, m@[k].1.view()),
                                out@.map_values(|s: String| s@) == member_strings(mv.take(j as int)),
                            decreases m.len() - j,
                        {
                            proof {
                                assert(mv.take(j + 1).drop_last() =~= mv.take(j as int));
                                assert(mv.take(j + 1).last() == mv[j as int]);
                            }
                            push_strings(&m[j].1, &mut out);
                            j = j + 1;
                        }
                        proof {
                            assert(mv.take(mv.len() as int) =~= mv);
                        }
                        return out;
                    },
                    None => return out,
                },
                None => return out,
            }
        }
        i = i + 1;
    }
    proof {
        lemma_first_index(items, p, items.len() as int);
    }
    out
}

/// Whether `ids` holds `s`.
fn holds(ids: &Vec<String>, s: &str) -> (r: bool)
    ensures
        r == ids@.map_values(|x: String| x@).contains(s@),
{
    let ghost v = ids@.map_values(|x: String| x@);
    let mut i: usize = 0;
    while i < ids.len()
        invariant
            i <= ids.len(),
            v == ids@.map_values(|x: String| x@),
            forall|k: int| 0 <= k < i ==> v[k] != s@,
        decreases ids.len() - i,
    {
        if str_eq(ids[i].as_str(), s) {
            proof {
                assert(v[i as int] == s@);
            }
            return true;
        }
        i = i + 1;
    }
    false
}

/// A room is a favourite when one of its account data events of type `m.tag`
/// has an object as its `content.tags["m.favourite"]`.
pub open spec fn is_fav(room: JsonV) -> bool {
    match room.field("account_data"@).field("events"@) {
        JsonV::Array(evs) => exists|i: int| 0 <= i < evs.len() && (#[trigger] evs[i]).field("type"@).is_text("m.tag"@)
            && evs[i].field("content"@).field("tags"@).field("m.favourite"@) is Object,
        _ => false,
    }
}

/// An `m.tag` account data event that gives the room the single tag `tag`,
/// with `value` as what the tag holds.
pub open spec fn tag_event(tag: Seq<char>, value: JsonV) -> JsonV {
    JsonV::Object(seq![
        ("type"@, JsonV::Str("m.tag"@)),
        ("content"@, JsonV::Object(seq![("tags"@, JsonV::Object(seq![(tag, value)]))])),
    ])
}

/// A room of a sync response whose account data events are `evs`.
pub open spec fn room_with_account_data(evs: Seq<JsonV>) -> JsonV {
    JsonV::Object(seq![("account_data"@, JsonV::Object(seq![("events"@, JsonV::Array(evs))]))])
}

/// Only the `m.favourite` tag makes a room a favourite: a room with no
/// account data events is none, and adding an `m.tag` event that gives the
/// room the tag `tag` holding `value` makes it one exactly when it already
/// was, or the tag is `m.favourite` and holds an object. Any other tag
/// (`m.lowpriority`, say), or an `m.favourite` tag holding no object, leaves
/// it as it was.
pub proof fn lemma_only_favourite_tag_makes_favourite(evs: Seq<JsonV>, tag: Seq<char>, value: JsonV)
    ensures
        !is_fav(room_with_account_data(Seq::empty())),
        is_fav(room_with_account_data(evs.push(tag_event(tag, value))))
            == (is_fav(room_with_account_data(evs)) || (tag == "m.favourite"@ && value is Object)),
{
    reveal_strlit("type");
    reveal_strlit("content");
    assert("type"@ != "content"@) by {
        assert("type"@.len() != "content"@.len());
    }
    lemma_room_events(Seq::empty());
    lemma_room_events(evs);
    lemma_tag_event(tag, value);
    let other = evs.push(tag_event(tag, value));
    lemma_room_events(other);
    assert(other[evs.len() as int] == tag_event(tag, value));
    if is_fav(room_with_account_data(evs)) {
        let i = choose|i: int| 0 <= i < evs.len() && (#[trigger] evs[i]).field("type"@).is_text("m.tag"@)
            && evs[i].field("content"@).field("tags"@).field("m.favourite"@) is Object;
        assert(other[i] == evs[i]);
    }
    if is_fav(room_with_account_data(other)) {
        let i = choose|i: int| 0 <= i < other.len() && (#[trigger] other[i]).field("type"@).is_text("m.tag"@)
            && other[i].field("content"@).field("tags"@).field("m.favourite"@) is Object;
        if i != evs.len() {
            assert(other[i] == evs[i]);
        }
    }
}

proof fn lemma_room_events(evs: Seq<JsonV>)
    ensures
        room_with_account_data(evs).field("account_data"@).field("events"@) == JsonV::Array(evs),
{
    let inner = seq![("events"@, JsonV::Array(evs))];
    assert(inner[0].0 == "events"@);
    let outer = seq![("account_data"@, JsonV::Object(inner))];
    assert(outer[0].0 == "account_data"@);
}

proof fn lemma_tag_event(tag: Seq<char>, value: JsonV)
    requires
        "type"@ != "content"@,
    ensures
        tag_event(tag, value).field("type"@).is_text("m.tag"@),
        (tag_event(tag, value).field("content"@).field("tags"@).field("m.favourite"@) is Object)
            <==> (tag == "m.favourite"@ && value is Object),
{
    reveal_with_fuel(crate::json::member_lookup, 3);
    let tags = seq![(tag, value)];
    let content = seq![("tags"@, JsonV::Object(tags))];
    let ev = seq![("type"@, JsonV::Str("m.tag"@)), ("content"@, JsonV::Object(content))];
    assert(ev[0].0 == "type"@);
    assert(ev.drop_first() =~= seq![("content"@, JsonV::Object(content))]);
    assert(ev.drop_first()[0].0 == "content"@);
    assert(content[0].0 == "tags"@);
    if tag != "m.favourite"@ {
        assert(tags.drop_first() =~= Seq::<(Seq<char>, JsonV)>::empty());
        assert(crate::json::member_lookup(tags, "m.favourite"@) == JsonV::Null);
    }
}

/// Whether room `room` of a sync response is a favourite.
fn fav_of(room: &Json) -> (r: bool)
    ensures
        r == is_fav(room.view()),
{
    let evs = match room.get("account_data") {
        Some(a) => match a.get("events") {
            Some(e) => e.as_array(),
            None => None,
        },
        None => None,
    };
    let evs = match evs {
        Some(e) => e,
        None => return false,
    };
    let ghost items = view_items(evs@);
    proof {
        lemma_view_items(evs@);
    }
    let mut i: usize = 0;
    while i < evs.len()
        invariant
            i <= evs.len(),
            items == view_items(evs@),
            items.len() == evs@.len(),
            forall|k: int| 0 <= k < evs@.len() ==> #[trigger] items[k] == evs@[k].view(),
            room.view().field("account_data"@).field("events"@) == JsonV::Array(items),
            forall|k: int| 0 <= k < i ==> !((#[trigger] items[k]).field("type"@).is_text("m.tag"@)
                && items[k].field("content"@).field("tags"@).field("m.favourite"@) is Object),
        decreases evs.len() - i,
    {
        if evs[i].field_is("type", "m.tag") {
            let fav = match evs[i].get("content") {
                Some(c) => match c.get("tags") {
                    Some(t) => match t.get("m.favourite") {
                        Some(f) => f.as_object().is_some(),
                        None => false,
                    },
                    None => false,
                },
                None => false,
            };
            if fav {
                proof {
                    assert(items[i as int].field("type"@).is_text("m.tag"@));
                }
                return true;
            }
        }
        i = i + 1;
    }
    false
}

/// The events of a room's timeline; none where they are no array.
pub open spec fn timeline_of(room: JsonV) -> Seq<JsonV> {
    match room.field("timeline"@).field("events"@) {
        JsonV::Array(a) => a,
        _ => Seq::empty(),
    }
}

/// The messages, with the media to fetch for their thumbnails, of the
/// `m.room.message` events among `evs`, in order; `None` where one of them
/// has a date out of chrono's range.
pub open spec fn sync_messages(room: Seq<char>, evs: Seq<JsonV>, now: LocalTime) -> Option<Seq<(MessageV, Option<Seq<char>>)>>
    decreases evs.len(),
{
    if evs.len() == 0 {
        Some(Seq::empty())
    } else {
        match sync_messages(room, evs.drop_last(), now) {
            Some(a) => if evs.last().field("type"@).is_text("m.room.message"@) {
                match spec_sync_message(room, evs.last(), now) {
                    Some(p) => Some(a.push(p)),
                    None => None,
                }
            } else {
                Some(a)
            },
            None => None,
        }
    }
}

proof fn lemma_sync_messages_none(room: Seq<char>, evs: Seq<JsonV>, now: LocalTime, i: int)
    requires
        0 <= i <= evs.len(),
        sync_messages(room, evs.take(i), now) is None,
    ensures
        sync_messages(room, evs, now) is None,
    decreases evs.len(),
{
    if i == evs.len() {
        assert(evs.take(i) =~= evs);
    } else {
        assert(evs.drop_last().take(i) =~= evs.take(i));
        lemma_sync_messages_none(room, evs.drop_last(), now, i);
    }
}

/// The messages of room `room` from its timeline events, seen at `now`, and
/// for each the media to fetch as its thumbnail.
pub(crate) fn sync_room_messages(room: &str, evs: &Vec<Json>, now: &LocalTime) -> (r: Option<(Vec<Message>, Vec<Option<String>>)>)
    ensures
        r matches Some((ms, ts)) ==> (sync_messages(room@, view_items(evs@), *now) matches Some(ps) && ps.len() == ms@.len()
            && ts@.len() == ms@.len() && forall|k: int| 0 <= k < ps.len() ==> #[trigger] ps[k] == (ms@[k]@, opt_view(ts@[k]))),
        r is None ==> sync_messages(room@, view_items(evs@), *now) is None,
{
    let ghost items = view_items(evs@);
    proof {
        lemma_view_items(evs@);
        assert(items.take(0) =~= Seq::<JsonV>::empty());
    }
    let mut ms: Vec<Message> = Vec::new();
    let mut ts: Vec<Option<String>> = Vec::new();
    let mut i: usize = 0;
    while i < evs.len()
        invariant
            i <= evs.len(),
            items == view_items(evs@),
            items.len() == evs@.len(),
            forall|k: int| 0 <= k < evs@.len() ==> #[trigger] items[k] == evs@[k].view(),
            sync_messages(room@, items.take(i as int), *now) matches Some(ps) && ps.len() == ms@.len()
                && ts@.len() == ms@.len() && forall|k: int| 0 <= k < ps.len() ==> #[trigger] ps[k] == (ms@[k]@, opt_view(ts@[k])),
        decreases evs.len() - i,
    {
        proof {
            assert(items.take(i + 1).drop_last() =~= items.take(i as int));
            assert(items.take(i + 1).last() == items[i as int]);
        }
        if evs[i].field_is("type", "m.room.message") {
            match parse_sync_message(room, &evs[i], now) {
                Some((m, t)) => {
                    ms.push(m);
                    ts.push(t);
                },
                None => {
                    proof {
                        lemma_sync_messages_none(room@, items, *now, i + 1);
                    }
                    return None;
                },
            }
        }
        i = i + 1;
    }
    proof {
        assert(items.take(items.len() as int) =~= items);
    }
    Some((ms, ts))
}

/// The joined members that the `m.room.member` events among `evs` describe, in order.
pub open spec fn state_members(evs: Seq<JsonV>) -> Seq<MemberV>
    decreases evs.len(),
{
    if evs.len() == 0 {
        Seq::empty()
    } else {
        state_members(evs.drop_last()) + if evs.last().field("type"@).is_text("m.room.member"@)
            && spec_room_member(evs.last()) is Some {
            seq![spec_room_member(evs.last())->0]
        } else {
            Seq::empty()
        }
    }
}

/// The members of a room from its state events, each user once, the last
/// event about a user deciding.
fn state_members_of(evs: &Vec<Json>) -> (v: Vec<Member>)
    ensures
        unique_uids(members_view(v@)),
        member_map(members_view(v@)) == member_map(state_members(view_items(evs@))),
{
    let ghost items = view_items(evs@);
    proof {
        lemma_view_items(evs@);
        assert(items.take(0) =~= Seq::<JsonV>::empty());
    }
    let mut v: Vec<Member> = Vec::new();
    proof {
        assert(members_view(v@) =~= Seq::<MemberV>::empty());
    }
    let mut i: usize = 0;
    while i < evs.len()
        invariant
            i <= evs.len(),
            items == view_items(evs@),
            items.len() == evs@.len(),
            forall|k: int| 0 <= k < evs@.len() ==> #[trigger] items[k] == evs@[k].view(),
            unique_uids(members_view(v@)),
            member_map(members_view(v@)) == member_map(state_members(items.take(i as int))),
        decreases evs.len() - i,
    {
        proof {
            assert(items.take(i + 1).drop_last() =~= items.take(i as int));
            assert(items.take(i + 1).last() == items[i as int]);
        }
        if evs[i].field_is("type", "m.room.member") {
            match parse_room_member(&evs[i]) {
                Some(m) => {
                    let ghost mv = m@;
                    let ghost prev = state_members(items.take(i as int));
                    insert_member(&mut v, m);
                    proof {
                        assert(state_members(items.take(i + 1)) =~= prev.push(mv));
                        assert(prev.push(mv).drop_last() =~= prev);
                    }
                },
                None => {
                    proof {
                        assert(state_members(items.take(i + 1)) =~= state_members(items.take(i as int)));
                    }
                },
            }
        } else {
            proof {
                assert(state_members(items.take(i + 1)) =~= state_members(items.take(i as int)));
            }
        }
        i = i + 1;
    }
    proof {
        assert(items.take(items.len() as int) =~= items);
    }
    v
}

/// The elements of an array; none for any other value.
pub open spec fn events_array(v: JsonV) -> Seq<JsonV> {
    match v {
        JsonV::Array(a) => a,
        _ => Seq::empty(),
    }
}

/// How the reading of a room goes: on, stopped by an error, or stopped on a
/// date out of chrono's range, where the client itself stops.
pub enum Outcome {
    Going,
    Failed,
    Aborts,
}

/// How reading joined room `room` with id `k` goes: its name first, then its messages.
pub open spec fn joined_outcome(k: Seq<char>, room: JsonV, userid: Seq<char>, now: LocalTime) -> Outcome {
    if spec_room_name(room.field("state"@).field("events"@), userid) is None {
        Outcome::Failed
    } else if sync_messages(k, timeline_of(room), now) is None {
        Outcome::Aborts
    } else {
        Outcome::Going
    }
}

/// `x` is joined room `room` with id `k` of a sync response, as the client
/// reads it, with `thumbs` the media to fetch for its messages' thumbnails.
pub open spec fn is_joined_room(
    x: Room,
    thumbs: Seq<Option<String>>,
    k: Seq<char>,
    room: JsonV,
    userid: Seq<char>,
    direct: Seq<Seq<char>>,
    now: LocalTime,
) -> bool {
    let st = room.field("state"@).field("events"@);
    &&& x.id@ == k
    &&& spec_room_name(st, userid) is Some
    &&& opt_view(x.name) == spec_room_name(st, userid)
    &&& opt_view(x.avatar) == Some(spec_evc(st, "m.room.avatar"@, "url"@))
    &&& opt_view(x.alias) == Some(spec_evc(st, "m.room.canonical_alias"@, "alias"@))
    &&& opt_view(x.topic) == Some(spec_evc(st, "m.room.topic"@, "topic"@))
    &&& x.direct == direct.contains(k)
    &&& x.notifications == unread_count(room, "notification_count"@)
    &&& x.highlight == unread_count(room, "highlight_count"@)
    &&& x.fav == is_fav(room)
    &&& sync_messages(k, timeline_of(room), now) matches Some(ps)
    &&& ps.len() == x.messages@.len()
    &&& thumbs.len() == ps.len()
    &&& forall|j: int| 0 <= j < ps.len() ==> #[trigger] ps[j] == (x.messages@[j]@, opt_view(thumbs[j]))
    &&& unique_uids(members_view(x.members@))
    &&& member_map(members_view(x.members@)) == member_map(state_members(events_array(st)))
    &&& !x.left && !x.inv && x.inv_sender is None
    &&& x.power_levels@.len() == 0 && x.n_members == 0
}

/// Joined room `room` with id `k`: the room and the media to fetch for its
/// thumbnails; an error where it has no name to give, `None` where one of its
/// messages is dated out of chrono's range.
fn joined_room(k: &str, room: &Json, userid: &str, direct: &Vec<String>, now: &LocalTime) -> (r: Option<Result<(Room, Vec<Option<String>>), Error>>)
    ensures
        r is None <==> joined_outcome(k@, room.view(), userid@, *now) is Aborts,
        r matches Some(Err(e)) ==> e == Error::BackendError,
        r matches Some(Err(_)) <==> joined_outcome(k@, room.view(), userid@, *now) is Failed,
        r matches Some(Ok((x, ts))) ==> is_joined_room(x, ts@, k@, room.view(), userid@, direct@.map_values(|s: String| s@), *now),
{
    let null = Json::Null;
    let stevents = match room.get("state") {
        Some(s) => match s.get("events") {
            Some(e) => e,
            None => &null,
        },
        None => &null,
    };
    let name = match calculate_room_name(stevents, userid) {
        Ok(n) => n,
        Err(e) => return Some(Err(e)),
    };
    let empty: Vec<Json> = Vec::new();
    let tl = match room.get("timeline") {
        Some(t) => match t.get("events") {
            Some(e) => match e.as_array() {
                Some(a) => a,
                None => &empty,
            },
            None => &empty,
        },
        None => &empty,
    };
    proof {
        assert(view_items(empty@) =~= Seq::<JsonV>::empty());
        assert(view_items(tl@) == timeline_of(room.view()));
    }
    let (messages, thumbs) = match sync_room_messages(k, tl, now) {
        Some(p) => p,
        None => return None,
    };
    let members = match stevents.as_array() {
        Some(a) => state_members_of(a),
        None => Vec::new(),
    };
    let mut x = Room::new(k.to_owned(), Some(name));
    x.avatar = Some(evc(stevents, "m.room.avatar", "url"));
    x.alias = Some(evc(stevents, "m.room.canonical_alias", "alias"));
    x.topic = Some(evc(stevents, "m.room.topic", "topic"));
    x.direct = holds(direct, k);
    x.notifications = unread(room, "notification_count");
    x.highlight = unread(room, "highlight_count");
    x.fav = fav_of(room);
    x.messages = messages;
    x.members = members;
    Some(Ok((x, thumbs)))
}

/// `x` is a room the user left, with id `k`.
pub open spec fn is_left_room(x: Room, k: Seq<char>) -> bool {
    &&& x.id@ == k
    &&& x.left
    &&& x.name is None && x.avatar is None && x.alias is None && x.topic is None
    &&& !x.direct && !x.fav && !x.inv && x.inv_sender is None
    &&& x.notifications == 0 && x.highlight == 0
    &&& x.messages@.len() == 0 && x.members@.len() == 0 && x.power_levels@.len() == 0
    &&& x.n_members == 0
}

/// The invitation events that invite `userid`.
pub open spec fn invites_user(userid: Seq<char>) -> spec_fn(JsonV) -> bool {
    |x: JsonV| x.field("membership"@).is_text("invite"@) && x.field("state_key"@).is_text(userid)
}

/// Who sent the first event of `st` that invites `userid`.
pub open spec fn invite_sender(st: JsonV, userid: Seq<char>) -> Option<Seq<char>> {
    match st {
        JsonV::Array(a) => match first_index(a, invites_user(userid)) {
            Some(i) => Some(a[i].field("sender"@).str_or(Seq::empty())),
            None => None,
        },
        _ => None,
    }
}

/// `x` is the invitation to room `room` with id `k`, `inviter` the user whose
/// profile tells who invited.
pub open spec fn is_invited_room(
    x: Room,
    inviter: Option<Seq<char>>,
    k: Seq<char>,
    room: JsonV,
    userid: Seq<char>,
    direct: Seq<Seq<char>>,
) -> bool {
    let st = room.field("invite_state"@).field("events"@);
    &&& x.id@ == k
    &&& x.inv
    &&& spec_room_name(st, userid) is Some
    &&& opt_view(x.name) == spec_room_name(st, userid)
    &&& opt_view(x.avatar) == Some(spec_evc(st, "m.room.avatar"@, "url"@))
    &&& opt_view(x.alias) == Some(spec_evc(st, "m.room.canonical_alias"@, "alias"@))
    &&& opt_view(x.topic) == Some(spec_evc(st, "m.room.topic"@, "topic"@))
    &&& x.direct == direct.contains(k)
    &&& inviter == invite_sender(st, userid)
    &&& !x.left && !x.fav && x.inv_sender is None
    &&& x.notifications == 0 && x.highlight == 0
    &&& x.messages@.len() == 0 && x.members@.len() == 0 && x.power_levels@.len() == 0
    &&& x.n_members == 0
}

/// The sender of the first event of `st` that invites `userid`.
fn inviter_of(st: &Json, userid: &str) -> (r: Option<String>)
    ensures
        opt_view(r) == invite_sender(st.view(), userid@),
{
    let a = match st.as_array() {
        Some(a) => a,
        None => return None,
    };
    let ghost items = view_items(a@);
    let ghost p = invites_user(userid@);
    proof {
        lemma_view_items(a@);
    }
    let mut i: usize = 0;
    while i < a.len()
        invariant
            i <= a.len(),
            items == view_items(a@),
            items.len() == a@.len(),
            forall|k: int| 0 <= k < a@.len() ==> #[trigger] items[k] == a@[k].view(),
            p == invites_user(userid@),
            st.view() == JsonV::Array(items),
            forall|k: int| 0 <= k < i ==> !p(#[trigger] items[k]),
        decreases a.len() - i,
    {
        if a[i].field_is("membership", "invite") && a[i].field_is("state_key", userid) {
            proof {
                lemma_first_index(items, p, i as int);
            }
            return Some(str_or_empty(a[i].field_str("sender")));
        }
        i = i + 1;
    }
    proof {
        lemma_first_index(items, p, items.len() as int);
    }
    None
}

/// The invitation to room `room` with id `k`, and who invited; an error where
/// it has no name to give.
fn invited_room(k: &str, room: &Json, userid: &str, direct: &Vec<String>) -> (r: Result<(Room, Option<String>), Error>)
    ensures
        r is Err <==> spec_room_name(room.view().field("invite_state"@).field("events"@), userid@) is None,
        r matches Err(e) ==> e == Error::BackendError,
        r matches Ok((x, inv)) ==> is_invited_room(x, opt_view(inv), k@, room.view(), userid@, direct@.map_values(|s: String| s@)),
{
    let null = Json::Null;
    let stevents = match room.get("invite_state") {
        Some(s) => match s.get("events") {
            Some(e) => e,
            None => &null,
        },
        None => &null,
    };
    let name = match calculate_room_name(stevents, userid) {
        Ok(n) => n,
        Err(e) => return Err(e),
    };
    let mut x = Room::new(k.to_owned(), Some(name));
    x.inv = true;
    x.avatar = Some(evc(stevents, "m.room.avatar", "url"));
    x.alias = Some(evc(stevents, "m.room.canonical_alias", "alias"));
    x.topic = Some(evc(stevents, "m.room.topic", "topic"));
    x.direct = holds(direct, k);
    let inviter = inviter_of(stevents, userid);
    Ok((x, inviter))
}

/// How reading the joined rooms `join` goes, room after room.
pub open spec fn joined_rooms_outcome(join: Seq<(Seq<char>, JsonV)>, userid: Seq<char>, now: LocalTime) -> Outcome
    decreases join.len(),
{
    if join.len() == 0 {
        Outcome::Going
    } else {
        match joined_rooms_outcome(join.drop_last(), userid, now) {
            Outcome::Going => joined_outcome(join.last().0, join.last().1, userid, now),
            o => o,
        }
    }
}

/// How reading the invitations `inv` goes, room after room.
pub open spec fn invites_outcome(inv: Seq<(Seq<char>, JsonV)>, userid: Seq<char>) -> Outcome
    decreases inv.len(),
{
    if inv.len() == 0 {
        Outcome::Going
    } else {
        match invites_outcome(inv.drop_last(), userid) {
            Outcome::Going => if spec_room_name(inv.last().1.field("invite_state"@).field("events"@), userid) is None {
                Outcome::Failed
            } else {
                Outcome::Going
            },
            o => o,
        }
    }
}

/// How reading the rooms of sync response `r` goes: the joined, left and
/// invited rooms must be objects; then the joined rooms, then the invitations.
pub open spec fn rooms_outcome(r: JsonV, userid: Seq<char>, now: LocalTime) -> Outcome {
    let rooms = r.field("rooms"@);
    match (rooms.field("join"@), rooms.field("leave"@), rooms.field("invite"@)) {
        (JsonV::Object(j), JsonV::Object(_), JsonV::Object(i)) => match joined_rooms_outcome(j, userid, now) {
            Outcome::Going => invites_outcome(i, userid),
            o => o,
        },
        _ => Outcome::Failed,
    }
}

/// The rooms of a first sync, and the outside work still to do on them.
pub struct RoomsDraft {
    /// The joined rooms, then the rooms left, then the invitations.
    pub rooms: Vec<Room>,
    /// For each joined room, for each of its messages, the media to fetch as
    /// its thumbnail, if any.
    pub thumbs: Vec<Vec<Option<String>>>,
    /// For each invitation, the user whose profile tells who invited.
    pub inviters: Vec<Option<String>>,
}

/// What `get_rooms_from_json` gives on a response whose outcome is `Going`.
pub open spec fn is_rooms_draft(d: RoomsDraft, r: JsonV, userid: Seq<char>, now: LocalTime) -> bool {
    let rooms = r.field("rooms"@);
    let j = rooms.field("join"@)->Object_0;
    let l = rooms.field("leave"@)->Object_0;
    let i = rooms.field("invite"@)->Object_0;
    let direct = direct_ids(r);
    &&& d.rooms@.len() == j.len() + l.len() + i.len()
    &&& d.thumbs@.len() == j.len()
    &&& d.inviters@.len() == i.len()
    &&& forall|a: int| 0 <= a < j.len() ==> is_joined_room(
        #[trigger] d.rooms@[a],
        d.thumbs@[a]@,
        j[a].0,
        j[a].1,
        userid,
        direct,
        now,
    )
    &&& forall|b: int| 0 <= b < l.len() ==> is_left_room(#[trigger] d.rooms@[j.len() + b], l[b].0)
    &&& forall|c: int| 0 <= c < i.len() ==> is_invited_room(
        #[trigger] d.rooms@[j.len() + l.len() + c],
        opt_view(d.inviters@[c]),
        i[c].0,
        i[c].1,
        userid,
        direct,
    )
}

/// The rooms of a first sync response `r` for user
/// `userid`, read at `now`, with the thumbnails and inviters still to fetch.
/// An error where the response is not shaped as the protocol says or a room
/// has no name to give; `None` where a message is dated out of chrono's
/// range, on which the client itself stops.
pub fn get_rooms_from_json(r: &Json, userid: &str, now: &LocalTime) -> (res: Option<Result<RoomsDraft, Error>>)
    ensures
        res is None <==> rooms_outcome(r.view(), userid@, *now) is Aborts,
        res matches Some(Err(e)) ==> e == Error::BackendError,
        res matches Some(Err(_)) <==> rooms_outcome(r.view(), userid@, *now) is Failed,
        res matches Some(Ok(d)) ==> is_rooms_draft(d, r.view(), userid@, *now),
{
    let rooms_js = match r.get("rooms") {
        Some(x) => x,
        None => return Some(Err(Error::BackendError)),
    };
    let join = match rooms_js.get("join") {
        Some(x) => match x.as_object() {
            Some(m) => m,
            None => return Some(Err(Error::BackendError)),
        },
        None => return Some(Err(Error::BackendError)),
    };
    let leave = match rooms_js.get("leave") {
        Some(x) => match x.as_object() {
            Some(m) => m,
            None => return Some(Err(Error::BackendError)),
        },
        None => return Some(Err(Error::BackendError)),
    };
    let invite = match rooms_js.get("invite") {
        Some(x) => match x.as_object() {
            Some(m) => m,
            None => return Some(Err(Error::BackendError)),
        },
        None => return Some(Err(Error::BackendError)),
    };
    let ghost jv = view_members(join@);
    let ghost lv = view_members(leave@);
    let ghost iv = view_members(invite@);
    proof {
        lemma_view_members(join@);
        lemma_view_members(leave@);
        lemma_view_members(invite@);
    }
    let direct = direct_rooms(r);
    let ghost dv = direct@.map_values(|s: String| s@);
    let mut rooms: Vec<Room> = Vec::new();
    let mut thumbs: Vec<Vec<Option<String>>> = Vec::new();
    let mut a: usize = 0;
    proof {
        assert(jv.take(0) =~= Seq::<(Seq<char>, JsonV)>::empty());
    }
    while a < join.len()
        invariant
            a <= join.len(),
            r.view().field("rooms"@).field("join"@) == JsonV::Object(jv),
            r.view().field("rooms"@).field("leave"@) == JsonV::Object(lv),
            r.view().field("rooms"@).field("invite"@) == JsonV::Object(iv),
            jv == view_members(join@),
            jv.len() == join@.len(),
            forall|k: int| 0 <= k < join@.len() ==> #[trigger] jv[k] == (join@[k].0@, join@[k].1.view()),
            dv == direct@.map_values(|s: String| s@),
            dv == direct_ids(r.view()),
            joined_rooms_outcome(jv.take(a as int), userid@, *now) is Going,
            rooms@.len() == a,
            thumbs@.len() == a,
            forall|k: int| 0 <= k < a ==> is_joined_room(#[trigger] rooms@[k], thumbs@[k]@, jv[k].0, jv[k].1, userid@, dv, *now),
        decreases join.len() - a,
    {
        proof {
            assert(jv.take(a + 1).drop_last() =~= jv.take(a as int));
            assert(jv.take(a + 1).last() == jv[a as int]);
        }
        match joined_room(join[a].0.as_str(), &join[a].1, userid, &direct, now) {
            None => {
                proof {
                    lemma_joined_stops(jv, userid@, *now, a as int + 1);
                }
                return None;
            },
            Some(Err(e)) => {
                proof {
                    lemma_joined_stops(jv, userid@, *now, a as int + 1);
                }
                return Some(Err(e));
            },
            Some(Ok((x, ts))) => {
                rooms.push(x);
                thumbs.push(ts);
            },
        }
        a = a + 1;
    }
    proof {
        assert(jv.take(jv.len() as int) =~= jv);
    }
    let mut b: usize = 0;
    while b < leave.len()
        invariant
            b <= leave.len(),
            r.view().field("rooms"@).field("join"@) == JsonV::Object(jv),
            r.view().field("rooms"@).field("leave"@) == JsonV::Object(lv),
            r.view().field("rooms"@).field("invite"@) == JsonV::Object(iv),
            lv == view_members(leave@),
            lv.len() == leave@.len(),
            jv.len() == join@.len(),
            thumbs@.len() == jv.len(),
            joined_rooms_outcome(jv, userid@, *now) is Going,
            forall|k: int| 0 <= k < leave@.len() ==> #[trigger] lv[k] == (leave@[k].0@, leave@[k].1.view()),
            rooms@.len() == jv.len() + b,
            forall|k: int| 0 <= k < jv.len() ==> is_joined_room(#[trigger] rooms@[k], thumbs@[k]@, jv[k].0, jv[k].1, userid@, dv, *now),
            forall|k: int| 0 <= k < b ==> is_left_room(#[trigger] rooms@[jv.len() + k], lv[k].0),
        decreases leave.len() - b,
    {
        let mut x = Room::new(leave[b].0.clone(), None);
        x.left = true;
        rooms.push(x);
        b = b + 1;
    }
    let mut inviters: Vec<Option<String>> = Vec::new();
    let mut c: usize = 0;
    proof {
        assert(iv.take(0) =~= Seq::<(Seq<char>, JsonV)>::empty());
    }
    while c < invite.len()
        invariant
            c <= invite.len(),
            r.view().field("rooms"@).field("join"@) == JsonV::Object(jv),
            r.view().field("rooms"@).field("leave"@) == JsonV::Object(lv),
            r.view().field("rooms"@).field("invite"@) == JsonV::Object(iv),
            iv == view_members(invite@),
            iv.len() == invite@.len(),
            jv.len() == join@.len(),
            lv.len() == leave@.len(),
            thumbs@.len() == jv.len(),
            joined_rooms_outcome(jv, userid@, *now) is Going,
            dv == direct@.map_values(|s: String| s@),
            forall|k: int| 0 <= k < invite@.len() ==> #[trigger] iv[k] == (invite@[k].0@, invite@[k].1.view()),
            invites_outcome(iv.take(c as int), userid@) is Going,
            rooms@.len() == jv.len() + lv.len() + c,
            inviters@.len() == c,
            forall|k: int| 0 <= k < jv.len() ==> is_joined_room(#[trigger] rooms@[k], thumbs@[k]@, jv[k].0, jv[k].1, userid@, dv, *now),
            forall|k: int| 0 <= k < lv.len() ==> is_left_room(#[trigger] rooms@[jv.len() + k], lv[k].0),
            forall|k: int| 0 <= k < c ==> is_invited_room(#[trigger] rooms@[jv.len() + lv.len() + k], opt_view(inviters@[k]), iv[k].0, iv[k].1, userid@, dv),
        decreases invite.len() - c,
    {
        proof {
            assert(iv.take(c + 1).drop_last() =~= iv.take(c as int));
            assert(iv.take(c + 1).last() == iv[c as int]);
        }
        match invited_room(invite[c].0.as_str(), &invite[c].1, userid, &direct) {
            Err(e) => {
                proof {
                    lemma_invites_stop(iv, userid@, c as int + 1);
                }
                return Some(Err(e));
            },
            Ok((x, inv)) => {
                let ghost xv = x;
                let ghost ivv = opt_view(inv);
                rooms.push(x);
                inviters.push(inv);
                proof {
                    assert(rooms@[jv.len() + lv.len() + c] == xv);
                    assert(opt_view(inviters@[c as int]) == ivv);
                }
            },
        }
        c = c + 1;
    }
    proof {
        assert(iv.take(iv.len() as int) =~= iv);
    }
    Some(Ok(RoomsDraft { rooms, thumbs, inviters }))
}

/// Once reading a prefix of the joined rooms has stopped, reading them all stops the same way.
proof fn lemma_joined_stops(join: Seq<(Seq<char>, JsonV)>, userid: Seq<char>, now: LocalTime, i: int)
    requires
        0 <= i <= join.len(),
        !(joined_rooms_outcome(join.take(i), userid, now) is Going),
    ensures
        joined_rooms_outcome(join, userid, now) == joined_rooms_outcome(join.take(i), userid, now),
    decreases join.len(),
{
    if i == join.len() {
        assert(join.take(i) =~= join);
    } else {
        assert(join.drop_last().take(i) =~= join.take(i));
        lemma_joined_stops(join.drop_last(), userid, now, i);
    }
}

/// Once reading a prefix of the invitations has failed, reading them all fails.
proof fn lemma_invites_stop(inv: Seq<(Seq<char>, JsonV)>, userid: Seq<char>, i: int)
    requires
        0 <= i <= inv.len(),
        !(invites_outcome(inv.take(i), userid) is Going),
    ensures
        invites_outcome(inv, userid) == invites_outcome(inv.take(i), userid),
    decreases inv.len(),
{
    if i == inv.len() {
        assert(inv.take(i) =~= inv);
    } else {
        assert(inv.drop_last().take(i) =~= inv.take(i));
        lemma_invites_stop(inv.drop_last(), userid, i);
    }
}

/// Once the thumbnail of message `j` of `room` is
/// fetched: `path` is where it was stored, empty where the fetch failed.
pub fn set_thumb(room: &mut Room, j: usize, path: String)
    requires
        j < old(room).messages@.len(),
    ensures
        final(room)@ == (RoomV {
            messages: old(room)@.messages.update(j as int, MessageV { thumb: Some(path@), ..old(room)@.messages[j as int] }),
            ..old(room)@
        }),
{
    room.messages[j].thumb = Some(path);
    proof {
        assert(room@.messages =~= old(room)@.messages.update(j as int, MessageV { thumb: Some(path@), ..old(room)@.messages[j as int] }));
    }
}

/// Once the profile of the user who sent an invitation
/// is fetched: with a display name and an avatar, they stand as the
/// invitation's sender under the id `userid`; without one, nothing changes.
pub fn set_inviter(room: &mut Room, userid: &str, profile: Option<(String, String)>)
    ensures
        profile matches Some((alias, avatar)) ==> final(room)@ == (RoomV {
            inv_sender: Some(MemberV { uid: userid@, alias: Some(alias@), avatar: Some(avatar@) }),
            ..old(room)@
        }),
        profile is None ==> final(room)@ == old(room)@,
{
    if let Some((alias, avatar)) = profile {
        room.inv_sender = Some(Member { uid: userid.to_owned(), alias: Some(alias), avatar: Some(avatar) });
    }
}

/// One piece of the timeline of a sync: a gap to fill with the messages the
/// server left out, or a message with the media to fetch for its thumbnail.
pub enum TimelineItem {
    /// The messages of room `room` up to the batch `to` are still to fetch.
    Gap { room: String, to: String },
    Msg(Message, Option<String>),
}

pub enum TimelineItemV {
    Gap { room: Seq<char>, to: Seq<char> },
    Msg(MessageV, Option<Seq<char>>),
}

impl View for TimelineItem {
    type V = TimelineItemV;

    open spec fn view(&self) -> TimelineItemV {
        match self {
            TimelineItem::Gap { room, to } => TimelineItemV::Gap { room: room@, to: to@ },
            TimelineItem::Msg(m, t) => TimelineItemV::Msg(m@, opt_view(*t)),
        }
    }
}

pub open spec fn items_view(v: Seq<TimelineItem>) -> Seq<TimelineItemV> {
    v.map_values(|x: TimelineItem| x@)
}

/// The timeline of joined room `room` with id `k`: a gap first when the
/// server limited it and gave the batch before it, then its messages;
/// `None` where a message is dated out of chrono's range.
pub open spec fn room_timeline(k: Seq<char>, room: JsonV, now: LocalTime) -> Option<Seq<TimelineItemV>> {
    let tl = room.field("timeline"@);
    let gap = if tl.field("limited"@).bool_of() == Some(true) && tl.field("prev_batch"@).str_of() is Some {
        seq![TimelineItemV::Gap { room: k, to: tl.field("prev_batch"@).str_of()->0 }]
    } else {
        Seq::empty()
    };
    match sync_messages(k, timeline_of(room), now) {
        Some(ps) => Some(gap + ps.map_values(|p: (MessageV, Option<Seq<char>>)| TimelineItemV::Msg(p.0, p.1))),
        None => None,
    }
}

/// The timelines of the joined rooms, room after room.
pub open spec fn rooms_timeline(join: Seq<(Seq<char>, JsonV)>, now: LocalTime) -> Option<Seq<TimelineItemV>>
    decreases join.len(),
{
    if join.len() == 0 {
        Some(Seq::empty())
    } else {
        match (rooms_timeline(join.drop_last(), now), room_timeline(join.last().0, join.last().1, now)) {
            (Some(a), Some(b)) => Some(a + b),
            _ => None,
        }
    }
}

proof fn lemma_rooms_timeline_none(join: Seq<(Seq<char>, JsonV)>, now: LocalTime, i: int)
    requires
        0 <= i <= join.len(),
        rooms_timeline(join.take(i), now) is None,
    ensures
        rooms_timeline(join, now) is None,
    decreases join.len(),
{
    if i == join.len() {
        assert(join.take(i) =~= join);
    } else {
        assert(join.drop_last().take(i) =~= join.take(i));
        lemma_rooms_timeline_none(join.drop_last(), now, i);
    }
}

/// The timelines of the joined rooms of sync
/// response `r`, read at `now`, with the gaps still to fill; an error where
/// `rooms.join` is no object, `None` where a message is dated out of
/// chrono's range.
pub fn get_rooms_timeline_from_json(r: &Json, now: &LocalTime) -> (res: Option<Result<Vec<TimelineItem>, Error>>)
    ensures
        match r.view().field("rooms"@).field("join"@) {
            JsonV::Object(join) => match rooms_timeline(join, *now) {
                Some(items) => res matches Some(Ok(v)) && items_view(v@) == items,
                None => res is None,
            },
            _ => res matches Some(Err(e)) && e == Error::BackendError,
        },
{
    let join = match r.get("rooms") {
        Some(x) => match x.get("join") {
            Some(j) => match j.as_object() {
                Some(m) => m,
                None => return Some(Err(Error::BackendError)),
            },
            None => return Some(Err(Error::BackendError)),
        },
        None => return Some(Err(Error::BackendError)),
    };
    let ghost jv = view_members(join@);
    proof {
        lemma_view_members(join@);
        assert(jv.take(0) =~= Seq::<(Seq<char>, JsonV)>::empty());
        assert(items_view(Seq::<TimelineItem>::empty()) =~= Seq::<TimelineItemV>::empty());
    }
    let mut out: Vec<TimelineItem> = Vec::new();
    let mut a: usize = 0;
    while a < join.len()
        invariant
            a <= join.len(),
            jv == view_members(join@),
            jv.len() == join@.len(),
            forall|k: int| 0 <= k < join@.len() ==> #[trigger] jv[k] == (join@[k].0@, join@[k].1.view()),
            r.view().field("rooms"@).field("join"@) == JsonV::Object(jv),
            rooms_timeline(jv.take(a as int), *now) == Some(items_view(out@)),
        decreases join.len() - a,
    {
        proof {
            assert(jv.take(a + 1).drop_last() =~= jv.take(a as int));
            assert(jv.take(a + 1).last() == jv[a as int]);
        }
        let k = &join[a].0;
        let room = &join[a].1;
        let ghost before = items_view(out@);
        let null = Json::Null;
        let tl = match room.get("timeline") {
            Some(t) => t,
            None => &null,
        };
        let limited = match tl.get("limited") {
            Some(l) => l.as_bool(),
            None => None,
        };
        let pb = tl.field_str("prev_batch");
        let mut gap_items: Vec<TimelineItem> = Vec::new();
        if let (Some(true), Some(pb)) = (limited, pb) {
            gap_items.push(TimelineItem::Gap { room: k.clone(), to: pb.to_owned() });
        }
        let empty: Vec<Json> = Vec::new();
        let evs = match tl.get("events") {
            Some(e) => match e.as_array() {
                Some(x) => x,
                None => &empty,
            },
            None => &empty,
        };
        proof {
            assert(view_items(empty@) =~= Seq::<JsonV>::empty());
            assert(view_items(evs@) == timeline_of(room.view()));
        }
        let (ms, ts) = match sync_room_messages(k.as_str(), evs, now) {
            Some(p) => p,
            None => {
                proof {
                    lemma_rooms_timeline_none(jv, *now, a as int + 1);
                }
                return None;
            },
        };
        let ghost ps = sync_messages(k@, timeline_of(room.view()), *now)->0;
        out.append(&mut gap_items);
        let mut ms = ms;
        let mut ts = ts;
        let mut j: usize = 0;
        let ghost mid = items_view(out@);
        let n = ms.len();
        let ghost msv = ms@;
        let ghost tsv = ts@;
        while ms.len() > 0
            invariant
                n == msv.len(),
                tsv.len() == n,
                ms@.len() + j == n,
                ts@.len() == ms@.len(),
                ms@ == msv.skip(j as int),
                ts@ == tsv.skip(j as int),
                ps.len() == n,
                forall|q: int| 0 <= q < n ==> #[trigger] ps[q] == (msv[q]@, opt_view(tsv[q])),
                items_view(out@) == mid + ps.take(j as int).map_values(|p: (MessageV, Option<Seq<char>>)| TimelineItemV::Msg(p.0, p.1)),
            decreases ms@.len(),
        {
            let m = ms.remove(0);
            let t = ts.remove(0);
            proof {
                assert(m == msv[j as int]);
                assert(t == tsv[j as int]);
                assert(ms@ =~= msv.skip(j + 1));
                assert(ts@ =~= tsv.skip(j + 1));
            }
            let ghost prev = items_view(out@);
            out.push(TimelineItem::Msg(m, t));
            proof {
                assert(items_view(out@) =~= prev.push(TimelineItemV::Msg(ps[j as int].0, ps[j as int].1)));
                assert(ps.take(j + 1).map_values(|p: (MessageV, Option<Seq<char>>)| TimelineItemV::Msg(p.0, p.1))
                    =~= ps.take(j as int).map_values(|p: (MessageV, Option<Seq<char>>)| TimelineItemV::Msg(p.0, p.1)).push(
                    TimelineItemV::Msg(ps[j as int].0, ps[j as int].1),
                ));
            }
            j = j + 1;
        }
        proof {
            assert(ps.take(n as int) =~= ps);
            assert(items_view(out@) =~= before + room_timeline(k@, room.view(), *now)->0);
        }
        a = a + 1;
    }
    proof {
        assert(jv.take(jv.len() as int) =~= jv);
    }
    Some(Ok(out))
}

} // verus!
