use fractal::backend::RoomElement;
use fractal::json::Json;
use fractal::rooms::{date_from_age, direct_rooms, get_rooms_from_json, parse_sync_message, set_inviter, set_thumb, whole_seconds};
use fractal::sync::{default_room, other_elements, room_messages, room_notifications, sync_update, typing_updates, JoinedRoom};
use fractal::types::{LocalTime, Room};

fn s(x: &str) -> Json {
    Json::Str(x.to_string())
}

fn obj(pairs: Vec<(&str, Json)>) -> Json {
    Json::Object(pairs.into_iter().map(|(k, v)| (k.to_string(), v)).collect())
}

fn text_message(id: &str, sender: &str, body: &str, ts: i64) -> Json {
    obj(vec![
        ("type", s("m.room.message")),
        ("sender", s(sender)),
        ("event_id", s(id)),
        ("origin_server_ts", Json::Int(ts)),
        ("content", obj(vec![("msgtype", s("m.text")), ("body", s(body))])),
    ])
}

fn joined(id: &str, timeline: Vec<Json>, ephemeral: Vec<Json>) -> JoinedRoom {
    JoinedRoom { id: id.to_string(), timeline, ephemeral, highlight_count: Some(2), notification_count: None }
}

#[test]
fn sync_room_messages_in_order() {
    let join = vec![
        joined("!a:x", vec![text_message("$1:x", "@a:x", "hi", 1500)], vec![]),
        joined("!b:x", vec![text_message("$2:x", "@b:x", "yo", -1500)], vec![]),
    ];
    let msgs = room_messages(&join).ok().unwrap();
    assert_eq!(msgs.len(), 2);
    assert_eq!(msgs[0].body, "hi");
    assert_eq!(msgs[0].room, "!a:x");
    assert_eq!(msgs[0].date.secs, 1);
    assert_eq!(msgs[1].date.secs, -1);
    assert_eq!(msgs[1].id, Some("$2:x".to_string()));
}

#[test]
fn sync_room_messages_bad_sender_fails() {
    let join = vec![joined("!a:x", vec![text_message("$1:x", "not a user", "hi", 0)], vec![])];
    assert!(room_messages(&join).is_err());
}

#[test]
fn sync_notifications_and_typing() {
    let typing = obj(vec![("content", obj(vec![("user_ids", Json::Array(vec![s("@me:x"), s("@ann:x"), s("bad")]))]))]);
    let join = vec![joined("!a:x", vec![], vec![typing])];
    let n = room_notifications(&join);
    assert_eq!(n, vec![("!a:x".to_string(), Some(2), None)]);
    let t = typing_updates(&join, "@me:x");
    assert_eq!(t.len(), 1);
    assert_eq!(t[0].0, "!a:x");
    assert_eq!(t[0].1.len(), 1);
    assert_eq!(t[0].1[0].uid, "@ann:x");
}

#[test]
fn sync_other_events_become_room_elements() {
    let name = obj(vec![("type", s("m.room.name")), ("sender", s("@a:x")), ("content", obj(vec![("name", s("New"))]))]);
    let redaction = obj(vec![("type", s("m.room.redaction")), ("sender", s("@a:x")), ("redacts", s("$gone:x"))]);
    let sticker = obj(vec![("type", s("m.sticker")), ("sender", s("@a:x"))]);
    let join = vec![joined("!a:x", vec![name, text_message("$1:x", "@a:x", "hi", 0), sticker, redaction], vec![])];
    let els = other_elements(&join).ok().unwrap();
    assert_eq!(els.len(), 2);
    assert!(matches!(&els[0], RoomElement::Name(r, n) if r == "!a:x" && n == "New"));
    assert!(matches!(&els[1], RoomElement::RemoveMessage(r, id) if r == "!a:x" && id == "$gone:x"));
}

#[test]
fn sync_other_events_bad_sender_is_error() {
    let topic = obj(vec![("type", s("m.room.topic")), ("sender", s("nobody")), ("content", obj(vec![]))]);
    let join = vec![joined("!a:x", vec![topic], vec![])];
    assert!(other_elements(&join).is_err());
}

#[test]
fn sync_update_stops_on_redaction_without_target() {
    let redaction = obj(vec![("type", s("m.room.redaction")), ("sender", s("@a:x"))]);
    let join = vec![joined("!a:x", vec![redaction], vec![])];
    assert!(sync_update(&join, "@me:x", "next".to_string()).is_none());
    let ok = vec![joined("!a:x", vec![], vec![])];
    let u = sync_update(&ok, "@me:x", "next".to_string()).unwrap();
    assert_eq!(u.next_batch, "next");
    assert!(u.room_messages.is_ok());
}

#[test]
fn sync_default_room_by_id() {
    let rooms = vec![Room::new("!a:x".to_string(), None), Room::new("!b:x".to_string(), None)];
    assert_eq!(default_room(&rooms, Some("!b:x")), Some(1));
    assert_eq!(default_room(&rooms, Some("!c:x")), None);
    assert_eq!(default_room(&rooms, None), None);
}

#[test]
fn age_is_whole_seconds_earlier() {
    assert_eq!(whole_seconds(2999), 2);
    assert_eq!(whole_seconds(-2999), -2);
    let now = LocalTime { secs: 1_600_000_000, nanos: 5 };
    let d = date_from_age(&now, 61_500).unwrap();
    assert_eq!(d.secs, 1_600_000_000 - 61);
    assert_eq!(d.nanos, 5);
}

#[test]
fn sync_message_thumbnail_source() {
    let now = LocalTime { secs: 1000, nanos: 0 };
    let img = obj(vec![
        ("type", s("m.room.message")),
        ("sender", s("@a:x")),
        ("event_id", s("$1")),
        ("unsigned", obj(vec![("age", Json::Int(2000))])),
        ("content", obj(vec![("msgtype", s("m.image")), ("body", s("cat.png")), ("url", s("mxc://x/cat"))])),
    ]);
    let (m, thumb) = parse_sync_message("!a:x", &img, &now).unwrap();
    assert_eq!(thumb, Some("mxc://x/cat".to_string()));
    assert_eq!(m.url, Some("mxc://x/cat".to_string()));
    assert_eq!(m.thumb, Some(String::new()));
    assert_eq!(m.date.secs, 998);
    let txt = text_message("$2", "@a:x", "hi", 0);
    let (m2, thumb2) = parse_sync_message("!a:x", &txt, &now).unwrap();
    assert_eq!(thumb2, None);
    assert_eq!(m2.url, Some(String::new()));
}

#[test]
fn first_sync_rooms() {
    let st = Json::Array(vec![
        obj(vec![("type", s("m.room.name")), ("content", obj(vec![("name", s("Lounge"))]))]),
        obj(vec![
            ("type", s("m.room.member")),
            ("sender", s("@ann:x")),
            ("content", obj(vec![("membership", s("join")), ("displayname", s("Ann"))])),
        ]),
    ]);
    let joined_room = obj(vec![
        ("state", obj(vec![("events", st)])),
        ("timeline", obj(vec![("events", Json::Array(vec![text_message("$1", "@ann:x", "hi", 0)]))])),
        ("unread_notifications", obj(vec![("notification_count", Json::Int(4))])),
        ("account_data", obj(vec![("events", Json::Array(vec![obj(vec![
            ("type", s("m.tag")),
            ("content", obj(vec![("tags", obj(vec![("m.favourite", obj(vec![]))]))])),
        ])]))])),
    ]);
    let invite_state = Json::Array(vec![
        obj(vec![("type", s("m.room.name")), ("content", obj(vec![("name", s("Party"))]))]),
        obj(vec![("membership", s("invite")), ("state_key", s("@me:x")), ("sender", s("@bob:x"))]),
    ]);
    let r = obj(vec![
        ("account_data", obj(vec![("events", Json::Array(vec![obj(vec![
            ("type", s("m.direct")),
            ("content", obj(vec![("@ann:x", Json::Array(vec![s("!j:x")]))])),
        ])]))])),
        ("rooms", obj(vec![
            ("join", obj(vec![("!j:x", joined_room)])),
            ("leave", obj(vec![("!l:x", obj(vec![]))])),
            ("invite", obj(vec![("!i:x", obj(vec![("invite_state", obj(vec![("events", invite_state)]))]))])),
        ])),
    ]);
    assert_eq!(direct_rooms(&r), vec!["!j:x".to_string()]);
    let now = LocalTime { secs: 100, nanos: 0 };
    let d = get_rooms_from_json(&r, "@me:x", &now).unwrap().ok().unwrap();
    assert_eq!(d.rooms.len(), 3);
    let j = &d.rooms[0];
    assert_eq!(j.id, "!j:x");
    assert_eq!(j.name, Some("Lounge".to_string()));
    assert!(j.direct && j.fav && !j.left && !j.inv);
    assert_eq!(j.notifications, 4);
    assert_eq!(j.messages.len(), 1);
    assert_eq!(j.members.len(), 1);
    assert_eq!(j.members[0].alias, Some("Ann".to_string()));
    assert_eq!(d.thumbs, vec![vec![None]]);
    assert!(d.rooms[1].left && d.rooms[1].id == "!l:x" && d.rooms[1].name.is_none());
    assert!(d.rooms[2].inv && d.rooms[2].name == Some("Party".to_string()));
    assert_eq!(d.inviters, vec![Some("@bob:x".to_string())]);

    let mut inv = Room::new("!i:x".to_string(), None);
    set_inviter(&mut inv, "@me:x", Some(("Bob".to_string(), "/tmp/bob.png".to_string())));
    let sender = inv.inv_sender.unwrap();
    assert_eq!(sender.uid, "@me:x");
    assert_eq!(sender.alias, Some("Bob".to_string()));
    let mut room = d.rooms.into_iter().next().unwrap();
    set_thumb(&mut room, 0, "/tmp/t.png".to_string());
    assert_eq!(room.messages[0].thumb, Some("/tmp/t.png".to_string()));
}

#[test]
fn first_sync_rooms_require_objects() {
    let now = LocalTime { secs: 100, nanos: 0 };
    let r = obj(vec![("rooms", obj(vec![("join", obj(vec![]))]))]);
    assert!(matches!(get_rooms_from_json(&r, "@me:x", &now), Some(Err(_))));
}
