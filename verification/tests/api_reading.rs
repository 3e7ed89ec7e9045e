use fractal::api::{calculate_room_name, evc, get_rooms_notifies_from_json, parse_room_member, parse_sync_events};
use fractal::json::Json;
use fractal::message::txn_id_from;
use fractal::types::Error;

fn s(x: &str) -> Json {
    Json::Str(x.to_string())
}

fn obj(pairs: Vec<(&str, Json)>) -> Json {
    Json::Object(pairs.into_iter().map(|(k, v)| (k.to_string(), v)).collect())
}

fn member(sender: &str, membership: &str, displayname: Option<&str>, state_key: &str) -> Json {
    let mut content = vec![("membership", s(membership))];
    if let Some(d) = displayname {
        content.push(("displayname", s(d)));
    }
    obj(vec![
        ("type", s("m.room.member")),
        ("sender", s(sender)),
        ("state_key", s(state_key)),
        ("content", obj(content)),
    ])
}

#[test]
fn evc_finds_first_event_of_type() {
    let events = Json::Array(vec![
        obj(vec![("type", s("m.room.topic")), ("content", obj(vec![("topic", s("first"))]))]),
        obj(vec![("type", s("m.room.topic")), ("content", obj(vec![("topic", s("second"))]))]),
    ]);
    assert_eq!(evc(&events, "m.room.topic", "topic"), "first");
    assert_eq!(evc(&events, "m.room.avatar", "url"), "");
    assert_eq!(evc(&Json::Null, "m.room.topic", "topic"), "");
}

#[test]
fn evc_missing_field_is_empty() {
    let events = Json::Array(vec![obj(vec![("type", s("m.room.avatar")), ("content", obj(vec![]))])]);
    assert_eq!(evc(&events, "m.room.avatar", "url"), "");
}

#[test]
fn room_name_from_name_event() {
    let st = Json::Array(vec![
        obj(vec![("type", s("m.room.canonical_alias")), ("content", obj(vec![("alias", s("#a:b"))]))]),
        obj(vec![("type", s("m.room.name")), ("content", obj(vec![("name", s("Lounge"))]))]),
    ]);
    assert_eq!(calculate_room_name(&st, "@me:x").ok(), Some("Lounge".to_string()));
}

#[test]
fn room_name_empty_name_falls_back_to_alias() {
    let st = Json::Array(vec![
        obj(vec![("type", s("m.room.name")), ("content", obj(vec![("name", s(""))]))]),
        obj(vec![("type", s("m.room.canonical_alias")), ("content", obj(vec![("alias", s("#a:b"))]))]),
    ]);
    assert_eq!(calculate_room_name(&st, "@me:x").ok(), Some("#a:b".to_string()));
}

#[test]
fn room_name_from_members() {
    let me = "@me:x";
    let none = Json::Array(vec![member(me, "join", Some("Me"), me)]);
    assert_eq!(calculate_room_name(&none, me).ok(), Some("EMPTY ROOM".to_string()));

    let one = Json::Array(vec![member(me, "join", Some("Me"), me), member("@ann:x", "join", Some("Ann"), "@ann:x")]);
    assert_eq!(calculate_room_name(&one, me).ok(), Some("Ann".to_string()));

    let two = Json::Array(vec![
        member("@ann:x", "join", Some("Ann"), "@ann:x"),
        member("@bob:x", "join", None, "@bob:x"),
    ]);
    assert_eq!(calculate_room_name(&two, me).ok(), Some("Ann and ".to_string()));

    let three = Json::Array(vec![
        member("@ann:x", "join", Some("Ann"), "@ann:x"),
        member("@bob:x", "join", None, "@bob:x"),
        member(me, "invite", None, "@cid:x"),
    ]);
    assert_eq!(calculate_room_name(&three, me).ok(), Some("Ann and Others".to_string()));
}

#[test]
fn room_name_sender_when_no_displayname() {
    let st = Json::Array(vec![member("@bob:x", "join", None, "@bob:x")]);
    assert_eq!(calculate_room_name(&st, "@me:x").ok(), Some("@bob:x".to_string()));
}

#[test]
fn room_name_state_not_array_is_error() {
    assert!(matches!(calculate_room_name(&Json::Null, "@me:x"), Err(Error::BackendError)));
}

#[test]
fn room_member_joined_only() {
    let m = parse_room_member(&member("@ann:x", "join", Some("Ann"), "@ann:x")).unwrap();
    assert_eq!(m.uid, "@ann:x");
    assert_eq!(m.alias, Some("Ann".to_string()));
    assert_eq!(m.avatar, None);
    assert!(parse_room_member(&member("@ann:x", "leave", None, "@ann:x")).is_none());
}

#[test]
fn notifies_counts_per_room() {
    let r = obj(vec![(
        "rooms",
        obj(vec![(
            "join",
            obj(vec![
                ("!a:x", obj(vec![("unread_notifications", obj(vec![("notification_count", Json::Int(3)), ("highlight_count", Json::Int(1))]))])),
                ("!b:x", obj(vec![])),
            ]),
        )]),
    )]);
    let n = get_rooms_notifies_from_json(&r).ok().unwrap();
    assert_eq!(n, vec![("!a:x".to_string(), 3, 1), ("!b:x".to_string(), 0, 0)]);
    assert!(get_rooms_notifies_from_json(&obj(vec![])).is_err());
}

#[test]
fn sync_events_skip_messages() {
    let ev = |t: &str, id: &str| obj(vec![("type", s(t)), ("sender", s("@a:x")), ("id", s(id)), ("content", obj(vec![]))]);
    let r = obj(vec![(
        "rooms",
        obj(vec![(
            "join",
            obj(vec![(
                "!a:x",
                obj(vec![("timeline", obj(vec![("events", Json::Array(vec![ev("m.room.message", "1"), ev("m.room.topic", "2")]))]))]),
            )]),
        )]),
    )]);
    let evs = parse_sync_events(&r).ok().unwrap();
    assert_eq!(evs.len(), 1);
    assert_eq!(evs[0].stype, "m.room.topic");
    assert_eq!(evs[0].id, "2");
    assert_eq!(evs[0].room, "!a:x");
}

#[test]
fn transaction_ids_are_md5_hex_digests() {
    assert_eq!(txn_id_from("a", "b", "c"), "900150983cd24fb0d6963f7d28e17f72");
    let id = txn_id_from("!room:x", "hello", "2020-01-01 10:00:00 +01:00");
    assert_eq!(id.len(), 32);
    assert!(id.chars().all(|c| c.is_ascii_digit() || ('a'..='f').contains(&c)));
}
