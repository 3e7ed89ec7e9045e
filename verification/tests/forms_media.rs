use fractal::appop::{AppModel, LoginData, SearchType};
use fractal::avatar::{get_room_avatar, get_user_avatar, AvatarSource};
use fractal::json::Json;
use fractal::login::{login_form, register_form, set_token, LoginStep, RegisterStep};
use fractal::markup::{markup_text, media_request};
use fractal::rooms::{get_rooms_timeline_from_json, TimelineItem};
use fractal::types::{LocalTime, Message, Room};

fn s(x: &str) -> Json {
    Json::Str(x.to_string())
}

fn obj(pairs: Vec<(&str, Json)>) -> Json {
    Json::Object(pairs.into_iter().map(|(k, v)| (k.to_string(), v)).collect())
}

#[test]
fn markup_escapes_and_links() {
    assert_eq!(markup_text("a <b> & \"c\""), "a &lt;b&gt; &amp; &quot;c&quot;");
    assert_eq!(
        markup_text("go to https://gnome.org"),
        "go to <a href=\"https://gnome.org\">https://gnome.org</a>"
    );
}

#[test]
fn media_requests() {
    let q = media_request("mxc://matrix.org/abc", true, 64, 32).ok().unwrap();
    assert_eq!(q.path, "/_matrix/media/r0/thumbnail/matrix.org/abc");
    assert_eq!(
        q.params,
        vec![
            ("width".to_string(), "64".to_string()),
            ("height".to_string(), "32".to_string()),
            ("method".to_string(), "scale".to_string())
        ]
    );
    assert_eq!(q.media, "abc");
    let d = media_request("mxc://matrix.org/a/b", false, 0, 0).ok().unwrap();
    assert_eq!(d.path, "/_matrix/media/r0/download/matrix.org/a/b");
    assert!(d.params.is_empty());
    assert!(media_request("https://example.org/x", true, 1, 1).is_err());
}

#[test]
fn user_avatar_from_profile() {
    let p = obj(vec![("displayname", s("Ann")), ("avatar_url", s("mxc://x/a"))]);
    let (name, src) = get_user_avatar("@ann:x", Some(&p));
    assert_eq!(name, "Ann");
    assert!(matches!(src, AvatarSource::Thumbnail { ref url, .. } if url == "mxc://x/a"));
    let p = obj(vec![("displayname", s(""))]);
    let (name, src) = get_user_avatar("@ann:x", Some(&p));
    assert_eq!(name, "@ann:x");
    assert!(matches!(src, AvatarSource::Identicon { ref name, .. } if name == "@ann:x"));
    let (name, src) = get_user_avatar("@ann:x", None);
    assert_eq!(name, "@ann:x");
    assert!(matches!(src, AvatarSource::Identicon { ref name, .. } if name == "a"));
}

#[test]
fn room_avatar_plan() {
    let m = |sender: &str, avatar: Option<&str>| {
        let mut c = vec![("membership", s("join"))];
        if let Some(a) = avatar {
            c.push(("avatar_url", s(a)));
        }
        obj(vec![("type", s("m.room.member")), ("sender", s(sender)), ("content", obj(c))])
    };
    let st = Json::Array(vec![m("@me:x", Some("mxc://x/me")), m("@ann:x", Some("mxc://x/ann"))]);
    let p = get_room_avatar(&st, "@me:x").ok().unwrap();
    assert_eq!(p.member_avatar, Some("mxc://x/ann".to_string()));
    assert_eq!(p.fallback_name, "@ann:x");
    let st = Json::Array(vec![m("@ann:x", None), m("@bob:x", None)]);
    let p = get_room_avatar(&st, "@me:x").ok().unwrap();
    assert_eq!(p.member_avatar, None);
    assert!(get_room_avatar(&Json::Null, "@me:x").is_err());
}

#[test]
fn timeline_with_gap() {
    let msg = obj(vec![
        ("type", s("m.room.message")),
        ("sender", s("@a:x")),
        ("event_id", s("$1")),
        ("content", obj(vec![("msgtype", s("m.text")), ("body", s("hi"))])),
    ]);
    let r = obj(vec![(
        "rooms",
        obj(vec![(
            "join",
            obj(vec![(
                "!a:x",
                obj(vec![(
                    "timeline",
                    obj(vec![("limited", Json::Bool(true)), ("prev_batch", s("t1")), ("events", Json::Array(vec![msg]))]),
                )]),
            )]),
        )]),
    )]);
    let now = LocalTime { secs: 10, nanos: 0 };
    let items = get_rooms_timeline_from_json(&r, &now).unwrap().ok().unwrap();
    assert_eq!(items.len(), 2);
    assert!(matches!(&items[0], TimelineItem::Gap { room, to } if room == "!a:x" && to == "t1"));
    assert!(matches!(&items[1], TimelineItem::Msg(m, None) if m.body == "hi"));
    assert!(matches!(get_rooms_timeline_from_json(&obj(vec![]), &now), Some(Err(_))));
}

#[test]
fn login_and_register_forms() {
    assert!(matches!(login_form(Some("me".into()), None, None, None), LoginStep::InvalidCredentials));
    assert!(matches!(login_form(Some(String::new()), Some("pw".into()), None, None), LoginStep::InvalidCredentials));
    match login_form(Some("me".into()), Some("pw".into()), None, Some("https://id.example".into())) {
        LoginStep::Connect { username, password, server_url, identity_url } => {
            assert_eq!(username, "me");
            assert_eq!(password, "pw");
            assert_eq!(server_url, "https://matrix.org");
            assert_eq!(identity_url, "https://id.example");
        }
        _ => panic!("expected to connect"),
    }
    assert!(matches!(register_form(Some("me".into()), Some("a".into()), Some("b".into()), None), RegisterStep::PasswordsDiffer));
    assert!(matches!(
        register_form(Some("me".into()), Some("a".into()), Some("a".into()), Some("https://hs".into())),
        RegisterStep::Register { ref server_url, .. } if server_url == "https://hs"
    ));
    assert_eq!(set_token(Some("t".into()), None, None), ("https://matrix.org".to_string(), None));
    assert_eq!(
        set_token(Some("t".into()), Some("@me:x".into()), Some("https://hs".into())),
        ("https://hs".to_string(), Some(("t".to_string(), "@me:x".to_string())))
    );
}

#[test]
fn queued_messages_shown_oldest_first() {
    let mut m = AppModel {
        rooms: vec![Room::new("!a:x".to_string(), None)],
        active_room: Some("!a:x".to_string()),
        uid: Some("@me:x".to_string()),
        username: None,
        last_viewed_messages: vec![],
        first_new_messages: vec![],
        msg_queue: vec![],
        sending_message: false,
        invite_list: vec![],
        search_type: SearchType::Invite,
        invitation_roomid: None,
        loading_more: false,
        shown_messages: 0,
        directory: vec![],
        autoscroll: false,
        login_data: Some(LoginData {
            server_url: "https://x.org".to_string(),
            access_token: "TK".to_string(),
            uid: "@me:x".to_string(),
        }),
    };
    let mk = |room: &str, body: &str| Message::new(room.to_string(), "@me:x".to_string(), body.to_string(), "m.text".to_string(), None);
    m.msg_queue.push(mk("!a:x", "newest"));
    m.msg_queue.push(mk("!b:x", "elsewhere"));
    m.msg_queue.push(mk("!a:x", "oldest"));
    let shown = m.tmp_messages();
    let bodies: Vec<&str> = shown.iter().map(|u| u.body.as_str()).collect();
    assert_eq!(bodies, vec!["oldest", "newest"]);
}
