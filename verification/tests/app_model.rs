use fractal::appop::{search_results, AppModel, LastViewed, LoginData, SearchType};
use fractal::history::RoomAction;
use fractal::json::Json;
use fractal::outbox::{RowType, SendCommand};
use fractal::types::{Event, LocalTime, Member, Message, Room};
use fractal::viewer::MediaViewer;

fn model() -> AppModel {
    AppModel {
        rooms: vec![Room::new("!a:x".to_string(), Some("A".to_string())), Room::new("!b:x".to_string(), None)],
        active_room: Some("!a:x".to_string()),
        uid: Some("@me:x".to_string()),
        username: Some("me".to_string()),
        last_viewed_messages: vec![],
        first_new_messages: vec![],
        msg_queue: vec![],
        sending_message: false,
        invite_list: vec![],
        search_type: SearchType::Invite,
        invitation_roomid: None,
        loading_more: false,
        shown_messages: 0,
        directory: vec![],
        autoscroll: false,
        login_data: Some(LoginData {
            server_url: "https://x.org".to_string(),
            access_token: "TK".to_string(),
            uid: "@me:x".to_string(),
        }),
    }
}

fn msg(room: &str, id: &str, sender: &str, body: &str, secs: i64) -> Message {
    let mut m = Message::new(room.to_string(), sender.to_string(), body.to_string(), "m.text".to_string(), Some(id.to_string()));
    m.date = LocalTime { secs, nanos: 0 };
    m
}

fn member(uid: &str) -> Member {
    Member { uid: uid.to_string(), alias: None, avatar: None }
}

fn event(room: &str, sender: &str, content: Vec<(&str, &str)>) -> Event {
    Event {
        room: room.to_string(),
        sender: sender.to_string(),
        content: Json::Object(content.into_iter().map(|(k, v)| (k.to_string(), Json::Str(v.to_string()))).collect()),
        stype: "m.room.member".to_string(),
        id: String::new(),
        redacts: None,
    }
}

#[test]
fn member_events_join_and_leave() {
    let mut m = model();
    m.room_member_event(event("!a:x", "@ann:x", vec![("membership", "join"), ("displayname", "Ann")]));
    assert_eq!(m.rooms[0].members.len(), 1);
    assert_eq!(m.rooms[0].members[0].alias, Some("Ann".to_string()));
    assert_eq!(m.rooms[0].members[0].avatar, Some(String::new()));
    m.room_member_event(event("!a:x", "@ann:x", vec![("membership", "join"), ("displayname", "Annie")]));
    assert_eq!(m.rooms[0].members.len(), 1);
    assert_eq!(m.rooms[0].members[0].alias, Some("Annie".to_string()));
    m.room_member_event(event("!a:x", "@ann:x", vec![("membership", "leave")]));
    assert_eq!(m.rooms[0].members.len(), 0);
    m.room_member_event(event("!zzz:x", "@ann:x", vec![("membership", "join")]));
    assert_eq!(m.rooms.len(), 2);
}

#[test]
fn set_members_and_levels() {
    let mut m = model();
    m.set_room_members("!a:x", vec![member("@ann:x"), member("@bob:x"), member("@ann:x")]);
    assert_eq!(m.rooms[0].members.len(), 2);
    m.rooms[0].power_levels.push(("@ann:x".to_string(), 50));
    assert_eq!(m.member_level(&member("@ann:x")), 50);
    assert_eq!(m.member_level(&member("@bob:x")), 0);
}

#[test]
fn user_search_adds_typed_id() {
    let r = search_results(vec![member("@ann:x")], Some("@bob:x".to_string()));
    assert_eq!(r.len(), 2);
    assert_eq!(r[0].uid, "@bob:x");
    let r = search_results(vec![member("@ann:x")], Some("@ann:x".to_string()));
    assert_eq!(r.len(), 1);
    let r = search_results(vec![member("@ann:x")], Some("bob".to_string()));
    assert_eq!(r.len(), 1);
}

#[test]
fn invite_list_once_per_user() {
    let mut m = model();
    assert!(m.add_to_invite(member("@ann:x")));
    assert!(!m.add_to_invite(member("@ann:x")));
    assert!(m.add_to_invite(member("@bob:x")));
    assert_eq!(m.invite_list.len(), 2);
    assert!(!m.rm_from_invite("@ann:x"));
    assert!(m.rm_from_invite("@bob:x"));
    m.search_type = SearchType::DirectChat;
    m.add_to_invite(member("@ann:x"));
    m.add_to_invite(member("@bob:x"));
    assert_eq!(m.invite_list.len(), 1);
    assert_eq!(m.invite_list[0].uid, "@bob:x");
}

#[test]
fn invitations_accept_and_forget() {
    let mut m = model();
    let mut r = Room::new("!i:x".to_string(), Some("Party".to_string()));
    r.inv_sender = Some(Member { uid: "@bob:x".to_string(), alias: Some("Bob".to_string()), avatar: None });
    let (name, sender) = m.show_inv_dialog(&r);
    assert_eq!(name, "Party");
    assert_eq!(sender, Some("Bob".to_string()));
    assert_eq!(m.accept_inv(true), Some(("!i:x".to_string(), true)));
    assert_eq!(m.accept_inv(true), None);
    m.remove_inv("!a:x");
    assert_eq!(m.rooms.len(), 1);
    assert_eq!(m.rooms[0].id, "!b:x");
}

#[test]
fn last_viewed_and_first_new() {
    let mut m = model();
    m.rooms[0].messages.push(msg("!a:x", "$1", "@ann:x", "one", 10));
    m.rooms[0].messages.push(msg("!a:x", "$2", "@me:x", "two", 20));
    m.rooms[0].messages.push(msg("!a:x", "$3", "@ann:x", "three", 30));
    let first = msg("!a:x", "$1", "@ann:x", "one", 10);
    assert!(matches!(m.is_last_viewed(&first), LastViewed::No));
    assert_eq!(m.mark_as_read(&first, false, false), None);
    assert_eq!(m.mark_as_read(&first, false, true), Some(("!a:x".to_string(), "$1".to_string())));
    assert!(matches!(m.is_last_viewed(&first), LastViewed::Inline));
    let next = m.get_first_new_from_last(&first).unwrap();
    assert_eq!(next.id, Some("$3".to_string()));
    let last = msg("!a:x", "$3", "@ann:x", "three", 30);
    m.mark_as_read(&last, true, false);
    assert!(matches!(m.is_last_viewed(&last), LastViewed::Last));
    assert!(m.get_first_new_from_last(&last).is_none());
    assert_eq!(m.get_msg_from_id("!a:x", "$2").unwrap().body, "two");
    assert!(m.get_msg_from_id("!b:x", "$2").is_none());
    m.first_new_messages.push(("!a:x".to_string(), Some(msg("!a:x", "$3", "@ann:x", "three", 30))));
    assert!(m.is_first_new(&last));
    assert!(!m.is_first_new(&first));
}

#[test]
fn last_viewed_from_receipts() {
    let mut m = model();
    let mut read = msg("!a:x", "$1", "@ann:x", "one", 10);
    read.set_receipt(vec![("@me:x".to_string(), 5)]);
    m.rooms[0].messages.push(msg("!a:x", "$0", "@ann:x", "zero", 5));
    m.rooms[0].messages.push(read);
    m.set_last_viewed_messages();
    assert_eq!(m.last_viewed_messages, vec![("!a:x".to_string(), "$1".to_string())]);
    m.set_last_viewed_messages();
    assert_eq!(m.last_viewed_messages.len(), 1);
}

#[test]
fn new_messages_added_once_and_notified() {
    let mut m = model();
    m.rooms[1].direct = true;
    let incoming = vec![
        msg("!a:x", "$1", "@ann:x", "hello me", 10),
        msg("!a:x", "$1", "@ann:x", "hello me", 10),
        msg("!b:x", "$2", "@ann:x", "hi", 11),
        msg("!c:x", "$3", "@ann:x", "lost", 12),
    ];
    let (acts, done) = m.show_room_messages(incoming, false, true);
    assert!(done);
    assert_eq!(m.rooms[0].messages.len(), 1);
    assert_eq!(m.rooms[1].messages.len(), 1);
    let notified = acts.iter().filter(|a| matches!(a, RoomAction::Notify(_))).count();
    assert_eq!(notified, 2);
    assert!(matches!(acts.last(), Some(RoomAction::MarkAsRead(r, id)) if r == "!a:x" && id == "$1"));
    let (acts2, _) = m.show_room_messages(vec![msg("!a:x", "$1", "@ann:x", "hello me", 10)], false, true);
    assert_eq!(acts2.len(), 0);
    assert_eq!(m.rooms[0].messages.len(), 1);
}

#[test]
fn new_messages_stop_without_username() {
    let mut m = model();
    m.username = None;
    let (acts, done) = m.show_room_messages(vec![msg("!a:x", "$1", "@ann:x", "x", 1)], true, true);
    assert!(!done);
    assert_eq!(acts.len(), 0);
    assert_eq!(m.rooms[0].messages.len(), 1);
}

#[test]
fn older_messages_prepended() {
    let mut m = model();
    m.rooms[0].messages.push(msg("!a:x", "$3", "@ann:x", "three", 30));
    let acts = m.show_room_messages_top(vec![msg("!a:x", "$1", "@ann:x", "one", 10), msg("!a:x", "$2", "@ann:x", "two", 20)]);
    let ids: Vec<String> = m.rooms[0].messages.iter().map(|x| x.id.clone().unwrap()).collect();
    assert_eq!(ids, vec!["$1", "$2", "$3"]);
    assert_eq!(acts.len(), 3);
    assert!(matches!(&acts[0], RoomAction::AddRoomMessage { msg, prev: Some(p), top: true, .. } if msg.body == "two" && p.body == "one"));
    assert!(matches!(&acts[1], RoomAction::AddRoomMessage { msg, prev: None, .. } if msg.body == "one"));
    assert!(matches!(acts[2], RoomAction::LoadMoreNormal));
    let acts = m.show_room_messages_top(vec![]);
    assert!(matches!(acts[0], RoomAction::LoadMoreNormal));
}

#[test]
fn load_more_messages_pages() {
    let mut m = model();
    for i in 0..45 {
        m.rooms[0].messages.push(msg("!a:x", &format!("${}", i), "@ann:x", "m", i));
    }
    m.shown_messages = 3;
    let acts = m.load_more_messages();
    assert!(m.loading_more);
    assert_eq!(acts.len(), 41);
    assert!(matches!(&acts[0], RoomAction::AddRoomMessage { msg, last: false, .. } if msg.id == Some("$41".to_string())));
    assert!(matches!(&acts[39], RoomAction::AddRoomMessage { msg, last: true, .. } if msg.id == Some("$2".to_string())));
    assert_eq!(m.load_more_messages().len(), 0);
    m.load_more_normal();
    m.shown_messages = 45;
    let acts = m.load_more_messages();
    assert!(matches!(&acts[0], RoomAction::GetMessageContext(x) if x.id == Some("$0".to_string())));
}

#[test]
fn sending_queue_in_order() {
    let mut m = model();
    assert!(m.send_message(String::new(), false).is_none());
    assert!(!m.autoscroll);
    let (ui, cmd) = m.send_message("first".to_string(), false).unwrap();
    assert!(m.autoscroll);
    assert_eq!(m.msg_queue[0].sender, "@me:x");
    assert_eq!(m.msg_queue[0].room, "!a:x");
    assert!(m.msg_queue[0].id.is_some());
    let ui = ui.unwrap();
    assert!(ui.mtype == RowType::Message);
    assert!(matches!(&cmd, Some(SendCommand::SendMsg(x)) if x.body == "first"));
    let (_, cmd2) = m.send_message("/me /me waves".to_string(), false).unwrap();
    assert!(cmd2.is_none());
    assert_eq!(m.msg_queue.len(), 2);
    assert_eq!(m.msg_queue[0].body, "waves");
    assert_eq!(m.msg_queue[0].mtype, "m.emote");
    assert!(m.send_message(String::new(), false).is_none());
    let (_, _, next) = m.msg_sent("$ev1".to_string(), true);
    assert!(matches!(&next, Some(SendCommand::SendMsg(x)) if x.body == "waves"));
    assert_eq!(m.rooms[0].messages.len(), 1);
    assert_eq!(m.rooms[0].messages[0].id, Some("$ev1".to_string()));
}

#[test]
fn markdown_becomes_html_body() {
    let mut m = model();
    m.send_message("**bold**".to_string(), true).unwrap();
    assert_eq!(m.msg_queue[0].formatted_body, Some("<strong>bold</strong>".to_string()));
    assert_eq!(m.msg_queue[0].format, Some("org.matrix.custom.html".to_string()));
    m.send_message("plain".to_string(), true).unwrap();
    assert_eq!(m.msg_queue[0].formatted_body, None);
}

#[test]
fn attachments_by_mime_type() {
    let mut m = model();
    let (msg, _, cmd) = m.attach_message("/home/me/cat.png".to_string(), "image/png");
    assert_eq!(msg.body, "cat.png");
    assert_eq!(msg.mtype, "m.image");
    assert_eq!(msg.url, Some("/home/me/cat.png".to_string()));
    assert!(matches!(cmd, Some(SendCommand::AttachFile(_))));
    let (doc, _, _) = m.attach_message("notes.txt".to_string(), "text/plain");
    assert_eq!(doc.body, "notes.txt");
    assert_eq!(doc.mtype, "m.file");
}

#[test]
fn mentions_are_highlighted() {
    let m = model();
    let ui = m.create_new_room_message(&msg("!a:x", "$1", "@ann:x", "hey me!", 1)).unwrap();
    assert!(ui.mtype == RowType::Mention);
    assert_eq!(ui.highlights, vec!["me".to_string(), "@me:x".to_string(), "message_menu".to_string()]);
    let own = m.create_new_room_message(&msg("!a:x", "$2", "@me:x", "hey me!", 1)).unwrap();
    assert!(own.mtype == RowType::Message);
    assert!(m.create_new_room_message(&msg("!zz:x", "$3", "@ann:x", "x", 1)).is_none());
}

#[test]
fn directory_search_and_order() {
    let mut m = model();
    let q = m.search_rooms(false, "rust".to_string(), true, "matrix.org", false, "").unwrap();
    assert_eq!(q.homeserver, "matrix.org");
    assert_eq!(q.protocol, "");
    assert_eq!(q.server_url, "https://x.org");
    assert_eq!(q.access_token, "TK");
    assert_eq!(q.term, "rust");
    let q = m.search_rooms(true, "rust".to_string(), false, "irc", true, "https://example.org").unwrap();
    assert_eq!(q.homeserver, "https://example.org");
    assert!(q.more);
    let mut a = Room::new("!a:x".to_string(), None);
    a.n_members = 5;
    let mut b = Room::new("!b:x".to_string(), None);
    b.n_members = 50;
    let mut c = Room::new("!c:x".to_string(), None);
    c.n_members = 5;
    m.append_directory_rooms(vec![a, b, c]);
    let ids: Vec<&str> = m.directory.iter().map(|r| r.id.as_str()).collect();
    assert_eq!(ids, vec!["!b:x", "!a:x", "!c:x"]);
}

#[test]
fn directory_search_needs_a_session() {
    let mut m = model();
    m.directory.push(Room::new("!old:x".to_string(), None));
    m.login_data = None;
    assert!(m.search_rooms(false, "rust".to_string(), false, "", false, "").is_none());
    assert_eq!(m.directory.len(), 1);
    let mut m = model();
    m.directory.push(Room::new("!old:x".to_string(), None));
    let q = m.search_rooms(false, "rust".to_string(), true, "irc", false, "").unwrap();
    assert_eq!(q.homeserver, "");
    assert_eq!(q.protocol, "irc");
    assert_eq!(m.directory.len(), 0);
}

#[test]
fn media_viewer_navigation() {
    let mut room = Room::new("!a:x".to_string(), None);
    for (i, t) in ["m.image", "m.text", "m.image", "m.image"].iter().enumerate() {
        let mut x = msg("!a:x", &format!("${}", i), "@ann:x", &format!("pic{}", i), 0);
        x.mtype = t.to_string();
        x.url = Some(format!("mxc://x/{}", i));
        room.messages.push(x);
    }
    let mut v = MediaViewer::new(&room, "mxc://x/2");
    assert_eq!(v.media_names, vec!["pic0", "pic2", "pic3"]);
    assert_eq!(v.current_media_index, 1);
    assert_eq!(v.nav_sensitivity(), (true, true));
    assert_eq!(v.next_media(), Some("pic3".to_string()));
    assert_eq!(v.next_media(), None);
    assert_eq!(v.nav_sensitivity(), (true, false));
    assert_eq!(v.previous_media(), Some("pic2".to_string()));
    assert_eq!(v.previous_media(), Some("pic0".to_string()));
    assert_eq!(v.previous_media(), None);
    let unknown = MediaViewer::new(&room, "mxc://x/nothing");
    assert_eq!(unknown.current_media_index, 0);
}
