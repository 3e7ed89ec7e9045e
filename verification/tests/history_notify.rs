use std::cmp::Ordering;

use fractal::appop::{AppModel, LoginData, SearchType};
use fractal::directory::{directory_choice, DirectoryChoiceEvent};
use fractal::outbox::{RowType, UiMessage};
use fractal::room_history::RoomHistory;
use fractal::text::replace;
use fractal::types::{LocalTime, Member, Message, Room};
use fractal::widgets::{member_row, BadgeColor};

fn model() -> AppModel {
    let mut direct = Room::new("!d:x".to_string(), Some("D".to_string()));
    direct.direct = true;
    AppModel {
        rooms: vec![Room::new("!a:x".to_string(), Some("Alpha".to_string())), direct, Room::new("!n:x".to_string(), None)],
        active_room: Some("!a:x".to_string()),
        uid: Some("@me:x".to_string()),
        username: Some("me".to_string()),
        last_viewed_messages: vec![],
        first_new_messages: vec![],
        msg_queue: vec![],
        sending_message: false,
        invite_list: vec![],
        search_type: SearchType::Invite,
        invitation_roomid: None,
        loading_more: false,
        shown_messages: 0,
        directory: vec![],
        autoscroll: false,
        login_data: Some(LoginData {
            server_url: "https://x.org".to_string(),
            access_token: "TK".to_string(),
            uid: "@me:x".to_string(),
        }),
    }
}

fn msg(room: &str, body: &str) -> Message {
    Message::new(room.to_string(), "@bob:x".to_string(), body.to_string(), "m.text".to_string(), Some("$1".to_string()))
}

fn member(uid: &str) -> Member {
    Member { uid: uid.to_string(), alias: None, avatar: None }
}

fn ui(id: &str, sender: &str, mtype: RowType) -> UiMessage {
    UiMessage {
        id: id.to_string(),
        sender: sender.to_string(),
        sender_name: None,
        mtype,
        body: format!("body {}", id),
        date: LocalTime { secs: 0, nanos: 0 },
        thumb: None,
        url: None,
        formatted_body: None,
        format: None,
        highlights: vec![],
    }
}

fn list_ids(h: &RoomHistory) -> Vec<(String, bool)> {
    h.list.iter().map(|r| (r.msg.id.clone(), r.header)).collect()
}

fn row_ids(h: &RoomHistory) -> Vec<String> {
    h.rows.iter().map(|m| m.id.clone()).collect()
}

#[test]
fn replace_every_occurrence() {
    assert_eq!(replace("{name} and {name}", "{name}", "Bob"), "Bob and Bob");
    assert_eq!(replace("aaa", "aa", "b"), "ba");
    assert_eq!(replace("none here", "{name}", "Bob"), "none here");
    assert_eq!(replace("", "x", "y"), "");
}

#[test]
fn notification_texts() {
    let m = model();
    let (s, b) = m.notification(&msg("!a:x", "hello"), "Bob");
    assert_eq!(s, "Bob (Alpha)");
    assert_eq!(b, "hello");
    let (s, _) = m.notification(&msg("!d:x", "hi"), "Bob");
    assert_eq!(s, "Bob (direct message)");
    let (s, _) = m.notification(&msg("!n:x", "hi"), "Bob");
    assert_eq!(s, "Bob ()");
    let (s, _) = m.notification(&msg("!unknown:x", "hi"), "Bob");
    assert_eq!(s, "!unknown:x");
    let long = "x".repeat(100);
    let (_, b) = m.notification(&msg("!a:x", &long), "Bob");
    assert_eq!(b.len(), 80);
}

#[test]
fn notification_click_opens_known_rooms() {
    let m = model();
    assert_eq!(m.notification_clicked(&msg("!d:x", "hi")), Some("!d:x".to_string()));
    assert_eq!(m.notification_clicked(&msg("!q:x", "hi")), None);
}

#[test]
fn history_create_headers() {
    let mut h = RoomHistory::new();
    h.create(vec![ui("1", "@a", RowType::Message), ui("2", "@a", RowType::Message), ui("3", "@b", RowType::Emote)]);
    assert_eq!(row_ids(&h), vec!["3", "2", "1"]);
    assert_eq!(
        list_ids(&h),
        vec![("1".to_string(), true), ("2".to_string(), false), ("3".to_string(), false)]
    );
}

#[test]
fn history_new_and_old_messages() {
    let mut h = RoomHistory::new();
    h.add_new_message(ui("1", "@a", RowType::Message));
    h.add_new_message(ui("2", "@a", RowType::Message));
    h.add_new_message(ui("3", "@b", RowType::Message));
    h.add_old_message(ui("0", "@b", RowType::Message));
    assert_eq!(row_ids(&h), vec!["0", "1", "2", "3"]);
    assert_eq!(
        list_ids(&h),
        vec![("0".to_string(), true), ("1".to_string(), true), ("2".to_string(), false), ("3".to_string(), true)]
    );
}

#[test]
fn history_update_adds_before_last_or_restarts() {
    let mut h = RoomHistory::new();
    h.add_new_message(ui("5", "@a", RowType::Message));
    h.update(vec![ui("3", "@a", RowType::Message), ui("4", "@b", RowType::Message), ui("5", "@a", RowType::Message), ui("6", "@c", RowType::Message)]);
    assert_eq!(row_ids(&h), vec!["5", "3", "4"]);
    assert_eq!(list_ids(&h)[0], ("4".to_string(), true));
    assert_eq!(list_ids(&h)[1], ("3".to_string(), false));
    assert_eq!(list_ids(&h)[2], ("5".to_string(), true));

    let mut g = RoomHistory::new();
    g.add_new_message(ui("9", "@a", RowType::Message));
    g.update(vec![ui("1", "@a", RowType::Message), ui("2", "@a", RowType::Message)]);
    assert_eq!(row_ids(&g), vec!["2", "1"]);
    assert_eq!(list_ids(&g), vec![("1".to_string(), false), ("2".to_string(), true)]);
}

#[test]
fn room_messages_go_to_the_active_history() {
    let m = model();
    let bottom = m.add_room_message(&msg("!a:x", "hi"), false, true).unwrap();
    assert!(!bottom.top);
    assert!(bottom.divider);
    assert_eq!(bottom.msg.body, "hi");
    let top = m.add_room_message(&msg("!a:x", "hi"), true, true).unwrap();
    assert!(top.top);
    assert!(!top.divider);
    assert!(m.add_room_message(&msg("!d:x", "hi"), false, false).is_none());
    let mut red = msg("!a:x", "hi");
    red.redacted = true;
    assert!(m.add_room_message(&red, false, false).is_none());
}

#[test]
fn invitations_and_direct_chats() {
    let mut m = model();
    assert_eq!(m.show_invite_user_dialog(), Some("Invite to Alpha".to_string()));
    m.add_to_invite(member("@u:x"));
    m.add_to_invite(member("@v:x"));
    let inv = m.invite();
    assert_eq!(inv, vec![("!a:x".to_string(), "@u:x".to_string()), ("!a:x".to_string(), "@v:x".to_string())]);
    assert!(m.invite_list.is_empty());

    m.show_direct_chat_dialog();
    assert!(matches!(m.search_type, SearchType::DirectChat));
    assert_eq!(m.start_chat(), None);
    m.add_to_invite(member("@u:x"));
    m.add_to_invite(member("@w:x"));
    assert_eq!(m.invite_list.len(), 1);
    assert_eq!(m.start_chat(), Some("@w:x".to_string()));
    assert!(m.invite_list.is_empty());

    m.add_to_invite(member("@w:x"));
    m.login_data = None;
    assert_eq!(m.start_chat(), None);
    assert_eq!(m.invite_list.len(), 1);

    m.active_room = None;
    assert_eq!(m.show_invite_user_dialog(), None);
    m.add_to_invite(member("@u:x"));
    assert!(m.invite().is_empty());
}

#[test]
fn removed_pills_leave_the_list() {
    let mut m = model();
    m.add_to_invite(member("@u:x"));
    m.add_to_invite(member("@v:x"));
    m.add_to_invite(member("@w:x"));
    assert_eq!(m.removed_invites(&vec![true, false, true]), vec!["@u:x".to_string(), "@w:x".to_string()]);
    m.close_invite_dialog();
    assert!(m.invite_list.is_empty());
}

#[test]
fn directory_choice_controls() {
    let protocols = vec!["irc".to_string(), "matrix.org".to_string()];
    let d = directory_choice(DirectoryChoiceEvent::DefaultServer(true), &protocols, 0, "");
    assert_eq!(d.label, Some("Default Matrix Server".to_string()));
    assert_eq!((d.protocols_sensitive, d.url_sensitive), (Some(false), Some(false)));
    let p = directory_choice(DirectoryChoiceEvent::OtherProtocol(true), &protocols, 1, "");
    assert_eq!(p.label, Some("matrix.org".to_string()));
    assert_eq!((p.protocols_sensitive, p.url_sensitive), (Some(true), Some(false)));
    let none = directory_choice(DirectoryChoiceEvent::ProtocolChanged, &protocols, -1, "");
    assert_eq!(none.label, Some(String::new()));
    let h = directory_choice(DirectoryChoiceEvent::OtherHomeserver(false), &protocols, 0, "");
    assert_eq!((h.label, h.protocols_sensitive, h.url_sensitive), (None, None, None));
    let u = directory_choice(DirectoryChoiceEvent::UrlChanged, &protocols, 0, "https://example.org");
    assert_eq!(u.label, Some("https://example.org".to_string()));
}

#[test]
fn member_rows() {
    let m = Member { uid: "@a:x".to_string(), alias: Some("Ann".to_string()), avatar: None };
    let r = member_row(&m, Some(100));
    assert!(matches!(r.badge, Some(BadgeColor::Gold)));
    assert_eq!(r.name, "Ann");
    assert_eq!(r.uid, "@a:x");
    assert_eq!(r.power, Some("(power 100)".to_string()));
    let low = member_row(&member("@b:x"), None);
    assert!(low.badge.is_none());
    assert_eq!(low.name, "@b:x");
    assert_eq!(low.power, None);
    let mid = member_row(&m, Some(50));
    assert!(matches!(mid.badge, Some(BadgeColor::Silver)));
    assert_eq!(mid.power, Some("(power 50)".to_string()));
    assert_eq!(member_row(&m, Some(-5)).power, None);
}

#[test]
fn history_update_after_create_changes_nothing() {
    let ms = || vec![ui("1", "@a", RowType::Message), ui("2", "@b", RowType::Message), ui("3", "@b", RowType::Emote)];
    let mut h = RoomHistory::new();
    h.create(ms());
    let rows = row_ids(&h);
    let list = list_ids(&h);
    h.update(ms());
    assert_eq!(row_ids(&h), rows);
    assert_eq!(list_ids(&h), list);
}

#[test]
fn notification_body_is_a_prefix() {
    let m = model();
    let text = "é".repeat(50);
    let (_, b) = m.notification(&msg("!a:x", &text), "Bob");
    assert_eq!(b.len(), 80);
    assert!(text.starts_with(&b));
}

#[test]
fn room_notifications_set_and_cleared() {
    let mut m = model();
    m.set_room_notifications("!d:x", 4, 1);
    assert_eq!((m.rooms[1].notifications, m.rooms[1].highlight), (4, 1));
    assert_eq!((m.rooms[0].notifications, m.rooms[0].highlight), (0, 0));
    m.set_room_notifications("!zz:x", 9, 9);
    assert_eq!(m.rooms.iter().map(|r| r.notifications).collect::<Vec<_>>(), vec![0, 4, 0]);
    m.clear_room_notifications("!d:x");
    assert_eq!((m.rooms[1].notifications, m.rooms[1].highlight), (0, 0));
}

#[test]
fn directory_room_box() {
    let mut r = Room::new("!r:x".to_string(), Some(String::new()));
    r.alias = Some("#r:x".to_string());
    r.topic = Some("a & b".to_string());
    r.n_members = 1234;
    let c = fractal::directory::room_box(&r);
    assert_eq!(c.title, "<b>#r:x</b>");
    assert_eq!(c.topic, "a &amp; b");
    assert_eq!(c.alias, "<span alpha=\"60%\">#r:x</span>");
    assert_eq!(c.member_count, "1234");
    assert_eq!(c.join, "!r:x");
    let named = Room::new("!s:x".to_string(), Some("Named".to_string()));
    let d = fractal::directory::room_box(&named);
    assert_eq!(d.title, "<b>Named</b>");
    assert_eq!(d.alias, "<span alpha=\"60%\"></span>");
}

#[test]
fn guest_server_defaults() {
    assert_eq!(fractal::login::connect_guest(None), "https://matrix.org");
    assert_eq!(fractal::login::connect_guest(Some("https://x.org".to_string())), "https://x.org");
}

#[test]
fn message_order_by_id_then_date() {
    let mut a = msg("!a:x", "x");
    a.date = LocalTime { secs: 5, nanos: 0 };
    let mut b = Message::new("!a:x".to_string(), "@c:x".to_string(), "y".to_string(), "m.text".to_string(), Some("$2".to_string()));
    b.date = LocalTime { secs: 3, nanos: 0 };
    assert_eq!(a.partial_cmp(&b), Some(Ordering::Greater));
    assert_eq!(b.partial_cmp(&a), Some(Ordering::Less));
    assert!(!a.same_message(&b));
    let mut c = msg("!b:x", "z");
    c.date = LocalTime { secs: 1, nanos: 0 };
    assert!(a.same_message(&c));
    assert_eq!(a.partial_cmp(&c), Some(Ordering::Equal));
    b.date = LocalTime { secs: 5, nanos: 0 };
    assert_eq!(a.partial_cmp(&b), Some(Ordering::Equal));
}
