use fractal::avatar::{get_user_avatar_img, identicon_color, identicon_letter, AvatarMode, AvatarSource};
use fractal::backend::{
    dispatch_error, login, login_body, login_request, sync_wait_seconds, AppState, BKErrorKind, DirectoryProtocolsError, Identifier,
    LoginError, SyncError, UiAction,
};
use fractal::sidebar::{get_position_by_id, RoomCategory, Sidebar, SidebarRow};
use fractal::types::{LocalTime, Member, Message, Room};
use fractal::widgets::{
    adjust_to, draw_bounds, drawn_size_request, filter_rows, format_duration, image_size_request, power_badge, BadgeColor,
    SizeRequest,
};

fn room(id: &str, name: &str, last_secs: Option<i64>) -> Room {
    let mut r = Room::new(id.to_string(), Some(name.to_string()));
    if let Some(secs) = last_secs {
        let mut m = Message::new(id.to_string(), "@a:x".to_string(), "hi".to_string(), "m.text".to_string(), None);
        m.date = LocalTime { secs, nanos: 0 };
        r.messages.push(m);
    }
    r
}

fn ids(rows: &Vec<SidebarRow>) -> Vec<String> {
    rows.iter().map(|r| r.room_id.clone().unwrap()).collect()
}

#[test]
fn sidebar_orders_rooms_by_last_activity() {
    let mut sb = Sidebar::new();
    sb.add_room(&room("!old:x", "Old", Some(10)));
    sb.add_room(&room("!new:x", "New", Some(30)));
    sb.add_room(&room("!mid:x", "Mid", Some(20)));
    sb.add_room(&room("!empty:x", "Empty", None));
    assert_eq!(ids(sb.get_rooms_store()), vec!["!new:x", "!mid:x", "!old:x", "!empty:x"]);
    assert_eq!(get_position_by_id(sb.get_rooms_store(), "!old:x"), Some(2));
    assert_eq!(get_position_by_id(sb.get_rooms_store(), "!none:x"), None);
}

#[test]
fn sidebar_categories() {
    let mut sb = Sidebar::new();
    let mut fav = room("!f:x", "Fav", None);
    fav.fav = true;
    let mut inv = room("!i:x", "Inv", None);
    inv.inv = true;
    sb.add_room(&fav);
    sb.add_room(&inv);
    assert_eq!(ids(sb.get_favorites_store()), vec!["!f:x"]);
    assert_eq!(ids(sb.get_invites_store()), vec!["!i:x"]);
    assert_eq!(sb.get_invites_store()[0].notifications, Some("●".to_string()));
    assert!(sb.get_invites_store()[0].highlight);
    assert_eq!(sb.get_rooms_store().len(), 0);
}

#[test]
fn sidebar_add_then_remove_restores() {
    let mut sb = Sidebar::new();
    sb.add_room(&room("!a:x", "A", Some(5)));
    let before = ids(sb.get_rooms_store());
    let store_before = sb.store.clone();
    sb.add_room(&room("!b:x", "B", Some(7)));
    sb.remove_room("!b:x");
    assert_eq!(ids(sb.get_rooms_store()), before);
    assert_eq!(sb.store, store_before);
}

#[test]
fn sidebar_update_moves_room() {
    let mut sb = Sidebar::new();
    sb.add_room(&room("!a:x", "A", Some(5)));
    sb.add_room(&room("!b:x", "B", Some(7)));
    let mut a = room("!a:x", "A2", Some(9));
    a.notifications = 3;
    sb.update_room(&a);
    assert_eq!(ids(sb.get_rooms_store()), vec!["!a:x", "!b:x"]);
    assert_eq!(sb.get_rooms_store()[0].name, Some("A2".to_string()));
    assert_eq!(sb.get_rooms_store()[0].notifications, Some("3".to_string()));
}

#[test]
fn sidebar_filter_hides_by_name() {
    let mut sb = Sidebar::new();
    sb.add_room(&room("!a:x", "Rust Lovers", Some(5)));
    sb.add_room(&room("!b:x", "GNOME", Some(7)));
    sb.filter("rust");
    let rows = sb.get_rooms_store();
    assert!(rows[0].hidden);
    assert!(!rows[1].hidden);
    sb.remove_all();
    assert_eq!(sb.get_rooms_store().len(), 0);
}

#[test]
fn sidebar_row_changes_report_difference() {
    let mut row = SidebarRow::new("!a:x", Some("A"), None, None, false, false, false, 1, 0);
    assert!(row.change_name(Some("B")));
    assert!(!row.change_name(Some("B")));
    assert!(row.change_bold(true));
    assert!(!row.change_bold(true));
    assert!(row.change_key(5));
    assert!(!row.change_key(5));
}

#[test]
fn error_handling_actions() {
    let acts = LoginError.handle_error();
    assert_eq!(acts.len(), 3);
    assert!(matches!(&acts[0], UiAction::ShowError(m) if m == "Can’t login, try again"));
    assert!(matches!(acts[1], UiAction::Logout));
    assert!(matches!(acts[2], UiAction::SetState(AppState::Login)));
    let acts = DirectoryProtocolsError.handle_error();
    assert!(matches!(acts[0], UiAction::ResetDirectoryState));
    let acts = SyncError("timeout".to_string(), 4).handle_error();
    assert!(matches!(acts[0], UiAction::SyncError(5)));
}

#[test]
fn dispatch_error_reports() {
    let r = dispatch_error(BKErrorKind::NewRoom);
    assert_eq!(r.actions.len(), 2);
    assert!(matches!(r.actions[1], UiAction::SetState(AppState::NoRoom)));
    let r = dispatch_error(BKErrorKind::AttachedFile);
    assert_eq!(r.log_prefix, "attaching ");
    assert_eq!(r.log_suffix, ": retrying send");
    assert!(matches!(r.actions[0], UiAction::RetrySend));
    let r = dispatch_error(BKErrorKind::Other);
    assert_eq!(r.log_prefix, "Query error: ");
    assert_eq!(r.actions.len(), 0);
}

#[test]
fn login_request_by_email_or_user_name() {
    let b = login_request("alice@example.org".to_string(), "pw".to_string());
    assert!(matches!(b.identifier, Identifier::Email(ref a) if a == "alice@example.org"));
    assert_eq!(b.password, "pw");
    assert_eq!(b.initial_device_display_name, "Fractal");
    let b = login_request("@alice:matrix.org".to_string(), "pw".to_string());
    assert!(matches!(b.identifier, Identifier::User(ref u) if u == "@alice:matrix.org"));
    let b = login_request("alice".to_string(), "secret".to_string());
    assert!(matches!(b.identifier, Identifier::User(ref u) if u == "alice"));
    assert_eq!(b.password, "secret");
    let b = login_request("a@b".to_string(), "pw".to_string());
    assert!(matches!(b.identifier, Identifier::User(ref u) if u == "a@b"));
}

#[test]
fn login_answer_and_body() {
    let ok = login(Some("tk".to_string()), Some("@me:x".to_string()), None).ok().unwrap();
    assert_eq!(ok, ("@me:x".to_string(), "tk".to_string(), None));
    assert!(login(None, Some("@me:x".to_string()), Some("D".to_string())).is_err());
    let b = login_body("me@example.org".to_string(), "pw".to_string(), true, "Fractal");
    assert!(matches!(b.identifier, Identifier::Email(ref a) if a == "me@example.org"));
    assert_eq!(b.initial_device_display_name, "Fractal");
    let b = login_body("me".to_string(), "pw".to_string(), false, "Fractal");
    assert!(matches!(b.identifier, Identifier::User(ref u) if u == "me"));
}

#[test]
fn sync_wait_grows_on_too_many_requests() {
    assert_eq!(sync_wait_seconds(false, 7), 10);
    assert_eq!(sync_wait_seconds(true, 0), 10);
    assert_eq!(sync_wait_seconds(true, 3), 80);
    assert_eq!(sync_wait_seconds(true, 4), 2 * sync_wait_seconds(true, 3));
}

#[test]
fn image_sizes_fit() {
    assert_eq!(adjust_to(1200, 800, 600, 400), (600, 400));
    assert_eq!(adjust_to(800, 1200, 600, 400), (266, 400));
    assert_eq!(adjust_to(100, 50, 600, 400), (100, 50));
}

#[test]
fn durations_format() {
    assert_eq!(format_duration(0), "00:00");
    assert_eq!(format_duration(75), "01:15");
    assert_eq!(format_duration(3725), "01:02:05");
}

#[test]
fn power_badges() {
    assert!(matches!(power_badge(Some(100)), Some(BadgeColor::Gold)));
    assert!(matches!(power_badge(Some(50)), Some(BadgeColor::Silver)));
    assert!(power_badge(Some(49)).is_none());
    assert!(power_badge(None).is_none());
}

#[test]
fn member_search_rows() {
    let members = vec![
        Member { uid: "@ann:x".to_string(), alias: Some("Ann".to_string()), avatar: None },
        Member { uid: "@bob:x".to_string(), alias: None, avatar: None },
    ];
    let (shown, empty) = filter_rows(&members, Some("BO")).unwrap();
    assert_eq!(shown, vec![false, true]);
    assert!(!empty);
    let (_, empty) = filter_rows(&members, Some("zed")).unwrap();
    assert!(empty);
    assert!(filter_rows(&members, None).is_none());
    assert_eq!(members[1].get_alias(), "@bob:x");
}

#[test]
fn identicons() {
    assert_eq!(identicon_letter("#room"), "R");
    assert_eq!(identicon_letter("@ann:x"), "A");
    assert_eq!(identicon_letter("é"), "É");
    assert_eq!(identicon_letter(""), "X");
    assert_eq!(identicon_letter("#"), "#");
    let c = identicon_color("/tmp/fractal/@ann:x");
    assert_eq!(c, identicon_color("/tmp/fractal/@ann:x"));
    match get_user_avatar_img("@ann:x".to_string(), "Ann".to_string(), String::new()) {
        AvatarSource::Identicon { fname, name, mode } => {
            assert_eq!(fname, "@ann:x");
            assert_eq!(name, "Ann");
            assert!(matches!(mode, AvatarMode::Circle));
        }
        _ => panic!("expected a generated avatar"),
    }
    match get_user_avatar_img("@ann:x".to_string(), "Ann".to_string(), "mxc://x/a".to_string()) {
        AvatarSource::Thumbnail { url, dest, width, height } => {
            assert_eq!(url, "mxc://x/a");
            assert_eq!(dest, "@ann:x");
            assert_eq!((width, height), (64, 64));
        }
        _ => panic!("expected a thumbnail"),
    }
}

#[test]
fn image_asks_for_room() {
    assert_eq!(image_size_request(None, false, Some(30)), SizeRequest { hexpand: true, vexpand: true, request: None });
    assert_eq!(
        image_size_request(Some((600, 400)), true, Some(30)),
        SizeRequest { hexpand: false, vexpand: false, request: Some((600, 400)) }
    );
    assert_eq!(
        image_size_request(Some((600, 400)), false, Some(30)),
        SizeRequest { hexpand: true, vexpand: false, request: Some((1, 30)) }
    );
    assert_eq!(
        image_size_request(Some((600, 400)), false, None),
        SizeRequest { hexpand: true, vexpand: false, request: Some((1, 400)) }
    );
}

#[test]
fn image_draw_bounds_and_request() {
    assert_eq!(draw_bounds(None, 800, 300), (800, 300));
    assert_eq!(draw_bounds(Some((600, 400)), 800, 300), (600, 300));
    assert_eq!(draw_bounds(Some((600, 400)), 500, 500), (500, 400));
    assert_eq!(drawn_size_request(true, false, 120, 80), Some((120, 80)));
    assert_eq!(drawn_size_request(false, false, 120, 80), Some((1, 80)));
    assert_eq!(drawn_size_request(false, true, 120, 80), None);
}

#[test]
fn dropped_rows_move_to_the_head_of_their_new_list() {
    let mut sb = Sidebar::new();
    sb.add_room(&room("!a:x", "A", Some(10)));
    sb.add_room(&room("!b:x", "B", Some(20)));
    let mut fav = room("!f:x", "F", None);
    fav.fav = true;
    sb.add_room(&fav);
    let store_before = sb.store.clone();
    sb.move_row(RoomCategory::Rooms, 1, RoomCategory::Favorites);
    assert_eq!(ids(sb.get_rooms_store()), vec!["!b:x"]);
    assert_eq!(ids(sb.get_favorites_store()), vec!["!a:x", "!f:x"]);
    assert_eq!(sb.store, store_before);
    sb.move_row(RoomCategory::Favorites, 1, RoomCategory::LowPriority);
    assert_eq!(ids(sb.get_low_priority_store()), vec!["!f:x"]);
    assert_eq!(ids(sb.get_favorites_store()), vec!["!a:x"]);
    sb.move_row(RoomCategory::LowPriority, 0, RoomCategory::Rooms);
    assert_eq!(ids(sb.get_rooms_store()), vec!["!f:x", "!b:x"]);
    assert!(sb.get_low_priority_store().is_empty());
}

#[test]
fn drops_that_move_nothing() {
    let mut sb = Sidebar::new();
    sb.add_room(&room("!a:x", "A", Some(10)));
    sb.add_room(&room("!b:x", "B", Some(20)));
    sb.move_row(RoomCategory::Rooms, 0, RoomCategory::Rooms);
    assert_eq!(ids(sb.get_rooms_store()), vec!["!b:x", "!a:x"]);
    sb.move_row(RoomCategory::Rooms, 0, RoomCategory::Invites);
    assert!(sb.get_invites_store().is_empty());
    sb.move_row(RoomCategory::Rooms, 5, RoomCategory::Favorites);
    assert!(sb.get_favorites_store().is_empty());
    assert_eq!(ids(sb.get_rooms_store()), vec!["!b:x", "!a:x"]);
}

#[test]
fn key_change_resorts_keeping_equal_keys_in_order() {
    let mut sb = Sidebar::new();
    sb.add_room(&room("!a:x", "A", Some(5)));
    sb.add_room(&room("!b:x", "B", Some(5)));
    sb.add_room(&room("!c:x", "C", Some(3)));
    assert_eq!(ids(sb.get_rooms_store()), vec!["!a:x", "!b:x", "!c:x"]);
    sb.update_room(&room("!a:x", "A", Some(3)));
    assert_eq!(ids(sb.get_rooms_store()), vec!["!b:x", "!a:x", "!c:x"]);
    sb.update_room(&room("!c:x", "C2", Some(3)));
    assert_eq!(ids(sb.get_rooms_store()), vec!["!b:x", "!a:x", "!c:x"]);
    assert_eq!(sb.get_rooms_store()[2].name, Some("C2".to_string()));
}

#[test]
fn sidebar_keeps_working_after_a_drop_into_the_rooms() {
    let mut sb = Sidebar::new();
    sb.add_room(&room("!a:x", "A", Some(10)));
    sb.add_room(&room("!b:x", "B", Some(20)));
    let mut fav = room("!f:x", "F", None);
    fav.fav = true;
    sb.add_room(&fav);
    sb.move_row(RoomCategory::Favorites, 0, RoomCategory::Rooms);
    assert_eq!(ids(sb.get_rooms_store()), vec!["!f:x", "!b:x", "!a:x"]);
    // The dropped row does not re-sort the rooms when its key changes.
    let mut fav50 = room("!f:x", "F", Some(50));
    fav50.fav = true;
    sb.update_room(&fav50);
    let mut fav1 = room("!f:x", "F", Some(1));
    fav1.fav = true;
    sb.update_room(&fav1);
    assert_eq!(ids(sb.get_rooms_store()), vec!["!f:x", "!b:x", "!a:x"]);
    assert_eq!(sb.get_rooms_store()[0].key, 1);
    // A row added among the rooms does.
    sb.update_room(&room("!b:x", "B", Some(30)));
    assert_eq!(ids(sb.get_rooms_store()), vec!["!b:x", "!a:x", "!f:x"]);
    sb.add_room(&room("!d:x", "D", Some(15)));
    assert_eq!(ids(sb.get_rooms_store()), vec!["!b:x", "!d:x", "!a:x", "!f:x"]);
    sb.remove_room("!a:x");
    assert_eq!(ids(sb.get_rooms_store()), vec!["!b:x", "!d:x", "!f:x"]);
    sb.filter("b");
    assert!(!sb.get_rooms_store()[0].hidden);
    assert!(sb.get_rooms_store()[1].hidden);
}
