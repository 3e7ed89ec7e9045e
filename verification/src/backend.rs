//! What the client decides around its requests to the homeserver: the login
//! request and answer, the handling of errors, and the sorting of the events
//! a sync brings.
use vstd::prelude::*;
use crate::json::{Json, JsonV, str_eq, view_items, lemma_view_items};
use crate::message::{valid_user_id, check_user_id};
use crate::types::{Event, EventV, Member, MemberV, opt_view};

verus! {

/// The screens of the application that the error handling switches to.
#[derive(PartialEq, Eq, Structural)]
pub enum AppState {
    Login,
    NoRoom,
}

/// What the user interface is asked to do.
pub enum UiAction {
    /// Show an error dialog with this (untranslated) message.
    ShowError(String),
    /// Show the password error dialog with this (untranslated) message.
    ShowPasswordErrorDialog(String),
    Logout,
    SetState(AppState),
    ResetDirectoryState,
    /// Record the failed sync; the number is the count of tries so far.
    SyncError(u64),
    RetrySend,
}

/// A login that the server did not grant.
pub struct LoginError;

/// A failed logout request; the text describes the failure.
pub struct LogoutError(pub String);

/// Why the server's `.well-known` information could not be had.
pub enum GetWellKnownError {
    Reqwest(String),
    ParseUrl(String),
}

/// A failed sync and the number of tries so far.
pub struct SyncError(pub String, pub u64);

/// Rooms could not be read from a sync.
pub struct RoomsError(pub String);

/// Updated rooms could not be read from a sync.
pub struct UpdateRoomsError(pub String);

/// Messages could not be read from a sync.
pub struct RoomMessagesError(pub String);

/// Other room events could not be read from a sync.
pub struct RoomElementError(pub String);

/// The protocols of the room directory could not be had.
pub struct DirectoryProtocolsError;

/// Actions are compared by their kind and text.
pub open spec fn show_error(a: UiAction, msg: Seq<char>) -> bool {
    a matches UiAction::ShowError(m) && m@ == msg
}

impl LoginError {
    /// Tell the user, log out and go back to the login screen.
    pub fn handle_error(&self) -> (r: Vec<UiAction>)
        ensures
            r@.len() == 3,
            show_error(r@[0], "Can’t login, try again"@),
            r@[1] is Logout,
            r@[2] == UiAction::SetState(AppState::Login),
    {
        let mut v = Vec::new();
        v.push(UiAction::ShowError("Can’t login, try again".to_owned()));
        v.push(UiAction::Logout);
        v.push(UiAction::SetState(AppState::Login));
        v
    }
}

impl DirectoryProtocolsError {
    /// Give the directory back to the user and tell them.
    pub fn handle_error(&self) -> (r: Vec<UiAction>)
        ensures
            r@.len() == 2,
            r@[0] is ResetDirectoryState,
            show_error(r@[1], "Error searching for rooms"@),
    {
        let mut v = Vec::new();
        v.push(UiAction::ResetDirectoryState);
        v.push(UiAction::ShowError("Error searching for rooms".to_owned()));
        v
    }
}

/// A failed search of the room directory, with the failure's description.
pub enum DirectorySearchError {
    Matrix(String),
    MalformedServerName(String),
    ParseUrl(String),
    Download(String),
}

impl DirectorySearchError {
    /// Give the directory back to the user and tell them.
    pub fn handle_error(&self) -> (r: Vec<UiAction>)
        ensures
            r@.len() == 2,
            r@[0] is ResetDirectoryState,
            show_error(r@[1], "Error searching for rooms"@),
    {
        let mut v = Vec::new();
        v.push(UiAction::ResetDirectoryState);
        v.push(UiAction::ShowError("Error searching for rooms".to_owned()));
        v
    }
}

impl SyncError {
    /// Record one more failed try.
    pub fn handle_error(&self) -> (r: Vec<UiAction>)
        requires
            self.1 < u64::MAX,
        ensures
            r@.len() == 1,
            r@[0] == UiAction::SyncError((self.1 + 1) as u64),
    {
        let mut v = Vec::new();
        v.push(UiAction::SyncError(self.1 + 1));
        v
    }
}

/// How the user names themselves at login.
pub enum Identifier {
    /// By an e-mail address.
    Email(String),
    /// By a user name or id.
    User(String),
}

/// The body of a login request.
pub struct LoginBody {
    pub password: String,
    pub identifier: Identifier,
    pub initial_device_display_name: String,
}

/// The login request: the user is identified by e-mail when what they typed is an e-mail address.
pub fn login_body(user: String, password: String, is_email: bool, device_name: &str) -> (b: LoginBody)
    ensures
        b.password@ == password@,
        is_email ==> (b.identifier matches Identifier::Email(a) && a@ == user@),
        !is_email ==> (b.identifier matches Identifier::User(u) && u@ == user@),
        b.initial_device_display_name@ == device_name@,
{
    let identifier = if is_email {
        Identifier::Email(user)
    } else {
        Identifier::User(user)
    };
    LoginBody { password, identifier, initial_device_display_name: device_name.to_owned() }
}

/// What the `regex` crate says of the text `s` under the pattern `pattern`:
/// `Some(true)` where the pattern matches somewhere in `s`, `Some(false)`
/// where it matches nowhere, `None` where `pattern` is no valid regex.
pub uninterp spec fn regex_is_match(pattern: Seq<char>, s: Seq<char>) -> Option<bool>;

/// `regex::Regex::new(pattern)`, then `is_match(s)` on the compiled regex;
/// named by [`regex_is_match`].
#[verifier::external_body]
fn is_match_of(pattern: &str, s: &str) -> (r: Option<bool>)
    ensures
        r == regex_is_match(pattern@, s@),
{
    Some(regex::Regex::new(pattern).ok()?.is_match(s))
}

/// The pattern of an e-mail address: a local part of letters, digits, dots,
/// hyphens and underscores that begins and ends with a letter or digit, an
/// `@`, one or more domain labels each followed by a dot, and a top-level
/// domain of two to nine letters.
pub open spec fn email_pattern() -> Seq<char> {
    "^([0-9a-zA-Z]([-\\.\\w]*[0-9a-zA-Z])+@([0-9a-zA-Z][-\\w]*[0-9a-zA-Z]\\.)+[a-zA-Z]{2,9})$"@
}

fn email_pattern_text() -> (r: &'static str)
    ensures
        r@ == email_pattern(),
{
    "^([0-9a-zA-Z]([-\\.\\w]*[0-9a-zA-Z])+@([0-9a-zA-Z][-\\w]*[0-9a-zA-Z]\\.)+[a-zA-Z]{2,9})$"
}

/// The name this client gives the devices it logs in from.
pub open spec fn device_name() -> Seq<char> {
    "Fractal"@
}

/// Whether the login name `user` is an e-mail address, as [`email_pattern`]
/// tells.
pub open spec fn is_email_address(user: Seq<char>) -> bool {
    regex_is_match(email_pattern(), user) == Some(true)
}

/// The login request for what the user typed: identified by e-mail when
/// `user` is an e-mail address, by user name otherwise, with the password
/// and the name of this client's devices.
pub fn login_request(user: String, password: String) -> (b: LoginBody)
    ensures
        b.password@ == password@,
        is_email_address(user@) ==> (b.identifier matches Identifier::Email(a) && a@ == user@),
        !is_email_address(user@) ==> (b.identifier matches Identifier::User(u) && u@ == user@),
        b.initial_device_display_name@ == device_name(),
{
    let email = match is_match_of(email_pattern_text(), user.as_str()) {
        Some(m) => m,
        None => false,
    };
    login_body(user, password, email, "Fractal")
}

/// The login answer: the user id, the access token and the device id when
/// the server gave both a token and a user id.
pub fn login(
    access_token: Option<String>,
    user_id: Option<String>,
    device_id: Option<String>,
) -> (r: Result<(String, String, Option<String>), LoginError>)
    ensures
        (access_token is Some && user_id is Some) <==> r is Ok,
        r matches Ok((uid, tk, dev)) ==> Some(uid@) == opt_view(user_id) && Some(tk@) == opt_view(
            access_token,
        ) && opt_view(dev) == opt_view(device_id),
{
    match (access_token, user_id) {
        (Some(tk), Some(uid)) => Ok((uid, tk, device_id)),
        _ => Err(LoginError),
    }
}

/// How long to wait after a failed sync, in seconds: ten, or after a
/// "too many requests" answer ten times two to the number of tries.
pub open spec fn spec_sync_wait(too_many_requests: bool, number_tries: nat) -> int {
    if too_many_requests {
        (10 * vstd::arithmetic::power2::pow2(number_tries)) as int
    } else {
        10
    }
}

/// The wait before the next sync after a failed one.
pub fn sync_wait_seconds(too_many_requests: bool, number_tries: u64) -> (r: u64)
    requires
        too_many_requests ==> number_tries <= 60,
    ensures
        r == spec_sync_wait(too_many_requests, number_tries as nat),
{
    if too_many_requests {
        let mut p: u64 = 1;
        let mut i: u64 = 0;
        proof {
            vstd::arithmetic::power2::lemma_pow2(0);
            vstd::arithmetic::power::lemma_pow0(2);
        }
        while i < number_tries
            invariant
                i <= number_tries <= 60,
                p == vstd::arithmetic::power2::pow2(i as nat),
            decreases number_tries - i,
        {
            proof {
                vstd::arithmetic::power2::lemma_pow2_unfold((i + 1) as nat);
                vstd::arithmetic::power2::lemma_pow2_strictly_increases(i as nat, 61);
                vstd::arithmetic::power2::lemma2_to64();
                vstd::arithmetic::power2::lemma2_to64_rest();
            }
            p = p * 2;
            i = i + 1;
        }
        proof {
            if number_tries < 60 {
                vstd::arithmetic::power2::lemma_pow2_strictly_increases(number_tries as nat, 60);
            }
            vstd::arithmetic::power2::lemma2_to64_rest();
        }
        10 * p
    } else {
        10
    }
}


/// The kinds of backend errors the application reacts to.
pub enum BKErrorKind {
    ChangePassword,
    NewRoom,
    JoinRoom,
    ChangeLanguage,
    AttachedFile,
    Other,
}

/// How an error is reported: the log line is `log_prefix`, then the error's
/// description (with any access token removed), then `log_suffix`; then the
/// user interface performs `actions`.
pub struct ErrorReport {
    pub log_prefix: String,
    pub log_suffix: String,
    pub actions: Vec<UiAction>,
}

/// How the application reports a backend error of kind `kind`.
pub fn dispatch_error(kind: BKErrorKind) -> (r: ErrorReport)
    ensures
        kind is ChangePassword ==> r.log_prefix@ == Seq::<char>::empty() && r.log_suffix@ == Seq::<char>::empty()
            && r.actions@.len() == 1 && (r.actions@[0] matches UiAction::ShowPasswordErrorDialog(m) && m@ == "Couldn’t change the password"@),
        kind is NewRoom ==> r.log_prefix@ == Seq::<char>::empty() && r.log_suffix@ == Seq::<char>::empty()
            && r.actions@.len() == 2 && show_error(r.actions@[0], "Can’t create the room, try again"@)
            && r.actions@[1] == UiAction::SetState(AppState::NoRoom),
        kind is JoinRoom ==> r.log_prefix@ == Seq::<char>::empty() && r.log_suffix@ == Seq::<char>::empty()
            && r.actions@.len() == 2 && show_error(r.actions@[0], "Can’t join the room, try again."@)
            && r.actions@[1] == UiAction::SetState(AppState::NoRoom),
        kind is ChangeLanguage ==> r.log_prefix@ == "Error forming url to set room language: "@
            && r.log_suffix@ == Seq::<char>::empty() && r.actions@.len() == 0,
        kind is AttachedFile ==> r.log_prefix@ == "attaching "@ && r.log_suffix@ == ": retrying send"@
            && r.actions@.len() == 1 && r.actions@[0] is RetrySend,
        kind is Other ==> r.log_prefix@ == "Query error: "@ && r.log_suffix@ == Seq::<char>::empty()
            && r.actions@.len() == 0,
{
    let mut actions: Vec<UiAction> = Vec::new();
    match kind {
        BKErrorKind::ChangePassword => {
            actions.push(UiAction::ShowPasswordErrorDialog("Couldn’t change the password".to_owned()));
            ErrorReport { log_prefix: String::new(), log_suffix: String::new(), actions }
        },
        BKErrorKind::NewRoom => {
            actions.push(UiAction::ShowError("Can’t create the room, try again".to_owned()));
            actions.push(UiAction::SetState(AppState::NoRoom));
            ErrorReport { log_prefix: String::new(), log_suffix: String::new(), actions }
        },
        BKErrorKind::JoinRoom => {
            actions.push(UiAction::ShowError("Can’t join the room, try again.".to_owned()));
            actions.push(UiAction::SetState(AppState::NoRoom));
            ErrorReport { log_prefix: String::new(), log_suffix: String::new(), actions }
        },
        BKErrorKind::ChangeLanguage => ErrorReport {
            log_prefix: "Error forming url to set room language: ".to_owned(),
            log_suffix: String::new(),
            actions,
        },
        BKErrorKind::AttachedFile => {
            actions.push(UiAction::RetrySend);
            ErrorReport { log_prefix: "attaching ".to_owned(), log_suffix: ": retrying send".to_owned(), actions }
        },
        BKErrorKind::Other => ErrorReport {
            log_prefix: "Query error: ".to_owned(),
            log_suffix: String::new(),
            actions,
        },
    }
}

/// What a non-message event of a sync changes in a room.
pub enum RoomElement {
    /// The room and its new name.
    Name(String, String),
    /// The room and its new topic.
    Topic(String, String),
    /// The room whose avatar changed.
    NewAvatar(String),
    MemberEvent(Event),
    /// The room and the event removed from it.
    RemoveMessage(String, String),
}

/// The room element for an event of type `stype` (when the sync handles that type).
pub open spec fn element_kind(stype: Seq<char>) -> int {
    if stype == "m.room.name"@ { 1 }
    else if stype == "m.room.topic"@ { 2 }
    else if stype == "m.room.avatar"@ { 3 }
    else if stype == "m.room.member"@ { 4 }
    else if stype == "m.room.redaction"@ { 5 }
    else { 0 }
}

/// The change a non-message event makes; `None` for the types it does not handle.
pub fn room_element(ev: Event) -> (r: Option<RoomElement>)
    requires
        ev.stype@ == "m.room.redaction"@ ==> ev.redacts is Some,
    ensures
        element_kind(ev.stype@) == 0 <==> r is None,
        element_kind(ev.stype@) == 1 ==> (r matches Some(RoomElement::Name(room, name)) && room@ == ev.room@
            && name@ == ev.content.view().field("name"@).str_or(Seq::empty())),
        element_kind(ev.stype@) == 2 ==> (r matches Some(RoomElement::Topic(room, t)) && room@ == ev.room@
            && t@ == ev.content.view().field("topic"@).str_or(Seq::empty())),
        element_kind(ev.stype@) == 3 ==> (r matches Some(RoomElement::NewAvatar(room)) && room@ == ev.room@),
        element_kind(ev.stype@) == 4 ==> (r matches Some(RoomElement::MemberEvent(e)) && e@ == ev@),
        element_kind(ev.stype@) == 5 ==> (r matches Some(RoomElement::RemoveMessage(room, id)) && room@ == ev.room@
            && Some(id@) == opt_view(ev.redacts)),
{
    let t = ev.stype.as_str();
    if str_eq(t, "m.room.name") {
        let name = match ev.content.field_str("name") {
            Some(n) => n.to_owned(),
            None => String::new(),
        };
        Some(RoomElement::Name(ev.room.clone(), name))
    } else if str_eq(t, "m.room.topic") {
        let topic = match ev.content.field_str("topic") {
            Some(n) => n.to_owned(),
            None => String::new(),
        };
        Some(RoomElement::Topic(ev.room.clone(), topic))
    } else if str_eq(t, "m.room.avatar") {
        Some(RoomElement::NewAvatar(ev.room.clone()))
    } else if str_eq(t, "m.room.member") {
        Some(RoomElement::MemberEvent(ev))
    } else if str_eq(t, "m.room.redaction") {
        let room = ev.room.clone();
        match ev.redacts {
            Some(id) => Some(RoomElement::RemoveMessage(room, id)),
            None => None,
        }
    } else {
        None
    }
}

/// The typing users listed by one ephemeral event: its `content.user_ids`
/// that are valid user ids other than `own`, in order.
pub open spec fn typing_of(event: JsonV, own: Seq<char>) -> Seq<Seq<char>> {
    match event.field("content"@).field("user_ids"@) {
        JsonV::Array(ids) => ids.filter(|u: JsonV| u.str_of() is Some && valid_user_id(u.str_of()->0)
            && u.str_of()->0 != own).map_values(|u: JsonV| u.str_of()->0),
        _ => Seq::empty(),
    }
}

/// The typing users of all ephemeral events, event after event.
pub open spec fn typing_all(events: Seq<JsonV>, own: Seq<char>) -> Seq<Seq<char>>
    decreases events.len(),
{
    if events.len() == 0 {
        Seq::empty()
    } else {
        typing_all(events.drop_last(), own) + typing_of(events.last(), own)
    }
}

/// The members typing in a room, from its ephemeral events, leaving out the user `own`.
pub fn typing_users(ephemerals: &Vec<Json>, own: &str) -> (r: Vec<Member>)
    ensures
        r@.map_values(|m: Member| m@) == typing_all(view_items(ephemerals@), own@).map_values(
            |u: Seq<char>| MemberV { uid: u, alias: None, avatar: None },
        ),
{
    let ghost evs = view_items(ephemerals@);
    let ghost mk = |u: Seq<char>| MemberV { uid: u, alias: None, avatar: None };
    let ghost pred = |u: JsonV| u.str_of() is Some && valid_user_id(u.str_of()->0) && u.str_of()->0 != own@;
    proof {
        lemma_view_items(ephemerals@);
    }
    let mut out: Vec<Member> = Vec::new();
    let mut i: usize = 0;
    proof {
        assert(out@.map_values(|m: Member| m@) =~= typing_all(evs.take(0), own@).map_values(mk));
    }
    while i < ephemerals.len()
        invariant
            i <= ephemerals.len(),
            evs == view_items(ephemerals@),
            evs.len() == ephemerals@.len(),
            forall|k: int| 0 <= k < ephemerals@.len() ==> #[trigger] evs[k] == ephemerals@[k].view(),
            mk == (|u: Seq<char>| MemberV { uid: u, alias: None, avatar: None }),
            pred == (|u: JsonV| u.str_of() is Some && valid_user_id(u.str_of()->0) && u.str_of()->0 != own@),
            out@.map_values(|m: Member| m@) == typing_all(evs.take(i as int), own@).map_values(mk),
        decreases ephemerals.len() - i,
    {
        proof {
            assert(evs.take(i + 1).drop_last() =~= evs.take(i as int));
            assert(evs.take(i + 1).last() == evs[i as int]);
        }
        let ids = match ephemerals[i].get("content") {
            Some(c) => match c.get("user_ids") {
                Some(u) => u.as_array(),
                None => None,
            },
            None => None,
        };
        let ghost before = out@.map_values(|m: Member| m@);
        match ids {
            Some(ids) => {
                let ghost items = view_items(ids@);
                proof {
                    lemma_view_items(ids@);
                }
                let mut j: usize = 0;
                while j < ids.len()
                    invariant
                        j <= ids.len(),
                        items == view_items(ids@),
                        items.len() == ids@.len(),
                        forall|k: int| 0 <= k < ids@.len() ==> #[trigger] items[k] == ids@[k].view(),
                        mk == (|u: Seq<char>| MemberV { uid: u, alias: None, avatar: None }),
                        pred == (|u: JsonV| u.str_of() is Some && valid_user_id(u.str_of()->0) && u.str_of()->0 != own@),
                        out@.map_values(|m: Member| m@) == before + items.take(j as int).filter(pred).map_values(
                            |u: JsonV| u.str_of()->0,
                        ).map_values(mk),
                    decreases ids.len() - j,
                {
                    proof {
                        crate::seqs::lemma_filter_step(items, pred, j as int);
                    }
                    let ghost old_out = out@.map_values(|m: Member| m@);
                    if let Some(u) = ids[j].as_str() {
                        if check_user_id(u) && !str_eq(u, own) {
                            out.push(Member { uid: u.to_owned(), alias: None, avatar: None });
                            proof {
                                assert(out@.map_values(|m: Member| m@) =~= old_out.push(mk(u@)));
                                assert(before + items.take(j + 1).filter(pred).map_values(|u: JsonV| u.str_of()->0).map_values(mk)
                                    =~= old_out.push(mk(u@)));
                            }
                        } else {
                            proof {
                                assert(before + items.take(j + 1).filter(pred).map_values(|u: JsonV| u.str_of()->0).map_values(mk)
                                    =~= old_out);
                            }
                        }
                    } else {
                        proof {
                            assert(before + items.take(j + 1).filter(pred).map_values(|u: JsonV| u.str_of()->0).map_values(mk)
                                =~= old_out);
                        }
                    }
                    j = j + 1;
                }
                proof {
                    assert(items.take(items.len() as int) =~= items);
                    assert(typing_all(evs.take(i + 1), own@).map_values(mk) =~= typing_all(evs.take(i as int), own@).map_values(mk)
                        + typing_of(evs[i as int], own@).map_values(mk));
                }
            },
            None => {
                proof {
                    assert(typing_of(evs[i as int], own@) =~= Seq::<Seq<char>>::empty());
                    assert(typing_all(evs.take(i + 1), own@).map_values(mk) =~= typing_all(evs.take(i as int), own@).map_values(mk));
                }
            },
        }
        i = i + 1;
    }
    proof {
        assert(evs.take(evs.len() as int) =~= evs);
    }
    out
}

/// After each further "too many requests" answer, the client waits twice as long.
pub proof fn lemma_sync_wait_doubles(number_tries: nat)
    ensures
        spec_sync_wait(true, number_tries + 1) == 2 * spec_sync_wait(true, number_tries),
        spec_sync_wait(false, number_tries) == 10,
{
    vstd::arithmetic::power2::lemma_pow2_unfold(number_tries + 1);
}

} // verus!
