//! The login and registration forms: what the client does with what the
//! user typed.
use vstd::prelude::*;

verus! {

/// The homeserver used when the user names none.
pub open spec fn default_homeserver() -> Seq<char> {
    "https://matrix.org"@
}

/// The identity server used when the user names none.
pub open spec fn default_identity_server() -> Seq<char> {
    "https://vector.im"@
}

/// `s`, or `dflt` without one.
pub open spec fn or_default(s: Option<String>, dflt: Seq<char>) -> Seq<char> {
    match s {
        Some(x) => x@,
        None => dflt,
    }
}

/// An optional text's content, empty without one.
pub open spec fn text_of(s: Option<String>) -> Seq<char> {
    or_default(s, Seq::empty())
}

fn homeserver_or_default(s: Option<String>) -> (r: String)
    ensures
        r@ == or_default(s, default_homeserver()),
{
    match s {
        Some(x) => x,
        None => {
            proof {
                reveal_strlit("https://matrix.org");
            }
            "https://matrix.org".to_owned()
        },
    }
}

/// The homeserver a guest connects to, the default one
/// where none is given.
pub fn connect_guest(server: Option<String>) -> (r: String)
    ensures
        r@ == or_default(server, default_homeserver()),
{
    homeserver_or_default(server)
}

/// What a login with the form's content leads to.
pub enum LoginStep {
    /// The user name or the password is missing: the user is told.
    InvalidCredentials,
    /// The client shows it is loading, forgets its sync position, stores the
    /// credentials and asks the server to log in.
    Connect { username: String, password: String, server_url: String, identity_url: String },
}

/// Logging in: an empty user name or password is refused; else the
/// client logs in on the homeserver and identity server given, or the
/// default ones.
pub fn login_form(
    username: Option<String>,
    password: Option<String>,
    server: Option<String>,
    identity: Option<String>,
) -> (r: LoginStep)
    ensures
        (text_of(username).len() == 0 || text_of(password).len() == 0) <==> r is InvalidCredentials,
        r matches LoginStep::Connect { username: u, password: p, server_url, identity_url } ==> u@ == text_of(username)
            && p@ == text_of(password) && server_url@ == or_default(server, default_homeserver())
            && identity_url@ == or_default(identity, default_identity_server()),
{
    let u = match username {
        Some(u) => u,
        None => String::new(),
    };
    let p = match password {
        Some(p) => p,
        None => String::new(),
    };
    if u.as_str().is_empty() || p.as_str().is_empty() {
        return LoginStep::InvalidCredentials;
    }
    let identity_url = match identity {
        Some(x) => x,
        None => {
            proof {
                reveal_strlit("https://vector.im");
            }
            "https://vector.im".to_owned()
        },
    };
    LoginStep::Connect { username: u, password: p, server_url: homeserver_or_default(server), identity_url }
}

/// What a registration with the form's content leads to.
pub enum RegisterStep {
    /// The password and its confirmation differ: the user is told.
    PasswordsDiffer,
    /// The server is asked to register the user.
    Register { username: String, password: String, server_url: String },
}

/// The password must be typed twice the same; the account is
/// made on the homeserver given, or the default one.
pub fn register_form(
    username: Option<String>,
    password: Option<String>,
    passconf: Option<String>,
    server: Option<String>,
) -> (r: RegisterStep)
    ensures
        text_of(password) != text_of(passconf) <==> r is PasswordsDiffer,
        r matches RegisterStep::Register { username: u, password: p, server_url } ==> u@ == text_of(username)
            && p@ == text_of(password) && server_url@ == or_default(server, default_homeserver()),
{
    let u = match username {
        Some(u) => u,
        None => String::new(),
    };
    let p = match password {
        Some(p) => p,
        None => String::new(),
    };
    let c = match passconf {
        Some(c) => c,
        None => String::new(),
    };
    if !crate::json::str_eq(p.as_str(), c.as_str()) {
        return RegisterStep::PasswordsDiffer;
    }
    RegisterStep::Register { username: u, password: p, server_url: homeserver_or_default(server) }
}

/// The homeserver becomes the one given, or the default one;
/// with both a token and a user id the session is resumed with them.
pub fn set_token(token: Option<String>, uid: Option<String>, server: Option<String>) -> (r: (String, Option<(String, String)>))
    ensures
        r.0@ == or_default(server, default_homeserver()),
        (token is Some && uid is Some) <==> r.1 is Some,
        r.1 matches Some((t, u)) ==> Some(t@) == crate::types::opt_view(token) && Some(u@) == crate::types::opt_view(uid),
{
    let server_url = homeserver_or_default(server);
    match (token, uid) {
        (Some(t), Some(u)) => (server_url, Some((t, u))),
        _ => (server_url, None),
    }
}

} // verus!
