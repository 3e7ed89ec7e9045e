//! The account settings: which controls are enabled as the user types, what
//! is asked of the server, and how the user's addresses are laid out.
use vstd::prelude::*;
use crate::types::opt_view;

verus! {

/// What the account settings ask of the server.
pub enum AccountCommand {
    SetUserName(String),
    /// The user id, the old password and the new one.
    ChangePassword(String, String, String),
    /// The user id, the password, and whether to erase the user's data.
    AccountDestruction(String, String, bool),
    /// The identity server, the secret and the session id of an address to add.
    AddThreePid(String, String, String),
    /// The identity server, the secret, the session id and the code received.
    SubmitPhoneToken(String, String, String, String),
    GetThreePid,
    /// Remove the address from the account.
    DeleteThreePid(Medium, String),
    /// Ask the identity server for a code to confirm the e-mail address,
    /// with a fresh secret.
    GetTokenEmail(String, String, String),
    /// Ask the identity server for a code to confirm the phone number, with
    /// a fresh secret.
    GetTokenPhone(String, String, String),
}

/// The text of an entry, empty where it has none.
pub open spec fn entry_text(t: Option<&str>) -> Seq<char> {
    match t {
        Some(s) => s@,
        None => Seq::empty(),
    }
}

/// An entry holds some text.
pub fn entry_filled(text: Option<&str>) -> (r: bool)
    ensures
        r == (entry_text(text).len() > 0),
{
    match text {
        Some(t) => !t.is_empty(),
        None => false,
    }
}

/// In the account settings, the name entry: the button that saves the name shows
/// while the entry holds a text other than the current user name.
pub fn name_button_visible(text: Option<&str>, username: Option<&str>) -> (r: bool)
    ensures
        r == (entry_text(text).len() > 0 && !(username matches Some(u) && u@ == entry_text(text))),
{
    match text {
        Some(t) => {
            if t.is_empty() {
                return false;
            }
            match username {
                Some(u) => !crate::json::str_eq(u, t),
                None => true,
            }
        },
        None => false,
    }
}

/// A name other than the current one
/// (a missing one counting as empty) is sent to the server; else the save
/// button hides and nothing is sent.
pub fn update_username(old: Option<&str>, text: Option<&str>) -> (r: Option<AccountCommand>)
    ensures
        entry_text(old) == entry_text(text) <==> r is None,
        r matches Some(c) ==> (c matches AccountCommand::SetUserName(n) && n@ == entry_text(text)),
{
    let o = match old {
        Some(s) => s,
        None => "",
    };
    let t = match text {
        Some(s) => s,
        None => "",
    };
    proof {
        reveal_strlit("");
        assert(""@ =~= Seq::<char>::empty());
    }
    if crate::json::str_eq(o, t) {
        None
    } else {
        Some(AccountCommand::SetUserName(t.to_owned()))
    }
}

/// The password dialog's state, as [`password_input`] sets it.
pub struct PasswordInput {
    /// The hint that the new password and its confirmation differ shows.
    pub hint_visible: bool,
    /// The password can be changed.
    pub confirm_sensitive: bool,
}

/// The three entries of the password dialog hold a text each.
pub open spec fn all_entries(old: Option<&str>, new: Option<&str>, verify: Option<&str>) -> bool {
    old is Some && new is Some && verify is Some
}

/// The new password and its confirmation match
/// unless both are there and differ; the password can be changed when they
/// match and the old password, the new one and its confirmation are all typed.
pub fn password_input(old: Option<&str>, new: Option<&str>, verify: Option<&str>) -> (r: PasswordInput)
    ensures
        r.hint_visible == (all_entries(old, new, verify) && entry_text(new) != entry_text(verify)),
        r.confirm_sensitive == (!r.hint_visible && all_entries(old, new, verify) && entry_text(old).len() > 0
            && entry_text(new).len() > 0 && entry_text(verify).len() > 0),
{
    let mut empty = true;
    let mut matching = true;
    if let Some(n) = new {
        if let Some(v) = verify {
            if let Some(o) = old {
                if !crate::json::str_eq(n, v) {
                    matching = false;
                }
                if !n.is_empty() && !v.is_empty() && !o.is_empty() {
                    empty = false;
                }
            }
        }
    }
    PasswordInput { hint_visible: !matching, confirm_sensitive: matching && !empty }
}

/// A text is there and is not empty.
pub open spec fn filled(o: Option<String>) -> bool {
    match o {
        Some(s) => s@.len() > 0,
        None => false,
    }
}

/// With the old and the new password typed and the user
/// known, the password change to ask for.
pub fn new_password_request(old: Option<String>, new: Option<String>, uid: Option<String>) -> (r: Option<AccountCommand>)
    ensures
        r is Some <==> (filled(old) && filled(new) && uid is Some),
        r matches Some(c) ==> (c matches AccountCommand::ChangePassword(m, o, n) && Some(m@) == opt_view(uid)
            && Some(o@) == opt_view(old) && Some(n@) == opt_view(new)),
{
    match (old, new, uid) {
        (Some(o), Some(n), Some(m)) => {
            if !o.as_str().is_empty() && !n.as_str().is_empty() {
                Some(AccountCommand::ChangePassword(m, o, n))
            } else {
                None
            }
        },
        _ => None,
    }
}

/// With the password typed and the user known, what
/// the confirmation of the dialog asks of the server.
pub fn destruction_request(password: Option<String>, uid: Option<String>, erase: bool) -> (r: Option<AccountCommand>)
    ensures
        r is Some <==> (password is Some && uid is Some),
        r matches Some(c) ==> (c matches AccountCommand::AccountDestruction(m, p, f) && Some(m@) == opt_view(uid)
            && Some(p@) == opt_view(password) && f == erase),
{
    match (password, uid) {
        (Some(p), Some(m)) => Some(AccountCommand::AccountDestruction(m, p, erase)),
        _ => None,
    }
}

/// What follows the check of a code sent by SMS.
pub enum PhoneTokenStep {
    /// The address is added.
    Add(AccountCommand),
    /// The user is told "The validation code is not correct." and the
    /// addresses are asked for again.
    Invalid,
    /// Nothing happens.
    Nothing,
}

/// With a session id and a secret the address is added
/// on the identity server; without a session id the code was wrong.
pub fn valid_phone_token(identity_url: &str, sid: Option<String>, secret: Option<String>) -> (r: PhoneTokenStep)
    ensures
        sid is None <==> r is Invalid,
        (sid is Some && secret is None) <==> r is Nothing,
        r matches PhoneTokenStep::Add(c) ==> (c matches AccountCommand::AddThreePid(i, s, d) && i@ == identity_url@
            && Some(s@) == opt_view(secret) && Some(d@) == opt_view(sid)),
{
    match sid {
        Some(d) => match secret {
            Some(s) => PhoneTokenStep::Add(AccountCommand::AddThreePid(identity_url.to_owned(), s, d)),
            None => PhoneTokenStep::Nothing,
        },
        None => PhoneTokenStep::Invalid,
    }
}

/// In the phone number dialog, on Continue: the code typed is submitted, when the
/// entry gives one.
pub fn phone_token_submit(identity_url: &str, secret: &str, sid: &str, token: Option<String>) -> (r: Option<AccountCommand>)
    ensures
        r is Some <==> token is Some,
        r matches Some(c) ==> (c matches AccountCommand::SubmitPhoneToken(i, s, d, t) && i@ == identity_url@
            && s@ == secret@ && d@ == sid@ && Some(t@) == opt_view(token)),
{
    match token {
        Some(t) => Some(AccountCommand::SubmitPhoneToken(identity_url.to_owned(), secret.to_owned(), sid.to_owned(), t)),
        None => None,
    }
}

/// The kind of a third-party identifier.
pub enum Medium {
    Email,
    MsIsdn,
}

/// An address of the user: an e-mail address or a phone number.
pub struct ThirdPartyIdentifier {
    pub medium: Medium,
    pub address: String,
}

/// The addresses among `data` that are e-mail addresses (`email`) or phone
/// numbers (not `email`), in order.
pub open spec fn addresses(data: Seq<ThirdPartyIdentifier>, email: bool) -> Seq<Seq<char>>
    decreases data.len(),
{
    if data.len() == 0 {
        Seq::empty()
    } else {
        addresses(data.drop_last(), email) + if (data.last().medium is Email) == email {
            seq![data.last().address@]
        } else {
            Seq::empty()
        }
    }
}

/// The first of the addresses, if any.
pub open spec fn first_address(a: Seq<Seq<char>>) -> Option<Seq<char>> {
    if a.len() == 0 {
        None
    } else {
        Some(a[0])
    }
}

/// The rows below a box of addresses `a`, top to bottom: each address after
/// the first goes in right below the box, so they come last one first,
/// written after `prefix`; below them the empty entry that came in with the
/// first. None without addresses.
pub open spec fn rows_below(a: Seq<Seq<char>>, prefix: Seq<char>) -> Seq<Option<Seq<char>>> {
    if a.len() == 0 {
        Seq::empty()
    } else {
        a.skip(1).map_values(|x: Seq<char>| Some(prefix + x)).reverse().push(None)
    }
}

/// How the settings show the user's addresses.
pub struct AddressRows {
    /// The address in the entry of the e-mail box: the first e-mail address.
    pub email: Option<String>,
    /// The rows below the e-mail box, top to bottom; `None` is an empty entry.
    pub email_rows: Vec<Option<String>>,
    /// The number in the entry of the phone box: the first phone number.
    pub phone: Option<String>,
    /// The rows below the phone box, top to bottom.
    pub phone_rows: Vec<Option<String>>,
}

/// The rows as texts.
pub open spec fn rows_view(rows: Seq<Option<String>>) -> Seq<Option<Seq<char>>> {
    rows.map_values(|o: Option<String>| opt_view(o))
}

/// The addresses the server gave, none where it gave none.
pub open spec fn data_view(data: Option<Vec<ThirdPartyIdentifier>>) -> Seq<ThirdPartyIdentifier> {
    match data {
        Some(v) => v@,
        None => Seq::empty(),
    }
}

proof fn lemma_rows_below_push(a: Seq<Seq<char>>, prefix: Seq<char>, x: Seq<char>)
    requires
        a.len() > 0,
    ensures
        rows_below(a.push(x), prefix) == seq![Some(prefix + x)] + rows_below(a, prefix),
{
    let f = |y: Seq<char>| Some(prefix + y);
    assert(a.push(x).skip(1) =~= a.skip(1).push(x));
    assert(a.skip(1).push(x).map_values(f) =~= a.skip(1).map_values(f).push(f(x)));
    assert(a.skip(1).map_values(f).push(f(x)).reverse() =~= seq![f(x)] + a.skip(1).map_values(f).reverse());
    assert((seq![f(x)] + a.skip(1).map_values(f).reverse()).push(None) =~= seq![f(x)] + a.skip(1).map_values(f).reverse().push(None));
}

/// How the settings lay out the user's addresses. The
/// first e-mail address fills the entry of the e-mail box and brings an
/// empty entry below it; every later one goes in right below the box. Phone
/// numbers go the same way, the later ones written after a "+".
pub fn address_rows(data: Option<Vec<ThirdPartyIdentifier>>) -> (r: AddressRows)
    ensures
        opt_view(r.email) == first_address(addresses(data_view(data), true)),
        rows_view(r.email_rows@) == rows_below(addresses(data_view(data), true), Seq::empty()),
        opt_view(r.phone) == first_address(addresses(data_view(data), false)),
        rows_view(r.phone_rows@) == rows_below(addresses(data_view(data), false), "+"@),
{
    let mut rows = AddressRows { email: None, email_rows: Vec::new(), phone: None, phone_rows: Vec::new() };
    let items = match data {
        Some(v) => v,
        None => {
            proof {
                assert(rows_view(rows.email_rows@) =~= Seq::<Option<Seq<char>>>::empty());
                assert(rows_view(rows.phone_rows@) =~= Seq::<Option<Seq<char>>>::empty());
            }
            return rows;
        },
    };
    let ghost d = items@;
    proof {
        reveal_strlit("+");
        assert(d.take(0) =~= Seq::<ThirdPartyIdentifier>::empty());
        assert(rows_view(rows.email_rows@) =~= Seq::<Option<Seq<char>>>::empty());
        assert(rows_view(rows.phone_rows@) =~= Seq::<Option<Seq<char>>>::empty());
    }
    let mut i: usize = 0;
    while i < items.len()
        invariant
            d == items@,
            i <= items.len(),
            opt_view(rows.email) == first_address(addresses(d.take(i as int), true)),
            rows_view(rows.email_rows@) == rows_below(addresses(d.take(i as int), true), Seq::empty()),
            opt_view(rows.phone) == first_address(addresses(d.take(i as int), false)),
            rows_view(rows.phone_rows@) == rows_below(addresses(d.take(i as int), false), "+"@),
        decreases items.len() - i,
    {
        let ghost before_e = addresses(d.take(i as int), true);
        let ghost before_p = addresses(d.take(i as int), false);
        proof {
            assert(d.take(i + 1).drop_last() =~= d.take(i as int));
            assert(d.take(i + 1).last() == d[i as int]);
        }
        let item = &items[i];
        match item.medium {
            Medium::Email => {
                proof {
                    assert(addresses(d.take(i + 1), true) == before_e.push(item.address@));
                    assert(addresses(d.take(i + 1), false) =~= before_p);
                }
                if rows.email.is_none() {
                    rows.email = Some(item.address.clone());
                    rows.email_rows.insert(0, None);
                    proof {
                        assert(before_e.len() == 0);
                        assert(before_e.push(item.address@).skip(1) =~= Seq::<Seq<char>>::empty());
                        assert(rows_view(rows.email_rows@) =~= rows_below(before_e.push(item.address@), Seq::empty()));
                    }
                } else {
                    rows.email_rows.insert(0, Some(item.address.clone()));
                    proof {
                        lemma_rows_below_push(before_e, Seq::empty(), item.address@);
                        assert(Seq::<char>::empty() + item.address@ =~= item.address@);
                        assert(rows_view(rows.email_rows@) =~= rows_below(before_e.push(item.address@), Seq::empty()));
                    }
                }
            },
            Medium::MsIsdn => {
                proof {
                    assert(addresses(d.take(i + 1), false) == before_p.push(item.address@));
                    assert(addresses(d.take(i + 1), true) =~= before_e);
                }
                if rows.phone.is_none() {
                    rows.phone = Some(item.address.clone());
                    rows.phone_rows.insert(0, None);
                    proof {
                        assert(before_p.len() == 0);
                        assert(before_p.push(item.address@).skip(1) =~= Seq::<Seq<char>>::empty());
                        assert(rows_view(rows.phone_rows@) =~= rows_below(before_p.push(item.address@), "+"@));
                    }
                } else {
                    let s = crate::text::concat("+", item.address.as_str());
                    rows.phone_rows.insert(0, Some(s));
                    proof {
                        lemma_rows_below_push(before_p, "+"@, item.address@);
                        assert(rows_view(rows.phone_rows@) =~= rows_below(before_p.push(item.address@), "+"@));
                    }
                }
            },
        }
        i = i + 1;
    }
    proof {
        assert(d.take(d.len() as int) =~= d);
    }
    rows
}

/// The kind of address a row of the settings holds.
pub enum AddressType {
    Email,
    Phone,
}

/// What the button of an address row does.
pub enum AddressAction {
    Delete,
    Add,
}

/// An address row of the account settings.
pub struct AddressEntry {
    pub medium: AddressType,
    /// The address it holds, once there is one.
    pub address: Option<String>,
    /// The text of the entry, when it was set.
    pub text: Option<String>,
    /// The text shown in the empty entry.
    pub placeholder: Option<String>,
    pub editable: bool,
    pub action: AddressAction,
    pub button_visible: bool,
}

/// The hint in the empty entry of a row.
pub open spec fn placeholder_of(medium: AddressType) -> Seq<char> {
    match medium {
        AddressType::Email => "Add Email"@,
        AddressType::Phone => "Add Phone"@,
    }
}

/// The text an entry shows for an address: phone numbers after a "+".
pub open spec fn shown_address(medium: AddressType, address: Seq<char>) -> Seq<char> {
    match medium {
        AddressType::Email => address,
        AddressType::Phone => "+"@ + address,
    }
}

fn copy_type(t: &AddressType) -> (r: AddressType)
    ensures
        r == *t,
{
    match t {
        AddressType::Email => AddressType::Email,
        AddressType::Phone => AddressType::Phone,
    }
}

impl AddressEntry {
    /// A row holding `text`, which can be deleted, or an
    /// empty row to add an address, whose button shows once something is typed.
    pub fn create(medium: AddressType, text: Option<String>) -> (r: AddressEntry)
        ensures
            r.medium == medium,
            text matches Some(t) ==> (r.address matches Some(a) && a@ == t@) && (r.text matches Some(x) && x@ == t@)
                && r.placeholder is None && !r.editable && r.action is Delete && r.button_visible,
            text is None ==> r.address is None && r.text is None && (r.placeholder matches Some(p) && p@ == placeholder_of(medium))
                && r.editable && r.action is Add && !r.button_visible,
    {
        match text {
            Some(t) => AddressEntry {
                medium,
                address: Some(t.clone()),
                text: Some(t),
                placeholder: None,
                editable: false,
                action: AddressAction::Delete,
                button_visible: true,
            },
            None => {
                let p = match medium {
                    AddressType::Email => "Add Email".to_owned(),
                    AddressType::Phone => "Add Phone".to_owned(),
                };
                AddressEntry {
                    medium,
                    address: None,
                    text: None,
                    placeholder: Some(p),
                    editable: true,
                    action: AddressAction::Add,
                    button_visible: false,
                }
            },
        }
    }

    /// The row now holds `text` (a phone number shown
    /// after a "+") and can delete it; without a text it goes back to adding
    /// one, keeping what it showed.
    pub fn update(&mut self, text: Option<String>)
        ensures
            final(self).medium == old(self).medium,
            final(self).placeholder == old(self).placeholder,
            text matches Some(t) ==> (final(self).address matches Some(a) && a@ == t@)
                && (final(self).text matches Some(x) && x@ == shown_address(old(self).medium, t@))
                && !final(self).editable && final(self).action is Delete && final(self).button_visible,
            text is None ==> final(self).address == old(self).address && final(self).text == old(self).text
                && final(self).editable && final(self).action is Add && !final(self).button_visible,
    {
        match text {
            Some(t) => {
                let shown = match self.medium {
                    AddressType::Email => t.clone(),
                    AddressType::Phone => crate::text::concat("+", t.as_str()),
                };
                proof {
                    reveal_strlit("+");
                }
                self.address = Some(t);
                self.text = Some(shown);
                self.editable = false;
                self.action = AddressAction::Delete;
                self.button_visible = true;
            },
            None => {
                self.action = AddressAction::Add;
                self.button_visible = false;
                self.editable = true;
            },
        }
    }

    /// As the user types `text` into an address row: the button shows while
    /// the entry holds text, and for an e-mail address it can be used once
    /// the text holds an "@" and a "." (`None`: unchanged).
    pub fn text_changed(&self, text: &str) -> (r: (bool, Option<bool>))
        ensures
            r.0 == (text@.len() > 0),
            r.1 == (if text@.len() > 0 && self.medium is Email {
                Some(crate::text::seq_contains(text@, "@"@) && crate::text::seq_contains(text@, "."@))
            } else {
                None::<bool>
            }),
    {
        if text.is_empty() {
            return (false, None);
        }
        match self.medium {
            AddressType::Email => (true, Some(crate::text::contains(text, "@") && crate::text::contains(text, "."))),
            AddressType::Phone => (true, None),
        }
    }

    /// On a click of an address row's button that can be used and is
    /// shown: the row gets busy and its address is deleted, or the address
    /// typed is to be confirmed with a fresh secret of 36 letters and digits;
    /// nothing is asked where there is no address. The secret comes from
    /// chance, so only its shape is stated.
    pub fn clicked(&self, sensitive: bool, visible: bool, typed: Option<String>, id_server: &str) -> (r: (bool, Option<AccountCommand>))
        ensures
            r.0 == (sensitive && visible),
            !(sensitive && visible) ==> r.1 is None,
            (sensitive && visible && self.action is Delete) ==> match self.address {
                Some(a) => r.1 matches Some(AccountCommand::DeleteThreePid(m, x)) && x@ == a@
                    && (m is Email <==> self.medium is Email),
                None => r.1 is None,
            },
            (sensitive && visible && self.action is Add) ==> match typed {
                Some(t) => match self.medium {
                    AddressType::Email => r.1 matches Some(AccountCommand::GetTokenEmail(i, x, s)) && i@ == id_server@
                        && x@ == t@ && is_secret(s@),
                    AddressType::Phone => r.1 matches Some(AccountCommand::GetTokenPhone(i, x, s)) && i@ == id_server@
                        && x@ == t@ && is_secret(s@),
                },
                None => r.1 is None,
            },
    {
        if !sensitive || !visible {
            return (false, None);
        }
        match self.action {
            AddressAction::Delete => match &self.address {
                Some(a) => {
                    let m = match self.medium {
                        AddressType::Email => Medium::Email,
                        AddressType::Phone => Medium::MsIsdn,
                    };
                    (true, Some(AccountCommand::DeleteThreePid(m, a.clone())))
                },
                None => (true, None),
            },
            AddressAction::Add => match typed {
                Some(t) => {
                    let secret = random_secret();
                    match self.medium {
                        AddressType::Email => (true, Some(AccountCommand::GetTokenEmail(id_server.to_owned(), t, secret))),
                        AddressType::Phone => (true, Some(AccountCommand::GetTokenPhone(id_server.to_owned(), t, secret))),
                    }
                },
                None => (true, None),
            },
        }
    }
}

/// A secret of the shape the client makes: 36 ASCII letters and digits.
pub open spec fn is_secret(s: Seq<char>) -> bool {
    &&& s.len() == 36
    &&& forall|i: int| 0 <= i < s.len() ==> is_alphanumeric(#[trigger] s[i])
}

/// An ASCII letter or digit.
pub open spec fn is_alphanumeric(c: char) -> bool {
    'a' <= c <= 'z' || 'A' <= c <= 'Z' || '0' <= c <= '9'
}

/// One character drawn by `rand`'s `thread_rng` from its `Alphanumeric`
/// distribution, which yields the ASCII letters and digits. Which one comes
/// out is chance; only its kind is stated.
#[verifier::external_body]
fn random_alphanumeric() -> (r: char)
    ensures
        is_alphanumeric(r),
{
    char::from(rand::Rng::sample(&mut rand::thread_rng(), rand::distributions::Alphanumeric))
}

/// The secret of a new address: 36 random ASCII letters and digits.
fn random_secret() -> (r: String)
    ensures
        is_secret(r@),
{
    let mut v: Vec<char> = Vec::new();
    while v.len() < 36
        invariant
            v@.len() <= 36,
            forall|i: int| 0 <= i < v@.len() ==> is_alphanumeric(#[trigger] v@[i]),
        decreases 36 - v@.len(),
    {
        v.push(random_alphanumeric());
    }
    crate::text::string_from_chars(&v)
}

} // verus!
