use fractal::account::{
    address_rows, destruction_request, entry_filled, name_button_visible, new_password_request, password_input,
    phone_token_submit, update_username, valid_phone_token, AccountCommand, AddressAction, AddressEntry, AddressType,
    Medium, PhoneTokenStep, ThirdPartyIdentifier,
};

fn tp(medium: Medium, address: &str) -> ThirdPartyIdentifier {
    ThirdPartyIdentifier { medium, address: address.to_string() }
}

#[test]
fn address_rows_layout() {
    let data = vec![
        tp(Medium::Email, "a@x.org"),
        tp(Medium::MsIsdn, "111"),
        tp(Medium::Email, "b@x.org"),
        tp(Medium::Email, "c@x.org"),
        tp(Medium::MsIsdn, "222"),
    ];
    let rows = address_rows(Some(data));
    assert_eq!(rows.email, Some("a@x.org".to_string()));
    assert_eq!(rows.email_rows, vec![Some("c@x.org".to_string()), Some("b@x.org".to_string()), None]);
    assert_eq!(rows.phone, Some("111".to_string()));
    assert_eq!(rows.phone_rows, vec![Some("+222".to_string()), None]);
}

#[test]
fn address_rows_without_data() {
    let rows = address_rows(None);
    assert_eq!(rows.email, None);
    assert!(rows.email_rows.is_empty());
    assert_eq!(rows.phone, None);
    assert!(rows.phone_rows.is_empty());
    let only_email = address_rows(Some(vec![tp(Medium::Email, "a@x.org")]));
    assert_eq!(only_email.email_rows, vec![None]);
    assert!(only_email.phone_rows.is_empty());
}

#[test]
fn name_button_shows_for_a_new_name() {
    assert!(name_button_visible(Some("bob"), Some("alice")));
    assert!(!name_button_visible(Some("alice"), Some("alice")));
    assert!(!name_button_visible(Some(""), None));
    assert!(name_button_visible(Some("bob"), None));
    assert!(!name_button_visible(None, Some("alice")));
}

#[test]
fn username_update_only_when_changed() {
    assert!(update_username(Some("alice"), Some("alice")).is_none());
    assert!(update_username(None, Some("")).is_none());
    match update_username(Some("alice"), Some("bob")) {
        Some(AccountCommand::SetUserName(n)) => assert_eq!(n, "bob"),
        _ => panic!("expected a new name"),
    }
    match update_username(Some("alice"), None) {
        Some(AccountCommand::SetUserName(n)) => assert_eq!(n, ""),
        _ => panic!("expected an empty name"),
    }
}

#[test]
fn password_dialog_state() {
    let p = password_input(Some("old"), Some("new"), Some("new"));
    assert!(!p.hint_visible);
    assert!(p.confirm_sensitive);
    let q = password_input(Some("old"), Some("new"), Some("other"));
    assert!(q.hint_visible);
    assert!(!q.confirm_sensitive);
    let r = password_input(Some(""), Some("new"), Some("new"));
    assert!(!r.hint_visible);
    assert!(!r.confirm_sensitive);
    let s = password_input(None, Some("new"), Some("other"));
    assert!(!s.hint_visible);
    assert!(!s.confirm_sensitive);
}

#[test]
fn password_and_destruction_requests() {
    match new_password_request(Some("o".into()), Some("n".into()), Some("@me:x".into())) {
        Some(AccountCommand::ChangePassword(m, o, n)) => {
            assert_eq!((m.as_str(), o.as_str(), n.as_str()), ("@me:x", "o", "n"));
        }
        _ => panic!("expected a password change"),
    }
    assert!(new_password_request(Some("".into()), Some("n".into()), Some("@me:x".into())).is_none());
    assert!(new_password_request(Some("o".into()), Some("n".into()), None).is_none());
    match destruction_request(Some("pw".into()), Some("@me:x".into()), true) {
        Some(AccountCommand::AccountDestruction(m, p, f)) => {
            assert_eq!((m.as_str(), p.as_str(), f), ("@me:x", "pw", true));
        }
        _ => panic!("expected a destruction"),
    }
    assert!(destruction_request(None, Some("@me:x".into()), false).is_none());
    assert!(entry_filled(Some("pw")));
    assert!(!entry_filled(Some("")));
    assert!(!entry_filled(None));
}

#[test]
fn phone_token_steps() {
    match valid_phone_token("https://vector.im", Some("sid".into()), Some("sec".into())) {
        PhoneTokenStep::Add(AccountCommand::AddThreePid(i, s, d)) => {
            assert_eq!((i.as_str(), s.as_str(), d.as_str()), ("https://vector.im", "sec", "sid"));
        }
        _ => panic!("expected the address to be added"),
    }
    assert!(matches!(valid_phone_token("i", None, Some("sec".into())), PhoneTokenStep::Invalid));
    assert!(matches!(valid_phone_token("i", Some("sid".into()), None), PhoneTokenStep::Nothing));
    match phone_token_submit("i", "sec", "sid", Some("123".into())) {
        Some(AccountCommand::SubmitPhoneToken(i, s, d, t)) => {
            assert_eq!((i.as_str(), s.as_str(), d.as_str(), t.as_str()), ("i", "sec", "sid", "123"));
        }
        _ => panic!("expected the code to be submitted"),
    }
    assert!(phone_token_submit("i", "sec", "sid", None).is_none());
}

#[test]
fn address_entry_create_and_update() {
    let empty = AddressEntry::create(AddressType::Phone, None);
    assert_eq!(empty.placeholder, Some("Add Phone".to_string()));
    assert!(empty.editable);
    assert!(matches!(empty.action, AddressAction::Add));
    assert!(!empty.button_visible);
    let mut e = AddressEntry::create(AddressType::Email, None);
    e.update(Some("a@x.org".to_string()));
    assert_eq!(e.text, Some("a@x.org".to_string()));
    assert!(matches!(e.action, AddressAction::Delete));
    let mut p = AddressEntry::create(AddressType::Phone, None);
    p.update(Some("123".to_string()));
    assert_eq!(p.text, Some("+123".to_string()));
    assert_eq!(p.address, Some("123".to_string()));
    p.update(None);
    assert_eq!(p.text, Some("+123".to_string()));
    assert!(matches!(p.action, AddressAction::Add));
    assert!(p.editable);
}

#[test]
fn address_entry_typing_and_clicks() {
    let e = AddressEntry::create(AddressType::Email, None);
    assert_eq!(e.text_changed("ab"), (true, Some(false)));
    assert_eq!(e.text_changed("a@b.c"), (true, Some(true)));
    assert_eq!(e.text_changed(""), (false, None));
    let p = AddressEntry::create(AddressType::Phone, None);
    assert_eq!(p.text_changed("12"), (true, None));

    assert!(matches!(e.clicked(false, true, Some("a@b.c".into()), "i"), (false, None)));
    match e.clicked(true, true, Some("a@b.c".into()), "https://vector.im") {
        (true, Some(AccountCommand::GetTokenEmail(i, a, s))) => {
            assert_eq!(i, "https://vector.im");
            assert_eq!(a, "a@b.c");
            assert_eq!(s.chars().count(), 36);
            assert!(s.chars().all(|c| c.is_ascii_alphanumeric()));
        }
        _ => panic!("expected a token request"),
    }
    let d = AddressEntry::create(AddressType::Phone, Some("+123".into()));
    match d.clicked(true, true, None, "i") {
        (true, Some(AccountCommand::DeleteThreePid(Medium::MsIsdn, a))) => assert_eq!(a, "+123"),
        _ => panic!("expected a deletion"),
    }
}
