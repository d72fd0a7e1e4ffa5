use git_credential_keepassxc::config::Database;
use git_credential_keepassxc::entries::LoginEntry;
use git_credential_keepassxc::groups::FlatGroup;
use git_credential_keepassxc::protocol::{
    answer, check_reply_nonce, classify, erase_login, get_totp_for, lock_database, needs_totp, store_login, GetMode, Lookup,
    ProtocolError,
    ResponseStatus, StoreDecision, StoreError,
};

fn entry(login: &str, password: &str, uuid: &str) -> LoginEntry {
    LoginEntry {
        login: login.to_string(),
        name: "n".to_string(),
        password: password.to_string(),
        uuid: uuid.to_string(),
        group: None,
        expired: None,
        string_fields: None,
    }
}

fn db(id: &str) -> Database {
    Database {
        id: id.to_string(),
        key: "k".to_string(),
        pkey: "p".to_string(),
        group: "git".to_string(),
        group_uuid: "git-uuid".to_string(),
    }
}

fn some(s: &str) -> Option<String> {
    Some(s.to_string())
}

#[test]
fn unchanged_login_sends_nothing() {
    let existing = Lookup::Found(vec![entry("alice", "secret", "u1")]);
    let r = store_login(some("alice"), some("secret"), existing, &vec![db("d1"), db("d2")], None, &vec![]);
    assert!(matches!(r, Ok(StoreDecision::Unchanged)));
}

#[test]
fn changed_password_updates_first_matching_entry() {
    let existing = Lookup::Found(vec![entry("bob", "x", "u0"), entry("alice", "old", "u1"), entry("alice", "older", "u2")]);
    match store_login(some("alice"), some("new"), existing, &vec![db("d1")], None, &vec![]) {
        Ok(StoreDecision::Send(s)) => {
            assert_eq!(s.id, "d1");
            assert_eq!(s.login, "alice");
            assert_eq!(s.password, "new");
            assert_eq!(s.group, "git");
            assert_eq!(s.group_uuid, "git-uuid");
            assert_eq!(s.uuid, some("u1"));
        }
        _ => panic!("expected an update"),
    }
}

#[test]
fn update_with_several_databases_is_not_implemented() {
    let existing = Lookup::Found(vec![entry("alice", "old", "u1")]);
    let r = store_login(some("alice"), some("new"), existing, &vec![db("d1"), db("d2")], None, &vec![]);
    assert_eq!(r.unwrap_err(), StoreError::NotImplemented);
}

#[test]
fn new_login_is_created_in_first_database() {
    match store_login(some("carol"), some("pw"), Lookup::Failed, &vec![db("d1"), db("d2")], None, &vec![]) {
        Ok(StoreDecision::Send(s)) => {
            assert_eq!(s.id, "d1");
            assert_eq!(s.uuid, None);
            assert_eq!(s.group, "git");
        }
        _ => panic!("expected a new entry"),
    }
}

#[test]
fn new_login_in_named_group() {
    let groups = vec![
        FlatGroup { parents: vec![], name: "a".to_string(), uuid: "ua".to_string() },
        FlatGroup { parents: vec!["a".to_string()], name: "team".to_string(), uuid: "u-team".to_string() },
        FlatGroup { parents: vec![], name: "team".to_string(), uuid: "u-team-2".to_string() },
    ];
    match store_login(some("carol"), some("pw"), Lookup::Found(vec![entry("dave", "x", "u")]), &vec![db("d1")], some("team"), &groups) {
        Ok(StoreDecision::Send(s)) => {
            assert_eq!(s.group, "team");
            assert_eq!(s.group_uuid, "u-team");
        }
        _ => panic!("expected a new entry"),
    }
    let r = store_login(some("carol"), some("pw"), Lookup::Failed, &vec![db("d1")], some("none"), &groups);
    assert_eq!(r.unwrap_err(), StoreError::GroupNotFound);
}

#[test]
fn store_errors() {
    assert_eq!(store_login(None, some("p"), Lookup::Failed, &vec![db("d")], None, &vec![]).unwrap_err(), StoreError::MissingUsername);
    assert_eq!(store_login(some("u"), None, Lookup::Failed, &vec![db("d")], None, &vec![]).unwrap_err(), StoreError::MissingPassword);
    assert_eq!(store_login(some("u"), some("p"), Lookup::Failed, &vec![], None, &vec![]).unwrap_err(), StoreError::NoDatabase);
}

#[test]
fn totp_needs_success_and_a_code() {
    assert_eq!(get_totp_for(Some(true), "123456".to_string()), Ok("123456".to_string()));
    assert_eq!(get_totp_for(Some(true), "".to_string()), Err(ProtocolError::TotpUnavailable));
    assert_eq!(get_totp_for(Some(false), "123456".to_string()), Err(ProtocolError::TotpUnavailable));
    assert_eq!(get_totp_for(None, "123456".to_string()), Err(ProtocolError::TotpUnavailable));
}

#[test]
fn replies_are_classified() {
    assert_eq!(classify(Some(true), None), ResponseStatus::Accepted);
    assert_eq!(classify(None, Some(1)), ResponseStatus::Logical(ProtocolError::DatabaseLocked));
    assert_eq!(classify(None, Some(6)), ResponseStatus::Logical(ProtocolError::AssociationRejected));
    assert_eq!(classify(Some(false), Some(8)), ResponseStatus::Logical(ProtocolError::AssociationRejected));
    assert_eq!(classify(None, Some(15)), ResponseStatus::Logical(ProtocolError::OperationRejected { code: 15 }));
    assert_eq!(classify(Some(false), None), ResponseStatus::Logical(ProtocolError::OperationRejected { code: 0 }));
    assert_eq!(classify(None, None), ResponseStatus::Malformed);
}

#[test]
fn lock_and_erase() {
    assert_eq!(lock_database(ResponseStatus::Accepted), Ok(()));
    assert_eq!(lock_database(ResponseStatus::Logical(ProtocolError::DatabaseLocked)), Err(ProtocolError::DatabaseLocked));
    assert_eq!(lock_database(ResponseStatus::Malformed), Err(ProtocolError::Malformed));
    assert_eq!(erase_login(), Ok(()));
}

#[test]
fn reply_nonce_must_differ() {
    assert_eq!(check_reply_nonce(&vec![1, 2, 3], &vec![1, 2, 3]), Err(ProtocolError::ReplayedNonce));
    assert_eq!(check_reply_nonce(&vec![1, 2, 3], &vec![1, 2, 4]), Ok(()));
    assert_eq!(check_reply_nonce(&vec![1, 2, 3], &vec![1, 2]), Ok(()));
}

#[test]
fn no_authenticated_database_sends_nothing() {
    let r = store_login(some("u"), some("p"), Lookup::NoAssociatedDatabase, &vec![db("d1")], None, &vec![]);
    assert_eq!(r.unwrap_err(), StoreError::NoAssociatedDatabase);
}

#[test]
fn totp_modes() {
    assert!(!needs_totp(GetMode::PasswordOnly));
    assert!(needs_totp(GetMode::TotpOnly));
    let a = answer(GetMode::PasswordAndTotp, "u".to_string(), "p".to_string(), Some(Err(ProtocolError::TotpUnavailable)))
        .unwrap();
    assert_eq!((a.username, a.password, a.totp), (some("u"), some("p"), None));
    let a = answer(GetMode::PasswordAndTotp, "u".to_string(), "p".to_string(), Some(Ok("123".to_string()))).unwrap();
    assert_eq!(a.totp, some("123"));
    let a = answer(GetMode::TotpOnly, "u".to_string(), "p".to_string(), Some(Ok("123".to_string()))).unwrap();
    assert_eq!((a.username, a.password, a.totp), (None, None, some("123")));
    assert_eq!(
        answer(GetMode::TotpOnly, "u".to_string(), "p".to_string(), Some(Err(ProtocolError::TotpUnavailable))).unwrap_err(),
        ProtocolError::TotpUnavailable
    );
    let a = answer(GetMode::PasswordOnly, "u".to_string(), "p".to_string(), None).unwrap();
    assert_eq!((a.username, a.password, a.totp), (some("u"), some("p"), None));
}
