use git_credential_keepassxc::config::Database;
use git_credential_keepassxc::entries::{
    filter_group, filter_kph, get_logins_for, pick_login, EntryFilters, LoginEntry, StringField,
};

fn entry(login: &str, group: Option<&str>, expired: Option<bool>, kph: Option<&str>) -> LoginEntry {
    LoginEntry {
        login: login.to_string(),
        name: format!("{login} entry"),
        password: format!("{login}-pw"),
        uuid: format!("{login}-uuid"),
        group: group.map(|g| g.to_string()),
        expired,
        string_fields: kph.map(|v| {
            vec![
                StringField { key: "other".to_string(), value: "x".to_string() },
                StringField { key: "KPH: git".to_string(), value: v.to_string() },
            ]
        }),
    }
}

fn db(group: &str) -> Database {
    Database {
        id: "id".to_string(),
        key: "k".to_string(),
        pkey: "p".to_string(),
        group: group.to_string(),
        group_uuid: "u".to_string(),
    }
}

fn logins(v: &[LoginEntry]) -> Vec<String> {
    v.iter().map(|e| e.login.clone()).collect()
}

#[test]
fn expired_entries_are_always_dropped() {
    let filters = EntryFilters { kph: false, groups: vec![], git_groups: false };
    let kept = get_logins_for(
        vec![entry("a", None, Some(true), None), entry("b", None, Some(false), None), entry("c", None, None, None)],
        &filters,
        &vec![],
    );
    assert_eq!(logins(&kept), vec!["b", "c"]);
}

#[test]
fn kph_false_dropped_only_when_enabled() {
    let all = vec![entry("a", None, None, Some("false")), entry("b", None, None, Some("true")), entry("c", None, None, None)];
    let on = EntryFilters { kph: true, groups: vec![], git_groups: false };
    let off = EntryFilters { kph: false, groups: vec![], git_groups: false };
    assert_eq!(logins(&get_logins_for(all.clone(), &on, &vec![])), vec!["b", "c"]);
    assert_eq!(logins(&get_logins_for(all, &off, &vec![])), vec!["a", "b", "c"]);
    assert!(!filter_kph(&entry("a", None, None, Some("false"))));
    assert!(filter_kph(&entry("a", None, None, Some("False"))));
    assert!(filter_kph(&entry("a", None, None, None)));
}

#[test]
fn empty_group_list_keeps_every_group() {
    let filters = EntryFilters { kph: false, groups: vec![], git_groups: false };
    let all = vec![entry("a", Some("x"), None, None), entry("b", Some("y"), None, None), entry("c", None, None, None)];
    assert_eq!(logins(&get_logins_for(all, &filters, &vec![])), vec!["a", "b", "c"]);
}

#[test]
fn group_list_keeps_named_groups() {
    let groups = vec!["y".to_string()];
    assert!(filter_group(&entry("a", Some("y"), None, None), &groups, false, &vec![]));
    assert!(!filter_group(&entry("a", Some("x"), None, None), &groups, false, &vec![]));
    assert!(filter_group(&entry("a", None, None, None), &groups, true, &vec![]));
}

#[test]
fn git_groups_keep_database_groups() {
    let dbs = vec![db("git")];
    assert!(filter_group(&entry("a", Some("git"), None, None), &vec![], true, &dbs));
    assert!(!filter_group(&entry("a", Some("x"), None, None), &vec![], true, &dbs));
    assert!(filter_group(&entry("a", Some("x"), None, None), &vec!["x".to_string()], true, &dbs));
}

#[test]
fn pick_prefers_named_user_among_several() {
    let entries = vec![entry("bob", None, None, None), entry("alice", None, None, None), entry("alice", None, None, None)];
    assert_eq!(pick_login(&entries, &Some("alice".to_string())), Some(1));
    assert_eq!(pick_login(&entries, &Some("carol".to_string())), Some(0));
    assert_eq!(pick_login(&entries, &None), Some(0));
    assert_eq!(pick_login(&entries[..1].to_vec(), &Some("alice".to_string())), Some(0));
    assert_eq!(pick_login(&vec![], &Some("alice".to_string())), None);
}
