use git_credential_keepassxc::caller::{verify_caller, CallerError, CallerPolicy, CurrentCaller};
use git_credential_keepassxc::config::{Caller, ConfigFile, Database};

fn current() -> CurrentCaller {
    CurrentCaller {
        path: "/usr/bin/git".to_string(),
        canonical_path: "/usr/lib/git-core/git".to_string(),
        uid: 1000,
        gid: 100,
        pid: 4242,
    }
}

fn database(id: &str) -> Database {
    Database {
        id: id.to_string(),
        key: "".to_string(),
        pkey: "".to_string(),
        group: "".to_string(),
        group_uuid: "".to_string(),
    }
}

#[test]
fn test_00_verification_success_when_strict_caller_but_no_database() {
    let config = ConfigFile::new();
    assert!(verify_caller(&config, CallerPolicy::Strict, &current()).is_ok());
}

#[test]
fn test_01_verification_failure_when_strict_caller_and_database() {
    let mut config = ConfigFile::new();
    let database = Database {
        id: "test_01".to_string(),
        key: "".to_string(),
        pkey: "".to_string(),
        group: "".to_string(),
        group_uuid: "".to_string(),
    };
    config.add_database(database, false).unwrap();

    assert!(verify_caller(&config, CallerPolicy::Strict, &current()).is_err());
}

#[test]
fn test_02_verification_success_when_database_but_no_strict_caller() {
    let mut config = ConfigFile::new();
    let database = Database {
        id: "test_02".to_string(),
        key: "".to_string(),
        pkey: "".to_string(),
        group: "".to_string(),
        group_uuid: "".to_string(),
    };
    config.add_database(database, false).unwrap();

    assert!(verify_caller(&config, CallerPolicy::Relaxed, &current()).is_ok());
}

#[test]
fn empty_store_passes_under_both_policies() {
    let config = ConfigFile::new();
    assert_eq!(verify_caller(&config, CallerPolicy::Strict, &current()), Ok(false));
    assert_eq!(verify_caller(&config, CallerPolicy::Relaxed, &current()), Ok(false));
}

#[test]
fn strict_policy_with_database_and_no_caller_is_not_allowed() {
    let mut config = ConfigFile::new();
    config.add_database(database("db"), false).unwrap();
    assert_eq!(
        verify_caller(&config, CallerPolicy::Strict, &current()),
        Err(CallerError::NotAllowed { sealed_callers: false })
    );
    assert_eq!(verify_caller(&config, CallerPolicy::Relaxed, &current()), Ok(false));
}

#[test]
fn matching_caller_is_allowed() {
    let mut config = ConfigFile::new();
    let caller = Caller { path: "/usr/bin/git".to_string(), uid: Some(1000), gid: None, canonicalize: false };
    config.add_caller(caller, false).unwrap();
    assert_eq!(verify_caller(&config, CallerPolicy::Strict, &current()), Ok(true));
}

#[test]
fn canonical_path_is_used_when_asked() {
    let mut config = ConfigFile::new();
    let caller = Caller {
        path: "/usr/lib/git-core/git".to_string(),
        uid: None,
        gid: None,
        canonicalize: true,
    };
    config.add_caller(caller, false).unwrap();
    assert_eq!(verify_caller(&config, CallerPolicy::Relaxed, &current()), Ok(true));
}

#[test]
fn caller_with_other_uid_is_refused() {
    let mut config = ConfigFile::new();
    let caller = Caller { path: "/usr/bin/git".to_string(), uid: Some(0), gid: None, canonicalize: false };
    config.add_caller(caller, false).unwrap();
    assert_eq!(
        verify_caller(&config, CallerPolicy::Relaxed, &current()),
        Err(CallerError::NotAllowed { sealed_callers: false })
    );
}

#[test]
fn caller_with_other_gid_is_refused() {
    let mut config = ConfigFile::new();
    let caller = Caller { path: "/usr/bin/git".to_string(), uid: None, gid: Some(5), canonicalize: false };
    config.add_caller(caller, false).unwrap();
    assert!(verify_caller(&config, CallerPolicy::Relaxed, &current()).is_err());
}
