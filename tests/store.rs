use git_credential_keepassxc::caller::{verify_caller, CallerPolicy, CurrentCaller};
use git_credential_keepassxc::commands::{decrypt, encrypt, NewProfile};
use git_credential_keepassxc::config::{Caller, CallerSlot, ConfigError, ConfigFile, Database, DatabaseSlot};

fn database(id: &str, group: &str) -> Database {
    Database {
        id: id.to_string(),
        key: format!("{id}-key"),
        pkey: format!("{id}-pkey"),
        group: group.to_string(),
        group_uuid: format!("{group}-uuid"),
    }
}

fn caller(path: &str) -> Caller {
    Caller { path: path.to_string(), uid: Some(1000), gid: Some(4_000_000_000), canonicalize: true }
}

fn profile(name: &str, byte: u8) -> NewProfile {
    NewProfile { name: name.to_string(), secret: vec![byte; 32] }
}

fn store() -> ConfigFile {
    let mut config = ConfigFile::new();
    config.add_database(database("alpha", "git"), false).unwrap();
    config.add_database(database("beta", "work"), false).unwrap();
    config.add_caller(caller("/usr/bin/git"), false).unwrap();
    config.add_caller(Caller { path: "/bin/ü-tool".to_string(), uid: None, gid: None, canonicalize: false }, false)
        .unwrap();
    config
}

fn plain_databases(config: &ConfigFile) -> Vec<(String, String, String, String, String)> {
    config
        .get_databases()
        .unwrap()
        .into_iter()
        .map(|d| (d.id, d.key, d.pkey, d.group, d.group_uuid))
        .collect()
}

fn plain_callers(config: &ConfigFile) -> Vec<(String, Option<u32>, Option<u32>, bool)> {
    config.get_callers().unwrap().into_iter().map(|c| (c.path, c.uid, c.gid, c.canonicalize)).collect()
}

#[test]
fn encrypt_then_decrypt_gives_back_the_records() {
    let mut config = store();
    let dbs = plain_databases(&config);
    let callers = plain_callers(&config);
    assert_eq!(encrypt(&mut config, Some(profile("token-a", 7))), Ok((2, 2)));
    assert_eq!(config.count_encrypted_databases(), 2);
    assert_eq!(config.count_encrypted_callers(), 2);
    assert!(matches!(config.databases[0], DatabaseSlot::Sealed(_)));
    assert_eq!(plain_databases(&config), dbs);
    assert_eq!(decrypt(&mut config), Ok((2, 2)));
    assert_eq!(config.count_encrypted_databases(), 0);
    assert_eq!(config.count_encryptions(), 1);
    assert!(config.data_key.is_some());
    assert_eq!(plain_databases(&config), dbs);
    assert_eq!(plain_callers(&config), callers);
}

#[test]
fn sealed_fields_do_not_hold_the_text() {
    let mut config = store();
    encrypt(&mut config, Some(profile("token-a", 7))).unwrap();
    match &config.databases[0] {
        DatabaseSlot::Sealed(s) => {
            assert_eq!(s.id.nonce.len(), 24);
            assert_ne!(s.id.data, b"alpha".to_vec());
            assert_eq!(s.id.data.len(), "alpha".len() + 16);
        }
        DatabaseSlot::Plain(_) => panic!("database left in the clear"),
    }
}

#[test]
fn databases_sealed_callers_left_plain() {
    let mut config = store();
    config.add_encryption("token-a".to_string(), &vec![3u8; 32]).unwrap();
    assert_eq!(config.encrypt_databases(), Ok(2));
    assert_eq!(config.count_encrypted_databases(), 2);
    assert_eq!(config.count_encrypted_callers(), 0);
    assert!(matches!(config.callers[0], CallerSlot::Plain(_)));
    assert_eq!(plain_callers(&config).len(), 2);
}

#[test]
fn nothing_to_encrypt_is_a_no_op() {
    let mut config = ConfigFile::new();
    assert_eq!(encrypt(&mut config, None), Ok((0, 0)));
    assert_eq!(decrypt(&mut config), Ok((0, 0)));
}

#[test]
fn encrypt_without_key_fails() {
    let mut config = store();
    assert_eq!(encrypt(&mut config, None), Err(ConfigError::NoEncryptionKey));
    assert_eq!(config.add_database(database("gamma", "x"), true), Err(ConfigError::NoEncryptionKey));
}

#[test]
fn second_profile_while_locked_conflicts() {
    let mut config = store();
    encrypt(&mut config, Some(profile("token-a", 7))).unwrap();
    // the store is read back without its data key: profile A is not plugged in
    config.data_key = None;
    assert_eq!(config.get_databases().unwrap_err(), ConfigError::Locked);
    assert_eq!(
        config.add_encryption("token-b".to_string(), &vec![9u8; 32]),
        Err(ConfigError::ConflictingProfile)
    );
    assert_eq!(encrypt(&mut config, Some(profile("token-b", 9))), Err(ConfigError::ConflictingProfile));
    assert_eq!(decrypt(&mut config), Err(ConfigError::Locked));
}

#[test]
fn second_profile_after_unlock_shares_the_key() {
    let mut config = store();
    let dbs = plain_databases(&config);
    encrypt(&mut config, Some(profile("token-a", 7))).unwrap();
    config.data_key = None;
    assert!(config.unlock(&vec![Some(vec![7u8; 32])]));
    config.add_encryption("token-b".to_string(), &vec![9u8; 32]).unwrap();
    assert_eq!(config.count_encryptions(), 2);

    config.data_key = None;
    assert!(config.unlock(&vec![None, Some(vec![9u8; 32])]));
    assert_eq!(plain_databases(&config), dbs);

    config.data_key = None;
    assert!(config.unlock(&vec![Some(vec![7u8; 32]), None]));
    assert_eq!(plain_databases(&config), dbs);

    // a token that does not belong to the first profile is passed over
    config.data_key = None;
    assert!(config.unlock(&vec![Some(vec![8u8; 32]), Some(vec![9u8; 32])]));
    assert_eq!(plain_databases(&config), dbs);
}

#[test]
fn wrong_secret_does_not_unlock() {
    let mut config = store();
    encrypt(&mut config, Some(profile("token-a", 7))).unwrap();
    config.data_key = None;
    assert!(!config.unlock(&vec![Some(vec![8u8; 32])]));
    assert!(!config.unlock(&vec![None]));
    assert!(config.data_key.is_none());
}

#[test]
fn adding_profile_after_decrypt_succeeds_and_both_unlock() {
    let mut config = store();
    let dbs = plain_databases(&config);
    let callers = plain_callers(&config);
    encrypt(&mut config, Some(profile("token-a", 7))).unwrap();
    decrypt(&mut config).unwrap();
    assert_eq!(encrypt(&mut config, Some(profile("token-b", 9))), Ok((2, 2)));
    assert_eq!(config.count_encryptions(), 2);
    for secrets in [vec![Some(vec![7u8; 32]), None], vec![None, Some(vec![9u8; 32])]] {
        config.data_key = None;
        assert!(config.unlock(&secrets));
        assert_eq!(plain_databases(&config), dbs);
        assert_eq!(plain_callers(&config), callers);
    }
}

#[test]
fn half_sealed_store_seals_the_rest() {
    let mut config = store();
    config.add_encryption("token-a".to_string(), &vec![3u8; 32]).unwrap();
    config.encrypt_databases().unwrap();
    let callers = plain_callers(&config);
    assert_eq!(encrypt(&mut config, None), Ok((0, 2)));
    assert_eq!(config.count_encrypted_callers(), 2);
    assert_eq!(plain_callers(&config), callers);
}

#[test]
fn sealed_database_added_to_sealed_store() {
    let mut config = store();
    encrypt(&mut config, Some(profile("token-a", 7))).unwrap();
    assert_eq!(config.add_database(database("gamma", "x"), true), Ok(()));
    assert_eq!(config.count_encrypted_databases(), 3);
    assert_eq!(plain_databases(&config)[2].0, "gamma");
    assert_eq!(encrypt(&mut config, None), Ok((0, 0)));
    assert_eq!(decrypt(&mut config), Ok((3, 2)));
    assert_eq!(decrypt(&mut config), Ok((0, 0)));
}

#[test]
fn clear_encryptions_refused_while_sealed() {
    let mut config = store();
    encrypt(&mut config, Some(profile("token-a", 7))).unwrap();
    assert_eq!(config.clear_encryptions(), Err(ConfigError::EncryptedItemsRemain));
    assert_eq!(config.count_encryptions(), 1);
}

#[test]
fn sealed_caller_added_and_checked() {
    let mut config = ConfigFile::new();
    config.add_encryption("token-a".to_string(), &vec![1u8; 32]).unwrap();
    config.add_caller(caller("/usr/bin/git"), true).unwrap();
    assert_eq!(config.count_encrypted_callers(), 1);
    let current = CurrentCaller {
        path: "/usr/local/bin/git".to_string(),
        canonical_path: "/usr/bin/git".to_string(),
        uid: 1000,
        gid: 4_000_000_000,
        pid: 1,
    };
    assert_eq!(verify_caller(&config, CallerPolicy::Strict, &current), Ok(true));
    assert_eq!(plain_callers(&config), vec![("/usr/bin/git".to_string(), Some(1000), Some(4_000_000_000), true)]);
    config.clear_callers();
    assert_eq!(config.count_callers(), 0);
}
