use git_credential_keepassxc::config::Database;
use git_credential_keepassxc::unlock::{
    associated_databases, start, step, AssocAction, AssocError, AssocEvent, AssocState, UnlockOptions,
};

/// Runs the machine against a counterpart whose association test reports "locked" until
/// `unlock_after` probes have been made, and whose probes succeed from then on.
fn run(options: Option<UnlockOptions>, unlock_after: Option<usize>) -> (bool, usize, usize) {
    let (mut state, mut action) = start(&options);
    let mut sleeps = 0;
    let mut probes = 0;
    loop {
        let unlocked = unlock_after.map_or(false, |n| probes >= n);
        let event = match action {
            AssocAction::TestAssociate { .. } => {
                if unlocked {
                    AssocEvent::Associated
                } else {
                    AssocEvent::Locked
                }
            }
            AssocAction::SleepThenProbe { interval } => {
                assert_eq!(interval, options.unwrap().interval);
                sleeps += 1;
                probes += 1;
                if unlock_after.map_or(false, |n| probes >= n) {
                    AssocEvent::ProbeOk
                } else {
                    AssocEvent::ProbeFailed
                }
            }
            AssocAction::Finish { authenticated } => return (authenticated, sleeps, probes),
        };
        let (s, a) = step(state, event, &options);
        state = s;
        action = a;
    }
}

#[test]
fn unlocked_on_third_probe_after_two_sleeps() {
    // the association test is the first probe; two polls follow, the second one succeeds
    let options = Some(UnlockOptions { max_retries: 3, interval: 10 });
    let (ok, sleeps, _) = run(options, Some(2));
    assert!(ok);
    assert_eq!(sleeps, 2);
}

#[test]
fn single_retry_permanently_locked_fails_after_one_poll() {
    let options = Some(UnlockOptions { max_retries: 1, interval: 10 });
    let (ok, sleeps, probes) = run(options, None);
    assert!(!ok);
    assert_eq!(sleeps, 1);
    assert_eq!(probes, 1);
}

#[test]
fn bounded_budget_is_spent_exactly() {
    let options = Some(UnlockOptions { max_retries: 5, interval: 1 });
    assert_eq!(run(options, None), (false, 5, 5));
}

#[test]
fn without_unlock_options_a_locked_database_fails() {
    let (state, action) = start(&None);
    assert_eq!(action, AssocAction::TestAssociate { trigger_unlock: false });
    assert_eq!(step(state, AssocEvent::Locked, &None), (AssocState::Failed, AssocAction::Finish { authenticated: false }));
}

#[test]
fn rejection_is_not_retried() {
    let options = Some(UnlockOptions { max_retries: 3, interval: 10 });
    let (state, action) = start(&options);
    assert_eq!(action, AssocAction::TestAssociate { trigger_unlock: true });
    assert_eq!(step(state, AssocEvent::Rejected, &options).0, AssocState::Failed);
}

#[test]
fn unlimited_budget_keeps_polling() {
    let options = Some(UnlockOptions { max_retries: 0, interval: 10 });
    let (mut state, _) = start(&options);
    state = step(state, AssocEvent::Locked, &options).0;
    for _ in 0..100 {
        let (s, a) = step(state, AssocEvent::ProbeFailed, &options);
        assert_eq!(a, AssocAction::SleepThenProbe { interval: 10 });
        state = s;
    }
    let (s, a) = step(state, AssocEvent::ProbeOk, &options);
    assert_eq!(a, AssocAction::TestAssociate { trigger_unlock: true });
    assert_eq!(step(s, AssocEvent::Associated, &options).0, AssocState::Authenticated);
}

fn db(id: &str) -> Database {
    Database {
        id: id.to_string(),
        key: "".to_string(),
        pkey: "".to_string(),
        group: "".to_string(),
        group_uuid: "".to_string(),
    }
}

#[test]
fn only_authenticated_databases_are_kept() {
    let dbs = vec![db("a"), db("b"), db("c")];
    let kept = associated_databases(&dbs, &vec![false, true, true]).unwrap();
    assert_eq!(kept.iter().map(|d| d.id.as_str()).collect::<Vec<_>>(), vec!["b", "c"]);
    assert_eq!(associated_databases(&dbs, &vec![false, false, false]).unwrap_err(), AssocError::NoAssociatedDatabase);
    assert_eq!(associated_databases(&vec![], &vec![]).unwrap_err(), AssocError::NoAssociatedDatabase);
}
