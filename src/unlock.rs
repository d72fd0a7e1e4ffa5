//! Authenticating against one database, with polling while it stays locked.
use vstd::prelude::*;
use crate::config::{db_views, Database, DatabaseView};

verus! {

/// How long to wait for a locked database: `max_retries` polls (0 for no bound), each after
/// sleeping `interval` milliseconds.
#[derive(Clone, Copy, Debug, PartialEq, Eq, Structural)]
pub struct UnlockOptions {
    pub max_retries: u64,
    pub interval: u64,
}

/// The poll budget that a retry count stands for.
#[derive(Clone, Copy, Debug, PartialEq, Eq, Structural)]
pub enum RetryBudget {
    Bounded(u64),
    Unlimited,
}

#[derive(Clone, Copy, Debug, PartialEq, Eq, Structural)]
pub enum AssocState {
    /// Waiting for the answer to an association test; `remaining` polls are left.
    Authenticating { remaining: u64 },
    /// Waiting for the answer to a probe made after a sleep.
    Polling { remaining: u64 },
    Authenticated,
    Failed,
    RetriesExhausted,
}

/// What the counterpart answered.
#[derive(Clone, Copy, Debug, PartialEq, Eq, Structural)]
pub enum AssocEvent {
    /// The association test succeeded.
    Associated,
    /// The association test failed because the database is locked.
    Locked,
    /// The association test failed for another reason.
    Rejected,
    /// The probe after a sleep succeeded.
    ProbeOk,
    /// The probe after a sleep failed.
    ProbeFailed,
}

/// What to do next.
#[derive(Clone, Copy, Debug, PartialEq, Eq, Structural)]
pub enum AssocAction {
    /// Send an association test, letting the counterpart prompt for unlocking if set.
    TestAssociate { trigger_unlock: bool },
    /// Sleep this many milliseconds, then probe.
    SleepThenProbe { interval: u64 },
    /// Stop: the database is authenticated or not.
    Finish { authenticated: bool },
}

pub open spec fn budget_of(max_retries: u64) -> RetryBudget {
    if max_retries == 0 {
        RetryBudget::Unlimited
    } else {
        RetryBudget::Bounded(max_retries)
    }
}

pub fn budget(options: &UnlockOptions) -> (r: RetryBudget)
    ensures
        r == budget_of(options.max_retries),
{
    if options.max_retries == 0 {
        RetryBudget::Unlimited
    } else {
        RetryBudget::Bounded(options.max_retries)
    }
}

/// The first state and action for one database.
pub fn start(options: &Option<UnlockOptions>) -> (r: (AssocState, AssocAction))
    ensures
        r.0 == (AssocState::Authenticating {
            remaining: match options {
                Some(o) => o.max_retries,
                None => 0,
            },
        }),
        r.1 == (AssocAction::TestAssociate { trigger_unlock: options is Some }),
{
    let remaining = match options {
        Some(o) => o.max_retries,
        None => 0,
    };
    (AssocState::Authenticating { remaining }, AssocAction::TestAssociate { trigger_unlock: options.is_some() })
}

/// The transition table.
pub open spec fn next(state: AssocState, event: AssocEvent, options: Option<UnlockOptions>) -> (AssocState, AssocAction) {
    match state {
        AssocState::Authenticating { remaining } => match event {
            AssocEvent::Associated => (AssocState::Authenticated, AssocAction::Finish { authenticated: true }),
            AssocEvent::Locked => match options {
                None => (AssocState::Failed, AssocAction::Finish { authenticated: false }),
                Some(o) => if budget_of(o.max_retries) is Bounded && remaining == 0 {
                    (AssocState::RetriesExhausted, AssocAction::Finish { authenticated: false })
                } else {
                    (AssocState::Polling { remaining }, AssocAction::SleepThenProbe { interval: o.interval })
                },
            },
            _ => (AssocState::Failed, AssocAction::Finish { authenticated: false }),
        },
        AssocState::Polling { remaining } => match options {
            None => (AssocState::Failed, AssocAction::Finish { authenticated: false }),
            Some(o) => match event {
                AssocEvent::ProbeOk => (AssocState::Authenticating { remaining }, AssocAction::TestAssociate { trigger_unlock: true }),
                AssocEvent::ProbeFailed => if budget_of(o.max_retries) is Unlimited {
                    (AssocState::Polling { remaining }, AssocAction::SleepThenProbe { interval: o.interval })
                } else if remaining <= 1 {
                    (AssocState::RetriesExhausted, AssocAction::Finish { authenticated: false })
                } else {
                    (AssocState::Polling { remaining: (remaining - 1) as u64 }, AssocAction::SleepThenProbe { interval: o.interval })
                },
                _ => (AssocState::Failed, AssocAction::Finish { authenticated: false }),
            },
        },
        AssocState::Authenticated => (AssocState::Authenticated, AssocAction::Finish { authenticated: true }),
        AssocState::Failed => (AssocState::Failed, AssocAction::Finish { authenticated: false }),
        AssocState::RetriesExhausted => (AssocState::RetriesExhausted, AssocAction::Finish { authenticated: false }),
    }
}

/// One step: from the state and what the counterpart answered to the next state and action.
/// A probe that succeeds leads to a fresh association test, never straight to success.
pub fn step(state: AssocState, event: AssocEvent, options: &Option<UnlockOptions>) -> (r: (AssocState, AssocAction))
    ensures
        r == next(state, event, *options),
{
    match state {
        AssocState::Authenticating { remaining } => match event {
            AssocEvent::Associated => (AssocState::Authenticated, AssocAction::Finish { authenticated: true }),
            AssocEvent::Locked => match options {
                None => (AssocState::Failed, AssocAction::Finish { authenticated: false }),
                Some(o) => {
                    let bounded = match budget(o) {
                        RetryBudget::Bounded(_) => true,
                        RetryBudget::Unlimited => false,
                    };
                    if bounded && remaining == 0 {
                        (AssocState::RetriesExhausted, AssocAction::Finish { authenticated: false })
                    } else {
                        (AssocState::Polling { remaining }, AssocAction::SleepThenProbe { interval: o.interval })
                    }
                },
            },
            _ => (AssocState::Failed, AssocAction::Finish { authenticated: false }),
        },
        AssocState::Polling { remaining } => match options {
            None => (AssocState::Failed, AssocAction::Finish { authenticated: false }),
            Some(o) => match event {
                AssocEvent::ProbeOk => (AssocState::Authenticating { remaining }, AssocAction::TestAssociate { trigger_unlock: true }),
                AssocEvent::ProbeFailed => match budget(o) {
                    RetryBudget::Unlimited => (AssocState::Polling { remaining }, AssocAction::SleepThenProbe { interval: o.interval }),
                    RetryBudget::Bounded(_) => if remaining <= 1 {
                        (AssocState::RetriesExhausted, AssocAction::Finish { authenticated: false })
                    } else {
                        (AssocState::Polling { remaining: remaining - 1 }, AssocAction::SleepThenProbe { interval: o.interval })
                    },
                },
                _ => (AssocState::Failed, AssocAction::Finish { authenticated: false }),
            },
        },
        AssocState::Authenticated => (AssocState::Authenticated, AssocAction::Finish { authenticated: true }),
        AssocState::Failed => (AssocState::Failed, AssocAction::Finish { authenticated: false }),
        AssocState::RetriesExhausted => (AssocState::RetriesExhausted, AssocAction::Finish { authenticated: false }),
    }
}

/// The state after `k` failed probes in a row, starting from `Polling { remaining }`.
pub open spec fn after_failed_probes(state: AssocState, k: nat, options: Option<UnlockOptions>) -> AssocState
    decreases k,
{
    if k == 0 {
        state
    } else {
        after_failed_probes(next(state, AssocEvent::ProbeFailed, options).0, (k - 1) as nat, options)
    }
}

/// Under a bound of `n` polls, a database that stays locked gives up after exactly `n`
/// failed probes: every earlier one leads to another sleep. Without a bound it never gives up.
pub proof fn lemma_poll_budget(o: UnlockOptions, remaining: u64, k: nat)
    requires
        1 <= remaining,
    ensures
        o.max_retries != 0 && k < remaining ==> after_failed_probes(AssocState::Polling { remaining }, k, Some(o))
            == (AssocState::Polling { remaining: (remaining - k) as u64 }),
        o.max_retries != 0 && k >= remaining ==> after_failed_probes(AssocState::Polling { remaining }, k, Some(o))
            == AssocState::RetriesExhausted,
        o.max_retries == 0 ==> after_failed_probes(AssocState::Polling { remaining }, k, Some(o))
            == (AssocState::Polling { remaining }),
    decreases k,
{
    if k > 0 {
        if o.max_retries != 0 && remaining == 1 {
            lemma_exhausted_stays(o, (k - 1) as nat);
        } else {
            let r2: u64 = if o.max_retries == 0 { remaining } else { (remaining - 1) as u64 };
            lemma_poll_budget(o, r2, (k - 1) as nat);
        }
    }
}

proof fn lemma_exhausted_stays(o: UnlockOptions, k: nat)
    ensures
        after_failed_probes(AssocState::RetriesExhausted, k, Some(o)) == AssocState::RetriesExhausted,
    decreases k,
{
    if k > 0 {
        lemma_exhausted_stays(o, (k - 1) as nat);
    }
}

#[derive(Clone, Copy, Debug, PartialEq, Eq, Structural)]
pub enum AssocError {
    /// No configured database could be authenticated against.
    NoAssociatedDatabase,
}

/// The databases whose authentication ended in success, in their order.
pub open spec fn authenticated_views(dbs: Seq<Database>, ok: Seq<bool>) -> Seq<DatabaseView>
    decreases dbs.len(),
{
    if dbs.len() == 0 || ok.len() != dbs.len() {
        Seq::empty()
    } else {
        let rest = authenticated_views(dbs.drop_last(), ok.drop_last());
        if ok.last() {
            rest.push(dbs.last()@)
        } else {
            rest
        }
    }
}

/// Keeps the databases whose authentication succeeded; fails when none did.
pub fn associated_databases(databases: &Vec<Database>, authenticated: &Vec<bool>) -> (r: Result<Vec<Database>, AssocError>)
    requires
        authenticated@.len() == databases@.len(),
    ensures
        authenticated_views(databases@, authenticated@).len() == 0 <==> r == Err::<Vec<Database>, AssocError>(AssocError::NoAssociatedDatabase),
        r matches Ok(v) ==> db_views(v@) == authenticated_views(databases@, authenticated@),
{
    let mut out: Vec<Database> = Vec::new();
    let mut i: usize = 0;
    while i < databases.len()
        invariant
            i <= databases@.len(),
            authenticated@.len() == databases@.len(),
            db_views(out@) == authenticated_views(databases@.take(i as int), authenticated@.take(i as int)),
        decreases databases@.len() - i,
    {
        assert(databases@.take(i + 1).drop_last() =~= databases@.take(i as int));
        assert(authenticated@.take(i + 1).drop_last() =~= authenticated@.take(i as int));
        if authenticated[i] {
            let ghost prev = out@;
            out.push(databases[i].copied());
            assert(db_views(out@) =~= db_views(prev).push(databases@[i as int]@));
        }
        i = i + 1;
    }
    assert(databases@.take(i as int) =~= databases@);
    assert(authenticated@.take(i as int) =~= authenticated@);
    if out.len() == 0 {
        Err(AssocError::NoAssociatedDatabase)
    } else {
        Ok(out)
    }
}

} // verus!
