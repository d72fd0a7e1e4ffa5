//! The allow-list check on the process that invoked the helper.
use vstd::prelude::*;
use crate::config::{
    caller_views, callers_mean, callers_read, sealed_caller_count, Caller, CallerView, ConfigError, ConfigFile,
};

verus! {

/// Identity of the invoking process, as the platform reports it.
#[derive(Clone, Debug)]
pub struct CurrentCaller {
    pub path: String,
    pub canonical_path: String,
    pub uid: u32,
    pub gid: u32,
    pub pid: u32,
}

/// Whether configured databases without any configured caller lock the helper.
#[derive(Clone, Copy, Debug, PartialEq, Eq, Structural)]
pub enum CallerPolicy {
    Strict,
    Relaxed,
}

#[derive(Clone, Copy, Debug, PartialEq, Eq, Structural)]
pub enum CallerError {
    /// No allowed caller matches; `sealed_callers` tells whether the command to register
    /// the current caller should ask for sealing.
    NotAllowed { sealed_callers: bool },
    /// The allow-list could not be read.
    Config(ConfigError),
}

/// An allow-list entry admits the current process.
pub open spec fn caller_matches(c: CallerView, cur: CurrentCaller) -> bool {
    &&& if c.3 {
        c.0 == cur.canonical_path@
    } else {
        c.0 == cur.path@
    }
    &&& c.1 matches Some(u) ==> u == cur.uid
    &&& c.2 matches Some(g) ==> g == cur.gid
}

pub open spec fn any_match(cs: Seq<CallerView>, cur: CurrentCaller) -> bool {
    exists|i: int| 0 <= i < cs.len() && caller_matches(#[trigger] cs[i], cur)
}

/// The check is skipped: no caller is configured and the policy lets that pass.
pub open spec fn check_skipped(config: ConfigFile, policy: CallerPolicy) -> bool {
    config.callers@.len() == 0 && (policy == CallerPolicy::Relaxed || config.databases@.len() == 0)
}

impl CurrentCaller {
    /// The allow-list entry `caller` admits this process.
    pub fn matches(&self, caller: &Caller) -> (r: bool)
        ensures
            r == caller_matches(caller@, *self),
    {
        let path_ok = if caller.canonicalize {
            caller.path == self.canonical_path
        } else {
            caller.path == self.path
        };
        let uid_ok = match caller.uid {
            Some(u) => u == self.uid,
            None => true,
        };
        let gid_ok = match caller.gid {
            Some(g) => g == self.gid,
            None => true,
        };
        path_ok && uid_ok && gid_ok
    }
}

/// Whether the current process has to be checked at all.
pub fn caller_check_needed(config: &ConfigFile, policy: CallerPolicy) -> (r: bool)
    ensures
        r == !check_skipped(*config, policy),
{
    !(config.count_callers() == 0 && (policy == CallerPolicy::Relaxed || config.count_databases() == 0))
}

/// Checks the current process against the allow-list. `Ok(false)` when the check is skipped,
/// `Ok(true)` when an entry admits the process.
pub fn verify_caller(config: &ConfigFile, policy: CallerPolicy, current: &CurrentCaller) -> (r: Result<bool, CallerError>)
    requires
        config.wf(),
    ensures
        check_skipped(*config, policy) ==> r == Ok::<bool, CallerError>(false),
        !check_skipped(*config, policy) && config.data_key is None && sealed_caller_count(config.callers@) > 0
            ==> r == Err::<bool, CallerError>(CallerError::Config(ConfigError::Locked)),
        forall|cv: Seq<CallerView>|
            callers_mean(config.callers@, config.key_view(), cv) && (config.data_key is Some
                || sealed_caller_count(config.callers@) == 0) && !check_skipped(*config, policy) ==> (
            if any_match(cv, *current) {
                r == Ok::<bool, CallerError>(true)
            } else {
                r == Err::<bool, CallerError>(CallerError::NotAllowed { sealed_callers: sealed_caller_count(config.callers@) > 0 })
            }),
        r == Ok::<bool, CallerError>(true) ==> exists|cv: Seq<CallerView>|
            callers_read(config.callers@, config.key_view(), cv) && any_match(cv, *current),
        r matches Err(e) ==> (e matches CallerError::NotAllowed { .. }) || e == CallerError::Config(ConfigError::Locked)
            || e == CallerError::Config(ConfigError::DecryptionFailed),
{
    if config.count_callers() == 0 && (policy == CallerPolicy::Relaxed || config.count_databases() == 0) {
        return Ok(false);
    }
    let callers = match config.get_callers() {
        Ok(cs) => cs,
        Err(e) => return Err(CallerError::Config(e)),
    };
    let mut i: usize = 0;
    while i < callers.len()
        invariant
            i <= callers@.len(),
            !check_skipped(*config, policy),
            !(config.data_key is None && sealed_caller_count(config.callers@) > 0),
            forall|cv: Seq<CallerView>|
                callers_mean(config.callers@, config.key_view(), cv) && (config.data_key is Some
                    || sealed_caller_count(config.callers@) == 0) ==> caller_views(callers@) == cv,
            forall|j: int| 0 <= j < i ==> !caller_matches(#[trigger] caller_views(callers@)[j], *current),
            callers_read(config.callers@, config.key_view(), caller_views(callers@)),
        decreases callers@.len() - i,
    {
        if current.matches(&callers[i]) {
            assert(caller_views(callers@)[i as int] == callers@[i as int]@);
            proof {
                assert forall|cv: Seq<CallerView>| caller_views(callers@) == cv implies any_match(cv, *current) by {
                    assert(caller_matches(cv[i as int], *current));
                }
                assert(any_match(caller_views(callers@), *current));
            }
            return Ok(true);
        }
        assert(caller_views(callers@)[i as int] == callers@[i as int]@);
        i = i + 1;
    }
    let sealed = config.count_encrypted_callers() > 0;
    proof {
        assert forall|cv: Seq<CallerView>| caller_views(callers@) == cv implies !any_match(cv, *current) by {
            assert forall|j: int| 0 <= j < cv.len() implies !caller_matches(#[trigger] cv[j], *current) by {
                assert(!caller_matches(caller_views(callers@)[j], *current));
            }
        }
    }
    Err(CallerError::NotAllowed { sealed_callers: sealed })
}

/// With no caller configured, the check passes under the relaxed policy always, and under the
/// strict policy exactly when no database is configured either; where it is not skipped, the
/// empty allow-list is readable and admits nobody.
pub proof fn lemma_empty_allow_list(config: ConfigFile, current: CurrentCaller)
    requires
        config.callers@.len() == 0,
    ensures
        check_skipped(config, CallerPolicy::Relaxed),
        check_skipped(config, CallerPolicy::Strict) <==> config.databases@.len() == 0,
        sealed_caller_count(config.callers@) == 0,
        callers_mean(config.callers@, config.key_view(), Seq::<CallerView>::empty()),
        !any_match(Seq::<CallerView>::empty(), current),
{
}

} // verus!
