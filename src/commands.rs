//! The store-wide encrypt and decrypt commands, and the laws that tie them together.
use vstd::prelude::*;
use crate::config::{
    all_plain_callers, all_plain_dbs, all_sealed_callers, all_sealed_dbs, lemma_caller_count_zero,
    lemma_db_count_zero, lemma_plain_key_free, lemma_sealed_caller_full,
    lemma_sealed_db_full, opened_from, profile_added, profile_unlocks, sealed_caller_count,
    sealed_db_count, sealed_from, CallerView, ConfigError, ConfigFile, DatabaseView,
};
use crate::seal::KEY_LEN;

verus! {

/// A profile to register: its descriptor and the secret that its key source yields.
pub struct NewProfile {
    pub name: String,
    pub secret: Vec<u8>,
}

/// Nothing is left to seal.
pub open spec fn fully_sealed(c: ConfigFile) -> bool {
    all_sealed_dbs(c.databases@) && all_sealed_callers(c.callers@)
}

/// `new` is `old` opened, with its profiles and its data key kept.
pub open spec fn decrypted_keeping_profiles(old: ConfigFile, new: ConfigFile) -> bool {
    &&& opened_from(old, new)
    &&& new.encryptions@ == old.encryptions@
    &&& new.data_key == old.data_key
}

/// Seals every item of the store, first registering `profile` if one is given. The counts
/// of database associations and callers that were sealed come back.
pub fn encrypt(config: &mut ConfigFile, profile: Option<NewProfile>) -> (r: Result<(usize, usize), ConfigError>)
    requires
        old(config).wf(),
        profile matches Some(p) ==> p.secret@.len() == KEY_LEN,
    ensures
        final(config).wf(),
        forall|dv: Seq<DatabaseView>, cv: Seq<CallerView>|
            old(config).means(dv, cv) ==> final(config).means(dv, cv),
        fully_sealed(*old(config)) && profile is None ==> r == Ok::<(usize, usize), ConfigError>((0, 0))
            && final(config).databases@ == old(config).databases@
            && final(config).callers@ == old(config).callers@
            && final(config).encryptions@ == old(config).encryptions@
            && final(config).data_key == old(config).data_key,
        old(config).data_key is Some || (profile is Some && old(config).sealed_count() == 0) ==> r is Ok,
        profile is Some && old(config).data_key is None && old(config).sealed_count() > 0 ==> r
            == Err::<(usize, usize), ConfigError>(ConfigError::ConflictingProfile),
        profile is None && old(config).data_key is None && !fully_sealed(*old(config)) ==> r == Err::<
            (usize, usize),
            ConfigError,
        >(ConfigError::NoEncryptionKey),
        r is Ok && !(fully_sealed(*old(config)) && profile is None) ==> sealed_from(
            *old(config),
            *final(config),
        ) && r->Ok_0.0 == old(config).databases@.len() - sealed_db_count(old(config).databases@)
            && r->Ok_0.1 == old(config).callers@.len() - sealed_caller_count(old(config).callers@),
        r is Ok && profile is Some ==> final(config).encryptions@.len() == old(config).encryptions@.len() + 1
            && final(config).encryptions@.last().name@ == profile->0.name@ && blob_holds_key(
            *final(config),
            profile->0.secret@,
        ),
        r matches Err(e) ==> e == ConfigError::ConflictingProfile || e == ConfigError::NoEncryptionKey,
{
    proof {
        lemma_sealed_db_full(config.databases@);
        lemma_sealed_caller_full(config.callers@);
        lemma_db_count_zero(config.databases@);
        lemma_caller_count_zero(config.callers@);
    }
    let to_seal_dbs = config.count_databases() - config.count_encrypted_databases();
    let to_seal_callers = config.count_callers() - config.count_encrypted_callers();
    if to_seal_dbs == 0 && to_seal_callers == 0 && profile.is_none() {
        return Ok((0, 0));
    }
    let ghost start = *config;
    if let Some(p) = profile {
        if let Err(e) = config.add_encryption(p.name, &p.secret) {
            return Err(e);
        }
        proof {
            if start.data_key is None {
                lemma_db_count_zero(start.databases@);
                lemma_caller_count_zero(start.callers@);
                assert forall|dv: Seq<DatabaseView>, cv: Seq<CallerView>| start.means(dv, cv) implies config.means(dv, cv) by {
                    lemma_plain_key_free(start, *config, dv, cv);
                }
            }
        }
    }
    let a = match config.encrypt_databases() {
        Ok(n) => n,
        Err(e) => return Err(e),
    };
    let b = match config.encrypt_callers() {
        Ok(n) => n,
        Err(e) => return Err(e),
    };
    Ok((a, b))
}

/// The last registered profile of `c` wraps its data key under `secret`.
pub open spec fn blob_holds_key(c: ConfigFile, secret: Seq<u8>) -> bool {
    crate::seal::blob_holds(c.encryptions@.last().wrapped_key, secret, c.key_view())
}

/// Opens every sealed item of the store, keeping the registered profiles and the data key, so
/// that a profile added later wraps the same key. The counts of database associations and
/// callers opened come back.
pub fn decrypt(config: &mut ConfigFile) -> (r: Result<(usize, usize), ConfigError>)
    requires
        old(config).wf(),
    ensures
        final(config).wf(),
        final(config).encryptions@ == old(config).encryptions@,
        final(config).data_key == old(config).data_key,
        forall|dv: Seq<DatabaseView>, cv: Seq<CallerView>|
            old(config).means(dv, cv) ==> final(config).means(dv, cv),
        old(config).sealed_count() == 0 ==> r == Ok::<(usize, usize), ConfigError>((0, 0))
            && final(config).databases@ == old(config).databases@
            && final(config).callers@ == old(config).callers@,
        old(config).data_key is None && old(config).sealed_count() > 0 ==> r == Err::<
            (usize, usize),
            ConfigError,
        >(ConfigError::Locked),
        forall|dv: Seq<DatabaseView>, cv: Seq<CallerView>|
            old(config).means(dv, cv) && old(config).readable() ==> r is Ok,
        r is Ok ==> decrypted_keeping_profiles(*old(config), *final(config))
            && r->Ok_0.0 == sealed_db_count(old(config).databases@) && r->Ok_0.1
            == sealed_caller_count(old(config).callers@),
        r matches Err(e) ==> e == ConfigError::Locked || e == ConfigError::DecryptionFailed,
{
    let sealed_dbs = config.count_encrypted_databases();
    let sealed_callers = config.count_encrypted_callers();
    if sealed_dbs == 0 && sealed_callers == 0 {
        proof {
            lemma_db_count_zero(config.databases@);
            lemma_caller_count_zero(config.callers@);
        }
        return Ok((0, 0));
    }
    let a = match config.decrypt_databases() {
        Ok(n) => n,
        Err(e) => return Err(e),
    };
    let b = match config.decrypt_callers() {
        Ok(n) => n,
        Err(e) => return Err(e),
    };
    Ok((a, b))
}

/// Sealing the whole store and then opening it again gives back the same database and caller
/// records, and the opening cannot fail for want of a key.
pub proof fn lemma_encrypt_decrypt_round_trip(
    before: ConfigFile,
    sealed: ConfigFile,
    after: ConfigFile,
    dv: Seq<DatabaseView>,
    cv: Seq<CallerView>,
)
    requires
        before.means(dv, cv),
        sealed_from(before, sealed),
        opened_from(sealed, after),
    ensures
        sealed.readable(),
        after.means(dv, cv),
        all_plain_dbs(after.databases@),
        all_plain_callers(after.callers@),
{
}

/// A profile registered while the data key is at hand wraps that same key: the profile that
/// unlocked the store and the new one both unlock it afterwards, to the same key.
pub proof fn lemma_added_profile_shares_key(
    before: ConfigFile,
    after: ConfigFile,
    i: int,
    first: Seq<u8>,
    name: Seq<char>,
    second: Seq<u8>,
)
    requires
        profile_unlocks(before, i, first, before.key_view()),
        profile_added(before, after, name, second),
        second.len() == KEY_LEN,
    ensures
        after.key_view() == before.key_view(),
        profile_unlocks(after, i, first, after.key_view()),
        profile_unlocks(after, after.encryptions@.len() - 1, second, after.key_view()),
{
}

/// A store sealed under a first profile, opened, and then given a second profile: both
/// profiles unlock it to the same data key, and it still holds the same records in the clear.
pub proof fn lemma_second_profile_after_decrypt(
    sealed: ConfigFile,
    opened: ConfigFile,
    after: ConfigFile,
    dv: Seq<DatabaseView>,
    cv: Seq<CallerView>,
    i: int,
    first: Seq<u8>,
    name: Seq<char>,
    second: Seq<u8>,
)
    requires
        sealed.means(dv, cv),
        profile_unlocks(sealed, i, first, sealed.key_view()),
        decrypted_keeping_profiles(sealed, opened),
        profile_added(opened, after, name, second),
        second.len() == KEY_LEN,
    ensures
        after.key_view() == sealed.key_view(),
        after.means(dv, cv),
        all_plain_dbs(after.databases@),
        all_plain_callers(after.callers@),
        profile_unlocks(after, i, first, after.key_view()),
        profile_unlocks(after, after.encryptions@.len() - 1, second, after.key_view()),
{
    assert(sealed.data_key is Some);
}

} // verus!
