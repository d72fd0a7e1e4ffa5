//! Decisions on the counterpart's replies: how a reply is classified, and what the TOTP,
//! lock, erase and store operations make of it.
use vstd::prelude::*;
use crate::config::Database;
use crate::entries::LoginEntry;
use crate::groups::FlatGroup;

verus! {

/// Error code with which the counterpart reports a locked database.
pub const DATABASE_NOT_OPENED: u64 = 1;

/// Error code with which the counterpart reports that the user cancelled or denied.
pub const ACTION_CANCELLED_OR_DENIED: u64 = 6;

/// Error code with which the counterpart reports a failed association.
pub const ASSOCIATION_FAILED: u64 = 8;

#[derive(Clone, Copy, Debug, PartialEq, Eq, Structural)]
pub enum ProtocolError {
    DatabaseLocked,
    AssociationRejected,
    OperationRejected { code: u64 },
    /// The reply reused the nonce of the request.
    ReplayedNonce,
    /// The reply carried neither a success flag nor an error code.
    Malformed,
    TotpUnavailable,
}

/// A reply, decided once when it is decoded.
#[derive(Clone, Copy, Debug, PartialEq, Eq, Structural)]
pub enum ResponseStatus {
    Accepted,
    Logical(ProtocolError),
    Malformed,
}

pub open spec fn error_of(code: u64) -> ProtocolError {
    if code == DATABASE_NOT_OPENED {
        ProtocolError::DatabaseLocked
    } else if code == ACTION_CANCELLED_OR_DENIED || code == ASSOCIATION_FAILED {
        ProtocolError::AssociationRejected
    } else {
        ProtocolError::OperationRejected { code }
    }
}

/// Classifies a decoded reply by its success flag and error code.
pub fn classify(success: Option<bool>, error_code: Option<u64>) -> (r: ResponseStatus)
    ensures
        success == Some(true) ==> r == ResponseStatus::Accepted,
        success != Some(true) && error_code is Some ==> r == ResponseStatus::Logical(error_of(error_code->0)),
        success == Some(false) && error_code is None ==> r == ResponseStatus::Logical(
            ProtocolError::OperationRejected { code: 0 },
        ),
        success is None && error_code is None ==> r == ResponseStatus::Malformed,
{
    if success == Some(true) {
        return ResponseStatus::Accepted;
    }
    match error_code {
        Some(code) => {
            let e = if code == DATABASE_NOT_OPENED {
                ProtocolError::DatabaseLocked
            } else if code == ACTION_CANCELLED_OR_DENIED || code == ASSOCIATION_FAILED {
                ProtocolError::AssociationRejected
            } else {
                ProtocolError::OperationRejected { code }
            };
            ResponseStatus::Logical(e)
        },
        None => if success.is_some() {
            ResponseStatus::Logical(ProtocolError::OperationRejected { code: 0 })
        } else {
            ResponseStatus::Malformed
        },
    }
}

/// A reply must not reuse the nonce of its request.
pub fn check_reply_nonce(request_nonce: &Vec<u8>, reply_nonce: &Vec<u8>) -> (r: Result<(), ProtocolError>)
    ensures
        r is Ok <==> request_nonce@ != reply_nonce@,
        r is Err ==> r == Err::<(), ProtocolError>(ProtocolError::ReplayedNonce),
{
    if request_nonce.len() != reply_nonce.len() {
        return Ok(());
    }
    let mut i: usize = 0;
    while i < request_nonce.len()
        invariant
            i <= request_nonce@.len(),
            request_nonce@.len() == reply_nonce@.len(),
            forall|j: int| 0 <= j < i ==> request_nonce@[j] == reply_nonce@[j],
        decreases request_nonce@.len() - i,
    {
        if request_nonce[i] != reply_nonce[i] {
            return Ok(());
        }
        i = i + 1;
    }
    assert(request_nonce@ =~= reply_nonce@);
    Err(ProtocolError::ReplayedNonce)
}

/// The result of a single-shot operation with this reply.
pub open spec fn checked(status: ResponseStatus) -> Result<(), ProtocolError> {
    match status {
        ResponseStatus::Accepted => Ok(()),
        ResponseStatus::Logical(e) => Err(e),
        ResponseStatus::Malformed => Err(ProtocolError::Malformed),
    }
}

/// Turns a reply into the result of a single-shot operation.
pub fn check(status: ResponseStatus) -> (r: Result<(), ProtocolError>)
    ensures
        r == checked(status),
{
    match status {
        ResponseStatus::Accepted => Ok(()),
        ResponseStatus::Logical(e) => Err(e),
        ResponseStatus::Malformed => Err(ProtocolError::Malformed),
    }
}

/// The result of locking the database, from the counterpart's reply.
pub fn lock_database(status: ResponseStatus) -> (r: Result<(), ProtocolError>)
    ensures
        r == checked(status),
{
    check(status)
}

/// Erasing is not offered by the counterpart; the request is accepted and ignored, since git
/// asks for it whenever a server refuses a login.
pub fn erase_login() -> (r: Result<(), ProtocolError>)
    ensures
        r is Ok,
{
    Ok(())
}

/// The TOTP code from a reply: present only when the reply reports success and the code is
/// not empty.
pub fn get_totp_for(success: Option<bool>, totp: String) -> (r: Result<String, ProtocolError>)
    ensures
        success == Some(true) && totp@.len() > 0 ==> r is Ok && r->Ok_0@ == totp@,
        !(success == Some(true) && totp@.len() > 0) ==> r == Err::<String, ProtocolError>(ProtocolError::TotpUnavailable),
{
    if success == Some(true) && totp.as_str().unicode_len() > 0 {
        Ok(totp)
    } else {
        Err(ProtocolError::TotpUnavailable)
    }
}

/// What to send to save a login: the database, the credentials, the target group and, for
/// an update, the entry to update.
#[derive(Clone, Debug)]
pub struct SetLogin {
    pub id: String,
    pub login: String,
    pub password: String,
    pub group: String,
    pub group_uuid: String,
    pub uuid: Option<String>,
}

pub type SetLoginView = (Seq<char>, Seq<char>, Seq<char>, Seq<char>, Seq<char>, Option<Seq<char>>);

impl View for SetLogin {
    type V = SetLoginView;

    open spec fn view(&self) -> SetLoginView {
        (
            self.id@,
            self.login@,
            self.password@,
            self.group@,
            self.group_uuid@,
            match self.uuid {
                Some(u) => Some(u@),
                None => None,
            },
        )
    }
}

#[derive(Clone, Debug)]
pub enum StoreDecision {
    /// The stored credentials are already these: nothing to send.
    Unchanged,
    Send(SetLogin),
}

#[derive(Clone, Copy, Debug, PartialEq, Eq, Structural)]
pub enum StoreError {
    MissingUsername,
    MissingPassword,
    /// Updating an entry while several databases are configured is not supported.
    NotImplemented,
    NoDatabase,
    GroupNotFound,
    /// No configured database could be authenticated against.
    NoAssociatedDatabase,
}

/// How looking up the existing entries for the URL ended.
#[derive(Clone, Debug)]
pub enum Lookup {
    /// The counterpart answered with these entries (after filtering).
    Found(Vec<LoginEntry>),
    /// No configured database could be authenticated against.
    NoAssociatedDatabase,
    /// The lookup request failed; it is treated as finding nothing.
    Failed,
}

pub open spec fn first_login(es: Seq<LoginEntry>, u: Seq<char>, f: int) -> bool {
    &&& 0 <= f < es.len()
    &&& es[f].login@ == u
    &&& forall|j: int| 0 <= j < f ==> (#[trigger] es[j]).login@ != u
}

pub open spec fn has_login(es: Seq<LoginEntry>, u: Seq<char>) -> bool {
    exists|i: int| 0 <= i < es.len() && (#[trigger] es[i]).login@ == u
}

pub open spec fn first_group(gs: Seq<FlatGroup>, name: Seq<char>, f: int) -> bool {
    &&& 0 <= f < gs.len()
    &&& gs[f].name@ == name
    &&& forall|j: int| 0 <= j < f ==> (#[trigger] gs[j]).name@ != name
}

pub open spec fn has_group(gs: Seq<FlatGroup>, name: Seq<char>) -> bool {
    exists|i: int| 0 <= i < gs.len() && (#[trigger] gs[i]).name@ == name
}

pub open spec fn set_to(r: Result<StoreDecision, StoreError>, v: SetLoginView) -> bool {
    r matches Ok(StoreDecision::Send(s)) && s@ == v
}

pub open spec fn entries_of(existing: Lookup) -> Seq<LoginEntry> {
    match existing {
        Lookup::Found(v) => v@,
        _ => Seq::empty(),
    }
}

fn find_login(es: &Vec<LoginEntry>, u: &String) -> (r: Option<usize>)
    ensures
        r matches Some(f) ==> first_login(es@, u@, f as int),
        r is None ==> !has_login(es@, u@),
{
    let mut i: usize = 0;
    while i < es.len()
        invariant
            i <= es@.len(),
            forall|j: int| 0 <= j < i ==> (#[trigger] es@[j]).login@ != u@,
        decreases es@.len() - i,
    {
        if es[i].login == *u {
            return Some(i);
        }
        i = i + 1;
    }
    None
}

fn find_group(gs: &Vec<FlatGroup>, name: &String) -> (r: Option<usize>)
    ensures
        r matches Some(f) ==> first_group(gs@, name@, f as int),
        r is None ==> !has_group(gs@, name@),
{
    let mut i: usize = 0;
    while i < gs.len()
        invariant
            i <= gs@.len(),
            forall|j: int| 0 <= j < i ==> (#[trigger] gs@[j]).name@ != name@,
        decreases gs@.len() - i,
    {
        if gs[i].name == *name {
            return Some(i);
        }
        i = i + 1;
    }
    None
}

/// Decides how to save the credentials that git hands over. `existing` tells how the lookup
/// of entries for the URL ended: with no authenticated database nothing is sent; `groups` the counterpart's flattened
/// groups when `create_in` names one. An entry with the same login is updated, unless its password is
/// the same too, when nothing is sent; otherwise a new entry is created in the first
/// database.
pub fn store_login(
    username: Option<String>,
    password: Option<String>,
    existing: Lookup,
    databases: &Vec<Database>,
    create_in: Option<String>,
    groups: &Vec<FlatGroup>,
) -> (r: Result<StoreDecision, StoreError>)
    ensures
        username is None ==> r == Err::<StoreDecision, StoreError>(StoreError::MissingUsername),
        username is Some && password is None ==> r == Err::<StoreDecision, StoreError>(
            StoreError::MissingPassword,
        ),
        username is Some && password is Some && existing is NoAssociatedDatabase ==> r == Err::<
            StoreDecision,
            StoreError,
        >(StoreError::NoAssociatedDatabase),
        username is Some && password is Some && !(existing is NoAssociatedDatabase) ==> ({
            let u = username->0@;
            let p = password->0@;
            let es = entries_of(existing);
            if has_login(es, u) {
                forall|f: int|
                    first_login(es, u, f) ==> if es[f].password@ == p {
                        r matches Ok(StoreDecision::Unchanged)
                    } else if databases@.len() > 1 {
                        r == Err::<StoreDecision, StoreError>(StoreError::NotImplemented)
                    } else if databases@.len() == 0 {
                        r == Err::<StoreDecision, StoreError>(StoreError::NoDatabase)
                    } else {
                        set_to(
                            r,
                            (
                                databases@[0].id@,
                                u,
                                p,
                                databases@[0].group@,
                                databases@[0].group_uuid@,
                                Some(es[f].uuid@),
                            ),
                        )
                    }
            } else if databases@.len() == 0 {
                r == Err::<StoreDecision, StoreError>(StoreError::NoDatabase)
            } else {
                match create_in {
                    None => set_to(
                        r,
                        (databases@[0].id@, u, p, databases@[0].group@, databases@[0].group_uuid@, None),
                    ),
                    Some(g) => if has_group(groups@, g@) {
                        forall|f: int|
                            first_group(groups@, g@, f) ==> set_to(
                                r,
                                (databases@[0].id@, u, p, g@, groups@[f].uuid@, None),
                            )
                    } else {
                        r == Err::<StoreDecision, StoreError>(StoreError::GroupNotFound)
                    },
                }
            }
        }),
{
    let u = match username {
        Some(u) => u,
        None => return Err(StoreError::MissingUsername),
    };
    let p = match password {
        Some(p) => p,
        None => return Err(StoreError::MissingPassword),
    };
    let es = match existing {
        Lookup::Found(v) => v,
        Lookup::NoAssociatedDatabase => return Err(StoreError::NoAssociatedDatabase),
        Lookup::Failed => Vec::new(),
    };
    assert(es@ == entries_of(existing));
    match find_login(&es, &u) {
        Some(f) => {
            assert(has_login(es@, u@));
            if es[f].password == p {
                return Ok(StoreDecision::Unchanged);
            }
            if databases.len() > 1 {
                return Err(StoreError::NotImplemented);
            }
            if databases.len() == 0 {
                return Err(StoreError::NoDatabase);
            }
            let db = &databases[0];
            Ok(
                StoreDecision::Send(
                    SetLogin {
                        id: db.id.clone(),
                        login: u,
                        password: p,
                        group: db.group.clone(),
                        group_uuid: db.group_uuid.clone(),
                        uuid: Some(es[f].uuid.clone()),
                    },
                ),
            )
        },
        None => {
            if databases.len() == 0 {
                return Err(StoreError::NoDatabase);
            }
            let db = &databases[0];
            let (group, group_uuid) = match create_in {
                Some(g) => match find_group(groups, &g) {
                    Some(f) => {
                        let uuid = groups[f].uuid.clone();
                        (g, uuid)
                    },
                    None => return Err(StoreError::GroupNotFound),
                },
                None => (db.group.clone(), db.group_uuid.clone()),
            };
            Ok(
                StoreDecision::Send(
                    SetLogin { id: db.id.clone(), login: u, password: p, group, group_uuid, uuid: None },
                ),
            )
        },
    }
}

/// What a `get` asks for.
#[derive(Clone, Copy, Debug, PartialEq, Eq, Structural)]
pub enum GetMode {
    PasswordOnly,
    PasswordAndTotp,
    TotpOnly,
}

/// The fields to hand back to git.
#[derive(Clone, Debug)]
pub struct Answer {
    pub username: Option<String>,
    pub password: Option<String>,
    pub totp: Option<String>,
}

pub open spec fn text_is(o: Option<String>, t: Seq<char>) -> bool {
    o matches Some(s) && s@ == t
}

/// Whether the mode needs the entry's TOTP code fetched.
pub fn needs_totp(mode: GetMode) -> (r: bool)
    ensures
        r == (mode != GetMode::PasswordOnly),
{
    match mode {
        GetMode::PasswordOnly => false,
        _ => true,
    }
}

/// The answer for an entry. `totp` is the outcome of fetching its code, `None` when it was not
/// fetched. A missing code fails only when nothing but the code was asked for; otherwise it
/// is left out. The credentials are given unless only the code was asked for.
pub fn answer(mode: GetMode, login: String, password: String, totp: Option<Result<String, ProtocolError>>) -> (r: Result<Answer, ProtocolError>)
    ensures
        mode == GetMode::TotpOnly ==> match totp {
            Some(Ok(code)) => r is Ok && r->Ok_0.username is None && r->Ok_0.password is None
                && text_is(r->Ok_0.totp, code@),
            Some(Err(e)) => r == Err::<Answer, ProtocolError>(e),
            None => r == Err::<Answer, ProtocolError>(ProtocolError::TotpUnavailable),
        },
        mode != GetMode::TotpOnly ==> r is Ok && text_is(r->Ok_0.username, login@) && text_is(
            r->Ok_0.password,
            password@,
        ),
        mode == GetMode::PasswordOnly ==> r is Ok && r->Ok_0.totp is None,
        mode == GetMode::PasswordAndTotp ==> r is Ok && match totp {
            Some(Ok(code)) => text_is(r->Ok_0.totp, code@),
            _ => r->Ok_0.totp is None,
        },
{
    match mode {
        GetMode::TotpOnly => match totp {
            Some(Ok(code)) => Ok(Answer { username: None, password: None, totp: Some(code) }),
            Some(Err(e)) => Err(e),
            None => Err(ProtocolError::TotpUnavailable),
        },
        GetMode::PasswordOnly => Ok(Answer { username: Some(login), password: Some(password), totp: None }),
        GetMode::PasswordAndTotp => {
            let code = match totp {
                Some(Ok(code)) => Some(code),
                _ => None,
            };
            Ok(Answer { username: Some(login), password: Some(password), totp: code })
        },
    }
}

} // verus!
