//! The configuration store: database associations and allowed callers, each kept in the
//! clear or sealed under a data key that every registered encryption profile wraps.
use vstd::prelude::*;
use vstd::utf8::encode_utf8;
use crate::seal::{
    blob_holds, blob_opens, from_le, le_bytes, open_bytes, open_text, fresh_key, seal_bytes, seal_text,
    to_le, Blob, KEY_LEN,
};

verus! {

/// One association with a database of the password manager.
#[derive(Clone, Debug)]
pub struct Database {
    pub id: String,
    pub key: String,
    pub pkey: String,
    pub group: String,
    pub group_uuid: String,
}

pub type DatabaseView = (Seq<char>, Seq<char>, Seq<char>, Seq<char>, Seq<char>);

impl View for Database {
    type V = DatabaseView;

    open spec fn view(&self) -> DatabaseView {
        (self.id@, self.key@, self.pkey@, self.group@, self.group_uuid@)
    }
}

/// One allowed calling process.
#[derive(Clone, Debug)]
pub struct Caller {
    pub path: String,
    pub uid: Option<u32>,
    pub gid: Option<u32>,
    pub canonicalize: bool,
}

pub type CallerView = (Seq<char>, Option<u32>, Option<u32>, bool);

impl View for Caller {
    type V = CallerView;

    open spec fn view(&self) -> CallerView {
        (self.path@, self.uid, self.gid, self.canonicalize)
    }
}

impl Database {
    /// A field-by-field copy.
    pub fn copied(&self) -> (r: Database)
        ensures
            r@ == self@,
    {
        Database {
            id: self.id.clone(),
            key: self.key.clone(),
            pkey: self.pkey.clone(),
            group: self.group.clone(),
            group_uuid: self.group_uuid.clone(),
        }
    }
}

impl Caller {
    /// A field-by-field copy.
    pub fn copied(&self) -> (r: Caller)
        ensures
            r@ == self@,
    {
        Caller { path: self.path.clone(), uid: self.uid, gid: self.gid, canonicalize: self.canonicalize }
    }
}

/// A database association whose every field is sealed.
#[derive(Clone, Debug)]
pub struct SealedDatabase {
    pub id: Blob,
    pub key: Blob,
    pub pkey: Blob,
    pub group: Blob,
    pub group_uuid: Blob,
}

/// A caller whose path and identifiers are sealed.
#[derive(Clone, Debug)]
pub struct SealedCaller {
    pub path: Blob,
    pub ids: Blob,
}

#[derive(Clone, Debug)]
pub enum DatabaseSlot {
    Plain(Database),
    Sealed(SealedDatabase),
}

#[derive(Clone, Debug)]
pub enum CallerSlot {
    Plain(Caller),
    Sealed(SealedCaller),
}

/// A registered key source: its descriptor and the data key sealed under its secret.
#[derive(Clone, Debug)]
pub struct EncryptionProfile {
    pub name: String,
    pub wrapped_key: Blob,
}

pub open spec fn sealed_db_holds(s: SealedDatabase, key: Seq<u8>, v: DatabaseView) -> bool {
    &&& blob_holds(s.id, key, encode_utf8(v.0))
    &&& blob_holds(s.key, key, encode_utf8(v.1))
    &&& blob_holds(s.pkey, key, encode_utf8(v.2))
    &&& blob_holds(s.group, key, encode_utf8(v.3))
    &&& blob_holds(s.group_uuid, key, encode_utf8(v.4))
}

pub open spec fn opt_bytes(x: Option<u32>) -> Seq<u8> {
    match x {
        Some(n) => seq![1u8] + le_bytes(n),
        None => seq![0u8, 0u8, 0u8, 0u8, 0u8],
    }
}

/// The plaintext that a sealed caller's identifiers hold.
pub open spec fn id_bytes(uid: Option<u32>, gid: Option<u32>, canonicalize: bool) -> Seq<u8> {
    opt_bytes(uid) + opt_bytes(gid) + seq![if canonicalize { 1u8 } else { 0u8 }]
}

pub open spec fn sealed_caller_holds(s: SealedCaller, key: Seq<u8>, v: CallerView) -> bool {
    &&& blob_holds(s.path, key, encode_utf8(v.0))
    &&& blob_holds(s.ids, key, id_bytes(v.1, v.2, v.3))
}

/// What reading a sealed caller under `key` gives.
pub open spec fn sealed_caller_reads(s: SealedCaller, key: Seq<u8>, v: CallerView) -> bool {
    &&& blob_opens(s.path, key, encode_utf8(v.0))
    &&& blob_opens(s.ids, key, id_bytes(v.1, v.2, v.3))
}

pub open spec fn caller_slot_reads(s: CallerSlot, key: Seq<u8>, v: CallerView) -> bool {
    match s {
        CallerSlot::Plain(c) => c@ == v,
        CallerSlot::Sealed(x) => sealed_caller_reads(x, key, v),
    }
}

/// Reading the allow-list under `key` gives `v`.
pub open spec fn callers_read(s: Seq<CallerSlot>, key: Seq<u8>, v: Seq<CallerView>) -> bool {
    &&& s.len() == v.len()
    &&& forall|i: int| 0 <= i < s.len() ==> caller_slot_reads(#[trigger] s[i], key, v[i])
}

/// What a database slot stands for, given the data key.
pub open spec fn db_slot_means(s: DatabaseSlot, key: Seq<u8>, v: DatabaseView) -> bool {
    match s {
        DatabaseSlot::Plain(d) => d@ == v,
        DatabaseSlot::Sealed(x) => sealed_db_holds(x, key, v),
    }
}

pub open spec fn caller_slot_means(s: CallerSlot, key: Seq<u8>, v: CallerView) -> bool {
    match s {
        CallerSlot::Plain(c) => c@ == v,
        CallerSlot::Sealed(x) => sealed_caller_holds(x, key, v),
    }
}

pub open spec fn dbs_mean(s: Seq<DatabaseSlot>, key: Seq<u8>, v: Seq<DatabaseView>) -> bool {
    &&& s.len() == v.len()
    &&& forall|i: int| 0 <= i < s.len() ==> db_slot_means(#[trigger] s[i], key, v[i])
}

pub open spec fn callers_mean(s: Seq<CallerSlot>, key: Seq<u8>, v: Seq<CallerView>) -> bool {
    &&& s.len() == v.len()
    &&& forall|i: int| 0 <= i < s.len() ==> caller_slot_means(#[trigger] s[i], key, v[i])
}

fn seal_database(key: &Vec<u8>, d: &Database) -> (r: SealedDatabase)
    requires
        key@.len() == KEY_LEN,
    ensures
        sealed_db_holds(r, key@, d@),
{
    let id = seal_text(key, &d.id);
    let k = seal_text(key, &d.key);
    let pkey = seal_text(key, &d.pkey);
    let group = seal_text(key, &d.group);
    let group_uuid = seal_text(key, &d.group_uuid);
    SealedDatabase { id, key: k, pkey, group, group_uuid }
}

fn open_database(key: &Vec<u8>, s: &SealedDatabase) -> (r: Option<Database>)
    requires
        key@.len() == KEY_LEN,
    ensures
        forall|v: DatabaseView| sealed_db_holds(*s, key@, v) ==> r is Some && r->0@ == v,
{
    let id = open_text(key, &s.id)?;
    let k = open_text(key, &s.key)?;
    let pkey = open_text(key, &s.pkey)?;
    let group = open_text(key, &s.group)?;
    let group_uuid = open_text(key, &s.group_uuid)?;
    Some(Database { id, key: k, pkey, group, group_uuid })
}

fn push_opt(out: &mut Vec<u8>, x: Option<u32>)
    ensures
        final(out)@ == old(out)@ + opt_bytes(x),
{
    match x {
        Some(n) => {
            out.push(1u8);
            let b = to_le(n);
            let mut i: usize = 0;
            while i < 4
                invariant
                    b@ == le_bytes(n),
                    0 <= i <= 4,
                    out@ == old(out)@ + seq![1u8] + b@.take(i as int),
                decreases 4 - i,
            {
                out.push(b[i]);
                assert(b@.take(i + 1) == b@.take(i as int).push(b@[i as int]));
                i = i + 1;
            }
            assert(b@.take(4) == b@);
        },
        None => {
            let mut i: usize = 0;
            while i < 5
                invariant
                    0 <= i <= 5,
                    out@ == old(out)@ + Seq::new(i as nat, |j: int| 0u8),
                decreases 5 - i,
            {
                out.push(0u8);
                assert(Seq::new((i + 1) as nat, |j: int| 0u8) == Seq::new(i as nat, |j: int| 0u8).push(0u8));
                i = i + 1;
            }
            assert(Seq::new(5, |j: int| 0u8) =~= seq![0u8, 0u8, 0u8, 0u8, 0u8]);
        },
    }
    assert(final(out)@ =~= old(out)@ + opt_bytes(x));
}

fn encode_ids(c: &Caller) -> (r: Vec<u8>)
    ensures
        r@ == id_bytes(c.uid, c.gid, c.canonicalize),
{
    let mut out: Vec<u8> = Vec::new();
    push_opt(&mut out, c.uid);
    push_opt(&mut out, c.gid);
    out.push(if c.canonicalize { 1u8 } else { 0u8 });
    assert(out@ =~= id_bytes(c.uid, c.gid, c.canonicalize));
    out
}

fn decode_opt(b: &Vec<u8>, at: usize) -> (r: Option<Option<u32>>)
    requires
        at + 5 <= b@.len(),
    ensures
        forall|x: Option<u32>| b@.subrange(at as int, at + 5) == opt_bytes(x) ==> r == Some(x),
        r matches Some(x) ==> b@.subrange(at as int, at + 5) == opt_bytes(x),
{
    let _n = b.len();
    let tag = b[at];
    let v = from_le(b, at + 1);
    let r = if tag == 1 {
        Some(Some(v))
    } else if tag == 0 && b[at + 1] == 0 && b[at + 2] == 0 && b[at + 3] == 0 && b[at + 4] == 0 {
        Some(None)
    } else {
        None
    };
    assert forall|x: Option<u32>| b@.subrange(at as int, at + 5) == opt_bytes(x) implies r == Some(x) by {
        assert(b@.subrange(at as int, at + 5)[0] == opt_bytes(x)[0]);
        if let Some(n) = x {
            assert(b@.subrange(at + 1, at + 5) =~= b@.subrange(at as int, at + 5).subrange(1, 5));
            assert(opt_bytes(x).subrange(1, 5) =~= le_bytes(n));
        } else {
            assert(b@.subrange(at as int, at + 5)[1] == opt_bytes(x)[1]);
            assert(b@.subrange(at as int, at + 5)[2] == opt_bytes(x)[2]);
            assert(b@.subrange(at as int, at + 5)[3] == opt_bytes(x)[3]);
            assert(b@.subrange(at as int, at + 5)[4] == opt_bytes(x)[4]);
        }
    }
    if let Some(x) = r {
        if let Some(n) = x {
            assert forall|j: int| 0 <= j < 5 implies b@.subrange(at as int, at + 5)[j] == opt_bytes(x)[j] by {
                if j > 0 {
                    assert(b@.subrange(at + 1, at + 5)[j - 1] == b@[at + j]);
                    assert(le_bytes(n)[j - 1] == opt_bytes(x)[j]);
                }
            }
        }
        assert(b@.subrange(at as int, at + 5) =~= opt_bytes(x));
    }
    r
}

fn decode_ids(b: &Vec<u8>) -> (r: Option<(Option<u32>, Option<u32>, bool)>)
    ensures
        forall|u: Option<u32>, g: Option<u32>, c: bool| b@ == id_bytes(u, g, c) ==> r == Some((u, g, c)),
        r matches Some(t) ==> b@ == id_bytes(t.0, t.1, t.2),
{
    if b.len() != 11 {
        return None;
    }
    let uid = decode_opt(b, 0);
    let gid = decode_opt(b, 5);
    let r = match (uid, gid) {
        (Some(u), Some(g)) => if b[10] == 1u8 {
            Some((u, g, true))
        } else if b[10] == 0u8 {
            Some((u, g, false))
        } else {
            None
        },
        _ => None,
    };
    assert forall|u: Option<u32>, g: Option<u32>, c: bool| b@ == id_bytes(u, g, c) implies r == Some((u, g, c)) by {
        assert(b@.subrange(0, 5) =~= opt_bytes(u));
        assert(b@.subrange(5, 10) =~= opt_bytes(g));
        assert(b@[10] == id_bytes(u, g, c)[10]);
    }
    if let Some(t) = r {
        assert(b@ =~= b@.subrange(0, 5) + b@.subrange(5, 10) + seq![b@[10]]);
        assert(b@ =~= id_bytes(t.0, t.1, t.2));
    }
    r
}

fn seal_caller(key: &Vec<u8>, c: &Caller) -> (r: SealedCaller)
    requires
        key@.len() == KEY_LEN,
    ensures
        sealed_caller_holds(r, key@, c@),
{
    let path = seal_text(key, &c.path);
    let ids = seal_bytes(key, &encode_ids(c));
    SealedCaller { path, ids }
}

fn open_caller(key: &Vec<u8>, s: &SealedCaller) -> (r: Option<Caller>)
    requires
        key@.len() == KEY_LEN,
    ensures
        forall|v: CallerView| sealed_caller_holds(*s, key@, v) ==> r is Some && r->0@ == v,
        r matches Some(c) ==> sealed_caller_reads(*s, key@, c@),
{
    let path = open_text(key, &s.path)?;
    let ids = open_bytes(key, &s.ids)?;
    let (uid, gid, canonicalize) = decode_ids(&ids)?;
    Some(Caller { path, uid, gid, canonicalize })
}

#[derive(Clone, Copy, Debug, PartialEq, Eq, Structural)]
pub enum ConfigError {
    /// Sealed items are present and no profile has unlocked the data key.
    Locked,
    /// Sealing was asked for and no data key is at hand.
    NoEncryptionKey,
    /// Sealed items are present under a data key that the new profile cannot share.
    ConflictingProfile,
    /// A sealed item did not open under the data key.
    DecryptionFailed,
    /// Encryption profiles cannot be dropped while sealed items remain.
    EncryptedItemsRemain,
}

pub open spec fn sealed_db_count(s: Seq<DatabaseSlot>) -> nat
    decreases s.len(),
{
    if s.len() == 0 {
        0
    } else {
        sealed_db_count(s.drop_last()) + if s.last() is Sealed {
            1nat
        } else {
            0nat
        }
    }
}

pub open spec fn sealed_caller_count(s: Seq<CallerSlot>) -> nat
    decreases s.len(),
{
    if s.len() == 0 {
        0
    } else {
        sealed_caller_count(s.drop_last()) + if s.last() is Sealed {
            1nat
        } else {
            0nat
        }
    }
}

pub open spec fn all_plain_dbs(s: Seq<DatabaseSlot>) -> bool {
    forall|i: int| 0 <= i < s.len() ==> #[trigger] s[i] is Plain
}

pub open spec fn all_plain_callers(s: Seq<CallerSlot>) -> bool {
    forall|i: int| 0 <= i < s.len() ==> #[trigger] s[i] is Plain
}

pub open spec fn all_sealed_dbs(s: Seq<DatabaseSlot>) -> bool {
    forall|i: int| 0 <= i < s.len() ==> #[trigger] s[i] is Sealed
}

pub open spec fn all_sealed_callers(s: Seq<CallerSlot>) -> bool {
    forall|i: int| 0 <= i < s.len() ==> #[trigger] s[i] is Sealed
}

pub open spec fn db_views(s: Seq<Database>) -> Seq<DatabaseView> {
    s.map_values(|d: Database| d@)
}

pub open spec fn caller_views(s: Seq<Caller>) -> Seq<CallerView> {
    s.map_values(|c: Caller| c@)
}

pub(crate) proof fn lemma_db_count_zero(s: Seq<DatabaseSlot>)
    ensures
        sealed_db_count(s) == 0 <==> all_plain_dbs(s),
        sealed_db_count(s) <= s.len(),
    decreases s.len(),
{
    if s.len() > 0 {
        lemma_db_count_zero(s.drop_last());
        if all_plain_dbs(s) {
            assert(s.last() is Plain);
            assert forall|i: int| 0 <= i < s.drop_last().len() implies #[trigger] s.drop_last()[i] is Plain by {
                assert(s[i] is Plain);
            }
        }
        if sealed_db_count(s) == 0 {
            assert forall|i: int| 0 <= i < s.len() implies #[trigger] s[i] is Plain by {
                if i < s.len() - 1 {
                    assert(s.drop_last()[i] is Plain);
                }
            }
        }
    }
}

pub(crate) proof fn lemma_caller_count_zero(s: Seq<CallerSlot>)
    ensures
        sealed_caller_count(s) == 0 <==> all_plain_callers(s),
        sealed_caller_count(s) <= s.len(),
    decreases s.len(),
{
    if s.len() > 0 {
        lemma_caller_count_zero(s.drop_last());
        if all_plain_callers(s) {
            assert(s.last() is Plain);
            assert forall|i: int| 0 <= i < s.drop_last().len() implies #[trigger] s.drop_last()[i] is Plain by {
                assert(s[i] is Plain);
            }
        }
        if sealed_caller_count(s) == 0 {
            assert forall|i: int| 0 <= i < s.len() implies #[trigger] s[i] is Plain by {
                if i < s.len() - 1 {
                    assert(s.drop_last()[i] is Plain);
                }
            }
        }
    }
}

pub(crate) proof fn lemma_sealed_db_full(s: Seq<DatabaseSlot>)
    ensures
        sealed_db_count(s) == s.len() <==> all_sealed_dbs(s),
    decreases s.len(),
{
    if s.len() > 0 {
        lemma_sealed_db_full(s.drop_last());
        lemma_db_count_zero(s.drop_last());
        if all_sealed_dbs(s) {
            assert forall|i: int| 0 <= i < s.drop_last().len() implies #[trigger] s.drop_last()[i] is Sealed by {
                assert(s[i] is Sealed);
            }
        }
        if sealed_db_count(s) == s.len() {
            assert forall|i: int| 0 <= i < s.len() implies #[trigger] s[i] is Sealed by {
                if i < s.len() - 1 {
                    assert(s.drop_last()[i] is Sealed);
                }
            }
        }
    }
}

pub(crate) proof fn lemma_sealed_caller_full(s: Seq<CallerSlot>)
    ensures
        sealed_caller_count(s) == s.len() <==> all_sealed_callers(s),
    decreases s.len(),
{
    if s.len() > 0 {
        lemma_sealed_caller_full(s.drop_last());
        lemma_caller_count_zero(s.drop_last());
        if all_sealed_callers(s) {
            assert forall|i: int| 0 <= i < s.drop_last().len() implies #[trigger] s.drop_last()[i] is Sealed by {
                assert(s[i] is Sealed);
            }
        }
        if sealed_caller_count(s) == s.len() {
            assert forall|i: int| 0 <= i < s.len() implies #[trigger] s[i] is Sealed by {
                if i < s.len() - 1 {
                    assert(s.drop_last()[i] is Sealed);
                }
            }
        }
    }
}

/// The whole store: database associations, allowed callers, registered profiles and, once a
/// profile has unlocked it, the data key that sealed items are sealed under.
pub struct ConfigFile {
    pub databases: Vec<DatabaseSlot>,
    pub callers: Vec<CallerSlot>,
    pub encryptions: Vec<EncryptionProfile>,
    pub data_key: Option<Vec<u8>>,
}

impl ConfigFile {
    pub open spec fn wf(&self) -> bool {
        self.data_key matches Some(k) ==> k@.len() == KEY_LEN
    }

    /// The data key's bytes, empty while the store is not unlocked.
    pub open spec fn key_view(&self) -> Seq<u8> {
        match self.data_key {
            Some(k) => k@,
            None => Seq::empty(),
        }
    }

    /// The store stands for these database and caller records.
    pub open spec fn means(&self, dbs: Seq<DatabaseView>, callers: Seq<CallerView>) -> bool {
        &&& dbs_mean(self.databases@, self.key_view(), dbs)
        &&& callers_mean(self.callers@, self.key_view(), callers)
    }

    pub open spec fn sealed_count(&self) -> nat {
        sealed_db_count(self.databases@) + sealed_caller_count(self.callers@)
    }

    /// Items can be read: none is sealed, or the data key is at hand.
    pub open spec fn readable(&self) -> bool {
        self.data_key is Some || self.sealed_count() == 0
    }

    pub fn new() -> (r: ConfigFile)
        ensures
            r.wf(),
            r.databases@.len() == 0,
            r.callers@.len() == 0,
            r.encryptions@.len() == 0,
            r.data_key is None,
    {
        ConfigFile { databases: Vec::new(), callers: Vec::new(), encryptions: Vec::new(), data_key: None }
    }

    pub fn count_databases(&self) -> (r: usize)
        ensures
            r == self.databases@.len(),
    {
        self.databases.len()
    }

    pub fn count_callers(&self) -> (r: usize)
        ensures
            r == self.callers@.len(),
    {
        self.callers.len()
    }

    pub fn count_encryptions(&self) -> (r: usize)
        ensures
            r == self.encryptions@.len(),
    {
        self.encryptions.len()
    }

    pub fn count_encrypted_databases(&self) -> (r: usize)
        ensures
            r == sealed_db_count(self.databases@),
    {
        let mut n: usize = 0;
        let mut i: usize = 0;
        while i < self.databases.len()
            invariant
                i <= self.databases@.len(),
                n == sealed_db_count(self.databases@.take(i as int)),
                n <= i,
            decreases self.databases@.len() - i,
        {
            assert(self.databases@.take(i + 1).drop_last() =~= self.databases@.take(i as int));
            if let DatabaseSlot::Sealed(_) = &self.databases[i] {
                n = n + 1;
            }
            i = i + 1;
        }
        assert(self.databases@.take(i as int) =~= self.databases@);
        n
    }

    pub fn count_encrypted_callers(&self) -> (r: usize)
        ensures
            r == sealed_caller_count(self.callers@),
    {
        let mut n: usize = 0;
        let mut i: usize = 0;
        while i < self.callers.len()
            invariant
                i <= self.callers@.len(),
                n == sealed_caller_count(self.callers@.take(i as int)),
                n <= i,
            decreases self.callers@.len() - i,
        {
            assert(self.callers@.take(i + 1).drop_last() =~= self.callers@.take(i as int));
            if let CallerSlot::Sealed(_) = &self.callers[i] {
                n = n + 1;
            }
            i = i + 1;
        }
        assert(self.callers@.take(i as int) =~= self.callers@);
        n
    }
}

impl ConfigFile {
    /// Every database association in the clear, opening sealed ones with the data key.
    pub fn get_databases(&self) -> (r: Result<Vec<Database>, ConfigError>)
        requires
            self.wf(),
        ensures
            self.data_key is None && sealed_db_count(self.databases@) > 0 ==> r == Err::<
                Vec<Database>,
                ConfigError,
            >(ConfigError::Locked),
            forall|v: Seq<DatabaseView>|
                dbs_mean(self.databases@, self.key_view(), v) && (self.data_key is Some
                    || sealed_db_count(self.databases@) == 0) ==> r is Ok && db_views(r->Ok_0@) == v,
            r matches Err(e) ==> e == ConfigError::Locked || e == ConfigError::DecryptionFailed,
    {
        if self.data_key.is_none() && self.count_encrypted_databases() > 0 {
            return Err(ConfigError::Locked);
        }
        proof {
            lemma_db_count_zero(self.databases@);
        }
        let mut out: Vec<Database> = Vec::new();
        let mut i: usize = 0;
        while i < self.databases.len()
            invariant
                i <= self.databases@.len(),
                self.wf(),
                self.data_key is None ==> all_plain_dbs(self.databases@),
                forall|v: Seq<DatabaseView>|
                    dbs_mean(self.databases@, self.key_view(), v) ==> db_views(out@) =~= v.take(
                        i as int,
                    ),
            decreases self.databases@.len() - i,
        {
            let ghost prev = out@;
            match &self.databases[i] {
                DatabaseSlot::Plain(d) => {
                    out.push(d.copied());
                },
                DatabaseSlot::Sealed(x) => {
                    let k = match &self.data_key {
                        Some(k) => k,
                        None => {
                            assert(self.databases@[i as int] is Plain);
                            return Err(ConfigError::Locked);
                        },
                    };
                    match open_database(k, x) {
                        Some(d) => {
                            out.push(d);
                        },
                        None => {
                            assert forall|v: Seq<DatabaseView>|
                                dbs_mean(self.databases@, self.key_view(), v) implies false by {
                                assert(db_slot_means(self.databases@[i as int], self.key_view(), v[i as int]));
                            }
                            return Err(ConfigError::DecryptionFailed);
                        },
                    }
                },
            }
            assert forall|v: Seq<DatabaseView>|
                dbs_mean(self.databases@, self.key_view(), v) implies db_views(out@) =~= v.take(
                i + 1,
            ) by {
                assert(db_slot_means(self.databases@[i as int], self.key_view(), v[i as int]));
                assert(db_views(prev) =~= v.take(i as int));
                assert(out@ == prev.push(out@.last()));
            }
            i = i + 1;
        }
        proof {
            assert forall|v: Seq<DatabaseView>| dbs_mean(self.databases@, self.key_view(), v) implies db_views(out@) == v by {
                assert(v.take(i as int) =~= v);
            }
        }
        Ok(out)
    }

    /// Every allowed caller in the clear, opening sealed ones with the data key.
    pub fn get_callers(&self) -> (r: Result<Vec<Caller>, ConfigError>)
        requires
            self.wf(),
        ensures
            self.data_key is None && sealed_caller_count(self.callers@) > 0 ==> r == Err::<
                Vec<Caller>,
                ConfigError,
            >(ConfigError::Locked),
            forall|v: Seq<CallerView>|
                callers_mean(self.callers@, self.key_view(), v) && (self.data_key is Some
                    || sealed_caller_count(self.callers@) == 0) ==> r is Ok && caller_views(r->Ok_0@) == v,
            r is Ok ==> callers_read(self.callers@, self.key_view(), caller_views(r->Ok_0@)),
            r matches Err(e) ==> e == ConfigError::Locked || e == ConfigError::DecryptionFailed,
    {
        if self.data_key.is_none() && self.count_encrypted_callers() > 0 {
            return Err(ConfigError::Locked);
        }
        proof {
            lemma_caller_count_zero(self.callers@);
        }
        let mut out: Vec<Caller> = Vec::new();
        let mut i: usize = 0;
        while i < self.callers.len()
            invariant
                i <= self.callers@.len(),
                self.wf(),
                self.data_key is None ==> all_plain_callers(self.callers@),
                forall|v: Seq<CallerView>|
                    callers_mean(self.callers@, self.key_view(), v) ==> caller_views(out@) =~= v.take(
                        i as int,
                    ),
                callers_read(self.callers@.take(i as int), self.key_view(), caller_views(out@)),
            decreases self.callers@.len() - i,
        {
            let ghost prev = out@;
            match &self.callers[i] {
                CallerSlot::Plain(c) => {
                    out.push(c.copied());
                },
                CallerSlot::Sealed(x) => {
                    let k = match &self.data_key {
                        Some(k) => k,
                        None => {
                            assert(self.callers@[i as int] is Plain);
                            return Err(ConfigError::Locked);
                        },
                    };
                    match open_caller(k, x) {
                        Some(c) => {
                            out.push(c);
                        },
                        None => {
                            assert forall|v: Seq<CallerView>|
                                callers_mean(self.callers@, self.key_view(), v) implies false by {
                                assert(caller_slot_means(self.callers@[i as int], self.key_view(), v[i as int]));
                            }
                            return Err(ConfigError::DecryptionFailed);
                        },
                    }
                },
            }
            assert forall|v: Seq<CallerView>|
                callers_mean(self.callers@, self.key_view(), v) implies caller_views(out@) =~= v.take(
                i + 1,
            ) by {
                assert(caller_slot_means(self.callers@[i as int], self.key_view(), v[i as int]));
                assert(caller_views(prev) =~= v.take(i as int));
                assert(out@ == prev.push(out@.last()));
            }
            assert(caller_views(out@) =~= caller_views(prev).push(out@.last()@));
            assert(caller_slot_reads(self.callers@[i as int], self.key_view(), out@.last()@));
            assert forall|j: int| 0 <= j < i + 1 implies caller_slot_reads(
                #[trigger] self.callers@.take(i + 1)[j],
                self.key_view(),
                caller_views(out@)[j],
            ) by {
                if j < i {
                    assert(self.callers@.take(i + 1)[j] == self.callers@.take(i as int)[j]);
                    assert(caller_slot_reads(self.callers@.take(i as int)[j], self.key_view(), caller_views(prev)[j]));
                }
            }
            i = i + 1;
        }
        proof {
            assert forall|v: Seq<CallerView>| callers_mean(self.callers@, self.key_view(), v) implies caller_views(out@) == v by {
                assert(v.take(i as int) =~= v);
            }
            assert(self.callers@.take(i as int) =~= self.callers@);
        }
        Ok(out)
    }
}

impl ConfigFile {
    /// Seals every database association in the clear; the store keeps standing for the same records.
    pub fn encrypt_databases(&mut self) -> (r: Result<usize, ConfigError>)
        requires
            old(self).wf(),
        ensures
            final(self).wf(),
            final(self).callers@ == old(self).callers@,
            final(self).encryptions@ == old(self).encryptions@,
            final(self).data_key == old(self).data_key,
            final(self).databases@.len() == old(self).databases@.len(),
            forall|v: Seq<DatabaseView>|
                dbs_mean(old(self).databases@, old(self).key_view(), v) ==> dbs_mean(
                    final(self).databases@,
                    final(self).key_view(),
                    v,
                ),
            old(self).data_key is None ==> r == Err::<usize, ConfigError>(ConfigError::NoEncryptionKey)
                && final(self).databases@ == old(self).databases@,
            r matches Ok(n) ==> n == old(self).databases@.len() - sealed_db_count(old(self).databases@) && all_sealed_dbs(
                final(self).databases@,
            ),
            old(self).data_key is Some ==> r is Ok,
            r matches Err(e) ==> e == ConfigError::NoEncryptionKey,
    {
        let k = match &self.data_key {
            Some(k) => k,
            None => return Err(ConfigError::NoEncryptionKey),
        };
        let ghost key = k@;
        let ghost before = self.databases@;
        let mut n: usize = 0;
        let mut i: usize = 0;
        while i < self.databases.len()
            invariant
                k@ == key,
                key.len() == KEY_LEN,
                self.data_key matches Some(kk) && kk@ == key,
                i <= self.databases@.len(),
                self.databases@.len() == before.len(),
                before == old(self).databases@,
                self.callers@ == old(self).callers@,
                self.encryptions@ == old(self).encryptions@,
                self.data_key == old(self).data_key,
                forall|j: int| i <= j < before.len() ==> self.databases@[j] == before[j],
                forall|j: int| 0 <= j < i ==> #[trigger] self.databases@[j] is Sealed,
                forall|v: Seq<DatabaseView>| dbs_mean(before, key, v) ==> dbs_mean(self.databases@, key, v),
                n + sealed_db_count(before.take(i as int)) == i,
            decreases before.len() - i,
        {
            proof {
                assert(before.take(i + 1).drop_last() =~= before.take(i as int));
            }
            let sealed = match &self.databases[i] {
                DatabaseSlot::Plain(d) => Some(seal_database(k, d)),
                DatabaseSlot::Sealed(_) => None,
            };
            if let Some(x) = sealed {
                let ghost prev = self.databases@;
                self.databases.set(i, DatabaseSlot::Sealed(x));
                n = n + 1;
                assert forall|v: Seq<DatabaseView>| dbs_mean(before, key, v) implies dbs_mean(self.databases@, key, v) by {
                    assert(db_slot_means(prev[i as int], key, v[i as int]));
                    assert forall|j: int| 0 <= j < self.databases@.len() implies db_slot_means(
                        #[trigger] self.databases@[j],
                        key,
                        v[j],
                    ) by {
                        if j != i {
                            assert(db_slot_means(prev[j], key, v[j]));
                        }
                    }
                }
            }
            i = i + 1;
        }
        assert(before.take(i as int) =~= before);
        Ok(n)
    }

    /// Opens every sealed database association; the store keeps standing for the same records.
    pub fn decrypt_databases(&mut self) -> (r: Result<usize, ConfigError>)
        requires
            old(self).wf(),
        ensures
            final(self).wf(),
            final(self).callers@ == old(self).callers@,
            final(self).encryptions@ == old(self).encryptions@,
            final(self).data_key == old(self).data_key,
            final(self).databases@.len() == old(self).databases@.len(),
            forall|v: Seq<DatabaseView>|
                dbs_mean(old(self).databases@, old(self).key_view(), v) ==> dbs_mean(
                    final(self).databases@,
                    final(self).key_view(),
                    v,
                ),
            forall|v: Seq<DatabaseView>|
                dbs_mean(old(self).databases@, old(self).key_view(), v) && (old(self).data_key is Some
                    || sealed_db_count(old(self).databases@) == 0) ==> r is Ok,
            old(self).data_key is None && sealed_db_count(old(self).databases@) > 0 ==> r == Err::<
                usize,
                ConfigError,
            >(ConfigError::Locked),
            sealed_db_count(old(self).databases@) == 0 ==> r == Ok::<usize, ConfigError>(0usize)
                && final(self).databases@ == old(self).databases@,
            r matches Ok(n) ==> n == sealed_db_count(old(self).databases@) && all_plain_dbs(final(self).databases@),
            r matches Err(e) ==> e == ConfigError::Locked || e == ConfigError::DecryptionFailed,
    {
        let count = self.count_encrypted_databases();
        if count == 0 {
            proof {
                lemma_db_count_zero(self.databases@);
            }
            return Ok(0);
        }
        let k = match &self.data_key {
            Some(k) => k,
            None => return Err(ConfigError::Locked),
        };
        let ghost key = k@;
        let ghost before = self.databases@;
        let mut n: usize = 0;
        let mut i: usize = 0;
        while i < self.databases.len()
            invariant
                k@ == key,
                key.len() == KEY_LEN,
                self.data_key matches Some(kk) && kk@ == key,
                i <= self.databases@.len(),
                self.databases@.len() == before.len(),
                before == old(self).databases@,
                self.callers@ == old(self).callers@,
                self.encryptions@ == old(self).encryptions@,
                self.data_key == old(self).data_key,
                forall|j: int| i <= j < before.len() ==> self.databases@[j] == before[j],
                forall|j: int| 0 <= j < i ==> #[trigger] self.databases@[j] is Plain,
                forall|v: Seq<DatabaseView>| dbs_mean(before, key, v) ==> dbs_mean(self.databases@, key, v),
                n == sealed_db_count(before.take(i as int)),
                n <= i,
                sealed_db_count(before) > 0,
            decreases before.len() - i,
        {
            proof {
                assert(before.take(i + 1).drop_last() =~= before.take(i as int));
            }
            let opened = match &self.databases[i] {
                DatabaseSlot::Sealed(x) => match open_database(k, x) {
                    Some(d) => Some(d),
                    None => {
                        assert forall|v: Seq<DatabaseView>| dbs_mean(before, key, v) implies false by {
                            assert(db_slot_means(self.databases@[i as int], key, v[i as int]));
                        }
                        return Err(ConfigError::DecryptionFailed);
                    },
                },
                DatabaseSlot::Plain(_) => None,
            };
            if let Some(d) = opened {
                let ghost prev = self.databases@;
                self.databases.set(i, DatabaseSlot::Plain(d));
                n = n + 1;
                assert forall|v: Seq<DatabaseView>| dbs_mean(before, key, v) implies dbs_mean(self.databases@, key, v) by {
                    assert(db_slot_means(prev[i as int], key, v[i as int]));
                    assert forall|j: int| 0 <= j < self.databases@.len() implies db_slot_means(
                        #[trigger] self.databases@[j],
                        key,
                        v[j],
                    ) by {
                        if j != i {
                            assert(db_slot_means(prev[j], key, v[j]));
                        }
                    }
                }
            }
            i = i + 1;
        }
        assert(before.take(i as int) =~= before);
        Ok(n)
    }

    /// Seals every allowed caller in the clear; the store keeps standing for the same records.
    pub fn encrypt_callers(&mut self) -> (r: Result<usize, ConfigError>)
        requires
            old(self).wf(),
        ensures
            final(self).wf(),
            final(self).databases@ == old(self).databases@,
            final(self).encryptions@ == old(self).encryptions@,
            final(self).data_key == old(self).data_key,
            final(self).callers@.len() == old(self).callers@.len(),
            forall|v: Seq<CallerView>|
                callers_mean(old(self).callers@, old(self).key_view(), v) ==> callers_mean(
                    final(self).callers@,
                    final(self).key_view(),
                    v,
                ),
            old(self).data_key is None ==> r == Err::<usize, ConfigError>(ConfigError::NoEncryptionKey)
                && final(self).callers@ == old(self).callers@,
            r matches Ok(n) ==> n == old(self).callers@.len() - sealed_caller_count(old(self).callers@) && all_sealed_callers(
                final(self).callers@,
            ),
            old(self).data_key is Some ==> r is Ok,
            r matches Err(e) ==> e == ConfigError::NoEncryptionKey,
    {
        let k = match &self.data_key {
            Some(k) => k,
            None => return Err(ConfigError::NoEncryptionKey),
        };
        let ghost key = k@;
        let ghost before = self.callers@;
        let mut n: usize = 0;
        let mut i: usize = 0;
        while i < self.callers.len()
            invariant
                k@ == key,
                key.len() == KEY_LEN,
                self.data_key matches Some(kk) && kk@ == key,
                i <= self.callers@.len(),
                self.callers@.len() == before.len(),
                before == old(self).callers@,
                self.databases@ == old(self).databases@,
                self.encryptions@ == old(self).encryptions@,
                self.data_key == old(self).data_key,
                forall|j: int| i <= j < before.len() ==> self.callers@[j] == before[j],
                forall|j: int| 0 <= j < i ==> #[trigger] self.callers@[j] is Sealed,
                forall|v: Seq<CallerView>| callers_mean(before, key, v) ==> callers_mean(self.callers@, key, v),
                n + sealed_caller_count(before.take(i as int)) == i,
            decreases before.len() - i,
        {
            proof {
                assert(before.take(i + 1).drop_last() =~= before.take(i as int));
            }
            let sealed = match &self.callers[i] {
                CallerSlot::Plain(d) => Some(seal_caller(k, d)),
                CallerSlot::Sealed(_) => None,
            };
            if let Some(x) = sealed {
                let ghost prev = self.callers@;
                self.callers.set(i, CallerSlot::Sealed(x));
                n = n + 1;
                assert forall|v: Seq<CallerView>| callers_mean(before, key, v) implies callers_mean(self.callers@, key, v) by {
                    assert(caller_slot_means(prev[i as int], key, v[i as int]));
                    assert forall|j: int| 0 <= j < self.callers@.len() implies caller_slot_means(
                        #[trigger] self.callers@[j],
                        key,
                        v[j],
                    ) by {
                        if j != i {
                            assert(caller_slot_means(prev[j], key, v[j]));
                        }
                    }
                }
            }
            i = i + 1;
        }
        assert(before.take(i as int) =~= before);
        Ok(n)
    }

    /// Opens every sealed allowed caller; the store keeps standing for the same records.
    pub fn decrypt_callers(&mut self) -> (r: Result<usize, ConfigError>)
        requires
            old(self).wf(),
        ensures
            final(self).wf(),
            final(self).databases@ == old(self).databases@,
            final(self).encryptions@ == old(self).encryptions@,
            final(self).data_key == old(self).data_key,
            final(self).callers@.len() == old(self).callers@.len(),
            forall|v: Seq<CallerView>|
                callers_mean(old(self).callers@, old(self).key_view(), v) ==> callers_mean(
                    final(self).callers@,
                    final(self).key_view(),
                    v,
                ),
            forall|v: Seq<CallerView>|
                callers_mean(old(self).callers@, old(self).key_view(), v) && (old(self).data_key is Some
                    || sealed_caller_count(old(self).callers@) == 0) ==> r is Ok,
            old(self).data_key is None && sealed_caller_count(old(self).callers@) > 0 ==> r == Err::<
                usize,
                ConfigError,
            >(ConfigError::Locked),
            sealed_caller_count(old(self).callers@) == 0 ==> r == Ok::<usize, ConfigError>(0usize)
                && final(self).callers@ == old(self).callers@,
            r matches Ok(n) ==> n == sealed_caller_count(old(self).callers@) && all_plain_callers(final(self).callers@),
            r matches Err(e) ==> e == ConfigError::Locked || e == ConfigError::DecryptionFailed,
    {
        let count = self.count_encrypted_callers();
        if count == 0 {
            proof {
                lemma_caller_count_zero(self.callers@);
            }
            return Ok(0);
        }
        let k = match &self.data_key {
            Some(k) => k,
            None => return Err(ConfigError::Locked),
        };
        let ghost key = k@;
        let ghost before = self.callers@;
        let mut n: usize = 0;
        let mut i: usize = 0;
        while i < self.callers.len()
            invariant
                k@ == key,
                key.len() == KEY_LEN,
                self.data_key matches Some(kk) && kk@ == key,
                i <= self.callers@.len(),
                self.callers@.len() == before.len(),
                before == old(self).callers@,
                self.databases@ == old(self).databases@,
                self.encryptions@ == old(self).encryptions@,
                self.data_key == old(self).data_key,
                forall|j: int| i <= j < before.len() ==> self.callers@[j] == before[j],
                forall|j: int| 0 <= j < i ==> #[trigger] self.callers@[j] is Plain,
                forall|v: Seq<CallerView>| callers_mean(before, key, v) ==> callers_mean(self.callers@, key, v),
                n == sealed_caller_count(before.take(i as int)),
                n <= i,
                sealed_caller_count(before) > 0,
            decreases before.len() - i,
        {
            proof {
                assert(before.take(i + 1).drop_last() =~= before.take(i as int));
            }
            let opened = match &self.callers[i] {
                CallerSlot::Sealed(x) => match open_caller(k, x) {
                    Some(d) => Some(d),
                    None => {
                        assert forall|v: Seq<CallerView>| callers_mean(before, key, v) implies false by {
                            assert(caller_slot_means(self.callers@[i as int], key, v[i as int]));
                        }
                        return Err(ConfigError::DecryptionFailed);
                    },
                },
                CallerSlot::Plain(_) => None,
            };
            if let Some(d) = opened {
                let ghost prev = self.callers@;
                self.callers.set(i, CallerSlot::Plain(d));
                n = n + 1;
                assert forall|v: Seq<CallerView>| callers_mean(before, key, v) implies callers_mean(self.callers@, key, v) by {
                    assert(caller_slot_means(prev[i as int], key, v[i as int]));
                    assert forall|j: int| 0 <= j < self.callers@.len() implies caller_slot_means(
                        #[trigger] self.callers@[j],
                        key,
                        v[j],
                    ) by {
                        if j != i {
                            assert(caller_slot_means(prev[j], key, v[j]));
                        }
                    }
                }
            }
            i = i + 1;
        }
        assert(before.take(i as int) =~= before);
        Ok(n)
    }

}

/// Profile `i` of `c` holds the data key `k` sealed under `secret`.
pub open spec fn profile_unlocks(c: ConfigFile, i: int, secret: Seq<u8>, k: Seq<u8>) -> bool {
    &&& 0 <= i < c.encryptions@.len()
    &&& secret.len() == KEY_LEN
    &&& k.len() == KEY_LEN
    &&& blob_holds(c.encryptions@[i].wrapped_key, secret, k)
}

/// `new` is `old` with one more profile, named `name`, that wraps the data key under `secret`.
pub open spec fn profile_added(old: ConfigFile, new: ConfigFile, name: Seq<char>, secret: Seq<u8>) -> bool {
    &&& new.databases@ == old.databases@
    &&& new.callers@ == old.callers@
    &&& new.data_key is Some
    &&& old.data_key is Some ==> new.key_view() == old.key_view()
    &&& new.encryptions@.len() == old.encryptions@.len() + 1
    &&& forall|j: int| 0 <= j < old.encryptions@.len() ==> new.encryptions@[j] == old.encryptions@[j]
    &&& new.encryptions@.last().name@ == name
    &&& blob_holds(new.encryptions@.last().wrapped_key, secret, new.key_view())
}

/// `new` stands for every record that `old` stood for, with every item sealed.
pub open spec fn sealed_from(old: ConfigFile, new: ConfigFile) -> bool {
    &&& forall|dv: Seq<DatabaseView>, cv: Seq<CallerView>| old.means(dv, cv) ==> new.means(dv, cv)
    &&& all_sealed_dbs(new.databases@)
    &&& all_sealed_callers(new.callers@)
    &&& new.data_key is Some
}

/// `new` stands for every record that `old` stood for, with every item in the clear.
pub open spec fn opened_from(old: ConfigFile, new: ConfigFile) -> bool {
    &&& forall|dv: Seq<DatabaseView>, cv: Seq<CallerView>| old.means(dv, cv) ==> new.means(dv, cv)
    &&& all_plain_dbs(new.databases@)
    &&& all_plain_callers(new.callers@)
}

pub(crate) proof fn lemma_plain_key_free(c: ConfigFile, d: ConfigFile, dv: Seq<DatabaseView>, cv: Seq<CallerView>)
    requires
        c.means(dv, cv),
        d.databases@ == c.databases@,
        d.callers@ == c.callers@,
        all_plain_dbs(c.databases@),
        all_plain_callers(c.callers@),
    ensures
        d.means(dv, cv),
{
    assert forall|i: int| 0 <= i < d.databases@.len() implies db_slot_means(
        #[trigger] d.databases@[i],
        d.key_view(),
        dv[i],
    ) by {
        assert(db_slot_means(c.databases@[i], c.key_view(), dv[i]));
        assert(c.databases@[i] is Plain);
    }
    assert forall|i: int| 0 <= i < d.callers@.len() implies caller_slot_means(
        #[trigger] d.callers@[i],
        d.key_view(),
        cv[i],
    ) by {
        assert(caller_slot_means(c.callers@[i], c.key_view(), cv[i]));
        assert(c.callers@[i] is Plain);
    }
}

impl ConfigFile {
    /// Adds a database association, sealed when `encrypt` is set.
    pub fn add_database(&mut self, database: Database, encrypt: bool) -> (r: Result<(), ConfigError>)
        requires
            old(self).wf(),
        ensures
            final(self).wf(),
            final(self).callers@ == old(self).callers@,
            final(self).encryptions@ == old(self).encryptions@,
            final(self).data_key == old(self).data_key,
            !encrypt ==> r is Ok,
            encrypt && old(self).data_key is None ==> r == Err::<(), ConfigError>(ConfigError::NoEncryptionKey),
            r is Ok <==> !encrypt || old(self).data_key is Some,
            r is Err ==> final(self).databases@ == old(self).databases@,
            r matches Err(e) ==> e == ConfigError::NoEncryptionKey,
            r is Ok ==> final(self).databases@.drop_last() == old(self).databases@,
            r is Ok ==> final(self).databases@.len() == old(self).databases@.len() + 1
                && final(self).databases@.last() is Sealed == encrypt
                && forall|v: Seq<DatabaseView>| dbs_mean(old(self).databases@, old(self).key_view(), v)
                    ==> dbs_mean(final(self).databases@, final(self).key_view(), v.push(database@)),
    {
        let ghost before = self.databases@;
        let slot = if encrypt {
            let k = match &self.data_key {
                Some(k) => k,
                None => return Err(ConfigError::NoEncryptionKey),
            };
            DatabaseSlot::Sealed(seal_database(k, &database))
        } else {
            DatabaseSlot::Plain(database)
        };
        self.databases.push(slot);
        assert forall|v: Seq<DatabaseView>| dbs_mean(before, self.key_view(), v) implies dbs_mean(
            self.databases@,
            self.key_view(),
            v.push(database@),
        ) by {
            assert forall|j: int| 0 <= j < self.databases@.len() implies db_slot_means(
                #[trigger] self.databases@[j],
                self.key_view(),
                v.push(database@)[j],
            ) by {
                if j < before.len() {
                    assert(db_slot_means(before[j], self.key_view(), v[j]));
                }
            }
        }
        Ok(())
    }

    /// Adds an allowed caller, sealed when `encrypt` is set.
    pub fn add_caller(&mut self, caller: Caller, encrypt: bool) -> (r: Result<(), ConfigError>)
        requires
            old(self).wf(),
        ensures
            final(self).wf(),
            final(self).databases@ == old(self).databases@,
            final(self).encryptions@ == old(self).encryptions@,
            final(self).data_key == old(self).data_key,
            !encrypt ==> r is Ok,
            encrypt && old(self).data_key is None ==> r == Err::<(), ConfigError>(ConfigError::NoEncryptionKey),
            r is Ok <==> !encrypt || old(self).data_key is Some,
            r is Err ==> final(self).callers@ == old(self).callers@,
            r matches Err(e) ==> e == ConfigError::NoEncryptionKey,
            r is Ok ==> final(self).callers@.drop_last() == old(self).callers@,
            r is Ok ==> final(self).callers@.len() == old(self).callers@.len() + 1
                && final(self).callers@.last() is Sealed == encrypt
                && forall|v: Seq<CallerView>| callers_mean(old(self).callers@, old(self).key_view(), v)
                    ==> callers_mean(final(self).callers@, final(self).key_view(), v.push(caller@)),
    {
        let ghost before = self.callers@;
        let slot = if encrypt {
            let k = match &self.data_key {
                Some(k) => k,
                None => return Err(ConfigError::NoEncryptionKey),
            };
            CallerSlot::Sealed(seal_caller(k, &caller))
        } else {
            CallerSlot::Plain(caller)
        };
        self.callers.push(slot);
        assert forall|v: Seq<CallerView>| callers_mean(before, self.key_view(), v) implies callers_mean(
            self.callers@,
            self.key_view(),
            v.push(caller@),
        ) by {
            assert forall|j: int| 0 <= j < self.callers@.len() implies caller_slot_means(
                #[trigger] self.callers@[j],
                self.key_view(),
                v.push(caller@)[j],
            ) by {
                if j < before.len() {
                    assert(caller_slot_means(before[j], self.key_view(), v[j]));
                }
            }
        }
        Ok(())
    }

    /// Removes every allowed caller.
    pub fn clear_callers(&mut self)
        requires
            old(self).wf(),
        ensures
            final(self).wf(),
            final(self).callers@.len() == 0,
            final(self).databases@ == old(self).databases@,
            final(self).encryptions@ == old(self).encryptions@,
            final(self).data_key == old(self).data_key,
    {
        self.callers = Vec::new();
    }

    /// Registers a profile that wraps the data key under `secret`. Without a data key at hand
    /// a fresh one is made, which is refused while sealed items exist.
    pub fn add_encryption(&mut self, name: String, secret: &Vec<u8>) -> (r: Result<(), ConfigError>)
        requires
            old(self).wf(),
            secret@.len() == KEY_LEN,
        ensures
            final(self).wf(),
            (old(self).data_key is None && old(self).sealed_count() > 0) <==> r == Err::<(), ConfigError>(
                ConfigError::ConflictingProfile,
            ),
            r is Ok <==> !(old(self).data_key is None && old(self).sealed_count() > 0),
            r matches Err(e) ==> e == ConfigError::ConflictingProfile,
            r is Err ==> final(self).databases@ == old(self).databases@ && final(self).callers@
                == old(self).callers@ && final(self).encryptions@ == old(self).encryptions@
                && final(self).data_key == old(self).data_key,
            r is Ok ==> profile_added(*old(self), *final(self), name@, secret@),
    {
        let key = match &self.data_key {
            Some(k) => k.clone(),
            None => {
                if self.count_encrypted_databases() > 0 || self.count_encrypted_callers() > 0 {
                    return Err(ConfigError::ConflictingProfile);
                }
                fresh_key()
            },
        };
        assert(key@.len() == KEY_LEN);
        let wrapped = seal_bytes(secret, &key);
        self.encryptions.push(EncryptionProfile { name, wrapped_key: wrapped });
        self.data_key = Some(key);
        Ok(())
    }

    /// Unlocks the store with the secret of profile `index`.
    pub fn unlock_with(&mut self, index: usize, secret: &Vec<u8>) -> (r: bool)
        requires
            old(self).wf(),
        ensures
            final(self).wf(),
            final(self).databases@ == old(self).databases@,
            final(self).callers@ == old(self).callers@,
            final(self).encryptions@ == old(self).encryptions@,
            !r ==> final(self).data_key == old(self).data_key,
            r ==> final(self).data_key is Some,
            forall|k: Seq<u8>| profile_unlocks(*old(self), index as int, secret@, k) ==> r
                && final(self).key_view() == k,
    {
        if index >= self.encryptions.len() || secret.len() != KEY_LEN {
            return false;
        }
        match open_bytes(secret, &self.encryptions[index].wrapped_key) {
            Some(k) => {
                if k.len() == KEY_LEN {
                    self.data_key = Some(k);
                    true
                } else {
                    false
                }
            },
            None => false,
        }
    }

    /// Unlocks the store with the profiles whose secrets are at hand, in order, until one
    /// opens its wrapped key.
    pub fn unlock(&mut self, secrets: &Vec<Option<Vec<u8>>>) -> (r: bool)
        requires
            old(self).wf(),
        ensures
            final(self).wf(),
            final(self).databases@ == old(self).databases@,
            final(self).callers@ == old(self).callers@,
            final(self).encryptions@ == old(self).encryptions@,
            !r ==> final(self).data_key == old(self).data_key,
            r ==> final(self).data_key is Some,
            forall|i: int, k: Seq<u8>|
                0 <= i < secrets@.len() && secrets@[i] is Some && profile_unlocks(
                    *old(self),
                    i,
                    secrets@[i]->0@,
                    k,
                ) && (forall|j: int| 0 <= j < i ==> secrets@[j] is None) ==> r && final(self).key_view() == k,
    {
        let mut i: usize = 0;
        while i < secrets.len()
            invariant
                i <= secrets@.len(),
                self.wf(),
                self.databases@ == old(self).databases@,
                self.callers@ == old(self).callers@,
                self.encryptions@ == old(self).encryptions@,
                self.data_key == old(self).data_key,
                forall|j: int, k: Seq<u8>|
                    0 <= j < i && secrets@[j] is Some ==> !#[trigger] profile_unlocks(
                        *old(self),
                        j,
                        secrets@[j]->0@,
                        k,
                    ),
            decreases secrets@.len() - i,
        {
            if let Some(s) = &secrets[i] {
                assert(secrets@[i as int]->0@ == s@);
                let ghost before_call = *self;
                let opened = self.unlock_with(i, s);
                assert forall|k: Seq<u8>| profile_unlocks(*old(self), i as int, s@, k) implies opened
                    && self.key_view() == k by {
                    assert(profile_unlocks(before_call, i as int, s@, k));
                }
                if opened {
                    proof {
                        assert forall|i2: int, k: Seq<u8>|
                            0 <= i2 < secrets@.len() && secrets@[i2] is Some && profile_unlocks(
                                *old(self),
                                i2,
                                secrets@[i2]->0@,
                                k,
                            ) && (forall|j: int| 0 <= j < i2 ==> secrets@[j] is None) implies i2 == i by {
                            if i2 > i {
                                assert(secrets@[i as int] is None);
                            }
                        }
                    }
                    return true;
                }
            }
            i = i + 1;
        }
        false
    }

    /// Drops every profile and the data key; refused while sealed items remain.
    pub fn clear_encryptions(&mut self) -> (r: Result<(), ConfigError>)
        requires
            old(self).wf(),
        ensures
            final(self).wf(),
            old(self).sealed_count() == 0 <==> r is Ok,
            r matches Err(e) ==> e == ConfigError::EncryptedItemsRemain,
            final(self).databases@ == old(self).databases@,
            final(self).callers@ == old(self).callers@,
            r is Ok ==> final(self).encryptions@.len() == 0 && final(self).data_key is None,
            r is Err ==> final(self).encryptions@ == old(self).encryptions@ && final(self).data_key == old(self).data_key,
    {
        if self.count_encrypted_databases() > 0 || self.count_encrypted_callers() > 0 {
            return Err(ConfigError::EncryptedItemsRemain);
        }
        self.encryptions = Vec::new();
        self.data_key = None;
        Ok(())
    }
}

} // verus!
