//! Login entries returned by the password manager and the filters applied to them.
use vstd::prelude::*;
use crate::config::Database;

verus! {

/// One additional attribute of an entry.
#[derive(Clone, Debug)]
pub struct StringField {
    pub key: String,
    pub value: String,
}

/// A login entry as the password manager returns it.
#[derive(Clone, Debug)]
pub struct LoginEntry {
    pub login: String,
    pub name: String,
    pub password: String,
    pub uuid: String,
    pub group: Option<String>,
    pub expired: Option<bool>,
    pub string_fields: Option<Vec<StringField>>,
}

/// Which entries to keep besides the unexpired ones.
#[derive(Clone, Debug)]
pub struct EntryFilters {
    /// Drop entries that carry the attribute `KPH: git` set to `false`.
    pub kph: bool,
    /// Group names to keep; empty keeps every group unless `git_groups` is set.
    pub groups: Vec<String>,
    /// Also keep the groups that the configured databases were associated with.
    pub git_groups: bool,
}

pub open spec fn is_expired(e: LoginEntry) -> bool {
    e.expired == Some(true)
}

pub open spec fn kph_git_false(f: StringField) -> bool {
    f.key@ == "KPH: git"@ && f.value@ == "false"@
}

/// The entry opts out of git through its `KPH: git` attribute.
pub open spec fn opts_out(e: LoginEntry) -> bool {
    e.string_fields matches Some(fs) && exists|i: int| 0 <= i < fs@.len() && kph_git_false(#[trigger] fs@[i])
}

pub open spec fn names_contain(names: Seq<String>, g: Seq<char>) -> bool {
    exists|i: int| 0 <= i < names.len() && (#[trigger] names[i])@ == g
}

pub open spec fn db_groups_contain(dbs: Seq<Database>, g: Seq<char>) -> bool {
    exists|i: int| 0 <= i < dbs.len() && (#[trigger] dbs[i]).group@ == g
}

/// The entry's group passes the group filter; entries without group information pass.
pub open spec fn group_passes(e: LoginEntry, groups: Seq<String>, git_groups: bool, dbs: Seq<Database>) -> bool {
    match e.group {
        None => true,
        Some(g) => if !git_groups {
            groups.len() == 0 || names_contain(groups, g@)
        } else {
            names_contain(groups, g@) || db_groups_contain(dbs, g@)
        },
    }
}

/// The entry survives every filter.
pub open spec fn kept(e: LoginEntry, f: EntryFilters, dbs: Seq<Database>) -> bool {
    &&& !is_expired(e)
    &&& f.kph ==> !opts_out(e)
    &&& group_passes(e, f.groups@, f.git_groups, dbs)
}

/// The entries of `s` that survive, in their order.
pub open spec fn kept_entries(s: Seq<LoginEntry>, f: EntryFilters, dbs: Seq<Database>) -> Seq<LoginEntry>
    decreases s.len(),
{
    if s.len() == 0 {
        s
    } else {
        let rest = kept_entries(s.drop_last(), f, dbs);
        if kept(s.last(), f, dbs) {
            rest.push(s.last())
        } else {
            rest
        }
    }
}

/// True unless the entry opts out of git through its `KPH: git` attribute.
pub fn filter_kph(login_entry: &LoginEntry) -> (r: bool)
    ensures
        r == !opts_out(*login_entry),
{
    match &login_entry.string_fields {
        None => true,
        Some(fields) => {
            let key = String::from_str("KPH: git");
            let no = String::from_str("false");
            let mut i: usize = 0;
            while i < fields.len()
                invariant
                    i <= fields@.len(),
                    login_entry.string_fields == Some(*fields),
                    key@ == "KPH: git"@,
                    no@ == "false"@,
                    forall|j: int| 0 <= j < i ==> !kph_git_false(#[trigger] fields@[j]),
                decreases fields@.len() - i,
            {
                let same_key = fields[i].key == key;
                let same_value = fields[i].value == no;
                if same_key && same_value {
                    assert(kph_git_false(fields@[i as int]));
                    assert(exists|j: int| 0 <= j < fields@.len() && kph_git_false(#[trigger] fields@[j]));
                    assert(login_entry.string_fields->0@ == fields@);
                    return false;
                }
                i = i + 1;
            }
            true
        },
    }
}

fn contains_name(names: &Vec<String>, g: &String) -> (r: bool)
    ensures
        r == names_contain(names@, g@),
{
    let mut i: usize = 0;
    while i < names.len()
        invariant
            i <= names@.len(),
            forall|j: int| 0 <= j < i ==> (#[trigger] names@[j])@ != g@,
        decreases names@.len() - i,
    {
        if names[i] == *g {
            return true;
        }
        i = i + 1;
    }
    false
}

fn in_db_groups(databases: &Vec<Database>, g: &String) -> (r: bool)
    ensures
        r == db_groups_contain(databases@, g@),
{
    let mut i: usize = 0;
    while i < databases.len()
        invariant
            i <= databases@.len(),
            forall|j: int| 0 <= j < i ==> (#[trigger] databases@[j]).group@ != g@,
        decreases databases@.len() - i,
    {
        if databases[i].group == *g {
            return true;
        }
        i = i + 1;
    }
    false
}

/// Whether the entry's group passes the group filter.
pub fn filter_group(login_entry: &LoginEntry, groups: &Vec<String>, git_groups: bool, databases: &Vec<Database>) -> (r: bool)
    ensures
        r == group_passes(*login_entry, groups@, git_groups, databases@),
{
    match &login_entry.group {
        None => true,
        Some(g) => {
            if !git_groups {
                groups.len() == 0 || contains_name(groups, g)
            } else {
                contains_name(groups, g) || in_db_groups(databases, g)
            }
        },
    }
}

/// Drops expired entries and those that the filters reject, keeping the order.
pub fn get_logins_for(entries: Vec<LoginEntry>, filters: &EntryFilters, databases: &Vec<Database>) -> (r: Vec<LoginEntry>)
    ensures
        r@ == kept_entries(entries@, *filters, databases@),
{
    let ghost all = entries@;
    let n = entries.len();
    let mut rest = entries;
    let mut out: Vec<LoginEntry> = Vec::new();
    let mut i: usize = 0;
    while rest.len() > 0
        invariant
            i <= all.len(),
            all.len() == n,
            rest@ == all.subrange(i as int, all.len() as int),
            out@ == kept_entries(all.take(i as int), *filters, databases@),
        decreases rest@.len(),
    {
        let e = rest.remove(0);
        assert(all.take(i + 1).drop_last() =~= all.take(i as int));
        assert(e == all[i as int]);
        let expired = match e.expired {
            Some(x) => x,
            None => false,
        };
        if !expired && (!filters.kph || filter_kph(&e)) && filter_group(&e, &filters.groups, filters.git_groups, databases) {
            out.push(e);
        }
        assert(rest@ =~= all.subrange(i + 1, all.len() as int));
        i = i + 1;
    }
    assert(all.take(i as int) =~= all);
    out
}

/// Index of the entry to answer with: when several remain and git named a user, the first
/// entry with that login if there is one; otherwise the first entry.
pub fn pick_login(entries: &Vec<LoginEntry>, username: &Option<String>) -> (r: Option<usize>)
    ensures
        entries@.len() == 0 <==> r is None,
        entries@.len() > 0 && (entries@.len() == 1 || username is None || !(exists|i: int|
            0 <= i < entries@.len() && (#[trigger] entries@[i]).login@ == username->0@)) ==> r == Some(0usize),
        entries@.len() > 1 && username is Some && (exists|i: int|
            0 <= i < entries@.len() && (#[trigger] entries@[i]).login@ == username->0@) ==> r is Some && ({
            let f = r->0 as int;
            &&& 0 <= f < entries@.len()
            &&& entries@[f].login@ == username->0@
            &&& forall|j: int| 0 <= j < f ==> (#[trigger] entries@[j]).login@ != username->0@
        }),
{
    if entries.len() == 0 {
        return None;
    }
    if entries.len() > 1 {
        if let Some(u) = username {
            let mut i: usize = 0;
            while i < entries.len()
                invariant
                    i <= entries@.len(),
                    username == Some(*u),
                    forall|j: int| 0 <= j < i ==> (#[trigger] entries@[j]).login@ != u@,
                decreases entries@.len() - i,
            {
                if entries[i].login == *u {
                    return Some(i);
                }
                i = i + 1;
            }
        }
    }
    Some(0)
}

/// An expired entry never survives; an entry that opts out of git survives the KPH filter
/// only while it is off, other filters passing; with no group names and without the
/// database groups every entry passes the group filter.
pub proof fn lemma_entry_filters(e: LoginEntry, f: EntryFilters, dbs: Seq<Database>)
    ensures
        is_expired(e) ==> !kept(e, f, dbs),
        opts_out(e) && f.kph ==> !kept(e, f, dbs),
        opts_out(e) && !f.kph && !is_expired(e) && group_passes(e, f.groups@, f.git_groups, dbs) ==> kept(e, f, dbs),
        f.groups@.len() == 0 && !f.git_groups ==> group_passes(e, f.groups@, f.git_groups, dbs),
{
}

} // verus!
