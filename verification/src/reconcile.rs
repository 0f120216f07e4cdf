//! The reconciliation engine.
//!
//! A build combines the scanner's view of the filesystem with the archive's
//! entry listing and computes the minimal set of create, update and remove
//! operations. Every relative path falls in exactly one class: stale (in the
//! archive, not on disk), unchanged (in both, fingerprints equal), modified
//! (in both, fingerprints differ) or new (on disk only); the container's
//! special metadata entries are never touched. The driver around the library
//! applies the computed plan to the archive store in order.

use vstd::prelude::*;
use vstd::map::*;
use crate::names::{
    is_special, is_special_name, str_eq, decoded_name, name_from_buffer, fingerprint_from_parts,
};
use crate::scan::FileSet;

verus! {

/// One entry of the archive's listing: its name and the modification time it
/// was written with.
pub struct ArchiveEntry {
    pub name: String,
    pub fingerprint: u64,
}

impl ArchiveEntry {
    /// An entry as an archive search reports it: the raw name buffer and the
    /// two stored halves of the fingerprint.
    pub fn from_raw(buf: &Vec<u8>, high: u32, low: u32) -> (e: ArchiveEntry)
        ensures
            e.name@ == decoded_name(buf@),
            e.fingerprint == (high as u64) * 0x1_0000_0000 + (low as u64),
    {
        ArchiveEntry { name: name_from_buffer(buf), fingerprint: fingerprint_from_parts(high, low) }
    }
}

/// Whether the listing holds an entry of this name.
pub open spec fn listing_contains(entries: Seq<ArchiveEntry>, n: Seq<char>) -> bool {
    exists|i: int| 0 <= i < entries.len() && entries[i].name@ == n
}

/// The index of the listing entry carrying this name.
pub open spec fn entry_index_of(entries: Seq<ArchiveEntry>, n: Seq<char>) -> int {
    choose|i: int| 0 <= i < entries.len() && entries[i].name@ == n
}

/// The fingerprint the listing holds under this name.
pub open spec fn listing_fp(entries: Seq<ArchiveEntry>, n: Seq<char>) -> u64 {
    entries[entry_index_of(entries, n)].fingerprint
}

/// A container keys its entries by name: each name occurs once.
pub open spec fn unique_listing(entries: Seq<ArchiveEntry>) -> bool {
    forall|i: int, j: int| 0 <= i < j < entries.len() ==> entries[i].name@ != entries[j].name@
}

/// The listing read as a mapping from entry name to fingerprint.
pub open spec fn listing_map(entries: Seq<ArchiveEntry>) -> Map<Seq<char>, u64> {
    Map::new(|n: Seq<char>| listing_contains(entries, n), |n: Seq<char>| listing_fp(entries, n))
}

/// In a unique listing, the entry found at an index is the one the name
/// functions yield.
pub proof fn lemma_listing_at_index(entries: Seq<ArchiveEntry>, i: int)
    requires
        unique_listing(entries),
        0 <= i < entries.len(),
    ensures
        listing_contains(entries, entries[i].name@),
        entry_index_of(entries, entries[i].name@) == i,
        listing_fp(entries, entries[i].name@) == entries[i].fingerprint,
{
    let n = entries[i].name@;
    assert(listing_contains(entries, n));
    let k = entry_index_of(entries, n);
    if k != i {
        if k < i {
            assert(entries[k].name@ != entries[i].name@);
        } else {
            assert(entries[i].name@ != entries[k].name@);
        }
    }
}

/// The class an archive entry falls in during a build.
#[derive(Clone, Copy, PartialEq, Eq, Structural, Debug)]
pub enum EntryClass {
    /// A container metadata entry; never touched.
    Special,
    /// In the archive but not on disk; to be removed.
    Stale,
    /// In both, fingerprints equal; to be skipped.
    Unchanged,
    /// In both, fingerprints differ; to be removed and recreated.
    Modified,
}

/// Which class one archive entry falls in, against the scanned files.
pub fn classify_entry(files: &FileSet, name: &str, fingerprint: u64) -> (c: EntryClass)
    requires
        files.wf(),
    ensures
        (c == EntryClass::Special) == is_special(name@),
        (c == EntryClass::Stale) == (!is_special(name@) && !files.contains_name(name@)),
        (c == EntryClass::Unchanged) == (!is_special(name@) && files.contains_name(name@)
            && files.mtime_at(name@) == fingerprint),
        (c == EntryClass::Modified) == (!is_special(name@) && files.contains_name(name@)
            && files.mtime_at(name@) != fingerprint),
{
    if is_special_name(name) {
        return EntryClass::Special;
    }
    match files.find_index(name) {
        None => EntryClass::Stale,
        Some(i) => {
            proof {
                files.lemma_record_at_index(i as int);
            }
            if files.records[i].mtime == fingerprint {
                EntryClass::Unchanged
            } else {
                EntryClass::Modified
            }
        },
    }
}

/// One operation of a build plan, applied to the archive store in order. An
/// update removes the old entry and writes the file's current bytes; an
/// addition writes a new entry. Both carry the walked path whose bytes are
/// read and the modification time written as the fingerprint; the store
/// compresses with its one fixed scheme.
#[derive(Debug)]
pub enum Action {
    /// Drop the named entry.
    Remove { name: String },
    /// Replace the named entry with the file's current bytes and time.
    Update { name: String, path: String, mtime: u64 },
    /// Write a new entry from the file's bytes and time.
    Add { name: String, path: String, mtime: u64 },
}

/// The archive name an action touches.
pub open spec fn action_name(a: Action) -> Seq<char> {
    match a {
        Action::Remove { name } => name@,
        Action::Update { name, path, mtime } => name@,
        Action::Add { name, path, mtime } => name@,
    }
}

/// The listing after one action: a removal drops the name, a write sets its
/// fingerprint to the file's modification time.
pub open spec fn apply_action(m: Map<Seq<char>, u64>, a: Action) -> Map<Seq<char>, u64> {
    match a {
        Action::Remove { name } => m.remove(name@),
        Action::Update { name, path, mtime } => m.insert(name@, mtime),
        Action::Add { name, path, mtime } => m.insert(name@, mtime),
    }
}

/// The listing after a whole plan, applied in order.
pub open spec fn apply_plan(m: Map<Seq<char>, u64>, plan: Seq<Action>) -> Map<Seq<char>, u64>
    decreases plan.len(),
{
    if plan.len() == 0 {
        m
    } else {
        apply_plan(apply_action(m, plan[0]), plan.drop_first())
    }
}

/// What the archive must list after a build: the container's own metadata
/// entries as they were, and exactly the scanned files, each under its
/// archive name with its modification time as fingerprint.
pub open spec fn synced_map(files: FileSet, entries: Seq<ArchiveEntry>) -> Map<Seq<char>, u64> {
    Map::new(
        |n: Seq<char>|
            if is_special(n) {
                listing_contains(entries, n)
            } else {
                files.contains_name(n)
            },
        |n: Seq<char>|
            if is_special(n) {
                listing_fp(entries, n)
            } else {
                files.mtime_at(n)
            },
    )
}

/// Whether an entry requires work: it is no metadata entry and is stale or
/// modified.
pub open spec fn needs_entry_action(files: FileSet, e: ArchiveEntry) -> bool {
    !is_special(e.name@) && (!files.contains_name(e.name@) || files.mtime_at(e.name@)
        != e.fingerprint)
}

/// What one action of a valid plan may do: remove exactly a stale entry,
/// update exactly a modified entry, add exactly a new file; never touch a
/// metadata entry, and always carry the recorded path and time.
pub open spec fn action_ok(files: FileSet, entries: Seq<ArchiveEntry>, a: Action) -> bool {
    match a {
        Action::Remove { name } => {
            &&& !is_special(name@)
            &&& listing_contains(entries, name@)
            &&& !files.contains_name(name@)
        },
        Action::Update { name, path, mtime } => {
            &&& !is_special(name@)
            &&& listing_contains(entries, name@)
            &&& files.contains_name(name@)
            &&& path@ == files.path_at(name@)
            &&& mtime == files.mtime_at(name@)
            &&& listing_fp(entries, name@) != mtime
        },
        Action::Add { name, path, mtime } => {
            &&& !is_special(name@)
            &&& !listing_contains(entries, name@)
            &&& files.contains_name(name@)
            &&& path@ == files.path_at(name@)
            &&& mtime == files.mtime_at(name@)
        },
    }
}

/// Whether some action of the plan touches this name.
pub open spec fn plan_touches(plan: Seq<Action>, n: Seq<char>) -> bool {
    exists|j: int| 0 <= j < plan.len() && action_name(plan[j]) == n
}

/// A valid build plan: every action does one piece of owed work, no name is
/// touched twice, and every stale entry, modified entry and new file is
/// covered.
pub open spec fn plan_ok(files: FileSet, entries: Seq<ArchiveEntry>, plan: Seq<Action>) -> bool {
    &&& forall|j: int| 0 <= j < plan.len() ==> action_ok(files, entries, #[trigger] plan[j])
    &&& forall|j1: int, j2: int|
        0 <= j1 < j2 < plan.len() ==> action_name(plan[j1]) != action_name(plan[j2])
    &&& forall|k: int|
        0 <= k < entries.len() && needs_entry_action(files, #[trigger] entries[k])
            ==> plan_touches(plan, entries[k].name@)
    &&& forall|n: Seq<char>|
        #![trigger files.contains_name(n), listing_contains(entries, n)]
        !is_special(n) && files.contains_name(n) && !listing_contains(entries, n)
            ==> plan_touches(plan, n)
}

/// The index of the listing entry carrying this name, if any.
pub fn listing_find(entries: &Vec<ArchiveEntry>, name: &str) -> (r: Option<usize>)
    ensures
        match r {
            Some(i) => i < entries@.len() && entries@[i as int].name@ == name@
                && listing_contains(entries@, name@),
            None => !listing_contains(entries@, name@),
        },
{
    let mut i: usize = 0;
    let len: usize = entries.len();
    while i < len
        invariant
            i <= len,
            len == entries@.len(),
            forall|j: int| 0 <= j < i ==> entries@[j].name@ != name@,
        decreases len - i,
    {
        if str_eq(entries[i].name.as_str(), name) {
            return Some(i);
        }
        i = i + 1;
    }
    None
}

/// Appending one more action for an untouched entry name keeps a growing
/// plan valid.
proof fn lemma_plan_push(
    files: FileSet,
    entries: Seq<ArchiveEntry>,
    prev: Seq<Action>,
    a: Action,
    i: int,
)
    requires
        unique_listing(entries),
        0 <= i < entries.len(),
        action_name(a) == entries[i].name@,
        action_ok(files, entries, a),
        forall|j: int| 0 <= j < prev.len() ==> action_ok(files, entries, #[trigger] prev[j]),
        forall|j: int|
            0 <= j < prev.len() ==> listing_contains(entries, action_name(#[trigger] prev[j]))
                && entry_index_of(entries, action_name(prev[j])) < i,
        forall|j1: int, j2: int|
            0 <= j1 < j2 < prev.len() ==> action_name(prev[j1]) != action_name(prev[j2]),
        !(a is Add),
        forall|j: int| 0 <= j < prev.len() ==> !((#[trigger] prev[j]) is Add),
    ensures
        forall|j: int|
            0 <= j < prev.push(a).len() ==> action_ok(files, entries, #[trigger] prev.push(a)[j]),
        forall|j: int|
            0 <= j < prev.push(a).len() ==> listing_contains(
                entries,
                action_name(#[trigger] prev.push(a)[j]),
            ) && entry_index_of(entries, action_name(prev.push(a)[j])) < i + 1,
        forall|j: int| 0 <= j < prev.push(a).len() ==> !((#[trigger] prev.push(a)[j]) is Add),
        forall|j1: int, j2: int|
            0 <= j1 < j2 < prev.push(a).len() ==> action_name(prev.push(a)[j1]) != action_name(
                prev.push(a)[j2],
            ),
        plan_touches(prev.push(a), entries[i].name@),
        forall|n: Seq<char>| plan_touches(prev, n) ==> plan_touches(prev.push(a), n),
{
    let cur = prev.push(a);
    let li = prev.len() as int;
    assert(cur[li] == a);
    lemma_listing_at_index(entries, i);
    assert forall|j: int| 0 <= j < cur.len() implies !((#[trigger] cur[j]) is Add) by {
        if j < li {
            assert(cur[j] == prev[j]);
        }
    }
    assert forall|j: int| 0 <= j < cur.len() implies action_ok(files, entries, #[trigger] cur[j]) by {
        if j < li {
            assert(cur[j] == prev[j]);
        }
    }
    assert forall|j: int|
        0 <= j < cur.len() implies listing_contains(entries, action_name(#[trigger] cur[j]))
            && entry_index_of(entries, action_name(cur[j])) < i + 1 by {
        if j < li {
            assert(cur[j] == prev[j]);
        }
    }
    assert forall|j1: int, j2: int|
        0 <= j1 < j2 < cur.len() implies action_name(cur[j1]) != action_name(cur[j2]) by {
        if j2 < li {
            assert(cur[j1] == prev[j1] && cur[j2] == prev[j2]);
        } else {
            assert(cur[j1] == prev[j1]);
            if action_name(prev[j1]) == action_name(a) {
                assert(entry_index_of(entries, action_name(prev[j1])) < i);
                assert(entry_index_of(entries, action_name(a)) == i);
            }
        }
    }
    assert(plan_touches(cur, entries[i].name@));
    assert forall|n: Seq<char>| plan_touches(prev, n) implies plan_touches(cur, n) by {
        let j = choose|j: int| 0 <= j < prev.len() && action_name(prev[j]) == n;
        assert(cur[j] == prev[j]);
        assert(0 <= j < cur.len() && action_name(cur[j]) == n);
    }
}

/// The build plan: classify every listing entry against the scanned files,
/// removing stale entries and replacing modified ones, then add every file
/// the listing does not know. The plan, applied in order, brings the listing
/// exactly to the scanned files, the container's metadata entries apart.
pub fn plan_build(files: &FileSet, entries: &Vec<ArchiveEntry>) -> (plan: Vec<Action>)
    requires
        files.wf(),
        unique_listing(entries@),
    ensures
        plan_ok(*files, entries@, plan@),
        apply_plan(listing_map(entries@), plan@) == synced_map(*files, entries@),
{
    let mut plan: Vec<Action> = Vec::new();
    let n_entries: usize = entries.len();
    let mut i: usize = 0;
    while i < n_entries
        invariant
            i <= n_entries,
            n_entries == entries@.len(),
            files.wf(),
            unique_listing(entries@),
            forall|j: int|
                0 <= j < plan@.len() ==> action_ok(*files, entries@, #[trigger] plan@[j]),
            forall|j: int|
                0 <= j < plan@.len() ==> listing_contains(
                    entries@,
                    action_name(#[trigger] plan@[j]),
                ) && entry_index_of(entries@, action_name(plan@[j])) < i,
            forall|j1: int, j2: int|
                0 <= j1 < j2 < plan@.len() ==> action_name(plan@[j1]) != action_name(plan@[j2]),
            forall|k: int|
                0 <= k < i && needs_entry_action(*files, #[trigger] entries@[k]) ==> plan_touches(
                    plan@,
                    entries@[k].name@,
                ),
            forall|j: int| 0 <= j < plan@.len() ==> !((#[trigger] plan@[j]) is Add),
        decreases n_entries - i,
    {
        let e = &entries[i];
        proof {
            lemma_listing_at_index(entries@, i as int);
        }
        let c = classify_entry(files, e.name.as_str(), e.fingerprint);
        let ghost prev = plan@;
        match c {
            EntryClass::Special => {},
            EntryClass::Unchanged => {},
            EntryClass::Stale => {
                let a = Action::Remove { name: e.name.clone() };
                proof {
                    lemma_plan_push(*files, entries@, prev, a, i as int);
                }
                plan.push(a);
            },
            EntryClass::Modified => {
                match files.find_index(e.name.as_str()) {
                    Some(idx) => {
                        proof {
                            files.lemma_record_at_index(idx as int);
                        }
                        let a = Action::Update {
                            name: e.name.clone(),
                            path: files.records[idx].path.clone(),
                            mtime: files.records[idx].mtime,
                        };
                        proof {
                            lemma_plan_push(*files, entries@, prev, a, i as int);
                        }
                        plan.push(a);
                    },
                    None => {
                        proof {
                            assert(false);
                        }
                    },
                }
            },
        }
        i = i + 1;
    }
    let n_records: usize = files.records.len();
    let mut r: usize = 0;
    while r < n_records
        invariant
            r <= n_records,
            n_records == files.records@.len(),
            files.wf(),
            unique_listing(entries@),
            forall|j: int|
                0 <= j < plan@.len() ==> action_ok(*files, entries@, #[trigger] plan@[j]),
            forall|j1: int, j2: int|
                0 <= j1 < j2 < plan@.len() ==> action_name(plan@[j1]) != action_name(plan@[j2]),
            forall|k: int|
                0 <= k < entries@.len() && needs_entry_action(*files, #[trigger] entries@[k])
                    ==> plan_touches(plan@, entries@[k].name@),
            forall|j: int|
                0 <= j < plan@.len() && (#[trigger] plan@[j]) is Add ==> files.contains_name(
                    action_name(plan@[j]),
                ) && files.name_index(action_name(plan@[j])) < r,
            forall|k: int|
                0 <= k < r && !is_special((#[trigger] files.records@[k]).name@)
                    && !listing_contains(entries@, files.records@[k].name@) ==> plan_touches(
                    plan@,
                    files.records@[k].name@,
                ),
        decreases n_records - r,
    {
        proof {
            files.lemma_record_at_index(r as int);
        }
        let rec_name_special = is_special_name(files.records[r].name.as_str());
        let mut skip = rec_name_special;
        if !skip {
            match listing_find(entries, files.records[r].name.as_str()) {
                Some(_) => {
                    skip = true;
                },
                None => {},
            }
        }
        let ghost prev = plan@;
        if !skip {
            let a = Action::Add {
                name: files.records[r].name.clone(),
                path: files.records[r].path.clone(),
                mtime: files.records[r].mtime,
            };
            proof {
                lemma_add_push(*files, entries@, prev, a, r as int);
            }
            plan.push(a);
        }
        r = r + 1;
    }
    proof {
        assert forall|n: Seq<char>|
            !is_special(n) && files.contains_name(n) && !listing_contains(entries@, n)
                implies plan_touches(plan@, n) by {
            let k = choose|k: int|
                0 <= k < files.records@.len() && files.records@[k].name@ == n;
        }
        lemma_plan_sync(*files, entries@, plan@);
    }
    plan
}

/// Appending the addition of one more new file keeps a growing plan valid.
proof fn lemma_add_push(
    files: FileSet,
    entries: Seq<ArchiveEntry>,
    prev: Seq<Action>,
    a: Action,
    r: int,
)
    requires
        files.wf(),
        unique_listing(entries),
        0 <= r < files.records@.len(),
        a is Add,
        action_name(a) == files.records@[r].name@,
        action_ok(files, entries, a),
        forall|j: int| 0 <= j < prev.len() ==> action_ok(files, entries, #[trigger] prev[j]),
        forall|j1: int, j2: int|
            0 <= j1 < j2 < prev.len() ==> action_name(prev[j1]) != action_name(prev[j2]),
        forall|j: int|
            0 <= j < prev.len() && (#[trigger] prev[j]) is Add ==> files.contains_name(
                action_name(prev[j]),
            ) && files.name_index(action_name(prev[j])) < r,
    ensures
        forall|j: int|
            0 <= j < prev.push(a).len() ==> action_ok(files, entries, #[trigger] prev.push(a)[j]),
        forall|j1: int, j2: int|
            0 <= j1 < j2 < prev.push(a).len() ==> action_name(prev.push(a)[j1]) != action_name(
                prev.push(a)[j2],
            ),
        forall|j: int|
            0 <= j < prev.push(a).len() && (#[trigger] prev.push(a)[j]) is Add
                ==> files.contains_name(action_name(prev.push(a)[j])) && files.name_index(
                action_name(prev.push(a)[j]),
            ) < r + 1,
        plan_touches(prev.push(a), files.records@[r].name@),
        forall|n: Seq<char>| plan_touches(prev, n) ==> plan_touches(prev.push(a), n),
{
    let cur = prev.push(a);
    let li = prev.len() as int;
    assert(cur[li] == a);
    files.lemma_record_at_index(r);
    assert forall|j: int| 0 <= j < cur.len() implies action_ok(files, entries, #[trigger] cur[j]) by {
        if j < li {
            assert(cur[j] == prev[j]);
        }
    }
    assert forall|j1: int, j2: int|
        0 <= j1 < j2 < cur.len() implies action_name(cur[j1]) != action_name(cur[j2]) by {
        if j2 < li {
            assert(cur[j1] == prev[j1] && cur[j2] == prev[j2]);
        } else {
            assert(cur[j1] == prev[j1]);
            if action_name(prev[j1]) == action_name(a) {
                assert(action_ok(files, entries, prev[j1]));
                if prev[j1] is Add {
                    assert(files.name_index(action_name(prev[j1])) < r);
                    assert(files.name_index(action_name(a)) == r);
                } else {
                    assert(listing_contains(entries, action_name(prev[j1])));
                }
            }
        }
    }
    assert forall|j: int|
        0 <= j < cur.len() && (#[trigger] cur[j]) is Add implies files.contains_name(
            action_name(cur[j]),
        ) && files.name_index(action_name(cur[j])) < r + 1 by {
        if j < li {
            assert(cur[j] == prev[j]);
        }
    }
    assert(plan_touches(cur, files.records@[r].name@));
    assert forall|n: Seq<char>| plan_touches(prev, n) implies plan_touches(cur, n) by {
        let j = choose|j: int| 0 <= j < prev.len() && action_name(prev[j]) == n;
        assert(cur[j] == prev[j]);
        assert(0 <= j < cur.len() && action_name(cur[j]) == n);
    }
}

/// The action of the plan that touches this name.
pub open spec fn plan_action_at(plan: Seq<Action>, n: Seq<char>) -> Action {
    plan[choose|j: int| 0 <= j < plan.len() && action_name(plan[j]) == n]
}

/// Name-distinct plans: the listing after the plan holds, at each name, what
/// the one action touching it wrote, and is untouched elsewhere.
pub proof fn lemma_apply_plan_at(m: Map<Seq<char>, u64>, plan: Seq<Action>, n: Seq<char>)
    requires
        forall|j1: int, j2: int|
            0 <= j1 < j2 < plan.len() ==> action_name(plan[j1]) != action_name(plan[j2]),
    ensures
        plan_touches(plan, n) ==> match plan_action_at(plan, n) {
            Action::Remove { name } => !apply_plan(m, plan).dom().contains(n),
            Action::Update { name, path, mtime } => apply_plan(m, plan).dom().contains(n)
                && apply_plan(m, plan)[n] == mtime,
            Action::Add { name, path, mtime } => apply_plan(m, plan).dom().contains(n)
                && apply_plan(m, plan)[n] == mtime,
        },
        !plan_touches(plan, n) ==> apply_plan(m, plan).dom().contains(n) == m.dom().contains(n)
            && (m.dom().contains(n) ==> apply_plan(m, plan)[n] == m[n]),
    decreases plan.len(),
{
    if plan.len() == 0 {
    } else {
        let a = plan[0];
        let m1 = apply_action(m, a);
        let rest = plan.drop_first();
        assert(forall|j: int| 0 <= j < rest.len() ==> rest[j] == plan[j + 1]);
        lemma_apply_plan_at(m1, rest, n);
        if action_name(a) == n {
            assert(plan_touches(plan, n));
            assert(plan_action_at(plan, n) == a) by {
                let j = choose|j: int| 0 <= j < plan.len() && action_name(plan[j]) == n;
                if j != 0 {
                    assert(action_name(plan[0]) != action_name(plan[j]));
                }
            }
            assert(!plan_touches(rest, n)) by {
                if plan_touches(rest, n) {
                    let j = choose|j: int| 0 <= j < rest.len() && action_name(rest[j]) == n;
                    assert(action_name(plan[0]) != action_name(plan[j + 1]));
                }
            }
        } else {
            if plan_touches(plan, n) {
                let j = choose|j: int| 0 <= j < plan.len() && action_name(plan[j]) == n;
                assert(j != 0);
                assert(action_name(rest[j - 1]) == n);
                assert(plan_touches(rest, n));
                assert(plan_action_at(rest, n) == plan_action_at(plan, n)) by {
                    let k = choose|k: int| 0 <= k < rest.len() && action_name(rest[k]) == n;
                    let k2 = choose|k2: int| 0 <= k2 < plan.len() && action_name(plan[k2]) == n;
                    assert(rest[k] == plan[k + 1]);
                    if k2 != k + 1 {
                        if k2 < k + 1 {
                            assert(action_name(plan[k2]) != action_name(plan[k + 1]));
                        } else {
                            assert(action_name(plan[k + 1]) != action_name(plan[k2]));
                        }
                    }
                }
            } else {
                assert(!plan_touches(rest, n)) by {
                    if plan_touches(rest, n) {
                        let j = choose|j: int| 0 <= j < rest.len() && action_name(rest[j]) == n;
                        assert(action_name(plan[j + 1]) == n);
                        assert(plan_touches(plan, n));
                    }
                }
                assert(m1.dom().contains(n) == m.dom().contains(n));
                assert(m.dom().contains(n) ==> m1[n] == m[n]);
            }
        }
    }
}

/// A valid plan brings the listing exactly to the scanned files: applied in
/// order, the archive lists the metadata entries untouched and one entry per
/// scanned file, fingerprinted with its modification time.
pub proof fn lemma_plan_sync(files: FileSet, entries: Seq<ArchiveEntry>, plan: Seq<Action>)
    requires
        files.wf(),
        unique_listing(entries),
        plan_ok(files, entries, plan),
    ensures
        apply_plan(listing_map(entries), plan) == synced_map(files, entries),
{
    let result = apply_plan(listing_map(entries), plan);
    let goal = synced_map(files, entries);
    assert_maps_equal!(result, goal, n => {
        lemma_plan_sync_at(files, entries, plan, n);
    });
}

/// Pointwise form of the synchronization theorem, for one name.
proof fn lemma_plan_sync_at(
    files: FileSet,
    entries: Seq<ArchiveEntry>,
    plan: Seq<Action>,
    n: Seq<char>,
)
    requires
        files.wf(),
        unique_listing(entries),
        plan_ok(files, entries, plan),
    ensures
        apply_plan(listing_map(entries), plan).dom().contains(n) == synced_map(
            files,
            entries,
        ).dom().contains(n),
        synced_map(files, entries).dom().contains(n) ==> apply_plan(listing_map(entries), plan)[n]
            == synced_map(files, entries)[n],
{
    let e0 = listing_map(entries);
    let result = apply_plan(e0, plan);
    let goal = synced_map(files, entries);
    {
        lemma_apply_plan_at(e0, plan, n);
        if is_special(n) {
            assert(!plan_touches(plan, n)) by {
                if plan_touches(plan, n) {
                    let j = choose|j: int| 0 <= j < plan.len() && action_name(plan[j]) == n;
                    assert(action_ok(files, entries, plan[j]));
                }
            }
        } else {
            if files.contains_name(n) {
                if listing_contains(entries, n) {
                    let i = choose|i: int| 0 <= i < entries.len() && entries[i].name@ == n;
                    lemma_listing_at_index(entries, i);
                    if files.mtime_at(n) == entries[i].fingerprint {
                        assert(!plan_touches(plan, n)) by {
                            if plan_touches(plan, n) {
                                let j = choose|j: int|
                                    0 <= j < plan.len() && action_name(plan[j]) == n;
                                assert(action_ok(files, entries, plan[j]));
                            }
                        }
                        assert(e0.dom().contains(n) && e0[n] == entries[i].fingerprint);
                    } else {
                        assert(needs_entry_action(files, entries[i]));
                        assert(plan_touches(plan, n));
                        let j = choose|j: int| 0 <= j < plan.len() && action_name(plan[j]) == n;
                        assert(action_ok(files, entries, plan[j]));
                        assert(plan_action_at(plan, n) == plan[j]) by {
                            let k = choose|k: int|
                                0 <= k < plan.len() && action_name(plan[k]) == n;
                            if k != j {
                                if k < j {
                                    assert(action_name(plan[k]) != action_name(plan[j]));
                                } else {
                                    assert(action_name(plan[j]) != action_name(plan[k]));
                                }
                            }
                        }
                    }
                } else {
                    assert(plan_touches(plan, n));
                    let j = choose|j: int| 0 <= j < plan.len() && action_name(plan[j]) == n;
                    assert(action_ok(files, entries, plan[j]));
                    assert(plan_action_at(plan, n) == plan[j]) by {
                        let k = choose|k: int| 0 <= k < plan.len() && action_name(plan[k]) == n;
                        if k != j {
                            if k < j {
                                assert(action_name(plan[k]) != action_name(plan[j]));
                            } else {
                                assert(action_name(plan[j]) != action_name(plan[k]));
                            }
                        }
                    }
                }
            } else {
                if listing_contains(entries, n) {
                    let i = choose|i: int| 0 <= i < entries.len() && entries[i].name@ == n;
                    assert(needs_entry_action(files, entries[i]));
                    assert(plan_touches(plan, n));
                    let j = choose|j: int| 0 <= j < plan.len() && action_name(plan[j]) == n;
                    assert(action_ok(files, entries, plan[j]));
                    assert(plan_action_at(plan, n) == plan[j]) by {
                        let k = choose|k: int| 0 <= k < plan.len() && action_name(plan[k]) == n;
                        if k != j {
                            if k < j {
                                assert(action_name(plan[k]) != action_name(plan[j]));
                            } else {
                                assert(action_name(plan[j]) != action_name(plan[k]));
                            }
                        }
                    }
                    assert(plan[j] is Remove);
                } else {
                    assert(!plan_touches(plan, n)) by {
                        if plan_touches(plan, n) {
                            let j = choose|j: int|
                                0 <= j < plan.len() && action_name(plan[j]) == n;
                            assert(action_ok(files, entries, plan[j]));
                        }
                    }
                }
            }
        }
    }
}

/// Idempotence: a build against an unchanged source leaves an already synced
/// archive untouched. Whatever plan the first build produced, the plan a
/// second build computes from the resulting listing is empty, and the
/// listing's entry set and fingerprints stay as they were.
pub proof fn lemma_build_idempotent(
    files: FileSet,
    e1: Seq<ArchiveEntry>,
    e2: Seq<ArchiveEntry>,
    p1: Seq<Action>,
    p2: Seq<Action>,
)
    requires
        files.wf(),
        unique_listing(e1),
        unique_listing(e2),
        plan_ok(files, e1, p1),
        plan_ok(files, e2, p2),
        listing_map(e2) == apply_plan(listing_map(e1), p1),
    ensures
        p2.len() == 0,
        apply_plan(listing_map(e2), p2) == listing_map(e2),
{
    lemma_plan_sync(files, e1, p1);
    if p2.len() > 0 {
        let a = p2[0];
        assert(action_ok(files, e2, a));
        let n = action_name(a);
        match a {
            Action::Remove { name } => {
                assert(listing_map(e2).dom().contains(n));
                assert(synced_map(files, e1).dom().contains(n));
                assert(files.contains_name(n));
            },
            Action::Update { name, path, mtime } => {
                assert(listing_map(e2).dom().contains(n));
                assert(listing_fp(e2, n) == listing_map(e2)[n]);
                assert(synced_map(files, e1)[n] == files.mtime_at(n));
            },
            Action::Add { name, path, mtime } => {
                assert(synced_map(files, e1).dom().contains(n));
                assert(listing_map(e2).dom().contains(n));
                assert(listing_contains(e2, n));
            },
        }
    }
}

/// Addition: a file on disk but absent from the archive is in the listing
/// after the build, fingerprinted with its modification time, written by an
/// addition that carries the walked path whose bytes the store writes.
pub proof fn lemma_build_addition(
    files: FileSet,
    entries: Seq<ArchiveEntry>,
    plan: Seq<Action>,
    n: Seq<char>,
)
    requires
        files.wf(),
        unique_listing(entries),
        plan_ok(files, entries, plan),
        !is_special(n),
        files.contains_name(n),
        !listing_contains(entries, n),
    ensures
        apply_plan(listing_map(entries), plan).dom().contains(n),
        apply_plan(listing_map(entries), plan)[n] == files.mtime_at(n),
        exists|j: int|
            0 <= j < plan.len() && ((#[trigger] plan[j]) matches Action::Add { name, path, mtime }
                && name@ == n && path@ == files.path_at(n) && mtime == files.mtime_at(n)),
{
    lemma_plan_sync(files, entries, plan);
    assert(synced_map(files, entries).dom().contains(n));
    assert(plan_touches(plan, n));
    let j = choose|j: int| 0 <= j < plan.len() && action_name(plan[j]) == n;
    assert(action_ok(files, entries, plan[j]));
    assert(plan[j] is Add);
}

/// Deletion: a path not on disk — removed, or excluded by an ignore rule —
/// is absent from the listing after the build.
pub proof fn lemma_build_removes_stale(
    files: FileSet,
    entries: Seq<ArchiveEntry>,
    plan: Seq<Action>,
    n: Seq<char>,
)
    requires
        files.wf(),
        unique_listing(entries),
        plan_ok(files, entries, plan),
        !is_special(n),
        !files.contains_name(n),
    ensures
        !apply_plan(listing_map(entries), plan).dom().contains(n),
{
    lemma_plan_sync(files, entries, plan);
    assert(!synced_map(files, entries).dom().contains(n));
}

/// Update on change: a file whose modification time moved is rewritten from
/// its walked path with the new time as fingerprint, while a file whose time
/// matches its entry is not touched at all, so its stored entry stays as it
/// was.
pub proof fn lemma_build_update(
    files: FileSet,
    entries: Seq<ArchiveEntry>,
    plan: Seq<Action>,
    i: int,
)
    requires
        files.wf(),
        unique_listing(entries),
        plan_ok(files, entries, plan),
        0 <= i < entries.len(),
        !is_special(entries[i].name@),
        files.contains_name(entries[i].name@),
    ensures
        apply_plan(listing_map(entries), plan).dom().contains(entries[i].name@),
        apply_plan(listing_map(entries), plan)[entries[i].name@] == files.mtime_at(
            entries[i].name@,
        ),
        files.mtime_at(entries[i].name@) != entries[i].fingerprint ==> exists|j: int|
            0 <= j < plan.len() && ((#[trigger] plan[j]) matches Action::Update {
                name,
                path,
                mtime,
            } && name@ == entries[i].name@ && path@ == files.path_at(entries[i].name@)
                && mtime == files.mtime_at(entries[i].name@)),
        files.mtime_at(entries[i].name@) == entries[i].fingerprint ==> !plan_touches(
            plan,
            entries[i].name@,
        ),
{
    lemma_plan_sync(files, entries, plan);
    lemma_listing_at_index(entries, i);
    let n = entries[i].name@;
    assert(synced_map(files, entries).dom().contains(n));
    if files.mtime_at(n) != entries[i].fingerprint {
        assert(needs_entry_action(files, entries[i]));
        assert(plan_touches(plan, n));
        let j = choose|j: int| 0 <= j < plan.len() && action_name(plan[j]) == n;
        assert(action_ok(files, entries, plan[j]));
        assert(plan[j] is Update);
    } else {
        if plan_touches(plan, n) {
            let j = choose|j: int| 0 <= j < plan.len() && action_name(plan[j]) == n;
            assert(action_ok(files, entries, plan[j]));
        }
    }
}

/// A build against a fresh container, which lists only its own metadata
/// entries, ends with exactly the scanned files in the listing.
pub proof fn lemma_fresh_build(files: FileSet, entries: Seq<ArchiveEntry>, plan: Seq<Action>)
    requires
        files.wf(),
        unique_listing(entries),
        plan_ok(files, entries, plan),
        forall|i: int| 0 <= i < entries.len() ==> is_special((#[trigger] entries[i]).name@),
    ensures
        forall|n: Seq<char>|
            !is_special(n) ==> #[trigger] apply_plan(listing_map(entries), plan).dom().contains(n)
                == files.contains_name(n),
        forall|n: Seq<char>|
            !is_special(n) && files.contains_name(n) ==> #[trigger] apply_plan(
                listing_map(entries),
                plan,
            )[n] == files.mtime_at(n),
{
    lemma_plan_sync(files, entries, plan);
}

} // verus!
