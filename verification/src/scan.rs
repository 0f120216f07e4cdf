//! The scanner's working set.
//!
//! A directory walk hands in one outcome per visited entry; the collector
//! keeps, for every regular file, its path and its modification time in whole
//! seconds, keyed by the name the archive would use for it. A path reported
//! twice keeps the later report; an errored or non-file outcome contributes
//! nothing. The walker itself, and the ignore matcher that filters it, stand
//! outside this library: only outcomes that survived the matcher are handed
//! in.

use vstd::prelude::*;
use crate::names::{archive_form, to_archive_name, str_eq};

verus! {

/// One eligible file: the name the archive uses, the path as walked, and the
/// modification time in whole seconds since the epoch.
pub struct FileRecord {
    pub name: String,
    pub path: String,
    pub mtime: u64,
}

impl FileRecord {
    /// The archive name is the walked path in the archive's separator
    /// convention.
    pub open spec fn wf(self) -> bool {
        self.name@ == archive_form(self.path@)
    }
}

/// The scanner's mapping from archive name to file record.
pub struct FileSet {
    pub records: Vec<FileRecord>,
}

impl FileSet {
    /// Names are distinct and each record's name matches its path.
    pub open spec fn wf(self) -> bool {
        &&& forall|i: int, j: int|
            0 <= i < j < self.records@.len() ==> self.records@[i].name@ != self.records@[j].name@
        &&& forall|i: int| 0 <= i < self.records@.len() ==> (#[trigger] self.records@[i]).wf()
    }

    /// Whether some record carries this archive name.
    pub open spec fn contains_name(self, n: Seq<char>) -> bool {
        exists|i: int| 0 <= i < self.records@.len() && self.records@[i].name@ == n
    }

    /// The index of the record carrying this archive name.
    pub open spec fn name_index(self, n: Seq<char>) -> int {
        choose|i: int| 0 <= i < self.records@.len() && self.records@[i].name@ == n
    }

    /// The record carrying this archive name.
    pub open spec fn record_at(self, n: Seq<char>) -> FileRecord {
        self.records@[self.name_index(n)]
    }

    /// The recorded modification time under this archive name.
    pub open spec fn mtime_at(self, n: Seq<char>) -> u64 {
        self.record_at(n).mtime
    }

    /// The recorded walked path under this archive name.
    pub open spec fn path_at(self, n: Seq<char>) -> Seq<char> {
        self.record_at(n).path@
    }

    /// How many files are recorded; the capacity hint for archive creation.
    pub open spec fn spec_len(self) -> nat {
        self.records@.len()
    }

    /// A record found at an index is the one `record_at` yields for its name.
    pub proof fn lemma_record_at_index(self, i: int)
        requires
            self.wf(),
            0 <= i < self.records@.len(),
        ensures
            self.contains_name(self.records@[i].name@),
            self.name_index(self.records@[i].name@) == i,
            self.record_at(self.records@[i].name@) == self.records@[i],
    {
        let n = self.records@[i].name@;
        assert(self.contains_name(n));
        let k = self.name_index(n);
        if k != i {
            if k < i {
                assert(self.records@[k].name@ != self.records@[i].name@);
            } else {
                assert(self.records@[i].name@ != self.records@[k].name@);
            }
        }
    }

    /// An empty working set.
    pub fn new() -> (r: FileSet)
        ensures
            r.wf(),
            r.spec_len() == 0,
            forall|n: Seq<char>| !r.contains_name(n),
    {
        FileSet { records: Vec::new() }
    }

    /// How many files are recorded.
    pub fn len(&self) -> (r: usize)
        ensures
            r == self.spec_len(),
    {
        self.records.len()
    }

    /// The index of the record carrying this archive name, if any.
    pub fn find_index(&self, name: &str) -> (r: Option<usize>)
        requires
            self.wf(),
        ensures
            match r {
                Some(i) => i < self.records@.len() && self.records@[i as int].name@ == name@
                    && self.contains_name(name@),
                None => !self.contains_name(name@),
            },
    {
        let mut i: usize = 0;
        let len: usize = self.records.len();
        while i < len
            invariant
                i <= len,
                len == self.records@.len(),
                forall|j: int| 0 <= j < i ==> self.records@[j].name@ != name@,
            decreases len - i,
        {
            if str_eq(self.records[i].name.as_str(), name) {
                return Some(i);
            }
            i = i + 1;
        }
        None
    }

    /// Record a walked file: keyed by its archive name, keeping the later
    /// report when a path is seen twice.
    pub fn insert(&mut self, path: String, mtime: u64)
        requires
            old(self).wf(),
        ensures
            final(self).wf(),
            final(self).contains_name(archive_form(path@)),
            final(self).record_at(archive_form(path@)).path@ == path@,
            final(self).record_at(archive_form(path@)).mtime == mtime,
            forall|n: Seq<char>|
                n != archive_form(path@) ==> #[trigger] final(self).contains_name(n)
                    == old(self).contains_name(n),
            forall|n: Seq<char>|
                n != archive_form(path@) && old(self).contains_name(n)
                    ==> #[trigger] final(self).record_at(n) == old(self).record_at(n),
            final(self).spec_len() == if old(self).contains_name(archive_form(path@)) {
                old(self).spec_len()
            } else {
                old(self).spec_len() + 1
            },
    {
        let name = to_archive_name(path.as_str());
        let ghost n0 = name@;
        let rec = FileRecord { name, path, mtime };
        let found = self.find_index(rec.name.as_str());
        match found {
            Some(i) => {
                let ghost before = self.records@;
                self.records.remove(i);
                self.records.push(rec);
                proof {
                    let after = self.records@;
                    let li = after.len() - 1;
                    assert(after[li as int] == rec);
                    assert forall|a: int, b: int|
                        0 <= a < b < after.len() implies after[a].name@ != after[b].name@ by {
                        if b < li {
                            let oa: int = if a < i { a } else { a + 1 };
                            let ob: int = if b < i { b } else { b + 1 };
                            assert(after[a] == before[oa] && after[b] == before[ob]);
                        } else {
                            let oa: int = if a < i { a } else { a + 1 };
                            assert(after[a] == before[oa]);
                            assert(oa != i);
                            assert(before[oa].name@ != before[i as int].name@);
                        }
                    }
                    self.lemma_insert_frame(*old(self), rec, i as int);
                }
            },
            None => {
                let ghost before = self.records@;
                self.records.push(rec);
                proof {
                    let after = self.records@;
                    let li = after.len() - 1;
                    assert forall|a: int, b: int|
                        0 <= a < b < after.len() implies after[a].name@ != after[b].name@ by {
                        if b == li {
                            assert(after[a] == before[a]);
                            assert(old(self).contains_name(before[a].name@)) by {
                                old(self).lemma_record_at_index(a);
                            }
                        }
                    }
                    self.lemma_insert_frame_push(*old(self), rec);
                }
            },
        }
    }

    /// After replacing the record at a matching index by a fresh record at
    /// the end, every other name keeps its record.
    proof fn lemma_insert_frame(self, prev: FileSet, rec: FileRecord, i: int)
        requires
            prev.wf(),
            rec.wf(),
            0 <= i < prev.records@.len(),
            prev.records@[i].name@ == rec.name@,
            self.records@ == prev.records@.remove(i).push(rec),
            self.wf(),
        ensures
            self.contains_name(rec.name@),
            self.record_at(rec.name@) == rec,
            forall|n: Seq<char>|
                n != rec.name@ ==> #[trigger] self.contains_name(n) == prev.contains_name(n),
            forall|n: Seq<char>|
                n != rec.name@ && prev.contains_name(n)
                    ==> #[trigger] self.record_at(n) == prev.record_at(n),
    {
        let li = self.records@.len() - 1;
        assert(self.records@[li as int] == rec);
        self.lemma_record_at_index(li as int);
        assert forall|n: Seq<char>|
            n != rec.name@ implies #[trigger] self.contains_name(n) == prev.contains_name(n) by {
            if prev.contains_name(n) {
                let k = choose|k: int|
                    0 <= k < prev.records@.len() && prev.records@[k].name@ == n;
                let nk: int = if k < i { k } else { k - 1 };
                assert(k != i);
                assert(self.records@[nk] == prev.records@[k]);
                assert(self.contains_name(n));
            }
            if self.contains_name(n) {
                let k = choose|k: int|
                    0 <= k < self.records@.len() && self.records@[k].name@ == n;
                assert(k != li);
                let ok: int = if k < i { k } else { k + 1 };
                assert(self.records@[k] == prev.records@[ok]);
                assert(prev.contains_name(n));
            }
        }
        assert forall|n: Seq<char>|
            n != rec.name@ && prev.contains_name(n) implies #[trigger] self.record_at(n)
                == prev.record_at(n) by {
            let k = choose|k: int| 0 <= k < prev.records@.len() && prev.records@[k].name@ == n;
            prev.lemma_record_at_index(k);
            let nk: int = if k < i { k } else { k - 1 };
            assert(k != i);
            assert(self.records@[nk] == prev.records@[k]);
            self.lemma_record_at_index(nk);
        }
    }

    /// After appending a record with a fresh name, every other name keeps its
    /// record.
    proof fn lemma_insert_frame_push(self, prev: FileSet, rec: FileRecord)
        requires
            prev.wf(),
            rec.wf(),
            !prev.contains_name(rec.name@),
            self.records@ == prev.records@.push(rec),
            self.wf(),
        ensures
            self.contains_name(rec.name@),
            self.record_at(rec.name@) == rec,
            forall|n: Seq<char>|
                n != rec.name@ ==> #[trigger] self.contains_name(n) == prev.contains_name(n),
            forall|n: Seq<char>|
                n != rec.name@ && prev.contains_name(n)
                    ==> #[trigger] self.record_at(n) == prev.record_at(n),
    {
        let li = self.records@.len() - 1;
        assert(self.records@[li as int] == rec);
        self.lemma_record_at_index(li as int);
        assert forall|n: Seq<char>|
            n != rec.name@ implies #[trigger] self.contains_name(n) == prev.contains_name(n) by {
            if prev.contains_name(n) {
                let k = choose|k: int|
                    0 <= k < prev.records@.len() && prev.records@[k].name@ == n;
                assert(self.records@[k] == prev.records@[k]);
                assert(self.contains_name(n));
            }
            if self.contains_name(n) {
                let k = choose|k: int|
                    0 <= k < self.records@.len() && self.records@[k].name@ == n;
                assert(k != li);
                assert(self.records@[k] == prev.records@[k]);
                assert(prev.contains_name(n));
            }
        }
        assert forall|n: Seq<char>|
            n != rec.name@ && prev.contains_name(n) implies #[trigger] self.record_at(n)
                == prev.record_at(n) by {
            let k = choose|k: int| 0 <= k < prev.records@.len() && prev.records@[k].name@ == n;
            prev.lemma_record_at_index(k);
            assert(self.records@[k] == prev.records@[k]);
            self.lemma_record_at_index(k);
        }
    }
}

/// What the directory walk reports for one visited entry.
pub enum WalkOutcome {
    /// A regular file that passed the ignore matcher, with its path relative
    /// to the source root and its modification time in whole seconds.
    File { path: String, mtime: u64 },
    /// A directory, a symlink to one, or anything else that is not a regular
    /// file.
    NotAFile,
    /// A walk result that errored; it is logged by the walker and skipped
    /// here.
    Failed,
}

/// Whether some file outcome in the walk would be recorded under this
/// archive name.
pub open spec fn walk_has(items: Seq<WalkOutcome>, n: Seq<char>) -> bool
    decreases items.len(),
{
    if items.len() == 0 {
        false
    } else {
        match items.last() {
            WalkOutcome::File { path, mtime } => archive_form(path@) == n || walk_has(
                items.drop_last(),
                n,
            ),
            _ => walk_has(items.drop_last(), n),
        }
    }
}

/// The walked path of the latest file outcome recorded under this archive
/// name.
pub open spec fn walk_path(items: Seq<WalkOutcome>, n: Seq<char>) -> Seq<char>
    decreases items.len(),
{
    if items.len() == 0 {
        Seq::empty()
    } else {
        match items.last() {
            WalkOutcome::File { path, mtime } => if archive_form(path@) == n {
                path@
            } else {
                walk_path(items.drop_last(), n)
            },
            _ => walk_path(items.drop_last(), n),
        }
    }
}

/// The modification time of the latest file outcome recorded under this
/// archive name.
pub open spec fn walk_mtime(items: Seq<WalkOutcome>, n: Seq<char>) -> u64
    decreases items.len(),
{
    if items.len() == 0 {
        0
    } else {
        match items.last() {
            WalkOutcome::File { path, mtime } => if archive_form(path@) == n {
                mtime
            } else {
                walk_mtime(items.drop_last(), n)
            },
            _ => walk_mtime(items.drop_last(), n),
        }
    }
}

/// Fold a directory walk into the scanner's working set: every regular file
/// that the matcher let through, keyed by archive name, the later report
/// winning when a path is seen twice.
pub fn collect_records(items: Vec<WalkOutcome>) -> (files: FileSet)
    ensures
        files.wf(),
        forall|n: Seq<char>| #[trigger] files.contains_name(n) == walk_has(items@, n),
        forall|n: Seq<char>|
            walk_has(items@, n) ==> #[trigger] files.path_at(n) == walk_path(items@, n)
                && files.mtime_at(n) == walk_mtime(items@, n),
{
    let mut files = FileSet::new();
    let mut i: usize = 0;
    let len: usize = items.len();
    while i < len
        invariant
            i <= len,
            len == items@.len(),
            files.wf(),
            forall|n: Seq<char>| #[trigger] files.contains_name(n) == walk_has(
                items@.take(i as int),
                n,
            ),
            forall|n: Seq<char>|
                walk_has(items@.take(i as int), n) ==> #[trigger] files.path_at(n) == walk_path(
                    items@.take(i as int),
                    n,
                ) && files.mtime_at(n) == walk_mtime(items@.take(i as int), n),
        decreases len - i,
    {
        proof {
            assert(items@.take(i + 1).drop_last() =~= items@.take(i as int));
            assert(items@.take(i + 1).last() == items@[i as int]);
        }
        match &items[i] {
            WalkOutcome::File { path, mtime } => {
                let ghost prev = files;
                files.insert(path.clone(), *mtime);
                proof {
                    let n0 = archive_form(path@);
                    assert forall|n: Seq<char>|
                        walk_has(items@.take(i + 1), n) implies #[trigger] files.path_at(n)
                            == walk_path(items@.take(i + 1), n) && files.mtime_at(n) == walk_mtime(
                            items@.take(i + 1),
                            n,
                        ) by {
                        if n != n0 {
                            assert(walk_has(items@.take(i as int), n));
                            assert(prev.contains_name(n));
                            assert(prev.path_at(n) == walk_path(items@.take(i as int), n));
                            assert(prev.mtime_at(n) == walk_mtime(items@.take(i as int), n));
                            assert(files.record_at(n) == prev.record_at(n));
                            assert(walk_path(items@.take(i + 1), n) == walk_path(
                                items@.take(i as int),
                                n,
                            ));
                            assert(walk_mtime(items@.take(i + 1), n) == walk_mtime(
                                items@.take(i as int),
                                n,
                            ));
                        } else {
                            assert(items@.take(i + 1).last() == items@[i as int]);
                            assert(items@[i as int] matches WalkOutcome::File { path: p, mtime: m }
                                && p@ == path@ && m == *mtime);
                            assert(walk_path(items@.take(i + 1), n0) == path@);
                            assert(walk_mtime(items@.take(i + 1), n0) == *mtime);
                            assert(files.record_at(n0).path@ == path@);
                            assert(files.record_at(n0).mtime == *mtime);
                        }
                    }
                }
            },
            WalkOutcome::NotAFile => {},
            WalkOutcome::Failed => {},
        }
        i = i + 1;
    }
    proof {
        assert(items@.take(len as int) =~= items@);
    }
    files
}

} // verus!
