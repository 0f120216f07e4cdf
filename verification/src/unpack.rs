//! The extractor.
//!
//! Extraction reads every entry of an existing archive that is not container
//! metadata and materializes it under a target directory, the entry's name
//! translated back to the filesystem's separator convention. The plan
//! computed here names, for each entry to extract, the entry and the
//! target-relative path; the driver reads the bytes and writes the file,
//! logging and skipping any entry it cannot read, so one corrupt entry does
//! not abort the rest.

use vstd::prelude::*;
use crate::names::{
    is_special, is_special_name, native_form, archive_form, to_native_name,
    lemma_separator_round_trip,
};
use crate::reconcile::{
    ArchiveEntry, Action, listing_contains, listing_map, unique_listing, plan_ok, apply_plan,
    lemma_plan_sync, synced_map,
};
use crate::scan::FileSet;

verus! {

/// One entry to extract: its archive name and the path, relative to the
/// target directory, to write its bytes to.
#[derive(Debug)]
pub struct ExtractAction {
    pub name: String,
    pub target: String,
}

/// Whether the extraction plan covers this entry name.
pub open spec fn extracts_name(xplan: Seq<ExtractAction>, n: Seq<char>) -> bool {
    exists|j: int| 0 <= j < xplan.len() && xplan[j].name@ == n
}

/// A valid extraction plan: it names exactly the listing's non-metadata
/// entries, each with its name translated to the filesystem convention.
pub open spec fn extract_ok(entries: Seq<ArchiveEntry>, xplan: Seq<ExtractAction>) -> bool {
    &&& forall|j: int|
        0 <= j < xplan.len() ==> !is_special((#[trigger] xplan[j]).name@) && listing_contains(
            entries,
            xplan[j].name@,
        ) && xplan[j].target@ == native_form(xplan[j].name@)
    &&& forall|i: int|
        0 <= i < entries.len() && !is_special((#[trigger] entries[i]).name@) ==> extracts_name(
            xplan,
            entries[i].name@,
        )
}

/// The extraction plan: every listing entry except the container's metadata,
/// with its target path in the filesystem's separator convention.
pub fn plan_extract(entries: &Vec<ArchiveEntry>) -> (xplan: Vec<ExtractAction>)
    ensures
        extract_ok(entries@, xplan@),
{
    let mut xplan: Vec<ExtractAction> = Vec::new();
    let mut i: usize = 0;
    let len: usize = entries.len();
    while i < len
        invariant
            i <= len,
            len == entries@.len(),
            forall|j: int|
                0 <= j < xplan@.len() ==> !is_special((#[trigger] xplan@[j]).name@)
                    && listing_contains(entries@, xplan@[j].name@) && xplan@[j].target@
                    == native_form(xplan@[j].name@),
            forall|k: int|
                0 <= k < i && !is_special((#[trigger] entries@[k]).name@) ==> extracts_name(
                    xplan@,
                    entries@[k].name@,
                ),
        decreases len - i,
    {
        if !is_special_name(entries[i].name.as_str()) {
            let target = to_native_name(entries[i].name.as_str());
            let x = ExtractAction { name: entries[i].name.clone(), target };
            let ghost prev = xplan@;
            xplan.push(x);
            proof {
                let cur = xplan@;
                let li = prev.len() as int;
                assert(cur[li] == x);
                assert(listing_contains(entries@, x.name@)) by {
                    assert(entries@[i as int].name@ == x.name@);
                }
                assert forall|j: int|
                    0 <= j < cur.len() implies !is_special((#[trigger] cur[j]).name@)
                        && listing_contains(entries@, cur[j].name@) && cur[j].target@
                        == native_form(cur[j].name@) by {
                    if j < li {
                        assert(cur[j] == prev[j]);
                    }
                }
                assert forall|n: Seq<char>| extracts_name(prev, n) implies extracts_name(
                    cur,
                    n,
                ) by {
                    let j = choose|j: int| 0 <= j < prev.len() && prev[j].name@ == n;
                    assert(cur[j] == prev[j]);
                    assert(0 <= j < cur.len() && cur[j].name@ == n);
                }
                assert(extracts_name(cur, entries@[i as int].name@));
            }
        }
        i = i + 1;
    }
    xplan
}

/// Round trip: build an archive from a scanned directory, list it again, and
/// extract. The extraction plan writes a file for exactly the walked paths
/// the scanner recorded — no metadata entry, nothing ignored, nothing extra
/// — each under its original relative path. Each write takes its bytes from
/// the entry the matching addition or update wrote; byte fidelity inside the
/// container rests on the archive store.
pub proof fn lemma_round_trip_paths(
    files: FileSet,
    entries: Seq<ArchiveEntry>,
    plan: Seq<Action>,
    listing2: Seq<ArchiveEntry>,
    xplan: Seq<ExtractAction>,
    p: Seq<char>,
)
    requires
        files.wf(),
        unique_listing(entries),
        plan_ok(files, entries, plan),
        unique_listing(listing2),
        listing_map(listing2) == apply_plan(listing_map(entries), plan),
        extract_ok(listing2, xplan),
        forall|i: int|
            0 <= i < files.records@.len() ==> !is_special((#[trigger] files.records@[i]).name@),
        forall|i: int, k: int|
            0 <= i < files.records@.len() && 0 <= k < files.records@[i].path@.len()
                ==> #[trigger] files.records@[i].path@[k] != '\\',
    ensures
        (exists|j: int| 0 <= j < xplan.len() && (#[trigger] xplan[j]).target@ == p) <==> (exists|
            i: int,
        |
            0 <= i < files.records@.len() && (#[trigger] files.records@[i]).path@ == p),
{
    lemma_plan_sync(files, entries, plan);
    if exists|i: int| 0 <= i < files.records@.len() && (#[trigger] files.records@[i]).path@ == p {
        let i = choose|i: int|
            0 <= i < files.records@.len() && (#[trigger] files.records@[i]).path@ == p;
        let rec = files.records@[i];
        files.lemma_record_at_index(i);
        let n = rec.name@;
        assert(synced_map(files, entries).dom().contains(n));
        assert(listing_map(listing2).dom().contains(n));
        assert(listing_contains(listing2, n));
        let k = choose|k: int| 0 <= k < listing2.len() && listing2[k].name@ == n;
        assert(extracts_name(xplan, n));
        let j = choose|j: int| 0 <= j < xplan.len() && xplan[j].name@ == n;
        assert(xplan[j].target@ == native_form(n));
        lemma_separator_round_trip(rec.path@);
        assert(xplan[j].target@ == p);
    }
    if exists|j: int| 0 <= j < xplan.len() && (#[trigger] xplan[j]).target@ == p {
        let j = choose|j: int| 0 <= j < xplan.len() && (#[trigger] xplan[j]).target@ == p;
        let n = xplan[j].name@;
        assert(listing_contains(listing2, n));
        assert(listing_map(listing2).dom().contains(n));
        assert(synced_map(files, entries).dom().contains(n));
        assert(files.contains_name(n));
        let i = files.name_index(n);
        assert(files.records@[i].name@ == n && files.records@[i].path@ == files.path_at(n));
        assert(n == archive_form(files.records@[i].path@));
        lemma_separator_round_trip(files.records@[i].path@);
        assert(files.records@[i].path@ == native_form(n));
        assert(files.records@[i].path@ == p);
    }
}

} // verus!
