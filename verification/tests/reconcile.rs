use mpqsync::reconcile::{classify_entry, plan_build, Action, ArchiveEntry, EntryClass};
use mpqsync::scan::FileSet;

fn entry(name: &str, fingerprint: u64) -> ArchiveEntry {
    ArchiveEntry { name: name.to_string(), fingerprint }
}

fn files_of(records: &[(&str, u64)]) -> FileSet {
    let mut files = FileSet::new();
    for (path, mtime) in records {
        files.insert(path.to_string(), *mtime);
    }
    files
}

fn specials() -> Vec<ArchiveEntry> {
    vec![entry("(listfile)", 1), entry("(attributes)", 2)]
}

#[test]
fn classification_covers_all_classes() {
    let files = files_of(&[("kept.j", 100), ("touched.j", 200)]);
    assert_eq!(classify_entry(&files, "(listfile)", 0), EntryClass::Special);
    assert_eq!(classify_entry(&files, "(user data)", 0), EntryClass::Special);
    assert_eq!(classify_entry(&files, "gone.j", 50), EntryClass::Stale);
    assert_eq!(classify_entry(&files, "kept.j", 100), EntryClass::Unchanged);
    assert_eq!(classify_entry(&files, "touched.j", 150), EntryClass::Modified);
}

#[test]
fn new_file_becomes_one_addition() {
    let files = files_of(&[("fresh.j", 100)]);
    let entries = specials();
    let plan = plan_build(&files, &entries);
    assert_eq!(plan.len(), 1);
    match &plan[0] {
        Action::Add { name, path, mtime } => {
            assert_eq!(name, "fresh.j");
            assert_eq!(path, "fresh.j");
            assert_eq!(*mtime, 100);
        }
        other => panic!("expected an addition, got {:?}", other),
    }
}

#[test]
fn subdirectory_addition_uses_archive_separator() {
    let files = files_of(&[("maps/town.w3x", 42)]);
    let plan = plan_build(&files, &specials());
    assert_eq!(plan.len(), 1);
    match &plan[0] {
        Action::Add { name, path, mtime } => {
            assert_eq!(name, "maps\\town.w3x");
            assert_eq!(path, "maps/town.w3x");
            assert_eq!(*mtime, 42);
        }
        other => panic!("expected an addition, got {:?}", other),
    }
}

#[test]
fn vanished_file_becomes_one_removal() {
    let files = FileSet::new();
    let mut entries = specials();
    entries.push(entry("gone.j", 50));
    let plan = plan_build(&files, &entries);
    assert_eq!(plan.len(), 1);
    match &plan[0] {
        Action::Remove { name } => assert_eq!(name, "gone.j"),
        other => panic!("expected a removal, got {:?}", other),
    }
}

#[test]
fn unchanged_archive_yields_empty_plan() {
    let files = files_of(&[("a.j", 100), ("sub/b.j", 200)]);
    let mut entries = specials();
    entries.push(entry("a.j", 100));
    entries.push(entry("sub\\b.j", 200));
    let plan = plan_build(&files, &entries);
    assert_eq!(plan.len(), 0);
}

#[test]
fn touched_file_becomes_one_update() {
    let files = files_of(&[("map.j", 300)]);
    let mut entries = specials();
    entries.push(entry("map.j", 100));
    let plan = plan_build(&files, &entries);
    assert_eq!(plan.len(), 1);
    match &plan[0] {
        Action::Update { name, path, mtime } => {
            assert_eq!(name, "map.j");
            assert_eq!(path, "map.j");
            assert_eq!(*mtime, 300);
        }
        other => panic!("expected an update, got {:?}", other),
    }
}

#[test]
fn update_leaves_other_entries_alone() {
    let files = files_of(&[("same.j", 100), ("moved.j", 500)]);
    let mut entries = specials();
    entries.push(entry("same.j", 100));
    entries.push(entry("moved.j", 400));
    let plan = plan_build(&files, &entries);
    assert_eq!(plan.len(), 1);
    match &plan[0] {
        Action::Update { name, mtime, .. } => {
            assert_eq!(name, "moved.j");
            assert_eq!(*mtime, 500);
        }
        other => panic!("expected an update, got {:?}", other),
    }
}

#[test]
fn ignored_path_already_archived_is_removed() {
    // The walker never hands an excluded path in, so it is absent from the
    // scanned set; its old entry is stale and leaves the archive.
    let files = files_of(&[("kept.j", 100)]);
    let mut entries = specials();
    entries.push(entry("kept.j", 100));
    entries.push(entry("notes.png", 90));
    let plan = plan_build(&files, &entries);
    assert_eq!(plan.len(), 1);
    match &plan[0] {
        Action::Remove { name } => assert_eq!(name, "notes.png"),
        other => panic!("expected a removal, got {:?}", other),
    }
}

#[test]
fn mixed_plan_covers_every_class_once() {
    let files = files_of(&[("same.j", 1), ("moved.j", 2), ("fresh.j", 3)]);
    let mut entries = specials();
    entries.push(entry("same.j", 1));
    entries.push(entry("moved.j", 7));
    entries.push(entry("gone.j", 8));
    let plan = plan_build(&files, &entries);
    assert_eq!(plan.len(), 3);
    assert!(plan.iter().any(|a| matches!(a, Action::Remove { name } if name == "gone.j")));
    assert!(plan.iter().any(
        |a| matches!(a, Action::Update { name, mtime, .. } if name == "moved.j" && *mtime == 2)
    ));
    assert!(plan.iter().any(
        |a| matches!(a, Action::Add { name, mtime, .. } if name == "fresh.j" && *mtime == 3)
    ));
}

#[test]
fn specials_are_never_planned() {
    // Even a scanned file carrying a metadata name is not written.
    let files = files_of(&[("(listfile)", 9)]);
    let plan = plan_build(&files, &specials());
    assert_eq!(plan.len(), 0);
}

#[test]
fn entry_from_raw_parts() {
    let buf: Vec<u8> = b"sound\\click.wav\0rest".to_vec();
    let e = ArchiveEntry::from_raw(&buf, 1, 2);
    assert_eq!(e.name, "sound\\click.wav");
    assert_eq!(e.fingerprint, 0x1_0000_0002);
}

#[test]
fn second_build_of_synced_tree_plans_nothing() {
    // First build from a fresh container, then a second against the listing
    // the first produced: the second plan is empty.
    let files = files_of(&[("a.j", 10), ("dir/b.j", 20)]);
    let entries = specials();
    let plan = plan_build(&files, &entries);
    let mut after: Vec<ArchiveEntry> = specials();
    for a in &plan {
        match a {
            Action::Add { name, mtime, .. } => after.push(entry(name, *mtime)),
            Action::Update { name, mtime, .. } => after.push(entry(name, *mtime)),
            Action::Remove { .. } => panic!("a fresh build removes nothing"),
        }
    }
    let second = plan_build(&files, &after);
    assert_eq!(second.len(), 0);
}
