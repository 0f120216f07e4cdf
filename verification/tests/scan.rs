use mpqsync::scan::{collect_records, FileSet, WalkOutcome};

fn file(path: &str, mtime: u64) -> WalkOutcome {
    WalkOutcome::File { path: path.to_string(), mtime }
}

#[test]
fn collects_regular_files_only() {
    let items = vec![
        file("a.txt", 10),
        WalkOutcome::NotAFile,
        file("sub/b.bin", 20),
        WalkOutcome::Failed,
    ];
    let files = collect_records(items);
    assert_eq!(files.len(), 2);
    assert_eq!(files.records[0].path, "a.txt");
    assert_eq!(files.records[0].name, "a.txt");
    assert_eq!(files.records[0].mtime, 10);
    assert_eq!(files.records[1].path, "sub/b.bin");
    assert_eq!(files.records[1].name, "sub\\b.bin");
    assert_eq!(files.records[1].mtime, 20);
}

#[test]
fn later_report_wins_for_same_path() {
    let items = vec![file("a.txt", 10), file("b.txt", 5), file("a.txt", 30)];
    let files = collect_records(items);
    assert_eq!(files.len(), 2);
    let a = files.records.iter().find(|r| r.name == "a.txt").unwrap();
    assert_eq!(a.mtime, 30);
    let b = files.records.iter().find(|r| r.name == "b.txt").unwrap();
    assert_eq!(b.mtime, 5);
}

#[test]
fn empty_walk_yields_empty_set() {
    let files = collect_records(Vec::new());
    assert_eq!(files.len(), 0);
}

#[test]
fn insert_keys_by_archive_name() {
    let mut files = FileSet::new();
    files.insert("dir/one.j".to_string(), 7);
    files.insert("dir\\one.j".to_string(), 9);
    assert_eq!(files.len(), 1);
    assert_eq!(files.records[0].name, "dir\\one.j");
    assert_eq!(files.records[0].mtime, 9);
}
