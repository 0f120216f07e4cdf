use mpqsync::reconcile::{plan_build, Action, ArchiveEntry};
use mpqsync::scan::FileSet;
use mpqsync::unpack::plan_extract;

fn entry(name: &str, fingerprint: u64) -> ArchiveEntry {
    ArchiveEntry { name: name.to_string(), fingerprint }
}

#[test]
fn extraction_skips_metadata_entries() {
    let entries = vec![
        entry("(listfile)", 1),
        entry("(attributes)", 2),
        entry("(signature)", 3),
        entry("(user data)", 4),
        entry("war3map.j", 100),
    ];
    let xplan = plan_extract(&entries);
    assert_eq!(xplan.len(), 1);
    assert_eq!(xplan[0].name, "war3map.j");
    assert_eq!(xplan[0].target, "war3map.j");
}

#[test]
fn extraction_translates_separators() {
    let entries = vec![entry("sound\\ui\\click.wav", 5)];
    let xplan = plan_extract(&entries);
    assert_eq!(xplan.len(), 1);
    assert_eq!(xplan[0].name, "sound\\ui\\click.wav");
    assert_eq!(xplan[0].target, "sound/ui/click.wav");
}

#[test]
fn empty_listing_extracts_nothing() {
    let xplan = plan_extract(&Vec::new());
    assert_eq!(xplan.len(), 0);
}

#[test]
fn round_trip_restores_walked_paths() {
    // Build from a fresh container, read the resulting listing, extract:
    // the target paths are exactly the walked paths.
    let mut files = FileSet::new();
    files.insert("a.j".to_string(), 10);
    files.insert("maps/town.w3x".to_string(), 20);
    files.insert("sound/ui/click.wav".to_string(), 30);
    let base = vec![entry("(listfile)", 1), entry("(attributes)", 2)];
    let plan = plan_build(&files, &base);
    let mut listing = base;
    for a in &plan {
        match a {
            Action::Add { name, mtime, .. } => listing.push(entry(name, *mtime)),
            other => panic!("a fresh build only adds, got {:?}", other),
        }
    }
    let xplan = plan_extract(&listing);
    let mut targets: Vec<String> = xplan.iter().map(|x| x.target.clone()).collect();
    targets.sort();
    assert_eq!(targets, vec!["a.j", "maps/town.w3x", "sound/ui/click.wav"]);
}
