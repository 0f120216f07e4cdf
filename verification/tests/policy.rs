use mpqsync::policy::{
    choose_ignore_source, decide_build_open, default_ignore_rules, select_mode, BuildOpen,
    IgnoreSource, Mode,
};

#[test]
fn mode_follows_which_path_is_an_archive() {
    assert_eq!(select_mode("patch.mpq", "out_dir"), Mode::Extract);
    assert_eq!(select_mode("PATCH.MPQ", "out_dir"), Mode::Extract);
    assert_eq!(select_mode("src_dir", "patch.mpq"), Mode::Build);
    assert_eq!(select_mode("a.mpq", "b.MPQ"), Mode::Rejected);
    assert_eq!(select_mode("src_dir", "out_dir"), Mode::Rejected);
}

#[test]
fn missing_archive_is_created() {
    assert_eq!(decide_build_open(false, false, false), BuildOpen::CreateNew);
    assert_eq!(decide_build_open(false, true, true), BuildOpen::CreateNew);
}

#[test]
fn unreadable_metadata_means_corrupt() {
    assert_eq!(decide_build_open(true, true, false), BuildOpen::DeleteCorrupt);
    assert_eq!(decide_build_open(true, false, true), BuildOpen::DeleteCorrupt);
    assert_eq!(decide_build_open(true, false, false), BuildOpen::DeleteCorrupt);
}

#[test]
fn healthy_archive_is_reopened() {
    assert_eq!(decide_build_open(true, true, true), BuildOpen::UseExisting);
}

#[test]
fn ignore_source_follows_root_file() {
    assert_eq!(choose_ignore_source(true), IgnoreSource::CustomFile);
    assert_eq!(choose_ignore_source(false), IgnoreSource::BuiltinDefault);
}

#[test]
fn default_rules_cover_vcs_formats_and_specials() {
    let rules = default_ignore_rules();
    assert_eq!(rules.len(), 20);
    assert_eq!(rules[0], ".git/**");
    assert_eq!(rules[1], ".github/**");
    assert_eq!(rules[2], ".gitignore");
    for pat in [
        "**/*.json", "**/*.yml", "**/*.yaml", "**/*.exe", "**/*.dll", "**/*.db", "**/*.csv",
        "**/*.png", "**/*.psd", "**/*.txt", "**/*.md", "**/*.sql",
    ] {
        assert!(rules.iter().any(|r| r == pat), "missing pattern {}", pat);
    }
    assert!(rules.iter().any(|r| r == "(listfile)"));
    assert!(rules.iter().any(|r| r == "(attributes)"));
    assert!(rules.iter().any(|r| r == "(signature)"));
    assert!(rules.iter().any(|r| r == "(user data)"));
    assert_eq!(rules[19], ".patchignore");
}
