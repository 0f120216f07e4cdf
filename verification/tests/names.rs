use mpqsync::names::{
    fingerprint_from_parts, is_archive_path, is_special_name, name_from_buffer, str_eq,
    to_archive_name, to_native_name,
};

#[test]
fn archive_name_replaces_slashes() {
    assert_eq!(to_archive_name("a/b/c.txt"), "a\\b\\c.txt");
    assert_eq!(to_archive_name("plain.txt"), "plain.txt");
    assert_eq!(to_archive_name(""), "");
}

#[test]
fn native_name_replaces_backslashes() {
    assert_eq!(to_native_name("a\\b\\c.txt"), "a/b/c.txt");
    assert_eq!(to_native_name("plain.txt"), "plain.txt");
}

#[test]
fn separator_round_trip_on_slash_paths() {
    let original = "maps/azeroth/town.w3x";
    assert_eq!(to_native_name(&to_archive_name(original)), original);
}

#[test]
fn special_names_are_recognized() {
    assert!(is_special_name("(listfile)"));
    assert!(is_special_name("(attributes)"));
    assert!(is_special_name("(signature)"));
    assert!(is_special_name("(user data)"));
    assert!(!is_special_name("(list)"));
    assert!(!is_special_name("war3map.j"));
    assert!(!is_special_name(""));
}

#[test]
fn archive_suffix_both_cases() {
    assert!(is_archive_path("patch.mpq"));
    assert!(is_archive_path("PATCH.MPQ"));
    assert!(is_archive_path("dir/sub/x.mpq"));
    assert!(!is_archive_path("patch.mPq"));
    assert!(!is_archive_path("mpq"));
    assert!(!is_archive_path("patch.mpq.bak"));
    assert!(!is_archive_path(""));
}

#[test]
fn string_equality_by_characters() {
    assert!(str_eq("abc", "abc"));
    assert!(!str_eq("abc", "abd"));
    assert!(!str_eq("abc", "abcd"));
    assert!(str_eq("", ""));
}

#[test]
fn buffer_name_stops_at_terminator() {
    let buf: Vec<u8> = b"war3map.j\0junk".to_vec();
    assert_eq!(name_from_buffer(&buf), "war3map.j");
}

#[test]
fn buffer_name_without_terminator_takes_all() {
    let buf: Vec<u8> = b"abc".to_vec();
    assert_eq!(name_from_buffer(&buf), "abc");
}

#[test]
fn buffer_name_empty_cases() {
    assert_eq!(name_from_buffer(&Vec::new()), "");
    assert_eq!(name_from_buffer(&vec![0u8, 65u8]), "");
}

#[test]
fn fingerprint_rebuilt_from_halves() {
    assert_eq!(fingerprint_from_parts(0, 0), 0);
    assert_eq!(fingerprint_from_parts(0, 5), 5);
    assert_eq!(fingerprint_from_parts(1, 2), 0x1_0000_0002);
    assert_eq!(fingerprint_from_parts(0xFFFF_FFFF, 0xFFFF_FFFF), u64::MAX);
}
