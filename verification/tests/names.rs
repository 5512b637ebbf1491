use scratch_dir::names::{dir_name, new_dir_name, pid_from_dir_name};
use scratch_dir::registry::registry;

#[test]
fn dir_name_round_trips_through_the_pid_parser() {
    let name = new_dir_name(4242);
    assert_eq!(pid_from_dir_name(&name), Some(4242));
}

#[test]
fn dir_name_suffix_is_eight_hex_chars() {
    let name = new_dir_name(1);
    let (_, suffix) = name.split_once('-').expect("name must carry a suffix");
    assert_eq!(suffix.len(), 8);
    assert!(suffix.chars().all(|c| c.is_ascii_hexdigit()));
}

/// Anything that is not ours is skipped rather than deleted.
#[test]
fn pid_parser_rejects_foreign_names() {
    for name in [
        "_MEI123456",     // another PyInstaller app
        "not-a-pid",      // suffix is not hex
        "123-abc",        // suffix too short
        "123-0123456789", // suffix too long
        "123",            // no suffix at all
        "",               // empty
        "-deadbeef",      // no pid
    ] {
        assert_eq!(pid_from_dir_name(name), None, "{name} must not parse");
    }
}

#[test]
fn registering_the_same_name_twice_fails() {
    let mut names = registry();
    let name = new_dir_name(77);
    assert!(names.register(&name));
    assert!(!names.register(&name));
    names.unregister(&name);
    assert!(names.register(&name));
    names.unregister(&name);
    assert!(!names.is_registered(&name));
}

#[test]
fn registering_leaves_other_names_alone() {
    let mut names = registry();
    assert!(names.register("1-00000000"));
    assert!(!names.is_registered("1-00000001"));
    names.unregister("1-00000001");
    assert!(names.is_registered("1-00000000"));
}

#[test]
fn dir_name_takes_the_first_eight_characters() {
    assert_eq!(dir_name(4242, "67e5504410b1426f9247bb680e5fe0c8"), "4242-67e55044");
    assert_eq!(dir_name(0, "deadbeef"), "0-deadbeef");
    assert_eq!(dir_name(u32::MAX, "0123456789"), "4294967295-01234567");
    assert_eq!(dir_name(10, "abc"), "10-abc");
    assert_eq!(dir_name(7, ""), "7-");
}

#[test]
fn new_names_are_lower_case_and_differ() {
    let first = new_dir_name(9);
    let second = new_dir_name(9);
    assert_ne!(first, second);
    assert_eq!(first.len(), 10);
    assert!(first.starts_with("9-"));
    assert!(first[2..].chars().all(|c| c.is_ascii_digit() || ('a'..='f').contains(&c)));
}

#[test]
fn pid_parser_reads_only_pids_as_names_write_them() {
    assert_eq!(pid_from_dir_name("0-deadbeef"), Some(0));
    assert_eq!(pid_from_dir_name("7-DEADBEEF"), Some(7));
    assert_eq!(pid_from_dir_name("4294967295-00000000"), Some(u32::MAX));
    for name in [
        "4294967296-00000000",
        "99999999999999999999-00000000",
        "+123-deadbeef",
        "+7-deadbeef",
        "007-deadbeef",
        "00-deadbeef",
        "00000000004294967295-00000000",
        "+-00000000",
        "1-2-00000000",
        " 1-00000000",
        "1a-00000000",
    ] {
        assert_eq!(pid_from_dir_name(name), None, "{name} must not parse");
    }
}

#[test]
fn pid_parser_counts_only_hex_digits_in_the_suffix() {
    assert_eq!(pid_from_dir_name("12-0123456g"), None);
    assert_eq!(pid_from_dir_name("12-012345-7"), None);
    // Eight characters, but more than eight bytes.
    assert_eq!(pid_from_dir_name("12-é1234567"), None);
    // Eight bytes, but fewer characters.
    assert_eq!(pid_from_dir_name("12-é123456"), None);
    assert_eq!(pid_from_dir_name("12-\u{fffd}1234567"), None);
    assert_eq!(pid_from_dir_name("12-aBcDeF09"), Some(12));
}

#[test]
fn names_of_different_owners_or_suffixes_differ() {
    assert_ne!(dir_name(1, "11111111"), dir_name(11, "11111111"));
    assert_ne!(dir_name(1, "11111111"), dir_name(1, "11111112"));
}
