use defmt_print::cli::{
    extract_git_hash, has_git_hash, ignores_version, is_own_target, should_log, split_fields,
    version_text, Field, Level,
};
use defmt_print::dep::to_chars;

const LEVELS: [Level; 5] = [Level::Error, Level::Warn, Level::Info, Level::Debug, Level::Trace];

#[test]
fn records_of_the_device_are_always_shown() {
    for verbose in 0..4 {
        for own in [false, true] {
            for level in LEVELS {
                assert!(should_log(verbose, true, own, level));
            }
        }
    }
}

#[test]
fn other_messages_go_by_verbosity() {
    for level in LEVELS {
        let grave = matches!(level, Level::Error | Level::Warn | Level::Info);
        assert_eq!(grave, should_log(0, false, true, level));
        assert!(!should_log(0, false, false, level));
        assert!(should_log(1, false, true, level));
        assert!(!should_log(1, false, false, level));
        assert!(should_log(2, false, true, level));
        assert!(should_log(2, false, false, level));
        assert!(should_log(u32::MAX, false, false, level));
    }
}

#[test]
fn own_targets() {
    assert!(is_own_target("defmt_print"));
    assert!(is_own_target("defmt_print::dep"));
    assert!(!is_own_target("defmt_prin"));
    assert!(!is_own_target("probe_rs::defmt_print"));
    assert!(!is_own_target(""));
}

#[test]
fn version_check_is_switched_off_by_true_and_1() {
    assert!(ignores_version("true"));
    assert!(ignores_version("1"));
    assert!(!ignores_version("TRUE"));
    assert!(!ignores_version("0"));
    assert!(!ignores_version(""));
    assert!(!ignores_version("true "));
}

#[test]
fn hash_is_the_third_field() {
    assert_eq!("g34019f8", extract_git_hash("v0.1.4-12-g34019f8"));
    assert_eq!("", extract_git_hash("--"));
    assert_eq!("c", extract_git_hash("a-b-c-d"));
    assert_eq!("", extract_git_hash("a-b--d"));
    for text in ["v0.1.4-12-g34019f8", "--", "a-b-c-d", "---", "x--"] {
        assert!(has_git_hash(text));
        assert_eq!(text.split('-').nth(2).unwrap(), extract_git_hash(text));
    }
    assert!(!has_git_hash(""));
    assert!(!has_git_hash("v0.1.4"));
    assert!(!has_git_hash("v0.1.4-12"));
}

#[test]
fn fields_are_parted_by_dashes() {
    assert_eq!(vec![Field { start: 0, end: 0 }], split_fields(&to_chars("")));
    assert_eq!(
        vec![Field { start: 0, end: 1 }, Field { start: 2, end: 2 }, Field { start: 3, end: 5 }],
        split_fields(&to_chars("a--bc"))
    );
}

#[test]
fn version_is_told_in_two_lines() {
    assert_eq!(
        "0.1.4 g34019f8\nsupported defmt version: 3",
        version_text("0.1.4", "v0.1.4-12-g34019f8", "3")
    );
    assert_eq!("0.1.4 \nsupported defmt version: 3", version_text("0.1.4", "--", "3"));
}
