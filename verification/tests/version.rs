use nixos_needsreboot::version::{
    any_segment_greater, is_segment_greater, needs_upgrade, normalize,
};

fn pair(a: &str, b: &str) -> (String, String) {
    (a.to_string(), b.to_string())
}

fn segment(a: &str, b: &str) -> bool {
    is_segment_greater(&a.chars().collect(), &b.chars().collect())
}

fn texts(parts: &[&str]) -> Vec<Vec<char>> {
    parts.iter().map(|p| p.chars().collect()).collect()
}

#[test]
fn equal_versions_need_no_upgrade() {
    for v in ["", "6.1.2", "250-rc1", "253.5", "not a version"] {
        assert!(!needs_upgrade(v, v));
    }
}

#[test]
fn newer_last_segment_needs_upgrade() {
    assert!(needs_upgrade("5.10.2", "5.10.3"));
}

#[test]
fn older_last_segment_needs_no_upgrade() {
    assert!(!needs_upgrade("5.10.3", "5.10.2"));
}

#[test]
fn prerelease_on_old_side_is_normalized() {
    assert_eq!(normalize("250-rc1", "251"), pair("250.1", "251.0"));
    assert!(needs_upgrade("250-rc1", "251"));
}

#[test]
fn prerelease_on_new_side_is_normalized() {
    assert_eq!(normalize("251", "252-rc1"), pair("251.0", "252.1"));
    assert!(needs_upgrade("251", "252-rc1"));
}

#[test]
fn prerelease_of_the_same_release_counts_as_newer() {
    assert_eq!(normalize("251", "251-rc1"), pair("251.0", "251.1"));
    assert!(needs_upgrade("251", "251-rc1"));
    assert!(!needs_upgrade("251-rc1", "251"));
}

#[test]
fn prerelease_on_both_sides_needs_upgrade() {
    assert!(needs_upgrade("250-rc1", "250-rc2"));
    assert!(!needs_upgrade("250-rc2", "250-rc1"));
}

#[test]
fn prerelease_on_both_sides_of_equal_length_is_left_as_it_is() {
    assert_eq!(normalize("250-rc1", "250-rc2"), pair("250-rc1", "250-rc2"));
}

#[test]
fn prerelease_on_both_sides_of_other_length_is_normalized() {
    assert_eq!(normalize("250-rc1", "250-rc10"), pair("250.1", "250.10"));
    assert!(needs_upgrade("250-rc1", "250-rc10"));
    assert_eq!(normalize("6.1-rc7", "6.10-rc1"), pair("6.1.7", "6.10.1"));
}

#[test]
fn versions_of_equal_length_are_left_as_they_are() {
    assert_eq!(normalize("5.10.2", "5.10.3"), pair("5.10.2", "5.10.3"));
    assert_eq!(normalize("-rc", "251"), pair("-rc", "251"));
}

#[test]
fn versions_without_marker_are_left_as_they_are() {
    assert_eq!(normalize("5.9", "5.10"), pair("5.9", "5.10"));
    assert_eq!(normalize("", "1"), pair("", "1"));
}

#[test]
fn length_is_counted_in_bytes() {
    // Two characters against three, but three bytes each.
    assert_eq!(normalize("é1", "-rc"), pair("é1", "-rc"));
    // Three characters each, but four bytes against three.
    assert_eq!(normalize("é.1", "-rc"), pair("é.1.0", "."));
}

#[test]
fn every_marker_is_rewritten() {
    assert_eq!(normalize("1-rc2-rc3", "2"), pair("1.2.3", "2.0"));
}

#[test]
fn an_older_segment_does_not_hide_a_newer_one_after_it() {
    assert!(needs_upgrade("2.5.1", "1.5.2"));
    assert!(needs_upgrade("5.10.3", "4.10.4"));
}

#[test]
fn segments_beyond_the_shorter_version_are_not_looked_at() {
    assert!(!needs_upgrade("1.2", "1.2.1"));
    assert!(!needs_upgrade("1.2.1", "1.2"));
    assert!(needs_upgrade("1.2.9", "1.3"));
}

#[test]
fn numbers_are_ordered_by_value() {
    assert!(needs_upgrade("9", "10"));
    assert!(!needs_upgrade("10", "9"));
    assert!(needs_upgrade("5.9", "5.10"));
    assert!(!needs_upgrade("5.10", "5.9"));
    assert!(needs_upgrade("6.1.2", "6.1.10"));
    assert!(needs_upgrade("253.99", "254.1"));
    assert!(needs_upgrade("99", "100"));
}

#[test]
fn zeros_in_front_of_a_number_do_not_count() {
    assert!(!needs_upgrade("5.10", "5.010"));
    assert!(!needs_upgrade("5.010", "5.10"));
    assert!(needs_upgrade("5.09", "5.10"));
    assert!(needs_upgrade("5.9", "5.010"));
    assert!(!needs_upgrade("1.0", "1.000"));
}

#[test]
fn numbers_of_any_length_are_ordered_by_value() {
    assert!(needs_upgrade("1.99999999999999999999999999", "1.100000000000000000000000000"));
    assert!(!needs_upgrade("1.100000000000000000000000000", "1.99999999999999999999999999"));
    assert!(needs_upgrade("18446744073709551615", "18446744073709551616"));
}

#[test]
fn segments_that_are_not_numbers_are_ordered_as_text() {
    assert!(segment("rc2", "rc1"));
    assert!(!segment("rc1", "rc2"));
    // As texts: 'r' comes after the digits, and "1" comes before "9".
    assert!(segment("rc1", "10"));
    assert!(!segment("10rc", "9rc"));
    assert!(segment("9rc", "10rc"));
    assert!(segment("9", "10a"));
    // An empty segment is no number, and comes before every other text.
    assert!(segment("0", ""));
    assert!(!segment("", "0"));
    assert!(!segment("", ""));
    assert!(needs_upgrade("1.", "1.0"));
}

#[test]
fn segment_order_agrees_with_the_values_of_numbers() {
    for a in 0..130u32 {
        for b in 0..130u32 {
            assert_eq!(segment(&a.to_string(), &b.to_string()), a > b);
            assert_eq!(segment(&format!("{a:04}"), &b.to_string()), a > b);
        }
    }
}

#[test]
fn any_segment_greater_stops_at_the_shorter_list() {
    assert!(any_segment_greater(&texts(&["5", "10", "2"]), &texts(&["5", "10", "3"])));
    assert!(!any_segment_greater(&texts(&["5", "10", "3"]), &texts(&["5", "10", "2"])));
    assert!(!any_segment_greater(&texts(&["5"]), &texts(&["5", "10"])));
    assert!(!any_segment_greater(&texts(&[]), &texts(&["5"])));
    assert!(any_segment_greater(&texts(&["2", "1"]), &texts(&["1", "2"])));
    assert!(any_segment_greater(&texts(&["5", "9"]), &texts(&["5", "10"])));
    assert!(!any_segment_greater(&texts(&["5", "10"]), &texts(&["5", "9"])));
}
