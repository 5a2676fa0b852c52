use nixos_needsreboot::text::{
    all_digits, contains_chars, is_greater, join_chars, matches_at, replace_chars, same_text, split_chars,
    to_chars, to_string,
};

fn chars(s: &str) -> Vec<char> {
    s.chars().collect()
}

fn texts(parts: &[&str]) -> Vec<Vec<char>> {
    parts.iter().map(|p| chars(p)).collect()
}

#[test]
fn to_chars_keeps_every_character_in_order() {
    assert_eq!(to_chars("6.1-rc2"), vec!['6', '.', '1', '-', 'r', 'c', '2']);
    assert_eq!(to_chars(""), Vec::<char>::new());
    assert_eq!(to_chars("é/ü"), vec!['é', '/', 'ü']);
}

#[test]
fn to_string_writes_the_characters_back() {
    assert_eq!(to_string(&vec!['a', 'b']), "ab");
    assert_eq!(to_string(&Vec::new()), "");
    assert_eq!(to_string(&to_chars("/nix/store/é")), "/nix/store/é");
}

#[test]
fn split_gives_one_segment_more_than_separators() {
    assert_eq!(split_chars(&chars("a/b/c"), '/'), texts(&["a", "b", "c"]));
    assert_eq!(split_chars(&chars(""), '/'), texts(&[""]));
    assert_eq!(split_chars(&chars("abc"), '/'), texts(&["abc"]));
}

#[test]
fn split_keeps_empty_segments() {
    assert_eq!(split_chars(&chars("/nix//store/"), '/'), texts(&["", "nix", "", "store", ""]));
    assert_eq!(split_chars(&chars("-"), '-'), texts(&["", ""]));
}

#[test]
fn split_agrees_with_std() {
    for s in ["", "/", "a", "/a", "a/", "//", "/nix/store/x-y/lib", "a/b//c/"] {
        let expected: Vec<Vec<char>> = s.split('/').map(|p| p.chars().collect()).collect();
        assert_eq!(split_chars(&chars(s), '/'), expected);
    }
}

#[test]
fn join_puts_the_separator_between_segments() {
    let parts = texts(&["", "nix", "store", "hash", "lib"]);
    assert_eq!(to_string(&join_chars(&parts, 1, 4, '/')), "nix/store/hash");
    assert_eq!(to_string(&join_chars(&parts, 0, 5, '/')), "/nix/store/hash/lib");
    assert_eq!(to_string(&join_chars(&parts, 2, 3, '/')), "store");
    assert_eq!(to_string(&join_chars(&parts, 2, 2, '/')), "");
}

#[test]
fn join_undoes_split() {
    for s in ["", "-", "a-b", "-a--b-", "/nix/store/abc-def-253.5"] {
        let parts = split_chars(&chars(s), '-');
        assert_eq!(to_string(&join_chars(&parts, 0, parts.len(), '-')), s);
    }
}

#[test]
fn matches_at_tells_the_position() {
    let s = chars("250-rc1");
    let rc = chars("-rc");
    assert!(matches_at(&s, &rc, 3));
    assert!(!matches_at(&s, &rc, 2));
    assert!(!matches_at(&s, &rc, 5));
    assert!(!matches_at(&s, &rc, 7));
    assert!(!matches_at(&s, &rc, usize::MAX));
    assert!(matches_at(&s, &chars(""), 7));
}

#[test]
fn contains_finds_the_pattern_anywhere() {
    let rc = chars("-rc");
    assert!(contains_chars(&chars("250-rc1"), &rc));
    assert!(contains_chars(&chars("-rc"), &rc));
    assert!(contains_chars(&chars("6.1-rc"), &rc));
    assert!(!contains_chars(&chars("251"), &rc));
    assert!(!contains_chars(&chars("-r"), &rc));
    assert!(!contains_chars(&chars("-r-c"), &rc));
    assert!(contains_chars(&chars(""), &chars("")));
}

#[test]
fn replace_rewrites_every_occurrence() {
    let rc = chars("-rc");
    let dot = chars(".");
    assert_eq!(to_string(&replace_chars(&chars("250-rc1"), &rc, &dot)), "250.1");
    assert_eq!(to_string(&replace_chars(&chars("-rc-rc"), &rc, &dot)), "..");
    assert_eq!(to_string(&replace_chars(&chars("251"), &rc, &dot)), "251");
    assert_eq!(to_string(&replace_chars(&chars("6-r-rc2"), &rc, &dot)), "6-r.2");
    assert_eq!(to_string(&replace_chars(&chars("aaa"), &chars("aa"), &chars("b"))), "ba");
    assert_eq!(to_string(&replace_chars(&chars("abc"), &chars(""), &dot)), "abc");
}

#[test]
fn replace_agrees_with_std() {
    for s in ["", "-rc", "250-rc1", "1-rc2-rc3", "--rc", "-r-rc-c", "rc-"] {
        assert_eq!(to_string(&replace_chars(&chars(s), &chars("-rc"), &chars("."))), s.replace("-rc", "."));
    }
}

#[test]
fn greater_is_the_lexicographic_order() {
    assert!(is_greater(&chars("3"), &chars("2")));
    assert!(!is_greater(&chars("2"), &chars("3")));
    assert!(!is_greater(&chars("2"), &chars("2")));
    assert!(is_greater(&chars("10"), &chars("1")));
    assert!(!is_greater(&chars("1"), &chars("10")));
    assert!(is_greater(&chars("9"), &chars("10")));
    assert!(!is_greater(&chars(""), &chars("")));
    assert!(is_greater(&chars("a"), &chars("")));
    assert!(!is_greater(&chars(""), &chars("a")));
}

#[test]
fn greater_agrees_with_std() {
    let samples = ["", "0", "1", "10", "2", "251", "250", "rc", "é", "z", "ü1", "é0"];
    for a in samples {
        for b in samples {
            assert_eq!(is_greater(&chars(a), &chars(b)), a > b);
        }
    }
}

#[test]
fn same_text_holds_of_equal_texts_only() {
    assert!(same_text(&chars("6.1.2"), &chars("6.1.2")));
    assert!(!same_text(&chars("6.1.2"), &chars("6.1.3")));
    assert!(!same_text(&chars("6.1.2"), &chars("6.1")));
    assert!(same_text(&chars(""), &chars("")));
}

#[test]
fn order_of_numbers_of_equal_digit_count_is_numeric() {
    for a in 0..120u32 {
        for b in 0..120u32 {
            let x = format!("{a:03}");
            let y = format!("{b:03}");
            assert_eq!(is_greater(&chars(&x), &chars(&y)), a > b);
        }
    }
}

#[test]
fn all_digits_holds_of_decimal_digits_only() {
    assert!(all_digits(&chars("0123456789")));
    assert!(all_digits(&chars("")));
    assert!(!all_digits(&chars("12a")));
    assert!(!all_digits(&chars("-1")));
    assert!(!all_digits(&chars("1.0")));
    assert!(!all_digits(&chars("/")));
    assert!(!all_digits(&chars(":")));
    assert!(!all_digits(&chars("١٢")));
}
