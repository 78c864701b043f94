use httpdispatcher::text::{chars_of, replace_all, starts_with, str_eq, strip_prefixes, trim};

#[test]
fn trim_removes_unicode_white_space() {
    assert_eq!(trim("  a b \t\n"), "a b");
    assert_eq!(trim("\u{3000}x\u{a0}"), "x");
    assert_eq!(trim("   "), "");
    assert_eq!(trim(""), "");
    assert_eq!(trim(trim(" \u{2003}q ").as_str()), trim(" \u{2003}q "));
}

#[test]
fn replace_all_is_left_to_right_without_overlap() {
    assert_eq!(replace_all("aaaa", "aa", "b"), "bb");
    assert_eq!(replace_all("abcabc", "bc", "X"), "aXaX");
    assert_eq!(replace_all("abc", "zz", "X"), "abc");
    assert_eq!(replace_all("héllo héllo", "é", "e"), "hello hello");
    assert_eq!(replace_all("aaa", "aa", "a"), "aa");
}

#[test]
fn strip_prefixes_removes_repetitions() {
    assert_eq!(strip_prefixes("file://file://x", "file://"), "x");
    assert_eq!(strip_prefixes("x", "file://"), "x");
    assert_eq!(strip_prefixes("file://", "file://"), "");
    assert_eq!(strip_prefixes("abc", ""), "abc");
    assert_eq!(strip_prefixes("abc", ""), "abc".trim_start_matches(""));
}

#[test]
fn small_helpers() {
    assert!(starts_with("file:///tmp/t", "file://"));
    assert!(!starts_with("fil", "file://"));
    assert!(str_eq("ab", "ab"));
    assert!(!str_eq("ab", "abc"));
    assert_eq!(chars_of("hé"), vec!['h', 'é']);
}
