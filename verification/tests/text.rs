use protovcs::paths::clean_path;
use protovcs::text::{decimal_string, is_whitespace, normalize_separators, starts_with, trim};

#[test]
fn trim_removes_surrounding_whitespace() {
    assert_eq!(trim("  ref: refs/heads/main\n"), "ref: refs/heads/main");
    assert_eq!(trim("\t\r\n "), "");
    assert_eq!(trim("a b"), "a b");
    assert_eq!(trim("\u{a0}x\u{2003}"), "x");
}

#[test]
fn decimal_text() {
    assert_eq!(decimal_string(0), "0");
    assert_eq!(decimal_string(7), "7");
    assert_eq!(decimal_string(3333), "3333");
    assert_eq!(decimal_string(u64::MAX), "18446744073709551615");
}

#[test]
fn separators_become_forward_slashes() {
    assert_eq!(normalize_separators("dir\\sub\\f.txt"), "dir/sub/f.txt");
    assert_eq!(normalize_separators("a/b"), "a/b");
}

#[test]
fn clean_path_drops_verbatim_prefix() {
    assert_eq!(clean_path(r"\\?\C:\repo".to_string()), r"C:\repo");
    assert_eq!(clean_path("/home/user/repo".to_string()), "/home/user/repo");
    assert_eq!(clean_path(r"\\server\share".to_string()), r"\\server\share");
}

#[test]
fn prefix_test() {
    assert!(starts_with("ref: x", "ref: "));
    assert!(!starts_with("ref", "ref: "));
}

#[test]
fn whitespace_agrees_with_std_on_every_char() {
    for u in 0u32..=0x10FFFF {
        if let Some(c) = char::from_u32(u) {
            assert_eq!(is_whitespace(c), c.is_whitespace(), "U+{:04X}", u);
        }
    }
}
