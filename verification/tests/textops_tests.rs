//! Tests of the verified text helpers.

use cargo_lichking::textops::str_cmp;
use cargo_lichking::textops::str_contains;
use cargo_lichking::textops::str_eq;
use cargo_lichking::textops::trim;

#[test]
fn str_eq_compares_characters() {
    assert!(str_eq("abc", "abc"));
    assert!(!str_eq("abc", "abd"));
    assert!(!str_eq("abc", "ab"));
    assert!(str_eq("", ""));
}

#[test]
fn str_cmp_is_lexicographic() {
    assert_eq!(str_cmp("a", "b"), -1);
    assert_eq!(str_cmp("b", "a"), 1);
    assert_eq!(str_cmp("abc", "abc"), 0);
    assert_eq!(str_cmp("ab", "abc"), -1);
    assert_eq!(str_cmp("abd", "abc"), 1);
    assert_eq!(str_cmp("1.10", "1.2"), -1);
}

#[test]
fn str_contains_finds_substrings() {
    assert!(str_contains("license-mit", "license"));
    assert!(str_contains("license-mit", "mit"));
    assert!(str_contains("license-mit", ""));
    assert!(!str_contains("license-mit", "apache"));
    assert!(!str_contains("mit", "license"));
}

#[test]
fn trim_removes_surrounding_whitespace() {
    assert_eq!(trim("  MIT  "), "MIT");
    assert_eq!(trim("\t\nZlib\r\n"), "Zlib");
    assert_eq!(trim("no-change"), "no-change");
    assert_eq!(trim("   "), "");
    assert_eq!(trim("a b"), "a b");
}
