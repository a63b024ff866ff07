use kaval::text::{lex_le_exec, str_contains_ci, str_eq_ci, str_starts_with_ci, u64_to_string};
use kaval::truncate;

#[test]
fn decimal_rendering() {
    assert_eq!(u64_to_string(0).as_str(), "0");
    assert_eq!(u64_to_string(7).as_str(), "7");
    assert_eq!(u64_to_string(42).as_str(), "42");
    assert_eq!(u64_to_string(1000).as_str(), "1000");
    assert_eq!(u64_to_string(65535).as_str(), "65535");
    assert_eq!(u64_to_string(u64::MAX).as_str(), "18446744073709551615");
}

#[test]
fn truncate_keeps_short_strings() {
    assert_eq!(truncate("hello", 10).as_str(), "hello");
    assert_eq!(truncate("hello", 5).as_str(), "hello");
}

#[test]
fn truncate_marks_elision() {
    assert_eq!(truncate("abcdefghijk", 5).as_str(), "abcd…");
    assert_eq!(truncate("xy", 1).as_str(), "…");
}

#[test]
fn contains_ci_cases() {
    assert!(str_contains_ci("Google Chrome Helper", "chrome"));
    assert!(str_contains_ci("postgres", "POSTGRES"));
    assert!(str_contains_ci("anything", ""));
    assert!(!str_contains_ci("", "x"));
    assert!(!str_contains_ci("redis", "redis-server"));
}

#[test]
fn eq_ci_cases() {
    assert!(str_eq_ci("Redis", "redis"));
    assert!(!str_eq_ci("redis", "rediss"));
    assert!(str_eq_ci("", ""));
}

#[test]
fn starts_with_ci_cases() {
    assert!(str_starts_with_ci("Code - Insiders", "code - "));
    assert!(!str_starts_with_ci("Xcode - thing", "code - "));
}

#[test]
fn lexicographic_order() {
    let a: Vec<char> = "alpha".chars().collect();
    let b: Vec<char> = "beta".chars().collect();
    assert!(lex_le_exec(&a, &b));
    assert!(!lex_le_exec(&b, &a));
    assert!(lex_le_exec(&a, &a));
    let empty: Vec<char> = Vec::new();
    assert!(lex_le_exec(&empty, &a));
    let prefix: Vec<char> = "alp".chars().collect();
    assert!(lex_le_exec(&prefix, &a));
    assert!(!lex_le_exec(&a, &prefix));
}
