use rate_mirrors::arith::{isqrt, pow_le, tenth_root_of_ninth_power};
use rate_mirrors::strutil::{
    chars_of, join_strings, parse_i64, parse_u64, replace_chars, split_chars, split_lines,
    string_from_chars, trim,
};

fn cv(s: &str) -> Vec<char> {
    chars_of(s)
}

fn s(v: &Vec<char>) -> String {
    string_from_chars(v)
}

#[test]
fn trim_strips_ascii_whitespace() {
    assert_eq!(s(&trim(&cv("  \t hello \r\n"))), "hello");
    assert_eq!(s(&trim(&cv(""))), "");
}

#[test]
fn replace_replaces_every_occurrence() {
    let r = replace_chars(&cv("a$arch-b$arch"), &cv("$arch"), &cv(""));
    assert_eq!(s(&r), "a-b");
    let r = replace_chars(&cv("xx"), &cv("x"), &cv("yy"));
    assert_eq!(s(&r), "yyyy");
}

#[test]
fn split_keeps_empty_fields() {
    let parts = split_chars(&cv("a\tb\t"), &cv("\t"));
    let parts: Vec<String> = parts.iter().map(|p| s(p)).collect();
    assert_eq!(parts, vec!["a", "b", ""]);
}

#[test]
fn lines_drop_trailing_newline_and_cr() {
    let ls = split_lines(&cv("a\r\nb\nc\n"));
    let ls: Vec<String> = ls.iter().map(|l| s(l)).collect();
    assert_eq!(ls, vec!["a", "b", "c"]);
}

#[test]
fn parse_u64_accepts_plain_numbers() {
    assert_eq!(parse_u64(&cv("42")), Some(42));
    assert_eq!(parse_u64(&cv("+42")), Some(42));
    assert_eq!(parse_u64(&cv("18446744073709551615")), Some(u64::MAX));
    assert_eq!(parse_u64(&cv("18446744073709551616")), None);
    assert_eq!(parse_u64(&cv("")), None);
    assert_eq!(parse_u64(&cv("4x2")), None);
}

#[test]
fn parse_i64_handles_signs() {
    assert_eq!(parse_i64(&cv("-17")), Some(-17));
    assert_eq!(parse_i64(&cv("17")), Some(17));
    assert_eq!(parse_i64(&cv("9223372036854775807")), Some(i64::MAX));
    assert_eq!(parse_i64(&cv("-9223372036854775808")), Some(i64::MIN));
    assert_eq!(parse_i64(&cv("9223372036854775808")), None);
    assert_eq!(parse_i64(&cv("--1")), None);
}

#[test]
fn join_inserts_separator_between_parts() {
    let parts = vec!["a".to_string(), "b".to_string(), "c".to_string()];
    assert_eq!(join_strings(&parts, ", "), "a, b, c");
    assert_eq!(join_strings(&vec![], ", "), "");
}

#[test]
fn isqrt_rounds_down() {
    assert_eq!(isqrt(0), 0);
    assert_eq!(isqrt(15), 3);
    assert_eq!(isqrt(16), 4);
    assert_eq!(isqrt(u64::MAX as u128), 4294967295);
}

#[test]
fn pow_le_compares_exactly() {
    assert!(pow_le(2, 10, 1024));
    assert!(!pow_le(2, 10, 1023));
    assert!(pow_le(0, 5, 0));
    assert!(pow_le(7, 0, 1));
}

#[test]
fn tenth_root_matches_the_real_exponent() {
    // 1000^0.9 is just above 501
    assert_eq!(tenth_root_of_ninth_power(1000), 501);
    assert_eq!(tenth_root_of_ninth_power(1), 1);
    // 16000^0.9 is just above 6034
    let r = tenth_root_of_ninth_power(16000);
    assert!(r >= 6000 && r <= 6100, "root was {}", r);
}
