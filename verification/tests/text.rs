use nodestat::text::{
    chars_of, contains_seq, decimal_u32, find_char, lines_of, parse_i64, parse_u32, replace,
    split_char, split_ws, trim,
};

fn cv(s: &str) -> Vec<char> {
    chars_of(s)
}

fn s(v: &[char]) -> String {
    v.iter().collect()
}

fn sv(v: Vec<Vec<char>>) -> Vec<String> {
    v.into_iter().map(|c| s(&c)).collect()
}

#[test]
fn split_char_keeps_empty_fields() {
    assert_eq!(sv(split_char(&cv("a:b::c"), ':')), vec!["a", "b", "", "c"]);
    assert_eq!(sv(split_char(&cv(""), ':')), vec![""]);
    assert_eq!(sv(split_char(&cv(":"), ':')), vec!["", ""]);
}

#[test]
fn split_ws_drops_empty_tokens() {
    assert_eq!(sv(split_ws(&cv("  a \t b  "))), vec!["a", "b"]);
    assert!(sv(split_ws(&cv("   "))).is_empty());
}

#[test]
fn lines_handle_terminators_and_carriage_returns() {
    assert_eq!(sv(lines_of(&cv("a\nb\n"))), vec!["a", "b"]);
    assert_eq!(sv(lines_of(&cv("a\r\nb"))), vec!["a", "b"]);
    assert_eq!(sv(lines_of(&cv("a\n\nb"))), vec!["a", "", "b"]);
    assert!(sv(lines_of(&cv(""))).is_empty());
}

#[test]
fn replace_is_left_to_right_and_non_overlapping() {
    let r = replace(&cv("aaa"), &cv("aa"), &cv("b"));
    assert_eq!(s(&r), "ba");
    let r2 = replace(&cv("4Gn"), &cv("G"), &cv("000"));
    assert_eq!(s(&r2), "4000n");
}

#[test]
fn trim_removes_surrounding_whitespace_only() {
    assert_eq!(s(&trim(&cv("  a b \t"))), "a b");
    assert_eq!(s(&trim(&cv(""))), "");
}

#[test]
fn integer_parsing_matches_std_semantics() {
    assert_eq!(parse_u32(&cv("42")), Some(42));
    assert_eq!(parse_u32(&cv("+42")), Some(42));
    assert_eq!(parse_u32(&cv("4294967295")), Some(u32::MAX));
    assert_eq!(parse_u32(&cv("4294967296")), None);
    assert_eq!(parse_u32(&cv("-1")), None);
    assert_eq!(parse_u32(&cv("")), None);
    assert_eq!(parse_u32(&cv("4 2")), None);
    assert_eq!(parse_i64(&cv("-42")), Some(-42));
    assert_eq!(parse_i64(&cv("9223372036854775807")), Some(i64::MAX));
    assert_eq!(parse_i64(&cv("9223372036854775808")), None);
    assert_eq!(parse_i64(&cv("-9223372036854775808")), Some(i64::MIN));
}

#[test]
fn decimal_parse_truncates_and_saturates() {
    assert_eq!(decimal_u32(&cv("4000")), 4000);
    assert_eq!(decimal_u32(&cv("4.9")), 4);
    assert_eq!(decimal_u32(&cv(".5")), 0);
    assert_eq!(decimal_u32(&cv("-3")), 0);
    assert_eq!(decimal_u32(&cv("nonsense")), 0);
    assert_eq!(decimal_u32(&cv("99999999999")), u32::MAX);
}

#[test]
fn searching_finds_first_occurrences() {
    assert_eq!(find_char(&cv("a=b=c"), '='), Some(1));
    assert_eq!(find_char(&cv("abc"), '='), None);
    assert!(contains_seq(&cv("job.extern.x"), &cv(".extern")));
    assert!(!contains_seq(&cv("job"), &cv(".extern")));
    assert!(contains_seq(&cv("anything"), &cv("")));
}
