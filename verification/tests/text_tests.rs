use aish::json::{as_array_of, as_str_of, member_of, normalize_json, parse_json_opt, quote, JsonNode};
use aish::text::{
    char_len, decimal_chars, eq_ignore_ascii_case, find_seq, parse_int, parse_unsigned_chars, signed_decimal_chars,
    split_whitespace, trim_chars, utf8_length, IntErrorKind,
};

fn cs(s: &str) -> Vec<char> {
    s.chars().collect()
}

fn st(v: &[char]) -> String {
    v.iter().collect()
}

#[test]
fn integers_parse_like_str_parse() {
    assert_eq!(parse_int(&cs("42"), 100), Ok(42));
    assert_eq!(parse_int(&cs("+7"), 100), Ok(7));
    assert_eq!(parse_int(&cs(""), 100), Err(IntErrorKind::Empty));
    assert_eq!(parse_int(&cs("+"), 100), Err(IntErrorKind::InvalidDigit));
    assert_eq!(parse_int(&cs("-1"), 100), Err(IntErrorKind::InvalidDigit));
    assert_eq!(parse_int(&cs("101"), 100), Err(IntErrorKind::PosOverflow));
    assert_eq!(parse_int(&cs("4294967296"), 4294967295), Err(IntErrorKind::PosOverflow));
    assert_eq!(parse_unsigned_chars(&cs("12"), 100), Some(12));
    assert_eq!(parse_unsigned_chars(&cs("1a"), 100), None);
}

#[test]
fn decimals_are_written_back() {
    assert_eq!(st(&decimal_chars(0)), "0");
    assert_eq!(st(&decimal_chars(18446744073709551615)), "18446744073709551615");
    assert_eq!(st(&signed_decimal_chars(-9223372036854775808)), "-9223372036854775808");
    assert_eq!(st(&signed_decimal_chars(17)), "17");
}

#[test]
fn whitespace_and_case() {
    assert_eq!(st(&trim_chars(&cs(" \t a b \n"))), "a b");
    let words: Vec<String> = split_whitespace(&cs("  a  bc\td ")).iter().map(|w| st(w)).collect();
    assert_eq!(words, vec!["a", "bc", "d"]);
    assert!(eq_ignore_ascii_case(&cs("GeMiNi"), &cs("gemini")));
    assert!(!eq_ignore_ascii_case(&cs("É"), &cs("é")));
    assert_eq!(find_seq(&cs("abcabc"), 1, &cs("bc")), Some(1));
    assert_eq!(find_seq(&cs("abc"), 0, &cs("x")), None);
}

#[test]
fn utf8_lengths() {
    assert_eq!(char_len('a'), 1);
    assert_eq!(char_len('é'), 2);
    assert_eq!(char_len('日'), 3);
    assert_eq!(char_len('😀'), 4);
    assert_eq!(utf8_length(&cs("aé日😀")), 10);
}

#[test]
fn json_values_are_read() {
    let v = parse_json_opt(r#"{"a": "x", "b": [1, "y"], "c": null}"#);
    assert!(matches!(v, Some(JsonNode::Object(_))));
    assert_eq!(as_str_of(&member_of(&v, "a")), Some("x".to_string()));
    assert_eq!(as_array_of(&member_of(&v, "b")), Some(vec!["1".to_string(), "\"y\"".to_string()]));
    assert_eq!(as_str_of(&member_of(&v, "c")), None);
    assert_eq!(member_of(&v, "zz"), None);
    assert!(parse_json_opt("{oops").is_none());
    assert_eq!(normalize_json(r#"{ "b" : 1 , "a" : 2 }"#), Some(r#"{"a":2,"b":1}"#.to_string()));
    assert_eq!(quote("a\"b\n"), "\"a\\\"b\\n\"".to_string());
}
