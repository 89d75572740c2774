//! The character-level utilities underneath the parser and serializer.

use rhttp::text::{
    eq_ignore_case, find_char, find_sub, parse_usize_dec, parse_usize_hex, split_char,
    split_lines, starts_with, str_eq, str_lt, trim, u32_to_string, u64_to_string, usize_to_string,
};

#[test]
fn split_char_keeps_empty_pieces() {
    let pieces = split_char("a,,b,", ',');
    let got: Vec<&str> = pieces.iter().map(|s| s.as_str()).collect();
    assert_eq!(got, vec!["a", "", "b", ""]);

    let single = split_char("", ',');
    let got: Vec<&str> = single.iter().map(|s| s.as_str()).collect();
    assert_eq!(got, vec![""]);
}

#[test]
fn split_lines_handles_crlf_and_final_line() {
    let lines = split_lines("a\r\nb\nc");
    let got: Vec<&str> = lines.iter().map(|s| s.as_str()).collect();
    assert_eq!(got, vec!["a", "b", "c"]);

    let lines = split_lines("a\n\nb\n");
    let got: Vec<&str> = lines.iter().map(|s| s.as_str()).collect();
    assert_eq!(got, vec!["a", "", "b"]);

    assert_eq!(split_lines("").len(), 0);
}

#[test]
fn trim_strips_surrounding_whitespace() {
    assert_eq!(trim("  hello \t").as_str(), "hello");
    assert_eq!(trim("\r\n").as_str(), "");
    assert_eq!(trim("inner space kept").as_str(), "inner space kept");
}

#[test]
fn case_insensitive_comparison() {
    assert!(eq_ignore_case("Keep-Alive", "keep-alive"));
    assert!(eq_ignore_case("KEEP-ALIVE", "keep-alive"));
    assert!(!eq_ignore_case("close", "keep-alive"));
    assert!(!eq_ignore_case("keep-alive2", "keep-alive"));
}

#[test]
fn decimal_parsing_matches_std() {
    assert_eq!(parse_usize_dec("0"), Some(0));
    assert_eq!(parse_usize_dec("32768"), Some(32768));
    assert_eq!(parse_usize_dec("+5"), Some(5));
    assert_eq!(parse_usize_dec(""), None);
    assert_eq!(parse_usize_dec("five"), None);
    assert_eq!(parse_usize_dec("12x"), None);
    assert_eq!(parse_usize_dec("99999999999999999999999999"), None);
}

#[test]
fn hex_parsing_matches_std() {
    assert_eq!(parse_usize_hex("a"), Some(10));
    assert_eq!(parse_usize_hex("FF"), Some(255));
    assert_eq!(parse_usize_hex("10"), Some(16));
    assert_eq!(parse_usize_hex("g"), None);
    assert_eq!(parse_usize_hex(""), None);
}

#[test]
fn number_rendering() {
    assert_eq!(usize_to_string(0).as_str(), "0");
    assert_eq!(usize_to_string(42).as_str(), "42");
    assert_eq!(usize_to_string(32768).as_str(), "32768");
    assert_eq!(u32_to_string(507).as_str(), "507");
    assert_eq!(u64_to_string(10).as_str(), "10");
}

#[test]
fn searching_and_ordering() {
    assert_eq!(find_char("key: value", ':'), Some(3));
    assert_eq!(find_char("no colon", ':'), None);
    assert_eq!(find_sub("multipart/form-data; boundry=abc", "boundry="), Some(21));
    assert_eq!(find_sub("text/plain", "boundry="), None);
    assert!(starts_with("multipart/form-data; x", "multipart/form-data"));
    assert!(!starts_with("multi", "multipart"));
    assert!(str_eq("same", "same"));
    assert!(!str_eq("same", "Same"));
    assert!(str_lt("Alpha", "Zulu"));
    assert!(!str_lt("Zulu", "Alpha"));
    assert!(str_lt("ab", "abc"));
}
