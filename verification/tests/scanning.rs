//! Tests for the string scanners: the fallible combinators and the
//! infallible ones.

use klug::scan;
use klug::utils;

#[test]
fn extract_one_digit() {
    assert_eq!(utils::extract_digits("1+2"), Ok(("1", "+2")));
}

#[test]
fn extract_multiple_digits() {
    assert_eq!(utils::extract_digits("10-20"), Ok(("10", "-20")));
}

#[test]
fn extract_digits_with_no_remainder() {
    assert_eq!(utils::extract_digits("100"), Ok(("100", "")));
}

#[test]
fn do_not_extract_digits_when_input_is_invalid() {
    assert_eq!(utils::extract_digits("abcd"), Err("expected digit".to_string()));
}

#[test]
fn cannot_extract_ident_beginning_with_number() {
    assert_eq!(utils::extract_ident("123abc"), Err("expected identifier".to_string()));
}

#[test]
fn extract_ident_with_alphanumerics() {
    assert_eq!(utils::extract_ident("abc123 rest"), Ok(("abc123", " rest")));
}

#[test]
fn extract_whitespace_runs() {
    assert_eq!(utils::extract_whitespace("  \nx"), ("  \n", "x"));
}

#[test]
fn extract_whitespace1_demands_space() {
    assert_eq!(utils::extract_whitespace1("x"), Err("expected a space".to_string()));
}

#[test]
fn tag_strips_prefix() {
    assert_eq!(utils::tag("let", "let a"), Ok(" a"));
}

#[test]
fn tag_reports_mismatch() {
    assert_eq!(utils::tag("let", "fn a"), Err("expected let".to_string()));
}

#[test]
fn do_not_extract_anything_from_empty_input() {
    assert_eq!(scan::extract_digits(""), ("", ""));
}

#[test]
fn utils_extract_digits_with_no_remainder() {
    assert_eq!(scan::extract_digits("100"), ("100", ""));
}

#[test]
fn extract_plus() {
    assert_eq!(scan::extract_op("+2"), ("+", "2"));
}

#[test]
fn extract_minus() {
    assert_eq!(scan::extract_op("-10"), ("-", "10"));
}

#[test]
fn extract_star() {
    assert_eq!(scan::extract_op("*3"), ("*", "3"));
}

#[test]
fn extract_slash() {
    assert_eq!(scan::extract_op("/4"), ("/", "4"));
}

#[test]
fn extract_alphabetic_ident() {
    assert_eq!(scan::extract_ident("abcdEFG stop"), ("abcdEFG", " stop"));
}

#[test]
fn extract_alphanumeric_ident() {
    assert_eq!(scan::extract_ident("foobar1()"), ("foobar1", "()"));
}

#[test]
fn utils_cannot_extract_ident_beginning_with_number() {
    assert_eq!(scan::extract_ident("123abc"), ("", "123abc"));
}
