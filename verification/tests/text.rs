//! Text and number helpers, held against the standard library.

use pow_gate_core::number::{decimal_i64, decimal_u64, read_signed, read_unsigned};
use pow_gate_core::text::{chars, lowered, pieces, same, same_ignoring_case, string, trimmed, white_space};

fn parse_i64(s: &str) -> Option<i64> {
    read_signed(&chars(s))
}

fn parse_u64(s: &str) -> Option<u64> {
    read_unsigned(&chars(s), u64::MAX)
}

#[test]
fn white_space_is_that_of_char() {
    for c in '\0'..=char::MAX {
        assert_eq!(white_space(c), c.is_whitespace(), "{:x}", c as u32);
    }
}

#[test]
fn trimming_agrees_with_std() {
    for s in ["", " ", "a", " a", "a ", "\t a b \n", "\u{3000}x\u{a0}", "\u{85}", "\u{200b}x"] {
        assert_eq!(string(trimmed(&chars(s))), s.trim());
    }
}

#[test]
fn splitting_agrees_with_std() {
    for s in ["", ":", "a", "a:b", ":a:", "::", "a::b", "\u{e9}:\u{1f600}"] {
        let c = chars(s);
        let mine: Vec<String> = pieces(&c, ':').into_iter().map(string).collect();
        let theirs: Vec<String> = s.split(':').map(str::to_string).collect();
        assert_eq!(mine, theirs);
    }
}

#[test]
fn lower_case_is_ascii_alone() {
    for s in ["ABC xyz", "\u{c9}cole", "[\\]^_`{", "Z@A"] {
        assert_eq!(string(&lowered(&chars(s))), s.to_ascii_lowercase());
    }
    assert!(same_ignoring_case("Cookie", "cOOKIE"));
    assert!(!same_ignoring_case("\u{c9}", "\u{e9}"));
    assert!(same("a\u{e9}", "a\u{e9}"));
    assert!(!same("a", "b"));
}

#[test]
fn decimals_agree_with_std() {
    for n in [0i64, 1, 9, 10, 99, 100, -1, -10, i64::MAX, i64::MIN, 1234567890123] {
        assert_eq!(decimal_i64(n), n.to_string());
        assert_eq!(parse_i64(&n.to_string()), Some(n));
    }
    for n in [0u64, 7, 10, u64::MAX] {
        assert_eq!(decimal_u64(n), n.to_string());
        assert_eq!(parse_u64(&n.to_string()), Some(n));
    }
}

#[test]
fn number_parsing_agrees_with_std() {
    for s in [
        "", "+", "-", "0", "-0", "+0", "00", "1", "+1", "-1", "--1", "+-1", "1 ", " 1", "1a", "\u{661}",
        "9223372036854775807", "9223372036854775808", "-9223372036854775808", "-9223372036854775809",
        "18446744073709551615", "18446744073709551616", "000000000000000000000000000001",
        "99999999999999999999999999999999999999",
    ] {
        assert_eq!(parse_i64(s), s.parse::<i64>().ok(), "{s:?}");
        assert_eq!(parse_u64(s), s.parse::<u64>().ok(), "{s:?}");
    }
}
