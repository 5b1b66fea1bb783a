//! Byte-string helpers.

use pow_gate_core::bytes::{append_bytes, copy, lowered_byte, rfind_ci};

#[test]
fn last_occurrence_in_any_case() {
    assert_eq!(rfind_ci(b"abcABC", b"bc"), Some(4));
    assert_eq!(rfind_ci(b"abcABC", b"Ca"), Some(2));
    assert_eq!(rfind_ci(b"abc", b"abcd"), None);
    assert_eq!(rfind_ci(b"abc", b""), None);
    assert_eq!(rfind_ci(b"", b"a"), None);
    assert_eq!(rfind_ci(b"aaa", b"aa"), Some(1));
    assert_eq!(rfind_ci(b"\xc9", b"\xe9"), None);
}

#[test]
fn bytes_are_joined_and_lowered() {
    let mut v = copy(b"ab");
    append_bytes(&mut v, b"cd");
    assert_eq!(v, b"abcd");
    for b in 0..=255u8 {
        assert_eq!(lowered_byte(b), b.to_ascii_lowercase());
    }
}
