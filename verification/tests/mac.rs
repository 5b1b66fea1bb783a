//! MAC tests.

use pow_gate_core::codec::hex;
use pow_gate_core::mac::{ct_eq, hmac};

#[test]
fn hmac_sha256_known_answer() {
    // RFC 4231, test case 2
    let tag = hmac(b"Jefe", b"what do ya want for nothing?");
    assert_eq!(
        hex(&tag),
        "5bdcc146bf60754e6a042426089575c75a003f089d2739839dec58b964ec3843"
    );
    assert_ne!(hmac(b"Jefe", b""), hmac(b"Jeff", b""));
}

#[test]
fn equality_of_byte_strings() {
    assert!(ct_eq(b"", b""));
    assert!(ct_eq(b"abc", b"abc"));
    assert!(!ct_eq(b"abc", b"abd"));
    assert!(!ct_eq(b"abc", b"ab"));
    assert!(!ct_eq(b"", b"a"));
}
