//! Tests for the base64url / hex helpers.

use pow_gate_core::codec::{b64url, hex, unb64url};

#[test]
fn b64url_roundtrips() {
    let data = b"\x00\x01\xfe\xff hello?";
    assert_eq!(unb64url(&b64url(data)).unwrap(), data);
}

#[test]
fn b64url_is_url_safe_unpadded() {
    let s = b64url(&[0xff, 0xff, 0xff, 0xfb, 0xff]);
    assert!(!s.contains('='));
    assert!(!s.contains('+'));
    assert!(!s.contains('/'));
}

#[test]
fn unb64url_rejects_garbage() {
    assert!(unb64url("not base64 !!!").is_none());
}

#[test]
fn hex_is_lowercase_fixed_width() {
    assert_eq!(hex(&[0x00, 0x0f, 0xa0, 0xff]), "000fa0ff");
}

#[test]
fn b64url_has_known_values() {
    assert_eq!(b64url(b""), "");
    assert_eq!(b64url(b"f"), "Zg");
    assert_eq!(b64url(b"fo"), "Zm8");
    assert_eq!(b64url(b"foo"), "Zm9v");
    assert_eq!(b64url(&[0xfb, 0xff]), "-_8");
}

#[test]
fn b64url_length_and_alphabet() {
    for n in 0..64usize {
        let data: Vec<u8> = (0..n).map(|i| (i * 37 + 11) as u8).collect();
        let s = b64url(&data);
        assert_eq!(s.len(), (4 * n + 2) / 3);
        assert!(s.bytes().all(|b| b.is_ascii_alphanumeric() || b == b'-' || b == b'_'));
        assert_eq!(unb64url(&s).unwrap(), data);
    }
}

#[test]
fn unb64url_takes_canonical_text_alone() {
    assert!(unb64url("Zg==").is_none());
    assert!(unb64url("Zh").is_none());
    assert!(unb64url("Z").is_none());
    assert!(unb64url("+/8").is_none());
    assert_eq!(unb64url("").unwrap(), b"");
}

#[test]
fn hex_separates_different_bytes() {
    assert_eq!(hex(&[]), "");
    for a in 0..=255u8 {
        assert_eq!(hex(&[a]), format!("{a:02x}"));
    }
}
