//! Clearance token tests.

use pow_gate_core::clearance::{issue, read_payload, unexpired, verify, Clearance};
use pow_gate_core::codec::{b64url, unb64url};
use pow_gate_core::mac::hmac;
use serde_json::Value;

const KEY: &[u8] = b"server-secret-key";
const PK: &[u8] = b"\x04fake-sec1-public-key-bytes-................";

/// A clearance as its JSON document.
fn to_json(c: &Clearance) -> Vec<u8> {
    let mut m = serde_json::Map::new();
    m.insert("pk".to_string(), Value::from(c.pk.as_str()));
    m.insert("iat".to_string(), Value::from(c.iat));
    m.insert("exp".to_string(), Value::from(c.exp));
    serde_json::to_vec(&Value::Object(m)).unwrap()
}

/// A payload text under its tag.
fn seal(payload: &str) -> String {
    let tag = b64url(&hmac(KEY, payload.as_bytes()));
    format!("{payload}.{tag}")
}

#[test]
fn issue_then_verify_roundtrips() {
    let token = issue(KEY, PK, 1000, 3600);
    let c = verify(KEY, &token, 1500).expect("valid");
    assert_eq!(c.iat, 1000);
    assert_eq!(c.exp, 4600);
    assert_eq!(c.pk_bytes().unwrap(), PK);
}

#[test]
fn clearance_rejects_expired() {
    let token = issue(KEY, PK, 1000, 3600);
    assert!(verify(KEY, &token, 99999).is_none());
}

#[test]
fn rejects_wrong_key() {
    let token = issue(KEY, PK, 1000, 3600);
    assert!(verify(b"other-key", &token, 1500).is_none());
}

#[test]
fn rejects_tampered_payload() {
    let token = issue(KEY, PK, 1000, 3600);
    let (_payload, tag) = token.split_once('.').unwrap();
    // forge a longer-lived payload but keep the old tag: HMAC mismatch
    let forged = Clearance { pk: b64url(PK), iat: 1000, exp: 1 << 40 };
    let forged_b64 = b64url(&to_json(&forged));
    assert!(verify(KEY, &format!("{forged_b64}.{tag}"), 1500).is_none());
}

#[test]
fn clearance_rejects_garbage() {
    assert!(verify(KEY, "no-dot", 1500).is_none());
    assert!(verify(KEY, "a.b.c", 1500).is_none());
}

#[test]
fn token_text_is_payload_dot_tag() {
    let token = issue(b"k", b"\x01\x02", 10, 5);
    let (payload, tag) = token.split_once('.').unwrap();
    let doc = unb64url(payload).unwrap();
    assert_eq!(doc, br#"{"pk":"AQI","iat":10,"exp":15}"#);
    assert_eq!(tag, b64url(&hmac(b"k", payload.as_bytes())));
}

#[test]
fn expiry_is_exclusive() {
    let token = issue(KEY, PK, 1000, 3600);
    assert!(verify(KEY, &token, 4599).is_some());
    assert!(verify(KEY, &token, 4600).is_none());
    // negative times and lifetimes are plain arithmetic
    let token = issue(KEY, PK, -10, 5);
    assert_eq!(verify(KEY, &token, -6).unwrap().exp, -5);
    assert!(verify(KEY, &token, -5).is_none());
    let token = issue(KEY, PK, 1000, -1);
    assert!(verify(KEY, &token, 1000).is_none());
    assert!(verify(KEY, &token, 998).is_some());
}

#[test]
fn an_empty_key_is_carried() {
    let token = issue(KEY, b"", 1000, 3600);
    let c = verify(KEY, &token, 1001).unwrap();
    assert_eq!(c.pk, "");
    assert_eq!(c.pk_bytes().unwrap(), b"");
}

#[test]
fn authentic_tokens_with_another_payload_are_refused() {
    // the tag is right, the payload is no clearance
    assert!(verify(KEY, &seal(&b64url(b"not json")), 0).is_none());
    assert!(verify(KEY, &seal(&b64url(br#"{"pk":"AQI","iat":10}"#)), 0).is_none());
    assert!(verify(KEY, &seal(&b64url(br#"{"pk":7,"iat":10,"exp":15}"#)), 0).is_none());
    assert!(verify(KEY, &seal(&b64url(br#"{"pk":"AQI","iat":"10","exp":15}"#)), 0).is_none());
    assert!(verify(KEY, &seal("!!"), 0).is_none());
    // a complete one is accepted, whatever the order of its fields
    let c = verify(KEY, &seal(&b64url(br#"{"exp":15,"iat":10,"pk":"AQI"}"#)), 0).unwrap();
    assert_eq!(c, Clearance { pk: "AQI".to_string(), iat: 10, exp: 15 });
}

#[test]
fn payloads_are_read_field_by_field() {
    let c = read_payload(br#"{"pk":"AQI","iat":-1,"exp":15,"extra":null}"#).unwrap();
    assert_eq!((c.pk.as_str(), c.iat, c.exp), ("AQI", -1, 15));
    let c = read_payload(br#"["AQI",-1,15]"#).unwrap();
    assert_eq!((c.pk.as_str(), c.iat, c.exp), ("AQI", -1, 15));
    assert!(read_payload(b"[]").is_none());
    assert!(read_payload(br#"["AQI",-1,15,0]"#).is_none());
    assert!(read_payload(br#"{"pk":"AQI","iat":1.5,"exp":15}"#).is_none());
    assert!(read_payload(br#"{"pk":"AQI","iat":1,"exp":99999999999999999999}"#).is_none());
    let c = Clearance { pk: String::new(), iat: 0, exp: 5 };
    assert!(unexpired(c.clone(), 4).is_some());
    assert!(unexpired(c, 5).is_none());
}

#[test]
fn undecodable_public_key_is_none() {
    let c = Clearance { pk: "***".to_string(), iat: 0, exp: 5 };
    assert!(c.pk_bytes().is_none());
}
