//! Per-request proof tests. Constructs real ECDSA signatures with p256 (the same
//! primitive WebCrypto produces in the browser).

use p256::ecdsa::{signature::Signer, Signature, SigningKey, VerifyingKey};
use pow_gate_core::request_proof::{fresh, message, verify};
use rand_core::OsRng;

fn keypair() -> (SigningKey, Vec<u8>) {
    let sk = SigningKey::random(&mut OsRng);
    let pk = VerifyingKey::from(&sk)
        .to_encoded_point(false)
        .as_bytes()
        .to_vec();
    (sk, pk)
}

fn sign(sk: &SigningKey, method: &str, path: &str, ts: i64) -> Vec<u8> {
    let sig: Signature = sk.sign(message(method, path, ts).as_bytes());
    sig.to_bytes().to_vec()
}

#[test]
fn valid_proof_verifies() {
    let (sk, pk) = keypair();
    let sig = sign(&sk, "GET", "/dashboard", 1000);
    assert!(verify(&pk, "GET", "/dashboard", 1000, &sig, 1003, 5));
}

#[test]
fn stale_timestamp_rejected() {
    let (sk, pk) = keypair();
    let sig = sign(&sk, "GET", "/dashboard", 1000);
    assert!(!verify(&pk, "GET", "/dashboard", 1000, &sig, 1100, 5));
    // also reject a future timestamp beyond skew
    assert!(!verify(&pk, "GET", "/dashboard", 1000, &sig, 900, 5));
}

#[test]
fn tampered_request_rejected() {
    let (sk, pk) = keypair();
    let sig = sign(&sk, "GET", "/dashboard", 1000);
    assert!(!verify(&pk, "GET", "/admin", 1000, &sig, 1003, 5));
    assert!(!verify(&pk, "POST", "/dashboard", 1000, &sig, 1003, 5));
    assert!(!verify(&pk, "GET", "/dashboard", 1001, &sig, 1003, 5));
}

#[test]
fn wrong_key_rejected() {
    let (sk, _pk) = keypair();
    let (_sk2, pk2) = keypair();
    let sig = sign(&sk, "GET", "/x", 1000);
    assert!(!verify(&pk2, "GET", "/x", 1000, &sig, 1001, 5));
}

#[test]
fn garbage_signature_rejected() {
    let (_sk, pk) = keypair();
    assert!(!verify(&pk, "GET", "/x", 1000, &[0u8; 10], 1001, 5));
    assert!(!verify(&pk, "GET", "/x", 1000, &[0u8; 64], 1001, 5));
}

#[test]
fn message_text() {
    assert_eq!(message("GET", "/a b", -5), "GET /a b -5");
    assert_eq!(message("", "", i64::MIN), "  -9223372036854775808");
}

#[test]
fn skew_is_inclusive_on_both_sides() {
    assert!(fresh(1000, 1005, 5));
    assert!(fresh(1000, 995, 5));
    assert!(!fresh(1000, 1006, 5));
    assert!(!fresh(1000, 994, 5));
    assert!(!fresh(1000, 1000, -1));
    // no overflow at the ends of the range
    assert!(!fresh(i64::MIN, i64::MAX, i64::MAX));
    assert!(fresh(i64::MIN, -1, i64::MAX));
}

#[test]
fn compressed_keys_verify_and_garbage_keys_do_not() {
    let (sk, _) = keypair();
    let pk = VerifyingKey::from(&sk).to_encoded_point(true).as_bytes().to_vec();
    assert_eq!(pk.len(), 33);
    let sig = sign(&sk, "GET", "/x", 1000);
    assert!(verify(&pk, "GET", "/x", 1000, &sig, 1000, 0));
    assert!(!verify(&[], "GET", "/x", 1000, &sig, 1000, 0));
    assert!(!verify(&[4u8; 65], "GET", "/x", 1000, &sig, 1000, 0));
}

#[test]
fn different_requests_have_different_messages() {
    let all = [
        message("GET", "/a", 1),
        message("GET", "/a", 11),
        message("GET", "/a 1", 1),
        message("GET", "/b", 1),
        message("POST", "/a", 1),
        message("GET", "/a", -1),
    ];
    for (i, a) in all.iter().enumerate() {
        for b in &all[i + 1..] {
            assert_ne!(a, b);
        }
    }
}
