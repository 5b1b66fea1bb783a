//! End-to-end PoW handshake tests.

use pow_gate_core::codec::b64url;
use pow_gate_core::mac::hmac;
use pow_gate_core::pow::{issue, issue_from, issue_with, verify_solution, Challenge, Verdict};
use pow_gate_core::target::solution_valid;

const KEY: &[u8] = b"server-secret-key";

fn solve(salt: &str, difficulty: u64) -> u64 {
    let mut n = 0u64;
    while !solution_valid(salt, n, difficulty) {
        n += 1;
    }
    n
}

#[test]
fn full_handshake_accepts_a_real_solution() {
    let c = issue(KEY, 2000, 1000, 30).unwrap();
    let nonce = solve(&c.salt, c.difficulty);
    assert_eq!(
        verify_solution(KEY, &c.salt, c.exp, &c.token, nonce, c.difficulty, 1005),
        Verdict::Accepted
    );
}

#[test]
fn pow_rejects_expired() {
    let c = issue(KEY, 2000, 1000, 30).unwrap();
    let nonce = solve(&c.salt, c.difficulty);
    assert_eq!(
        verify_solution(KEY, &c.salt, c.exp, &c.token, nonce, c.difficulty, 9999),
        Verdict::Expired
    );
}

#[test]
fn rejects_forged_or_tampered_token() {
    let c = issue(KEY, 2000, 1000, 30).unwrap();
    let nonce = solve(&c.salt, c.difficulty);
    assert_eq!(
        verify_solution(KEY, &c.salt, c.exp, "not-the-token", nonce, c.difficulty, 1005),
        Verdict::BadToken
    );
    assert_eq!(
        verify_solution(KEY, "00000000", c.exp, &c.token, nonce, c.difficulty, 1005),
        Verdict::BadToken
    );
}

#[test]
fn rejects_wrong_nonce() {
    let c = issue(KEY, 1 << 30, 1000, 30).unwrap();
    let bad = if solution_valid(&c.salt, 0, c.difficulty) { 1 } else { 0 };
    assert_eq!(
        verify_solution(KEY, &c.salt, c.exp, &c.token, bad, c.difficulty, 1005),
        Verdict::WrongSolution
    );
}

#[test]
fn client_cannot_downgrade_difficulty() {
    // A solution valid at an easy difficulty must NOT pass when the server
    // verifies at its own (harder) difficulty.
    let server_difficulty = 1 << 28;
    let c = issue(KEY, server_difficulty, 1000, 30).unwrap();
    let easy_nonce = solve(&c.salt, 4); // trivially solvable
    assert_ne!(
        verify_solution(KEY, &c.salt, c.exp, &c.token, easy_nonce, server_difficulty, 1005),
        Verdict::Accepted
    );
}

#[test]
fn an_echoed_easier_difficulty_is_a_bad_token() {
    let c = issue(KEY, 1 << 28, 1000, 30).unwrap();
    let easy = solve(&c.salt, 4);
    assert_eq!(
        verify_solution(KEY, &c.salt, c.exp, &c.token, easy, 4, 1005),
        Verdict::BadToken
    );
}

#[test]
fn the_token_binds_salt_expiry_and_difficulty() {
    let c = issue_from(KEY, &[0xab; 16], 7, 1000, 30);
    assert_eq!(c.salt, "ab".repeat(16));
    assert_eq!(c.exp, 1030);
    assert_eq!(c.difficulty, 7);
    let bound = format!("{}|1030|7", c.salt);
    assert_eq!(c.token, b64url(&hmac(KEY, bound.as_bytes())));
    let n = solve(&c.salt, 7);
    assert_eq!(verify_solution(KEY, &c.salt, 1030, &c.token, n, 7, 1029), Verdict::Accepted);
    assert_eq!(verify_solution(KEY, &c.salt, 1030, &c.token, n, 7, 1030), Verdict::Expired);
    assert_eq!(verify_solution(KEY, &c.salt, 1031, &c.token, n, 7, 1005), Verdict::BadToken);
    assert_eq!(verify_solution(b"other", &c.salt, 1030, &c.token, n, 7, 1005), Verdict::BadToken);
}

#[test]
fn a_draw_decides_whether_a_challenge_is_issued() {
    let c = issue_with(KEY, Some([0xab; 16]), 7, 1000, 30).unwrap();
    let same = issue_from(KEY, &[0xab; 16], 7, 1000, 30);
    assert_eq!(
        (c.salt, c.exp, c.difficulty, c.token),
        (same.salt, same.exp, same.difficulty, same.token)
    );
    assert!(issue_with(KEY, None, 7, 1000, 30).is_none());
}

#[test]
fn changed_challenges_are_refused() {
    let c = issue_from(KEY, &[5; 16], 1, 1000, 30);
    for now in [0i64, 1005, 2000] {
        let bad = Verdict::BadToken;
        assert_eq!(verify_solution(KEY, &c.salt, c.exp, "not-the-token", 0, 1, now), bad);
        assert_eq!(verify_solution(KEY, "00000000", c.exp, &c.token, 0, 1, now), bad);
        assert_eq!(verify_solution(KEY, &c.salt, c.exp + 1, &c.token, 0, 1, now), bad);
        assert_eq!(verify_solution(KEY, &c.salt, c.exp, &c.token, 0, 0, now), bad);
    }
    // at a difficulty of one every nonce is a solution
    for nonce in 0..20u64 {
        assert_eq!(
            verify_solution(KEY, &c.salt, c.exp, &c.token, nonce, 1, 1029),
            Verdict::Accepted
        );
    }
}

#[test]
fn challenges_are_read_from_objects_and_arrays() {
    let read = |doc: &str| {
        let c = Challenge::read(doc.as_bytes())?;
        Some((c.salt, c.exp, c.difficulty, c.token))
    };
    let expected = Some(("ab".to_string(), -7, 9, "t".to_string()));
    assert_eq!(read(r#"{"token":"t","salt":"ab","x":[],"exp":-7,"difficulty":9}"#), expected);
    assert_eq!(read(r#"["ab",-7,9,"t"]"#), expected);
    assert_eq!(read(r#"["ab",-7,9]"#), None);
    assert_eq!(read(r#"["ab",-7,9,"t",0]"#), None);
    assert_eq!(read(r#"{"salt":"ab","exp":-7,"difficulty":-9,"token":"t"}"#), None);
    assert_eq!(read(r#"{"salt":"ab","exp":1.5,"difficulty":9,"token":"t"}"#), None);
    // a field that is given twice
    assert_eq!(read(r#"{"salt":"ab","salt":"ab","exp":-7,"difficulty":9,"token":"t"}"#), None);
    assert_eq!(
        read(r#"{"x":1e999,"salt":"ab","x":1,"exp":-7,"difficulty":9,"token":"t"}"#),
        expected
    );
    assert_eq!(read("7"), None);
    assert_eq!(read(""), None);
}

#[test]
fn salts_are_hex_and_differ() {
    let a = issue(KEY, 1, 0, 1).unwrap();
    let b = issue(KEY, 1, 0, 1).unwrap();
    assert_eq!(a.salt.len(), 32);
    assert!(a.salt.bytes().all(|c| c.is_ascii_digit() || (b'a'..=b'f').contains(&c)));
    assert_ne!(a.salt, b.salt);
}

#[test]
fn challenge_tokens_pass_as_nothing_else() {
    let c = issue_from(KEY, &[3; 16], 7, 1000, 30);
    for text in [c.salt.as_str(), "nojs", &format!("{}|1030|7", c.salt)] {
        let forged = format!("{text}.{}", c.token);
        assert!(pow_gate_core::clearance::verify(KEY, &forged, 0).is_none());
        assert_eq!(pow_gate_core::nojs::verify(KEY, &forged, 0), pow_gate_core::nojs::Verdict::Bad);
    }
}
