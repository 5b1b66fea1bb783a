//! The client's side of the handshake.

use pow_gate_core::perf::{
    cookie_pair, proof_header, solve, submission_json, summarize, Mode, Summary,
};
use pow_gate_core::pow::Challenge;
use pow_gate_core::server::pow::Submission;
use pow_gate_core::target::solution_valid;

#[test]
fn modes_and_their_names() {
    for m in [Mode::Baseline, Mode::Challenge, Mode::Cleared, Mode::Proof] {
        assert_eq!(Mode::parse(m.name()), Some(m));
    }
    assert_eq!(Mode::Baseline.name(), "baseline");
    assert_eq!(Mode::parse("Proof"), None);
    assert_eq!(Mode::parse(""), None);
    assert_eq!(
        Mode::parse_list("proof,,nonsense,baseline,proof"),
        vec![Mode::Proof, Mode::Baseline, Mode::Proof]
    );
    assert!(Mode::parse_list("").is_empty());
}

#[test]
fn the_first_solution_is_found() {
    let n = solve("deadbeef", 200, u64::MAX).unwrap();
    assert!(solution_valid("deadbeef", n, 200));
    assert!((0..n).all(|m| !solution_valid("deadbeef", m, 200)));
    assert_eq!(solve("deadbeef", 200, n), None);
    assert_eq!(solve("deadbeef", 200, n + 1), Some(n));
    assert_eq!(solve("x", 1, 0), None);
}

#[test]
fn cookie_pairs_and_proof_fields() {
    assert_eq!(cookie_pair("a=b; Path=/"), "a=b");
    assert_eq!(cookie_pair("a=b"), "a=b");
    assert_eq!(cookie_pair(""), "");
    assert_eq!(proof_header(b"", 5), ".5");
    assert_eq!(proof_header(&[0xfb, 0xff], -1), "-_8.-1");
}

fn challenge(salt: &str) -> Challenge {
    Challenge { salt: salt.to_string(), exp: -7, difficulty: 9, token: "t\"\\".to_string() }
}

#[test]
fn challenges_are_read_field_by_field() {
    let c = Challenge::read(br#"{"salt":"s","exp":-1,"difficulty":18446744073709551615,"token":"t"}"#).unwrap();
    assert_eq!((c.salt.as_str(), c.exp, c.difficulty, c.token.as_str()), ("s", -1, u64::MAX, "t"));
    assert!(Challenge::read(br#"{"salt":"s","exp":1,"difficulty":-1,"token":"t"}"#).is_none());
    assert!(Challenge::read(br#"{"salt":"s","exp":1,"difficulty":1}"#).is_none());
    assert!(Challenge::read(b"").is_none());
}

#[test]
fn bodies_are_read_back_by_the_server() {
    let body = submission_json(&challenge("s a"), u64::MAX, &[1, 2], false).unwrap();
    assert_eq!(
        body,
        r#"{"salt":"s a","exp":-7,"token":"t\"\\","nonce":18446744073709551615,"pubkey":"AQI"}"#
    );
    let s = Submission::read(body.as_bytes()).unwrap();
    assert_eq!((s.salt.as_str(), s.exp, s.token.as_str()), ("s a", -7, "t\"\\"));
    assert_eq!((s.nonce, s.pubkey.as_str(), s.difficulty), (u64::MAX, "AQI", None));
    let echoed = submission_json(&challenge("s"), 1, &[], true).unwrap();
    assert!(echoed.ends_with(r#","pubkey":"","difficulty":9}"#));
    assert_eq!(Submission::read(echoed.as_bytes()).unwrap().difficulty, Some(9));
    assert!(submission_json(&challenge("s\n"), 1, &[], true).is_none());
    assert!(submission_json(&challenge("\u{e9}"), 1, &[], true).is_none());
}

#[test]
fn measurements_are_summarized_by_rank() {
    let s = summarize(vec![30, 10, 20, 10], &[1, 2, 3], 2, 3, 9);
    assert_eq!(s, Summary { errors: 6, p50: 20, p95: 30, p99: 30, max: 30 });
    let s = summarize(vec![5, 4, 3, 2, 1], &[], 0, 1, 2);
    assert_eq!(s, Summary { errors: 0, p50: 1, p95: 2, p99: 3, max: 5 });
    let none = summarize(vec![], &[7], 1, 2, 3);
    assert_eq!(none, Summary { errors: 7, p50: 0, p95: 0, p99: 0, max: 0 });
}
