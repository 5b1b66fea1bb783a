//! Decision-string tests.

use pow_gate_core::decision::{
    Decision, NOJS_DEFAULT_DELAY, NOJS_MAX_DELAY, NOJS_MIN_DELAY,
};

#[test]
fn plain_values() {
    assert_eq!(Decision::parse("allow"), Decision::Allow);
    assert_eq!(Decision::parse("deny"), Decision::Deny);
    assert_eq!(Decision::parse("challenge"), Decision::Challenge { difficulty: None });
    assert_eq!(Decision::parse(""), Decision::Challenge { difficulty: None });
    assert_eq!(Decision::parse("verify:search"), Decision::Verify("search"));
}

#[test]
fn challenge_variants() {
    assert_eq!(
        Decision::parse("challenge:200000"),
        Decision::Challenge { difficulty: Some(200000) }
    );
    assert_eq!(Decision::parse("challenge:js"), Decision::Challenge { difficulty: Some(1) });
    assert_eq!(
        Decision::parse("challenge:nojs"),
        Decision::ChallengeNoJs { delay: NOJS_DEFAULT_DELAY }
    );
    assert_eq!(Decision::parse("challenge:nojs:5"), Decision::ChallengeNoJs { delay: 5 });
}

#[test]
fn clamps_and_fail_safe() {
    // zero difficulty is meaningless: floor of 1
    assert_eq!(Decision::parse("challenge:0"), Decision::Challenge { difficulty: Some(1) });
    // delay clamped to sane bounds
    assert_eq!(
        Decision::parse("challenge:nojs:0"),
        Decision::ChallengeNoJs { delay: NOJS_MIN_DELAY }
    );
    assert_eq!(
        Decision::parse("challenge:nojs:999"),
        Decision::ChallengeNoJs { delay: NOJS_MAX_DELAY }
    );
    assert_eq!(
        Decision::parse("challenge:nojs:xyz"),
        Decision::ChallengeNoJs { delay: NOJS_DEFAULT_DELAY }
    );
    // junk lets nobody in
    assert_eq!(Decision::parse("challenge:huh"), Decision::Challenge { difficulty: None });
    assert_eq!(Decision::parse("banana"), Decision::Challenge { difficulty: None });
    assert_eq!(Decision::parse("verify:"), Decision::Challenge { difficulty: None });
}

#[test]
fn near_misses_are_challenged() {
    for s in ["Allow", "allow ", " allow", "allow:", "allow:1", "ALLOW", "deny:", "Verify:x", ":"] {
        assert_eq!(Decision::parse(s), Decision::Challenge { difficulty: None }, "{s:?}");
    }
}

#[test]
fn verifier_names_keep_what_follows_the_first_colon() {
    assert_eq!(Decision::parse("verify:a:b"), Decision::Verify("a:b"));
    assert_eq!(Decision::parse("verify: x"), Decision::Verify(" x"));
    assert_eq!(Decision::parse("verify:\u{e9}"), Decision::Verify("\u{e9}"));
}

#[test]
fn numbers_are_read_as_rust_reads_them() {
    let d = |n: u64| Decision::Challenge { difficulty: Some(n) };
    assert_eq!(Decision::parse("challenge:+5"), d(5));
    assert_eq!(Decision::parse("challenge:007"), d(7));
    assert_eq!(Decision::parse("challenge:18446744073709551615"), d(u64::MAX));
    assert_eq!(
        Decision::parse("challenge:18446744073709551616"),
        Decision::Challenge { difficulty: None }
    );
    assert_eq!(Decision::parse("challenge:-1"), Decision::Challenge { difficulty: None });
    assert_eq!(Decision::parse("challenge:nojs:-7"), Decision::ChallengeNoJs { delay: 1 });
    assert_eq!(Decision::parse("challenge:nojs:+7"), Decision::ChallengeNoJs { delay: 7 });
    assert_eq!(Decision::parse("challenge:nojs:"), Decision::ChallengeNoJs { delay: 2 });
    assert_eq!(Decision::parse("challenge:nojsx"), Decision::Challenge { difficulty: None });
}
