//! No-JS grant tests.

use pow_gate_core::codec::{b64url, unb64url};
use pow_gate_core::mac::hmac;
use pow_gate_core::nojs::{issue, judge, read_payload, verify, Grant, Verdict, NOJS_GRACE};

const KEY: &[u8] = b"server-secret-key";

#[test]
fn honours_the_wait_then_redeems() {
    let t = issue(KEY, "/wiki/Seite?x=1", 2, 1000);
    // immediately: too early, path preserved for the re-challenge
    match verify(KEY, &t, 1000) {
        Verdict::TooEarly(g) => assert_eq!(g.path, "/wiki/Seite?x=1"),
        v => panic!("expected TooEarly, got {v:?}"),
    }
    match verify(KEY, &t, 1001) {
        Verdict::TooEarly(_) => {}
        v => panic!("expected TooEarly, got {v:?}"),
    }
    // after the delay: accepted
    match verify(KEY, &t, 1002) {
        Verdict::Accepted(g) => {
            assert_eq!(g.path, "/wiki/Seite?x=1");
            assert_eq!(g.delay, 2);
        }
        v => panic!("expected Accepted, got {v:?}"),
    }
}

#[test]
fn expires_after_grace() {
    let t = issue(KEY, "/", 2, 1000);
    assert_eq!(verify(KEY, &t, 1000 + NOJS_GRACE), Verdict::Bad);
}

#[test]
fn rejects_forgery_and_wrong_key() {
    let t = issue(KEY, "/", 2, 1000);
    assert_eq!(verify(b"other-key-entirely", &t, 1005), Verdict::Bad);
    assert_eq!(verify(KEY, "garbage", 1005), Verdict::Bad);
    assert_eq!(verify(KEY, "", 1005), Verdict::Bad);
    // tamper with the payload half
    let (_, tag) = t.split_once('.').unwrap();
    let forged = format!("eyJmb28iOjF9.{tag}");
    assert_eq!(verify(KEY, &forged, 1005), Verdict::Bad);
}

#[test]
fn grant_is_not_a_clearance_and_vice_versa() {
    // Domain separation: a nojs grant must not verify as a clearance cookie,
    // and a clearance must not redeem as a grant.
    let grant = issue(KEY, "/", 2, 1000);
    assert!(pow_gate_core::clearance::verify(KEY, &grant, 1005).is_none());

    let clearance = pow_gate_core::clearance::issue(KEY, b"", 1000, 3600);
    assert_eq!(verify(KEY, &clearance, 1005), Verdict::Bad);
}

#[test]
fn unsafe_paths_never_come_back() {
    // issue() degrades unsafe paths to "/"
    let t = issue(KEY, "//evil.example/", 2, 1000);
    match verify(KEY, &t, 1003) {
        Verdict::Accepted(g) => assert_eq!(g.path, "/"),
        v => panic!("expected Accepted, got {v:?}"),
    }
    let t = issue(KEY, "no-leading-slash", 2, 1000);
    match verify(KEY, &t, 1003) {
        Verdict::Accepted(g) => assert_eq!(g.path, "/"),
        v => panic!("expected Accepted, got {v:?}"),
    }
    // header-injection and markup bytes degrade to "/" as well
    for bad in ["/a\r\nSet-Cookie: x=1", "/a b", "/a\"b", "/<script>", "/a\\b"] {
        let t = issue(KEY, bad, 2, 1000);
        match verify(KEY, &t, 1003) {
            Verdict::Accepted(g) => assert_eq!(g.path, "/", "path {bad:?} must degrade"),
            v => panic!("expected Accepted, got {v:?}"),
        }
    }
}

#[test]
fn grant_text_is_payload_dot_tag() {
    let t = issue(b"k", "/a?b=c", 2, 10);
    let (payload, tag) = t.split_once('.').unwrap();
    assert_eq!(unb64url(payload).unwrap(), br#"{"path":"/a?b=c","iat":10,"delay":2}"#);
    assert_eq!(tag, b64url(&hmac(b"k", format!("nojs|{payload}").as_bytes())));
}

#[test]
fn the_window_ends_with_the_grace() {
    let t = issue(KEY, "/x", 30, 1000);
    assert!(matches!(verify(KEY, &t, 1029), Verdict::TooEarly(_)));
    assert!(matches!(verify(KEY, &t, 1030), Verdict::Accepted(_)));
    assert!(matches!(verify(KEY, &t, 1119), Verdict::Accepted(_)));
    assert_eq!(verify(KEY, &t, 1120), Verdict::Bad);
    // no wait at all: redeemable at once
    let t = issue(KEY, "/x", 0, 1000);
    assert!(matches!(verify(KEY, &t, 1000), Verdict::Accepted(_)));
}

#[test]
fn authentic_grants_with_a_bad_payload_are_refused() {
    let sealed = |doc: &[u8]| {
        let payload = b64url(doc);
        let tag = b64url(&hmac(KEY, format!("nojs|{payload}").as_bytes()));
        format!("{payload}.{tag}")
    };
    assert_eq!(verify(KEY, &sealed(br#"{"path":"//evil","iat":0,"delay":1}"#), 5), Verdict::Bad);
    assert_eq!(verify(KEY, &sealed(br#"{"path":"/","iat":0,"delay":-1}"#), 5), Verdict::Bad);
    assert_eq!(verify(KEY, &sealed(br#"{"path":"/","iat":0}"#), 5), Verdict::Bad);
    assert_eq!(verify(KEY, &sealed(b"nothing"), 5), Verdict::Bad);
    assert_eq!(
        verify(KEY, &sealed(br#"{"path":"/","iat":0,"delay":1}"#), 5),
        Verdict::Accepted(Grant { path: "/".to_string(), iat: 0, delay: 1 })
    );
}

#[test]
fn judging_uses_plain_arithmetic() {
    let g = |iat: i64, delay: i64| Grant { path: "/".to_string(), iat, delay };
    assert_eq!(judge(g(i64::MAX, 1), i64::MAX), Verdict::TooEarly(g(i64::MAX, 1)));
    assert_eq!(judge(g(i64::MAX - 5, i64::MAX), i64::MAX), Verdict::TooEarly(g(i64::MAX - 5, i64::MAX)));
    assert_eq!(judge(g(0, -1), 0), Verdict::Bad);
    assert_eq!(judge(g(i64::MIN, 0), i64::MIN), Verdict::Accepted(g(i64::MIN, 0)));
    assert_eq!(judge(g(i64::MIN, 0), i64::MAX), Verdict::Bad);
}

#[test]
fn grant_payloads_are_read_field_by_field() {
    let g = read_payload(br#"{"delay":3,"path":"/p","iat":9}"#).unwrap();
    assert_eq!(g, Grant { path: "/p".to_string(), iat: 9, delay: 3 });
    let g = read_payload(br#"["/p",9,3]"#).unwrap();
    assert_eq!((g.path.as_str(), g.iat, g.delay), ("/p", 9, 3));
    assert!(read_payload(br#"["/p",9,3,null]"#).is_none());
    assert!(read_payload(br#"{"delay":"3","path":"/p","iat":9}"#).is_none());
    assert!(read_payload(br#"{"delay":3,"path":null,"iat":9}"#).is_none());
    assert!(read_payload(br#"{"delay":3,"path":"/p"}"#).is_none());
}

#[test]
fn a_grant_dressed_up_as_a_clearance_is_refused() {
    // the tag covers "nojs|<payload>", which is no base64url
    let grant = issue(KEY, "/", 2, 1000);
    let dressed = format!("nojs|{grant}");
    assert!(pow_gate_core::clearance::verify(KEY, &dressed, 0).is_none());
}
