//! The access decision and the endpoints, end to end on plain values.

use p256::ecdsa::{signature::Signer, Signature, SigningKey, VerifyingKey};
use pow_gate_core::address::IpAddr;
use pow_gate_core::codec::b64url;
use pow_gate_core::nojs::NOJS_GRACE;
use pow_gate_core::perf::{cookie_pair, proof_header, solve, submission_json};
use pow_gate_core::pow::{issue_from, Challenge, Verdict};
use pow_gate_core::server::access::{
    after_verifier, first_step, guard, internal_challenge, serve_internal, Internal, Outcome, Step,
};
use pow_gate_core::server::capture::{body_read_refused, body_ready, should_capture};
use pow_gate_core::server::challenge::{
    render_nojs_page, render_page, replace_all, route_internal, serve_challenge_page, serve_solver, Route,
};
use pow_gate_core::server::clearance::{can_carry_proof, has_required_proof, has_valid_clearance, parse_proof};
use pow_gate_core::server::nojs::{answer, pass, pass_in_range, pass_url, query_param, redirect_body};
use pow_gate_core::server::pow::{
    challenge_answer, grant_clearance, issue_challenge, issue_challenge_from, verify_body, verify_body_in_range,
    Submission, CHALLENGE_GRACE,
};
use pow_gate_core::server::response::Response;
use pow_gate_core::server::runtime::{Cfg, CookieConfig, Request};
use rand_core::OsRng;
use std::sync::Arc;

const KEY: &[u8] = b"server-secret-key";
const NOW: i64 = 1_700_000_000;
const TEMPLATE: &[u8] = b"<meta http-equiv=\"refresh\" content=\"{{delay}};url={{pass_url}}\">";
const PAGE: &[u8] = b"<html><body>work</body></html>";

fn cfg() -> Cfg {
    Cfg {
        key: Arc::new(KEY.to_vec()),
        key_ok: true,
        difficulty: 50,
        clearance_ttl: 3600,
        proof_skew: 5,
        require_proof: false,
        endpoint: "/.pow/".to_string(),
        replay: true,
        replay_max_body: 100,
        cookie: CookieConfig {
            name: "pow_clearance".to_string(),
            domain: None,
            path: "/".to_string(),
            samesite: "Lax".to_string(),
            secure: true,
            http_only: true,
            max_age_secs: 3600,
        },
    }
}

fn get(uri: &str) -> Request {
    Request {
        method: "GET".to_string(),
        uri: uri.to_string(),
        unparsed_uri: uri.to_string(),
        args: String::new(),
        headers: vec![],
        content_length: None,
        trusted: String::new(),
        decision: String::new(),
        address: None,
    }
}

fn with(mut r: Request, name: &str, value: &str) -> Request {
    r.headers.push((name.to_string(), value.to_string()));
    r
}

fn value<'a>(r: &'a Response, name: &str) -> Option<&'a str> {
    r.headers.iter().find(|(n, _)| n == name).map(|(_, v)| v.as_str())
}

fn keypair() -> (SigningKey, Vec<u8>) {
    let sk = SigningKey::random(&mut OsRng);
    let pk = VerifyingKey::from(&sk).to_encoded_point(false).as_bytes().to_vec();
    (sk, pk)
}

/// Solve a challenge and return the cookie pair.
fn clear(cfg: &Cfg, pk: &[u8], now: i64) -> String {
    let c = issue_from(&cfg.key, &[9; 16], cfg.difficulty, now, CHALLENGE_GRACE);
    let n = solve(&c.salt, c.difficulty, u64::MAX).unwrap();
    let body = format!(
        r#"{{"salt":"{}","exp":{},"token":"{}","nonce":{n},"pubkey":"{}"}}"#,
        c.salt, c.exp, c.token, b64url(pk)
    );
    let r = verify_body(cfg, Some(body.as_bytes()), now);
    assert_eq!(r.status, 204);
    cookie_pair(value(&r, "Set-Cookie").unwrap())
}

fn proof_for(sk: &SigningKey, text: &str, ts: i64) -> String {
    let sig: Signature = sk.sign(text.as_bytes());
    proof_header(&sig.to_bytes(), ts)
}

// ------------------------------------------------------------------ pages

#[test]
fn replacement_is_left_to_right() {
    assert_eq!(replace_all(b"aXbXX", b"X", b"12"), b"a12b1212");
    assert_eq!(replace_all(b"aaa", b"aa", b"b"), b"ba");
    assert_eq!(replace_all(b"", b"x", b"y"), b"");
    assert_eq!(replace_all(b"xyz", b"xyzw", b"!"), b"xyz");
    assert_eq!(replace_all(b"x", b"x", b""), b"");
    assert_eq!(replace_all(b"\xff{{a}}\xfe", b"{{a}}", b"\x00"), b"\xff\x00\xfe");
}

#[test]
fn pages_are_rendered() {
    assert_eq!(
        render_page(b"{{endpoint}}solver.js {{difficulty}} {{other}} {{endpoint}}", 50000, "/.pow/"),
        b"/.pow/solver.js 50000 {{other}} /.pow/"
    );
    assert_eq!(
        render_nojs_page(TEMPLATE, "/.pow/pass?t=x", 2),
        b"<meta http-equiv=\"refresh\" content=\"2;url=/.pow/pass?t=x\">"
    );
    assert_eq!(render_page(b"plain", 1, "/"), b"plain");
}

#[test]
fn pages_and_solver_are_served() {
    let r = serve_challenge_page(PAGE);
    assert_eq!((r.status, r.content_type.as_str()), (200, "text/html; charset=utf-8"));
    assert_eq!(r.body, PAGE);
    assert!(r.headers.is_empty());
    let r = serve_solver(b"js");
    assert_eq!((r.status, r.content_type.as_str()), (200, "text/javascript; charset=utf-8"));
    assert_eq!(r.body, b"js");
}

#[test]
fn routes() {
    assert_eq!(route_internal("challenge"), Some(Route::Challenge));
    assert_eq!(route_internal("solver.js"), Some(Route::Solver));
    assert_eq!(route_internal("verify"), Some(Route::Verify));
    assert_eq!(route_internal("pass"), Some(Route::Pass));
    for s in ["", "Challenge", "challenge/", "pass?", "other"] {
        assert_eq!(route_internal(s), None);
    }
}

// --------------------------------------------------------------- decisions

fn step(r: &Request, c: &Cfg) -> String {
    format!("{:?}", first_step(r, 1, c))
}

#[test]
fn decision_order() {
    let c = cfg();
    // off beats everything
    let mut r = get("/.pow/challenge");
    r.decision = "deny".to_string();
    assert!(matches!(first_step(&r, 0, &c), Step::Decline));
    // internal routes bypass the decision
    assert_eq!(step(&r, &c), "Internal(Challenge, 50)");
    assert_eq!(step(&get("/.pow/nothing"), &c), "Decline");
    assert_eq!(step(&get("/.powx"), &c), "Guard(None)");
    // trusted beats the decision
    let mut r = get("/");
    r.decision = "deny".to_string();
    r.trusted = "1".to_string();
    assert_eq!(step(&r, &c), "Decline");
    r.trusted = "10".to_string();
    assert_eq!(step(&r, &c), "Forbidden");
    r.decision = "allow".to_string();
    assert_eq!(step(&r, &c), "Decline");
    r.decision = "challenge:nojs:7".to_string();
    assert_eq!(step(&r, &c), "Guard(Some(7))");
    r.decision = "typo".to_string();
    assert_eq!(step(&r, &c), "Guard(None)");
    r.decision = "verify:bots".to_string();
    assert_eq!(step(&r, &c), "Guard(None)");
    r.address = Some(IpAddr::V4(5));
    assert_eq!(step(&r, &c), "Verify(\"bots\", V4(5))");
    assert!(matches!(after_verifier(true), Step::Decline));
    assert!(matches!(after_verifier(false), Step::Guard(None)));
}

#[test]
fn an_empty_endpoint_routes_nothing() {
    let mut c = cfg();
    c.endpoint = String::new();
    assert_eq!(step(&get("challenge"), &c), "Guard(None)");
}

#[test]
fn the_decision_sets_the_difficulty() {
    let c = cfg();
    let mut r = get("/.pow/challenge");
    r.decision = "challenge:5000".to_string();
    assert_eq!(step(&r, &c), "Internal(Challenge, 5000)");
    r.decision = "challenge:js".to_string();
    assert_eq!(step(&r, &c), "Internal(Challenge, 1)");
    r.decision = "challenge:nojs".to_string();
    assert_eq!(step(&r, &c), "Internal(Challenge, 50)");
    r.decision = "verify:x".to_string();
    assert_eq!(step(&r, &c), "Internal(Challenge, 50)");
}

#[test]
fn uncleared_clients_are_challenged() {
    let c = cfg();
    match guard(&get("/"), &c, PAGE, TEMPLATE, None, NOW) {
        Outcome::Respond(r) => assert_eq!(r.body, PAGE),
        o => panic!("{o:?}"),
    }
    let mut post = get("/order?x=1");
    post.method = "POST".to_string();
    post.content_length = Some(100);
    assert!(matches!(guard(&post, &c, PAGE, TEMPLATE, None, NOW), Outcome::Capture));
    post.content_length = Some(101);
    assert!(matches!(guard(&post, &c, PAGE, TEMPLATE, None, NOW), Outcome::Respond(_)));
}

#[test]
fn no_grant_is_minted_without_a_key() {
    let mut c = cfg();
    c.key_ok = false;
    match guard(&get("/"), &c, PAGE, TEMPLATE, Some(2), NOW) {
        Outcome::Respond(r) => assert_eq!(r.body, PAGE),
        o => panic!("{o:?}"),
    }
}

// --------------------------------------------------------------- clearance

#[test]
fn cleared_requests_pass_until_the_clearance_expires() {
    let c = cfg();
    let pair = clear(&c, b"pk", NOW);
    let r = with(get("/"), "Cookie", &pair);
    assert!(matches!(guard(&r, &c, PAGE, TEMPLATE, None, NOW), Outcome::Decline));
    assert!(has_valid_clearance(&r, &c, NOW + 3599));
    assert!(!has_valid_clearance(&r, &c, NOW + 3600));
    // another cookie name, another key, no usable key
    let mut other = cfg();
    other.cookie.name = "x".to_string();
    assert!(!has_valid_clearance(&r, &other, NOW));
    let mut other = cfg();
    other.key = Arc::new(b"another-secret-key".to_vec());
    assert!(!has_valid_clearance(&r, &other, NOW));
    let mut other = cfg();
    other.key_ok = false;
    assert!(!has_valid_clearance(&r, &other, NOW));
    assert!(!has_valid_clearance(&get("/"), &c, NOW));
}

#[test]
fn proofs_are_owed_by_scripts_alone() {
    let (sk, pk) = keypair();
    let mut c = cfg();
    let pair = clear(&c, &pk, NOW);
    let cookie_only = || with(get("/"), "Cookie", &pair);
    let fetch = || with(with(cookie_only(), "Sec-Fetch-Mode", "cors"), "Sec-Fetch-Dest", "empty");
    // default: not required
    assert!(has_valid_clearance(&fetch(), &c, NOW));
    c.require_proof = true;
    assert!(!has_valid_clearance(&fetch(), &c, NOW));
    let p = proof_for(&sk, &format!("GET / {NOW}"), NOW);
    assert!(has_valid_clearance(&with(fetch(), "X-Pow-Proof", &p), &c, NOW));
    // navigations and tag loads pass on the cookie
    assert!(has_valid_clearance(&with(cookie_only(), "Sec-Fetch-Mode", "navigate"), &c, NOW));
    for (mode, dest) in [("no-cors", "image"), ("cors", "font"), ("cors", "script")] {
        let r = with(with(cookie_only(), "Sec-Fetch-Mode", mode), "Sec-Fetch-Dest", dest);
        assert!(has_valid_clearance(&r, &c, NOW), "{dest}");
    }
    assert!(has_valid_clearance(&cookie_only(), &c, NOW));
    assert!(can_carry_proof(&fetch().headers));
    assert!(!can_carry_proof(&cookie_only().headers));
}

#[test]
fn a_present_proof_is_always_verified() {
    let (sk, pk) = keypair();
    let c = cfg();
    let pair = clear(&c, &pk, NOW);
    let r = || with(get("/a"), "Cookie", &pair);
    let good = proof_for(&sk, &format!("GET /a {NOW}"), NOW);
    assert!(has_valid_clearance(&with(r(), "x-pow-proof", &good), &c, NOW + 5));
    assert!(!has_valid_clearance(&with(r(), "x-pow-proof", &good), &c, NOW + 6));
    assert!(!has_valid_clearance(&with(r(), "x-pow-proof", "garbage"), &c, NOW));
    assert!(!has_valid_clearance(&with(r(), "x-pow-proof", &format!("AAAA.{NOW}")), &c, NOW));
    let wrong = proof_for(&sk, &format!("GET /b {NOW}"), NOW);
    assert!(!has_valid_clearance(&with(r(), "x-pow-proof", &wrong), &c, NOW));
    // a clearance without a key never meets a proof
    let nojs = pow_gate_core::clearance::Clearance { pk: String::new(), iat: 0, exp: 1 };
    assert!(!has_required_proof(&nojs, &with(get("/a"), "x-pow-proof", &good), &c, NOW));
    assert!(has_required_proof(&nojs, &get("/a"), &c, NOW));
}

#[test]
fn proof_fields_are_parsed() {
    assert_eq!(parse_proof("AQI.17"), Some((vec![1, 2], 17)));
    assert_eq!(parse_proof(".0"), Some((vec![], 0)));
    assert_eq!(parse_proof("AQI.-3"), Some((vec![1, 2], -3)));
    assert_eq!(parse_proof("AQI"), None);
    assert_eq!(parse_proof("A.B.1"), None);
    assert_eq!(parse_proof("AQI."), None);
    assert_eq!(parse_proof("AQI=.1"), None);
    assert_eq!(proof_header(&[1, 2], 17), "AQI.17");
    assert_eq!(parse_proof(&proof_header(&[0xff; 64], i64::MIN)), Some((vec![0xff; 64], i64::MIN)));
}

// ----------------------------------------------------------------- verify

#[test]
fn challenges_are_issued_as_json() {
    let c = cfg();
    let r = issue_challenge_from(&c, 5000, NOW, &[0xab; 16]);
    assert_eq!((r.status, r.content_type.as_str()), (200, "application/json"));
    let ch = issue_from(&c.key, &[0xab; 16], 5000, NOW, 120);
    assert_eq!(
        String::from_utf8(r.body).unwrap(),
        format!(
            r#"{{"salt":"{}","exp":{},"difficulty":5000,"token":"{}"}}"#,
            "ab".repeat(16),
            NOW + 120,
            ch.token
        )
    );
    let r = issue_challenge(&c, 7, NOW).unwrap();
    let v: serde_json::Value = serde_json::from_slice(&r.body).unwrap();
    assert_eq!(v["difficulty"], 7);
    assert_eq!(v["exp"], NOW + 120);
}

#[test]
fn the_whole_handshake() {
    let c = cfg();
    let (sk, pk) = keypair();
    let issued = issue_challenge(&c, 300, NOW).unwrap();
    let ch = Challenge::read(&issued.body).unwrap();
    assert_eq!((ch.difficulty, ch.exp), (300, NOW + CHALLENGE_GRACE));
    let n = solve(&ch.salt, ch.difficulty, u64::MAX).unwrap();
    // the difficulty was overridden, so it has to be echoed
    let bare = submission_json(&ch, n, &pk, false).unwrap();
    assert_eq!(verify_body(&c, Some(bare.as_bytes()), NOW + 1).status, 400);
    let echoed = submission_json(&ch, n, &pk, true).unwrap();
    let r = verify_body(&c, Some(echoed.as_bytes()), NOW + 1);
    assert_eq!(r.status, 204);
    let pair = cookie_pair(value(&r, "Set-Cookie").unwrap());
    let p = proof_for(&sk, &format!("GET / {NOW}"), NOW);
    let req = with(with(get("/"), "Cookie", &pair), "X-Pow-Proof", &p);
    assert!(matches!(guard(&req, &c, PAGE, TEMPLATE, None, NOW + 2), Outcome::Decline));
}

#[test]
fn issued_challenges_are_answered_as_json() {
    let ch = issue_from(&cfg().key, &[7; 16], 3, NOW, 120);
    let text = format!(
        r#"{{"salt":"{}","exp":{},"difficulty":3,"token":"{}"}}"#,
        ch.salt, ch.exp, ch.token
    );
    let r = challenge_answer(Some(ch)).unwrap();
    assert_eq!((r.status, r.content_type.as_str()), (200, "application/json"));
    assert_eq!(r.body, text.as_bytes());
    assert!(challenge_answer(None).is_none());
    match internal_challenge(Some(r)) {
        Internal::Respond(r) => assert_eq!(r.body, text.as_bytes()),
        other => panic!("{other:?}"),
    }
    assert!(matches!(internal_challenge(None), Internal::NoRandomness));
}

#[test]
fn without_a_key_the_endpoints_are_unavailable() {
    let mut c = cfg();
    c.key_ok = false;
    for r in [
        issue_challenge(&c, 1, NOW).unwrap(),
        issue_challenge_from(&c, 1, NOW, &[0; 16]),
        verify_body(&c, Some(b"{}"), NOW),
        verify_body(&c, None, NOW),
    ] {
        assert_eq!((r.status, r.content_type.as_str()), (503, "text/plain"));
        assert!(r.body.is_empty() && r.headers.is_empty());
    }
    let r = pass("t=x", &c, TEMPLATE, NOW);
    assert_eq!((r.status, r.body.as_slice()), (503, b"unavailable\n".as_slice()));
}

#[test]
fn bad_submissions_are_bad_requests() {
    let c = cfg();
    let ch = issue_from(&c.key, &[1; 16], 50, NOW, 120);
    let n = solve(&ch.salt, 50, u64::MAX).unwrap();
    let doc = |exp: i64, token: &str, nonce: u64, pubkey: &str, extra: &str| {
        format!(
            r#"{{"salt":"{}","exp":{exp},"token":"{token}","nonce":{nonce},"pubkey":"{pubkey}"{extra}}}"#,
            ch.salt
        )
    };
    let status = |d: &str, now: i64| verify_body(&c, Some(d.as_bytes()), now).status;
    assert_eq!(status(&doc(ch.exp, &ch.token, n, "AQI", ""), NOW), 204);
    assert_eq!(status(&doc(ch.exp, &ch.token, n, "AQI", r#","difficulty":50"#), NOW), 204);
    assert_eq!(status(&doc(ch.exp, &ch.token, n, "AQI", r#","difficulty":null"#), NOW), 204);
    assert_eq!(status(&doc(ch.exp, &ch.token, n, "AQI", r#","other":[1]"#), NOW), 204);
    // echoing an easier difficulty fails the token
    assert_eq!(status(&doc(ch.exp, &ch.token, n, "AQI", r#","difficulty":4"#), NOW), 400);
    assert_eq!(status(&doc(ch.exp, &ch.token, n, "AQI", r#","difficulty":"50""#), NOW), 400);
    assert_eq!(status(&doc(ch.exp, &ch.token, n, "A!", ""), NOW), 400);
    assert_eq!(status(&doc(ch.exp + 1, &ch.token, n, "AQI", ""), NOW), 400);
    assert_eq!(status(&doc(ch.exp, "x", n, "AQI", ""), NOW), 400);
    assert_eq!(status(&doc(ch.exp, &ch.token, n, "AQI", ""), NOW + 120), 400);
    let wrong = (0..).find(|m| !pow_gate_core::target::solution_valid(&ch.salt, *m, 50)).unwrap();
    assert_eq!(status(&doc(ch.exp, &ch.token, wrong, "AQI", ""), NOW), 400);
    assert_eq!(status("{}", NOW), 400);
    assert_eq!(status("no json", NOW), 400);
    assert_eq!(verify_body(&c, None, NOW).status, 400);
}

#[test]
fn submissions_are_read_field_by_field() {
    let s = Submission::read(
        br#"{"salt":"s","exp":-1,"token":"t","nonce":18446744073709551615,"pubkey":"p","difficulty":3}"#,
    )
    .unwrap();
    assert_eq!((s.salt.as_str(), s.exp, s.token.as_str()), ("s", -1, "t"));
    assert_eq!((s.nonce, s.pubkey.as_str(), s.difficulty), (u64::MAX, "p", Some(3)));
    for (doc, echoed) in [
        (r#"["s",1,"t",2,"p"]"#, None),
        (r#"["s",1,"t",2,"p",null]"#, None),
        (r#"["s",1,"t",2,"p",7]"#, Some(7u64)),
    ] {
        let s = Submission::read(doc.as_bytes()).unwrap();
        assert_eq!((s.salt.as_str(), s.exp, s.token.as_str()), ("s", 1, "t"));
        assert_eq!((s.nonce, s.pubkey.as_str(), s.difficulty), (2, "p", echoed));
    }
    assert!(Submission::read(br#"["s",1,"t",2]"#).is_none());
    assert!(Submission::read(br#"["s",1,"t",2,"p",7,8]"#).is_none());
    assert!(Submission::read(br#"{"salt":"s","exp":1,"token":"t","nonce":-1,"pubkey":"p"}"#).is_none());
    assert!(Submission::read(br#"{"salt":"s","exp":1,"token":"t","nonce":1}"#).is_none());
    assert!(Submission::read(br#"{"salt":"s","exp":1,"token":"t","nonce":1,"pubkey":7}"#).is_none());
    let none = Submission::read(br#"{"salt":"s","exp":1,"token":"t","nonce":1,"pubkey":"p"}"#).unwrap();
    assert_eq!(none.difficulty, None);
}

#[test]
fn verdicts_are_answered() {
    let c = cfg();
    let r = grant_clearance(Verdict::Accepted, "AQI", &c, NOW);
    assert_eq!((r.status, r.content_type.as_str()), (204, "text/plain"));
    assert!(r.body.is_empty());
    assert!(value(&r, "Set-Cookie").unwrap().starts_with("pow_clearance="));
    for v in [Verdict::Expired, Verdict::BadToken, Verdict::WrongSolution] {
        assert_eq!(grant_clearance(v, "AQI", &c, NOW).status, 400);
    }
    assert_eq!(grant_clearance(Verdict::Accepted, "***", &c, NOW).status, 400);
}

// ------------------------------------------------------------------- no-JS

fn token_in(r: &Response) -> String {
    let page = String::from_utf8(r.body.clone()).unwrap();
    let at = page.find(";url=/.pow/pass?t=").unwrap() + ";url=/.pow/pass?t=".len();
    page[at..].split('"').next().unwrap().to_string()
}

#[test]
fn the_whole_no_js_flow() {
    let c = cfg();
    let mut r = get("/");
    r.unparsed_uri = "/?q=some+query&page=2".to_string();
    let page = match guard(&r, &c, PAGE, TEMPLATE, Some(2), NOW) {
        Outcome::Respond(p) => p,
        o => panic!("{o:?}"),
    };
    assert_eq!(page.status, 200);
    assert_eq!(value(&page, "Cache-Control"), Some("no-store"));
    let grant = token_in(&page);
    // too early: the page again, with a fresh grant and no cookie
    let early = pass(&format!("t={grant}"), &c, TEMPLATE, NOW + 1);
    assert_eq!(early.status, 200);
    assert_eq!(value(&early, "Set-Cookie"), None);
    let fresh = token_in(&early);
    assert_ne!(fresh, grant);
    assert_eq!(pass(&format!("t={fresh}"), &c, TEMPLATE, NOW + 2).status, 200);
    // after the wait: back to the path, verbatim, with a cookie
    let done = pass(&format!("x=1&t={fresh}&t=other"), &c, TEMPLATE, NOW + 3);
    assert_eq!(done.status, 302);
    assert_eq!(value(&done, "Location"), Some("/?q=some+query&page=2"));
    assert_eq!(value(&done, "Cache-Control"), Some("no-store"));
    assert_eq!(
        done.body,
        b"<html><body><a href=\"/?q=some+query&page=2\">Continue</a></body></html>\n"
    );
    let pair = cookie_pair(value(&done, "Set-Cookie").unwrap());
    assert!(has_valid_clearance(&with(get("/"), "Cookie", &pair), &c, NOW + 4));
    // stale, forged or missing: back to the root, without a cookie
    for args in [format!("t={grant}"), "t=forged".to_string(), String::new()] {
        let bad = pass(&args, &c, TEMPLATE, NOW + NOJS_GRACE);
        assert_eq!((bad.status, value(&bad, "Location")), (302, Some("/")));
        assert_eq!(value(&bad, "Set-Cookie"), None);
        assert_eq!(bad.body, b"<html><body><a href=\"/\">Continue</a></body></html>\n");
    }
}

#[test]
fn grant_verdicts_are_answered() {
    let c = cfg();
    let g = |delay| pow_gate_core::nojs::Grant { path: "/p".to_string(), iat: NOW, delay };
    let r = answer(pow_gate_core::nojs::Verdict::TooEarly(g(4)), &c, b"{{delay}}", NOW);
    assert_eq!((r.status, r.body.as_slice()), (200, b"4".as_slice()));
    let r = answer(pow_gate_core::nojs::Verdict::Accepted(g(4)), &c, b"", NOW);
    assert_eq!((r.status, value(&r, "Location")), (302, Some("/p")));
    let r = answer(pow_gate_core::nojs::Verdict::Bad, &c, b"", NOW);
    assert_eq!((r.status, value(&r, "Location")), (302, Some("/")));
}

#[test]
fn query_strings() {
    assert_eq!(query_param("t=a.b", "t").as_deref(), Some("a.b"));
    assert_eq!(query_param("x&tt=1&t==2", "t").as_deref(), Some("=2"));
    assert_eq!(query_param("t", "t"), None);
    assert_eq!(query_param("", "t"), None);
    assert_eq!(query_param("T=1", "t"), None);
    assert_eq!(pass_url("/.pow/", "g"), "/.pow/pass?t=g");
    assert_eq!(redirect_body("/"), "<html><body><a href=\"/\">Continue</a></body></html>\n");
}

// ----------------------------------------------------------------- capture

#[test]
fn only_renderable_requests_are_captured() {
    let c = cfg();
    let mut post = get("/order");
    post.method = "POST".to_string();
    post.content_length = Some(0);
    assert!(should_capture(&post, &c));
    for dest in ["document", "IFRAME", "frame"] {
        let mut r = with(get("/order"), "Sec-Fetch-Dest", dest);
        r.method = "PUT".to_string();
        r.content_length = Some(5);
        assert!(should_capture(&r, &c), "{dest}");
    }
    for dest in ["empty", "image", ""] {
        let mut r = with(get("/order"), "Sec-Fetch-Dest", dest);
        r.method = "PUT".to_string();
        r.content_length = Some(5);
        assert!(!should_capture(&r, &c), "{dest}");
    }
    post.content_length = None;
    assert!(!should_capture(&post, &c));
    post.content_length = Some(5);
    post.method = "GET".to_string();
    assert!(!should_capture(&post, &c));
    post.method = "POST".to_string();
    let mut off = cfg();
    off.replay = false;
    assert!(!should_capture(&post, &off));
    assert!(body_read_refused(300) && body_read_refused(500));
    assert!(!body_read_refused(0) && !body_read_refused(-2));
}

#[test]
fn captured_requests_come_back_in_the_page() {
    let c = cfg();
    let mut post = with(get("/order"), "Content-Type", "text/plain");
    post.method = "POST".to_string();
    post.unparsed_uri = "/order?x=%20".to_string();
    let r = body_ready(&post, &c, PAGE, Some(b"hi".to_vec()));
    assert_eq!((r.status, value(&r, "Cache-Control")), (200, Some("no-store")));
    assert_eq!(
        String::from_utf8(r.body).unwrap(),
        "<html><body>work<script id=\"pow-replay\" type=\"application/json\">\
         {\"method\":\"POST\",\"url\":\"/order?x=%20\",\"type\":\"text/plain\",\"body\":\"aGk\"}\
         </script>\n</body></html>"
    );
    // too long, unreadable or unsafe: the plain page, or an empty body
    assert_eq!(body_ready(&post, &c, PAGE, Some(vec![0; 101])).body, PAGE);
    let none = String::from_utf8(body_ready(&post, &c, PAGE, None).body).unwrap();
    assert!(none.contains("\"body\":\"\""));
    post.unparsed_uri = "http://evil.example/".to_string();
    assert_eq!(body_ready(&post, &c, PAGE, Some(b"hi".to_vec())).body, PAGE);
}

// ---------------------------------------------------------------- internal

#[test]
fn expiries_beyond_the_range_of_times_are_not_minted() {
    let mut c = cfg();
    let r = get("/.pow/x");
    // a challenge
    let late = |route| serve_internal(route, 9, &r, &c, TEMPLATE, b"js", i64::MAX);
    assert!(matches!(late(Route::Challenge), Internal::OutOfRange));
    assert!(matches!(late(Route::Solver), Internal::Respond(_)));
    assert!(matches!(late(Route::Verify), Internal::ReadBody));
    assert!(matches!(late(Route::Pass), Internal::Respond(_)));
    // a clearance for a solution
    c.clearance_ttl = i64::MAX;
    let ch = issue_from(&c.key, &[4; 16], 1, NOW, 120);
    let good = submission_json(&ch, 0, &[1, 2], true).unwrap();
    assert!(verify_body_in_range(&c, Some(good.as_bytes()), NOW).is_none());
    assert_eq!(verify_body_in_range(&c, Some(good.as_bytes()), NOW + 120).unwrap().status, 400);
    assert_eq!(verify_body_in_range(&c, Some(b"{}"), NOW).unwrap().status, 400);
    // and for a grant
    let grant = pow_gate_core::nojs::issue(&c.key, "/", 2, NOW);
    let args = format!("t={grant}");
    assert_eq!(pass_in_range(&args, &c, TEMPLATE, NOW).unwrap().status, 200);
    assert!(pass_in_range(&args, &c, TEMPLATE, NOW + 2).is_none());
    assert_eq!(pass_in_range("t=x", &c, TEMPLATE, NOW + 2).unwrap().status, 302);
    c.clearance_ttl = 60;
    assert_eq!(verify_body_in_range(&c, Some(good.as_bytes()), NOW).unwrap().status, 204);
    assert_eq!(pass_in_range(&args, &c, TEMPLATE, NOW + 2).unwrap().status, 302);
}

#[test]
fn internal_endpoints_are_served() {
    let c = cfg();
    let r = get("/.pow/x");
    let serve = |route| serve_internal(route, 9, &r, &c, TEMPLATE, b"js", NOW);
    match serve(Route::Challenge) {
        Internal::Respond(resp) => {
            let v: serde_json::Value = serde_json::from_slice(&resp.body).unwrap();
            assert_eq!(v["difficulty"], 9);
        }
        o => panic!("{o:?}"),
    }
    match serve(Route::Solver) {
        Internal::Respond(resp) => assert_eq!(resp.body, b"js"),
        o => panic!("{o:?}"),
    }
    assert!(matches!(serve(Route::Verify), Internal::ReadBody));
    match serve(Route::Pass) {
        Internal::Respond(resp) => assert_eq!(resp.status, 302),
        o => panic!("{o:?}"),
    }
}
