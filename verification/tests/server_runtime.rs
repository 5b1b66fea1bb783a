//! Request-time values: clock, configuration, cookies, headers, bodies.

use pow_gate_core::address::IpAddr;
use pow_gate_core::server::config::{
    create_location_conf, load_location_conf, merge_location_conf, ConfError, LocationConf,
    UNSET_FLAG, UNSET_SEC, UNSET_SIZE, UNSET_UINT,
};
use pow_gate_core::server::runtime::{
    build_set_cookie, client_ip, cookie, file_span, header, key_usable, nonempty, now, request_body,
    resolve, seconds, CookieConfig, RangeRead, ReadStep, Segment, AF_INET, AF_INET6,
};
use std::sync::Arc;

fn h(list: &[(&str, &str)]) -> Vec<(String, String)> {
    list.iter().map(|(a, b)| (a.to_string(), b.to_string())).collect()
}

fn defaults() -> CookieConfig {
    CookieConfig {
        name: "pow_clearance".to_string(),
        domain: None,
        path: "/".to_string(),
        samesite: "Lax".to_string(),
        secure: true,
        http_only: true,
        max_age_secs: 43200,
    }
}

fn merged() -> LocationConf {
    let root = create_location_conf();
    let mut c = create_location_conf();
    merge_location_conf(&root, &mut c);
    c
}

#[test]
fn clock_reads_seconds() {
    assert_eq!(seconds(None), 0);
    assert_eq!(seconds(Some(1718450000)), 1718450000);
    assert_eq!(seconds(Some(i64::MAX as u64)), i64::MAX);
    assert_eq!(seconds(Some(u64::MAX)), -1);
    // well after this was written, and before the end of the range
    assert!(now() > 1_700_000_000);
}

#[test]
fn empty_texts_take_the_default() {
    assert_eq!(nonempty("", "d"), "d");
    assert_eq!(nonempty("x", "d"), "x");
    assert_eq!(nonempty(" ", "d"), " ");
}

#[test]
fn keys_need_sixteen_bytes() {
    assert!(!key_usable(b""));
    assert!(!key_usable(&[0; 15]));
    assert!(key_usable(&[0; 16]));
    assert!(key_usable(&[0; 64]));
}

#[test]
fn cookies_are_found_by_name() {
    let hs = h(&[("Host", "x"), ("COOKIE", "a=1; pow=t.k=n ;b=2"), ("cookie", "pow=second; c=3")]);
    assert_eq!(cookie(&hs, "pow").as_deref(), Some("t.k=n"));
    assert_eq!(cookie(&hs, "a").as_deref(), Some("1"));
    assert_eq!(cookie(&hs, "b").as_deref(), Some("2"));
    assert_eq!(cookie(&hs, "c").as_deref(), Some("3"));
    assert_eq!(cookie(&hs, "Pow"), None);
    assert_eq!(cookie(&hs, "d"), None);
    assert_eq!(cookie(&h(&[("x-cookie", "a=1")]), "a"), None);
    assert_eq!(cookie(&h(&[("cookie", "a")]), "a"), None);
    assert_eq!(cookie(&h(&[("cookie", "a=")]), "a").as_deref(), Some(""));
    assert_eq!(cookie(&h(&[("cookie", "=v")]), "").as_deref(), Some("v"));
    assert_eq!(cookie(&[], "a"), None);
}

#[test]
fn headers_are_found_in_any_case() {
    let hs = h(&[("Sec-Fetch-Dest", "empty"), ("X", "1"), ("x", "2")]);
    assert_eq!(header(&hs, "sec-fetch-dest").as_deref(), Some("empty"));
    assert_eq!(header(&hs, "X").as_deref(), Some("1"));
    assert_eq!(header(&hs, "y"), None);
}

#[test]
fn client_addresses_are_read_positionally() {
    let v4 = [2, 0, 0x1f, 0x90, 203, 0, 113, 5, 9, 9];
    assert_eq!(client_ip(AF_INET, &v4), Some(IpAddr::V4(0xcb00_7105)));
    let mut v6 = [0u8; 28];
    for i in 0..16u8 {
        v6[8 + i as usize] = i + 1;
    }
    assert_eq!(
        client_ip(AF_INET6, &v6),
        Some(IpAddr::V6(0x0102_0304_0506_0708_090a_0b0c_0d0e_0f10))
    );
    assert_eq!(client_ip(1, &[]), None);
}

#[test]
fn set_cookie_with_the_defaults() {
    assert_eq!(
        build_set_cookie("p.t", &defaults()),
        "pow_clearance=p.t; Path=/; Max-Age=43200; SameSite=Lax; Secure; HttpOnly"
    );
}

#[test]
fn set_cookie_with_every_attribute() {
    let c = CookieConfig {
        name: "gate_clearance".to_string(),
        domain: Some(".example.com".to_string()),
        samesite: "None".to_string(),
        secure: false,
        max_age_secs: 3600,
        ..defaults()
    };
    assert_eq!(
        build_set_cookie("<token>", &c),
        "gate_clearance=<token>; Path=/; Domain=.example.com; Max-Age=3600; SameSite=None; Secure; HttpOnly"
    );
    let plain = CookieConfig { secure: false, http_only: false, samesite: "Strict".to_string(), ..defaults() };
    assert_eq!(
        build_set_cookie("v", &plain),
        "pow_clearance=v; Path=/; Max-Age=43200; SameSite=Strict"
    );
    let forced = CookieConfig { secure: false, samesite: "nONE".to_string(), ..defaults() };
    assert!(build_set_cookie("v", &forced).contains("; Secure"));
}

#[test]
fn a_cookie_that_was_set_is_read_back() {
    let set = build_set_cookie("abc.d-_f", &defaults());
    let pair = pow_gate_core::perf::cookie_pair(&set);
    assert_eq!(pair, "pow_clearance=abc.d-_f");
    let hs = h(&[("Cookie", pair.as_str())]);
    assert_eq!(cookie(&hs, "pow_clearance").as_deref(), Some("abc.d-_f"));
}

#[test]
fn bodies_are_joined_in_order() {
    assert_eq!(request_body(None), None);
    assert_eq!(request_body(Some(vec![])), Some(vec![]));
    let list = vec![
        Segment::Memory(b"ab".to_vec()),
        Segment::File(Some(b"cd".to_vec())),
        Segment::Memory(vec![]),
        Segment::Memory(b"e".to_vec()),
    ];
    assert_eq!(request_body(Some(list)), Some(b"abcde".to_vec()));
    let broken = vec![Segment::Memory(b"ab".to_vec()), Segment::File(None), Segment::Memory(b"x".to_vec())];
    assert_eq!(request_body(Some(broken)), None);
}

#[test]
fn file_spans() {
    assert_eq!(file_span(0, 10), 10);
    assert_eq!(file_span(10, 10), 0);
    assert_eq!(file_span(10, 3), 0);
    assert_eq!(file_span(i64::MIN, i64::MAX), u64::MAX);
}

#[test]
fn positional_reads_run_until_filled() {
    let mut r = RangeRead::start(10, 100);
    assert_eq!(r.step(), ReadStep::More { filled: 0, len: 10, offset: 100 });
    assert_eq!(r.advance(4), ReadStep::More { filled: 4, len: 6, offset: 104 });
    assert_eq!(r.advance(0), ReadStep::Failed);
    assert_eq!(r.advance(-1), ReadStep::Failed);
    assert_eq!(r.advance(6), ReadStep::Done);
    assert_eq!(RangeRead::start(0, 5).step(), ReadStep::Done);
}

#[test]
fn defaults_of_every_directive() {
    let c = merged();
    assert_eq!(c.enabled, 0);
    assert_eq!(c.trusted, None);
    assert_eq!(c.decision, None);
    assert_eq!(c.page_path, "");
    assert_eq!(c.nojs_page_path, "");
    assert_eq!(c.difficulty, 50000);
    assert_eq!(c.hmac_key_file, "");
    assert_eq!(c.clearance_ttl, 43200);
    assert_eq!(c.proof_skew, 5);
    assert_eq!(c.require_proof, 0);
    assert_eq!(c.endpoint, "/.pow/");
    assert_eq!(c.replay, 1);
    assert_eq!(c.replay_max_body, 1024 * 1024);
    assert_eq!(c.cookie_name, "pow_clearance");
    assert_eq!(c.cookie_domain, "");
    assert_eq!(c.cookie_path, "/");
    assert_eq!(c.cookie_samesite, "Lax");
    assert_eq!(c.cookie_secure, 1);
    assert_eq!(c.cookie_httponly, 1);
}

#[test]
fn fresh_locations_are_unset() {
    let c = create_location_conf();
    assert_eq!((c.enabled, c.replay, c.require_proof), (UNSET_FLAG, UNSET_FLAG, UNSET_FLAG));
    assert_eq!((c.clearance_ttl, c.proof_skew), (UNSET_SEC, UNSET_SEC));
    assert_eq!((c.difficulty, c.replay_max_body), (UNSET_UINT, UNSET_SIZE));
    assert!(c.page_cache.is_empty() && c.nojs_page_cache.is_empty());
}

#[test]
fn set_here_beats_inherited_and_off_wins() {
    let mut server = create_location_conf();
    server.enabled = 1;
    server.difficulty = 7;
    server.trusted = Some(11);
    server.endpoint = "/gate/".to_string();
    let root = create_location_conf();
    merge_location_conf(&root, &mut server);
    let mut location = create_location_conf();
    location.enabled = 0;
    location.decision = Some(12);
    location.difficulty = 9;
    merge_location_conf(&server, &mut location);
    assert_eq!(location.enabled, 0);
    assert_eq!(location.difficulty, 9);
    assert_eq!(location.trusted, Some(11));
    assert_eq!(location.decision, Some(12));
    assert_eq!(location.endpoint, "/gate/");
    let mut plain = create_location_conf();
    merge_location_conf(&server, &mut plain);
    assert_eq!((plain.enabled, plain.difficulty), (1, 7));
}

#[test]
fn start_up_is_refused_without_a_key_or_a_page() {
    let key = Some(vec![1u8; 16]);
    let page = Some(b"d={{difficulty}} e={{endpoint}}".to_vec());
    let nojs = Some(b"{{delay}}".to_vec());
    let mut c = merged();
    // off: nothing is needed
    assert_eq!(load_location_conf(&mut c, None, None, None), Ok(()));
    assert!(c.page_cache.is_empty());
    c.enabled = 1;
    assert_eq!(load_location_conf(&mut c, None, page.clone(), nojs.clone()), Err(ConfError::Key));
    assert_eq!(
        load_location_conf(&mut c, Some(vec![1; 15]), page.clone(), nojs.clone()),
        Err(ConfError::Key)
    );
    assert_eq!(load_location_conf(&mut c, key.clone(), None, nojs.clone()), Err(ConfError::Page));
    assert!(c.page_cache.is_empty() && c.nojs_page_cache.is_empty());
    assert_eq!(load_location_conf(&mut c, key.clone(), page.clone(), None), Err(ConfError::NoJsPage));
    assert_eq!(c.page_cache, b"d=50000 e=/.pow/");
    assert!(c.nojs_page_cache.is_empty());
    assert_eq!(load_location_conf(&mut c, key, page, nojs), Ok(()));
    assert_eq!(c.page_cache, b"d=50000 e=/.pow/");
    assert_eq!(c.nojs_page_cache, b"{{delay}}");
}

#[test]
fn resolution_keeps_every_setting() {
    let mut lc = merged();
    lc.require_proof = 1;
    lc.cookie_domain = ".example.com".to_string();
    lc.cookie_name = String::new();
    lc.cookie_secure = 0;
    let cfg = resolve(&lc, Arc::new(vec![7; 16]));
    assert!(cfg.key_ok && cfg.require_proof && cfg.replay);
    assert_eq!(cfg.key.as_slice(), &[7; 16]);
    assert_eq!((cfg.difficulty, cfg.clearance_ttl, cfg.proof_skew), (50000, 43200, 5));
    assert_eq!(cfg.endpoint, "/.pow/");
    assert_eq!(cfg.replay_max_body, 1048576);
    assert_eq!(cfg.cookie.name, "pow_clearance");
    assert_eq!(cfg.cookie.domain.as_deref(), Some(".example.com"));
    assert_eq!((cfg.cookie.path.as_str(), cfg.cookie.samesite.as_str()), ("/", "Lax"));
    assert!(!cfg.cookie.secure && cfg.cookie.http_only);
    assert_eq!(cfg.cookie.max_age_secs, 43200);
    let weak = resolve(&lc, Arc::new(vec![7; 15]));
    assert!(!weak.key_ok);
    let none = resolve(&merged(), Arc::new(vec![]));
    assert_eq!(none.cookie.domain, None);
}
