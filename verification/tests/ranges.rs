//! IP-range set tests.

use pow_gate_core::address::IpAddr;
use pow_gate_core::ranges::{host_matches_suffix, read_entries, read_feed, IpRangeSet};

fn ip(s: &str) -> IpAddr {
    IpAddr::parse(s).unwrap()
}

#[test]
fn cidr_v4_membership() {
    let mut s = IpRangeSet::new();
    assert!(s.add_cidr("10.0.0.0/8"));
    assert!(s.add_cidr("192.168.1.0/24"));
    assert!(s.contains(ip("10.255.1.2")));
    assert!(s.contains(ip("192.168.1.42")));
    assert!(!s.contains(ip("192.168.2.1")));
    assert!(!s.contains(ip("11.0.0.1")));
}

#[test]
fn cidr_v6_membership() {
    let mut s = IpRangeSet::new();
    assert!(s.add_cidr("2001:db8::/32"));
    assert!(s.contains(ip("2001:db8:1234::1")));
    assert!(!s.contains(ip("2001:db9::1")));
}

#[test]
fn bare_address_is_host_route() {
    let mut s = IpRangeSet::new();
    assert!(s.add_cidr("203.0.113.5"));
    assert!(s.contains(ip("203.0.113.5")));
    assert!(!s.contains(ip("203.0.113.6")));
}

#[test]
fn ranges_rejects_garbage() {
    let mut s = IpRangeSet::new();
    assert!(!s.add_cidr("not-an-ip"));
    assert!(!s.add_cidr("999.0.0.0/8"));
    assert!(s.is_empty());
}

#[test]
fn parses_crawler_feed_json() {
    // the shape Google/Bing publish
    let feed = br#"{
      "creationTime": "2024-01-01T00:00:00.0000000",
      "prefixes": [
        { "ipv4Prefix": "192.178.5.0/27" },
        { "ipv6Prefix": "2001:4860:4801::/48" },
        { "ipv4Prefix": "66.249.64.0/19" }
      ]
    }"#;
    let mut s = IpRangeSet::new();
    let added = s.add_feed_json(feed);
    assert_eq!(added, 3);
    assert!(s.contains(ip("192.178.5.10")));
    assert!(s.contains(ip("66.249.70.1")));
    assert!(s.contains(ip("2001:4860:4801:1::1")));
    assert!(!s.contains(ip("8.8.8.8")));
}

#[test]
fn empty_or_malformed_feed_is_safe() {
    let mut s = IpRangeSet::new();
    assert_eq!(s.add_feed_json(b"not json"), 0);
    assert_eq!(s.add_feed_json(br#"{"prefixes":[]}"#), 0);
    assert!(s.is_empty());
}

#[test]
fn fcrdns_suffix_respects_label_boundary() {
    // legitimate sub-domains match
    assert!(host_matches_suffix("crawl-66-249-66-1.googlebot.com", "googlebot.com"));
    assert!(host_matches_suffix("bot.search.msn.com", ".search.msn.com"));
    // exact match is allowed
    assert!(host_matches_suffix("googlebot.com", "googlebot.com"));
    // the classic look-alike must be rejected
    assert!(!host_matches_suffix("evilgooglebot.com", "googlebot.com"));
    assert!(!host_matches_suffix("googlebot.com.attacker.net", "googlebot.com"));
    // case-insensitive + FQDN trailing dot
    assert!(host_matches_suffix("Bot.GoogleBot.Com.", "googlebot.com"));
    // empty inputs never match
    assert!(!host_matches_suffix("", "googlebot.com"));
    assert!(!host_matches_suffix("googlebot.com", ""));
}

#[test]
fn suffix_dots_and_white_space_are_ignored() {
    assert!(host_matches_suffix(" a.b \t", "..b.."));
    assert!(host_matches_suffix("b...", " b "));
    assert!(!host_matches_suffix(".", "."));
    assert!(!host_matches_suffix("a", "..."));
    assert!(!host_matches_suffix("..b", "c.b"));
    assert!(host_matches_suffix("..b", "b"));
}

#[test]
fn prefixes_that_are_no_number_are_refused() {
    let mut s = IpRangeSet::new();
    for text in [
        "10.0.0.0/abc",
        "192.0.2.1/x",
        "192.0.2.1/",
        "192.0.2.1/-1",
        "192.0.2.1/8/8",
        "192.0.2.1/4294967296",
        "2001:db8::1/x",
        "/8",
    ] {
        assert!(!s.add_cidr(text), "{text}");
        assert!(s.is_empty());
    }
    assert!(!s.contains(ip("10.0.0.0")));
}

#[test]
fn long_prefixes_are_cut_to_the_address() {
    let mut s = IpRangeSet::new();
    assert!(s.add_cidr(" 192.0.2.3 / 99 "));
    assert!(s.add_cidr("2001:db8::1/200"));
    assert!(s.contains(ip("192.0.2.3")));
    assert!(!s.contains(ip("192.0.2.2")));
    assert!(s.contains(ip("2001:db8::1")));
    assert!(!s.contains(ip("2001:db8::")));
    assert_eq!(s.len(), 2);
    assert!(!s.is_empty());
}

#[test]
fn empty_prefix_covers_one_family() {
    let mut s = IpRangeSet::default();
    assert!(s.add_cidr("0.0.0.0/0"));
    assert!(s.contains(ip("255.255.255.255")));
    assert!(!s.contains(ip("::")));
    assert!(s.add_cidr("1::/0"));
    assert!(s.contains(ip("ffff::ffff")));
}

#[test]
fn host_bits_of_a_range_do_not_matter() {
    let mut s = IpRangeSet::new();
    assert!(s.add_cidr("10.1.2.3/9"));
    assert!(s.contains(ip("10.0.0.0")));
    assert!(s.contains(ip("10.127.255.255")));
    assert!(!s.contains(ip("10.128.0.0")));
    let mut t = IpRangeSet::new();
    assert!(t.add_cidr("fe80::1:2:3:4/65"));
    assert!(t.contains(ip("fe80::7fff:ffff:ffff:ffff")));
    assert!(!t.contains(ip("fe80::8000:0:0:0")));
    assert!(!t.contains(ip("fe80:0:0:1::")));
}

#[test]
fn adding_never_removes() {
    let mut s = IpRangeSet::new();
    assert!(s.add_cidr("10.0.0.0/8"));
    assert!(s.add_cidr("10.0.0.0/32"));
    assert!(!s.add_cidr("nonsense"));
    assert!(s.contains(ip("10.9.9.9")));
    assert_eq!(s.len(), 2);
}

#[test]
fn feeds_with_one_malformed_entry_add_nothing() {
    let mut s = IpRangeSet::new();
    assert_eq!(s.add_feed_json(br#"{"prefixes":[{"ipv4Prefix":"10.0.0.0/8"},{"ipv4Prefix":7}]}"#), 0);
    assert_eq!(s.add_feed_json(br#"{"prefixes":[{"ipv4Prefix":"10.0.0.0/8"},7]}"#), 0);
    assert_eq!(s.add_feed_json(br#"{"prefixes":"10.0.0.0/8"}"#), 0);
    assert_eq!(s.add_feed_json(br#"{"other":1}"#), 0);
    assert!(s.is_empty());
}

#[test]
fn feed_entries_count_what_is_a_range() {
    let mut s = IpRangeSet::new();
    let feed = br#"{"prefixes":[
        {"ipv4Prefix":"10.0.0.0/8","ipv6Prefix":"2001:db8::/32"},
        {"ipv4Prefix":null},
        {},
        {"ipv4Prefix":"nonsense"},
        {"note":"x","ipv6Prefix":"::1"}
    ]}"#;
    assert_eq!(
        read_feed(feed),
        vec!["10.0.0.0/8", "2001:db8::/32", "nonsense", "::1"]
    );
    assert_eq!(s.add_feed_json(feed), 3);
    assert_eq!(s.len(), 3);
    assert!(s.contains(ip("::1")));
}

#[test]
fn entries_may_be_arrays() {
    let mut s = IpRangeSet::new();
    let feed = br#"[[["10.0.0.0/8", "2001:db8::/32"], [null, "::1"], ["192.0.2.1"], []]]"#;
    assert_eq!(read_feed(feed), vec!["10.0.0.0/8", "2001:db8::/32", "::1", "192.0.2.1"]);
    assert_eq!(s.add_feed_json(feed), 4);
    // one element too many, in an entry and in the feed
    assert!(read_feed(br#"{"prefixes":[["10.0.0.0/8", null, null]]}"#).is_empty());
    assert!(read_feed(br#"[[["10.0.0.0/8"]], 1]"#).is_empty());
    assert!(read_feed(b"[]").is_empty());
}

#[test]
fn other_fields_are_skipped_whatever_they_hold() {
    let deep = format!("{}{}", "[".repeat(500), "]".repeat(500));
    for other in ["1e999", "\"\\ud800\"", deep.as_str(), "{\"a\":1,\"a\":2}", "null"] {
        let feed = format!(
            r#" {{"x":{other},"x":{other},"prefixes":[{{"y":{other},"ipv4Prefix":"10.0.0.0/8","y":7}}]}} "#
        );
        assert_eq!(read_feed(feed.as_bytes()), vec!["10.0.0.0/8"], "{other}");
    }
    // bytes that are no UTF-8
    let mut feed = br#"{"x":""#.to_vec();
    feed.push(0xff);
    feed.extend_from_slice(br#"","prefixes":[{"ipv4Prefix":"10.0.0.0/8"}]}"#);
    assert_eq!(read_feed(&feed), vec!["10.0.0.0/8"]);
}

#[test]
fn fields_are_given_once() {
    assert!(read_feed(br#"{"prefixes":[{"ipv4Prefix":"10.0.0.0/8"}],"prefixes":[]}"#).is_empty());
    assert!(read_feed(br#"{"prefixes":[{"ipv4Prefix":"::1","ipv4Prefix":"::2"}]}"#).is_empty());
    assert!(read_feed(br#"{"prefixes":[{"ipv4Prefix":null,"ipv4Prefix":null}]}"#).is_empty());
    // a name may be written with escapes
    assert!(read_feed(br#"{"prefixes":[{"ipv4Prefix":"::1","ipv\u0034Prefix":"::2"}]}"#).is_empty());
    assert_eq!(read_feed(br#"{"prefixes":[{"ipv\u0034Prefix":"::2"}]}"#), vec!["::2"]);
}

#[test]
fn malformed_documents_hold_nothing() {
    for doc in [
        r#"{"prefixes":[{"ipv4Prefix":"::1"},]}"#,
        r#"{"prefixes":[{"ipv4Prefix":"::1",}]}"#,
        r#"{"prefixes":[{"ipv4Prefix":"::1"}]} x"#,
        r#"{"prefixes":[{"ipv4Prefix":"::1"}]"#,
        r#"{"prefixes":[{"ipv4Prefix" "::1"}]}"#,
        r#"{"prefixes":[{"ipv4Prefix":"::1"} {}]}"#,
        r#"{"x":01,"prefixes":[{"ipv4Prefix":"::1"}]}"#,
        r#"{x:1,"prefixes":[{"ipv4Prefix":"::1"}]}"#,
        r#"{,"prefixes":[{"ipv4Prefix":"::1"}]}"#,
    ] {
        assert!(read_feed(doc.as_bytes()).is_empty(), "{doc}");
    }
    assert_eq!(
        read_feed(b"\t{ \"prefixes\" :\n[ { \"ipv4Prefix\" : \"::1\" } , { } ]\r}\n"),
        vec!["::1"]
    );
}

#[test]
fn what_is_no_json_adds_nothing() {
    let mut s = IpRangeSet::new();
    assert!(s.add_cidr("10.0.0.0/8"));
    for doc in ["", "not json", "7", "null", "\"10.0.0.0/8\"", r#"{"prefixes":[{"ipv4Prefix":"::1"}]"#] {
        assert_eq!(s.add_feed_json(doc.as_bytes()), 0, "{doc}");
    }
    assert_eq!(s.len(), 1);
    assert!(s.contains(ip("10.1.1.1")));
}

#[test]
fn merging_a_feed_twice_changes_no_answer() {
    let feed = br#"{"x":1,"prefixes":[{"ipv4Prefix":"10.0.0.0/8","y":[2]}]}"#;
    let plain = br#"{"prefixes":[{"ipv4Prefix":"10.0.0.0/8"}]}"#;
    assert_eq!(read_feed(feed), read_feed(plain));
    let mut s = IpRangeSet::new();
    assert_eq!(s.add_feed_json(feed), 1);
    assert_eq!(s.add_feed_json(feed), 1);
    assert!(s.contains(ip("10.2.3.4")));
    assert!(!s.contains(ip("11.0.0.0")));
}

#[test]
fn entries_are_read_in_order() {
    let a = br#"{"ipv6Prefix":"b","ipv4Prefix":"a"}"#.to_vec();
    let b = br#"{"ipv4Prefix":"c"}"#.to_vec();
    assert_eq!(read_entries(&[a.clone(), b]), vec!["a", "b", "c"]);
    assert_eq!(read_entries(&[a.clone(), b"[]".to_vec()]), vec!["a", "b"]);
    assert!(read_entries(&[a, b"7".to_vec()]).is_empty());
    assert!(read_entries(&[]).is_empty());
}
