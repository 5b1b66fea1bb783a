//! Good-bot verification: times, blocks, feeds, FCrDNS and its cache.

use pow_gate_core::address::IpAddr;
use pow_gate_core::ranges::IpRangeSet;
use pow_gate_core::server::good_bots::{
    fcrdns_cached, fcrdns_candidate, fcrdns_confirm, matches_any, parse_time, refreshed, verifier_allows,
    Answer, Builder, Verdicts,
};

const SECOND: u64 = 1_000_000_000;

fn words(list: &[&str]) -> Vec<String> {
    list.iter().map(|s| s.to_string()).collect()
}

#[test]
fn times_are_read_with_their_unit() {
    assert_eq!(parse_time("12h"), Some(43200));
    assert_eq!(parse_time("30m"), Some(1800));
    assert_eq!(parse_time("90s"), Some(90));
    assert_eq!(parse_time("1d"), Some(86400));
    assert_eq!(parse_time("17"), Some(17));
    assert_eq!(parse_time(" 5 m "), Some(300));
    assert_eq!(parse_time(""), Some(0));
    assert_eq!(parse_time("h"), Some(0));
    assert_eq!(parse_time("x9"), Some(0));
    assert_eq!(parse_time("-1h"), Some(0));
    assert_eq!(parse_time("5w"), Some(0));
    assert_eq!(parse_time("18446744073709551615"), Some(u64::MAX));
    assert_eq!(parse_time("18446744073709551615s"), Some(u64::MAX));
    assert_eq!(parse_time("18446744073709551615m"), None);
    assert_eq!(parse_time("18446744073709551616m"), Some(0));
}

#[test]
fn blocks_are_built_line_by_line() {
    let mut b = Builder::new("search_engines".to_string());
    assert_eq!((b.refresh, b.fcrdns_ttl), (12 * 3600, 3600));
    assert!(b.verifier_inner(&words(&["ip_ranges_url", "https://a/x.json"])));
    assert!(b.verifier_inner(&words(&["ip_ranges_url", "https://b/y.json", "ignored"])));
    assert!(b.verifier_inner(&words(&["ip_ranges_refresh", "6h"])));
    assert!(b.verifier_inner(&words(&["fcrdns_suffix", ".googlebot.com", ".google.com"])));
    assert!(b.verifier_inner(&words(&["fcrdns_suffix", ".search.msn.com"])));
    assert!(b.verifier_inner(&words(&["fcrdns_ttl", "2m"])));
    assert!(b.verifier_inner(&words(&["ip_ranges_url"])));
    assert!(b.verifier_inner(&words(&["fcrdns_ttl"])));
    assert!(b.verifier_inner(&[]));
    assert!(!b.verifier_inner(&words(&["bogus", "1"])));
    assert_eq!(b.name, "search_engines");
    assert_eq!(b.urls, words(&["https://a/x.json", "https://b/y.json"]));
    assert_eq!(b.suffixes, words(&[".googlebot.com", ".google.com", ".search.msn.com"]));
    assert_eq!((b.refresh, b.fcrdns_ttl), (21600, 120));
}

#[test]
fn refreshing_keeps_the_old_ranges_when_nothing_was_loaded() {
    assert!(refreshed(&[]).is_none());
    assert!(refreshed(&[b"no json".to_vec(), br#"{"prefixes":[]}"#.to_vec()]).is_none());
    let set = refreshed(&[
        br#"{"prefixes":[{"ipv4Prefix":"10.0.0.0/8"}]}"#.to_vec(),
        b"broken".to_vec(),
        br#"{"prefixes":[{"ipv6Prefix":"2001:db8::/32"}]}"#.to_vec(),
    ])
    .unwrap();
    assert_eq!(set.len(), 2);
    assert!(set.contains(IpAddr::V4(0x0a01_0203)));
    assert!(set.contains(IpAddr::V6(0x2001_0db8 << 96)));
    assert!(!set.contains(IpAddr::V4(0x0b01_0203)));
}

#[test]
fn candidates_lie_under_a_suffix() {
    let s = words(&["googlebot.com", ".search.msn.com"]);
    assert!(matches_any("crawl-1.googlebot.com", &s));
    assert!(!matches_any("evilgooglebot.com", &s));
    assert!(!matches_any("googlebot.com", &[]));
    assert_eq!(
        fcrdns_candidate(Some("Crawl-1.GoogleBot.com"), &s).as_deref(),
        Some("crawl-1.googlebot.com")
    );
    assert_eq!(fcrdns_candidate(Some("evilgooglebot.com"), &s), None);
    assert_eq!(fcrdns_candidate(None, &s), None);
}

#[test]
fn the_forward_lookup_must_lead_back() {
    let a = IpAddr::V4(1);
    assert!(fcrdns_confirm(&[IpAddr::V4(2), a], a));
    assert!(!fcrdns_confirm(&[IpAddr::V4(2), IpAddr::V6(1)], a));
    assert!(!fcrdns_confirm(&[], a));
}

#[test]
fn verdicts_are_kept_per_address() {
    let mut v = Verdicts::new();
    assert_eq!(v.get(IpAddr::V4(1)), None);
    v.record(IpAddr::V4(1), true, 5);
    v.record(IpAddr::V6(1), false, 6);
    assert_eq!(v.get(IpAddr::V4(1)), Some((true, 5)));
    assert_eq!(v.get(IpAddr::V6(1)), Some((false, 6)));
    v.record(IpAddr::V4(1), false, 7);
    assert_eq!(v.get(IpAddr::V4(1)), Some((false, 7)));
    assert_eq!(v.get(IpAddr::V4(2)), None);
}

#[test]
fn cached_verdicts_count_until_they_are_stale() {
    let ip = IpAddr::V4(7);
    let mut v = Verdicts::new();
    // unknown: refused for now, and looked up once
    assert_eq!(fcrdns_cached(&mut v, 60, ip, 100), Answer::Resolve);
    assert_eq!(v.get(ip), Some((false, 100)));
    assert_eq!(fcrdns_cached(&mut v, 60, ip, 100 + 60 * SECOND - 1), Answer::Refused);
    v.record(ip, true, 200);
    assert_eq!(fcrdns_cached(&mut v, 60, ip, 200 + 60 * SECOND - 1), Answer::Allowed);
    assert_eq!(fcrdns_cached(&mut v, 60, ip, 199), Answer::Allowed);
    assert_eq!(fcrdns_cached(&mut v, 60, ip, 200 + 60 * SECOND), Answer::Resolve);
    assert_eq!(fcrdns_cached(&mut v, 0, ip, 200 + 60 * SECOND), Answer::Resolve);
    assert_eq!(fcrdns_cached(&mut v, u64::MAX, ip, u64::MAX), Answer::Refused);
}

#[test]
fn ranges_come_first_then_the_cache() {
    let mut set = IpRangeSet::new();
    assert!(set.add_cidr("10.0.0.0/8"));
    let inside = IpAddr::V4(0x0a00_0001);
    let outside = IpAddr::V4(0x0b00_0001);
    let suffixes = words(&["googlebot.com"]);
    let mut v = Verdicts::new();
    assert_eq!(verifier_allows(&set, &suffixes, &mut v, 60, inside, 0), Answer::Allowed);
    assert_eq!(v.get(inside), None);
    assert_eq!(verifier_allows(&set, &[], &mut v, 60, outside, 0), Answer::Refused);
    assert_eq!(v.get(outside), None);
    assert_eq!(verifier_allows(&set, &suffixes, &mut v, 60, outside, 0), Answer::Resolve);
    assert_eq!(verifier_allows(&set, &suffixes, &mut v, 60, outside, 1), Answer::Refused);
    v.record(outside, true, 2);
    assert_eq!(verifier_allows(&set, &suffixes, &mut v, 60, outside, 3), Answer::Allowed);
}
