//! `pow_gate_verifier <name> { ... }`: verified good-bot allowlist.
//!
//! Confirms that a client claiming to be a known bot (`verify:<name>`) really
//! connects from that bot's network, via two independent checks:
//!
//!   * **IP ranges**: the operators' official CIDR JSON feeds (`ip_ranges_url`),
//!     refreshed on a timer (`ip_ranges_refresh`).
//!   * **FCrDNS**: forward-confirmed reverse DNS: PTR(ip) lies under an
//!     `fcrdns_suffix` *and* that host resolves back to the same ip. DNS is done
//!     in the background; verdicts are cached (`fcrdns_ttl`), so that answering a
//!     request only reads the cache.

use crate::address::IpAddr;
use crate::number::{
    decimal, decimal_chars, is_digit, read_unsigned, unsigned_number, unsigned_read_back,
};
use crate::ranges::{
    count_valid, covered_by_all, feed_texts, host_matches_suffix, matches_ignore_case, under_suffix,
    views, IpRangeSet,
};
use crate::text::{
    ascii, chars, lower, same, trim, trimmed, white_space_around_is_left_out,
};
use std::collections::HashMap;
use vstd::prelude::*;
use vstd::slice::slice_subrange;

verus! {

broadcast use vstd::std_specs::hash::group_hash_axioms;

// -------------------------------------------------------------------- times

/// The number of seconds in the unit that a letter stands for.
pub open spec fn unit_seconds(c: char) -> Option<nat> {
    if c == 's' {
        Some(1)
    } else if c == 'm' {
        Some(60)
    } else if c == 'h' {
        Some(3600)
    } else if c == 'd' {
        Some(86400)
    } else {
        None
    }
}

/// The number that a text denotes, zero where it denotes none.
pub open spec fn number_or_zero(s: Seq<char>) -> nat {
    match unsigned_number(trim(s), u64::MAX as nat) {
        Some(n) => n,
        None => 0,
    }
}

/// The seconds that `12h` / `30m` / `90s` / `1d` / plain seconds denote.
pub open spec fn time_seconds(s: Seq<char>) -> nat {
    let t = trim(s);
    if t.len() > 0 && unit_seconds(t.last()) is Some {
        number_or_zero(t.drop_last()) * unit_seconds(t.last())->0
    } else {
        number_or_zero(t)
    }
}

/// Parse `12h` / `30m` / `90s` / `1d` / plain seconds into seconds; `None` where
/// they are more than 64 bits hold.
pub fn parse_time(s: &str) -> (r: Option<u64>)
    ensures
        match r {
            Some(n) => n == time_seconds(s@),
            None => time_seconds(s@) > u64::MAX,
        },
{
    let all = chars(s);
    let t = trimmed(all.as_slice());
    let mut unit: u64 = 1;
    let mut digits = t;
    if t.len() > 0 {
        let c = t[t.len() - 1];
        let known = c == 's' || c == 'm' || c == 'h' || c == 'd';
        if known {
            unit =
            if c == 's' {
                1
            } else if c == 'm' {
                60
            } else if c == 'h' {
                3600
            } else {
                86400
            };
            digits = slice_subrange(t, 0, t.len() - 1);
            assert(digits@ =~= t@.drop_last());
        }
    }
    let n: u64 = match read_unsigned(trimmed(digits), u64::MAX) {
        Some(n) => n,
        None => 0,
    };
    assert(n * unit == time_seconds(s@));
    n.checked_mul(unit)
}

// ---------------------------------------------------------- block directives

/// A verifier as its block describes it, accumulated across the inner directives.
pub struct Builder {
    pub name: String,
    pub urls: Vec<String>,
    /// Seconds between two fetches of the feeds.
    pub refresh: u64,
    pub suffixes: Vec<String>,
    /// Seconds for which an FCrDNS verdict counts.
    pub fcrdns_ttl: u64,
}

/// What a [`Builder`] holds.
#[verifier::ext_equal]
pub struct BuilderView {
    pub name: Seq<char>,
    pub urls: Seq<Seq<char>>,
    pub refresh: nat,
    pub suffixes: Seq<Seq<char>>,
    pub fcrdns_ttl: nat,
}

impl View for Builder {
    type V = BuilderView;

    open spec fn view(&self) -> BuilderView {
        BuilderView {
            name: self.name@,
            urls: views(self.urls@),
            refresh: self.refresh as nat,
            suffixes: views(self.suffixes@),
            fcrdns_ttl: self.fcrdns_ttl as nat,
        }
    }
}

/// What a line of the block makes of the verifier; `None` for an unknown
/// directive. The first word is the directive; a directive without an argument
/// changes nothing.
pub open spec fn applied(b: BuilderView, words: Seq<Seq<char>>) -> Option<BuilderView> {
    if words.len() == 0 {
        Some(b)
    } else if words[0] == "ip_ranges_url"@ {
        Some(
            if words.len() > 1 {
                BuilderView { urls: b.urls.push(words[1]), ..b }
            } else {
                b
            },
        )
    } else if words[0] == "ip_ranges_refresh"@ {
        Some(
            if words.len() > 1 {
                BuilderView { refresh: time_seconds(words[1]), ..b }
            } else {
                b
            },
        )
    } else if words[0] == "fcrdns_suffix"@ {
        Some(BuilderView { suffixes: b.suffixes + words.skip(1), ..b })
    } else if words[0] == "fcrdns_ttl"@ {
        Some(
            if words.len() > 1 {
                BuilderView { fcrdns_ttl: time_seconds(words[1]), ..b }
            } else {
                b
            },
        )
    } else {
        None
    }
}

/// The time that a line sets fits in 64 bits.
pub open spec fn times_fit(words: Seq<Seq<char>>) -> bool {
    words.len() > 1 && (words[0] == "ip_ranges_refresh"@ || words[0] == "fcrdns_ttl"@)
        ==> time_seconds(words[1]) <= u64::MAX
}

impl Builder {
    /// A verifier without feeds and suffixes: feeds are fetched every twelve hours
    /// and verdicts count for an hour.
    pub fn new(name: String) -> (b: Builder)
        ensures
            b@ == (BuilderView {
                name: name@,
                urls: Seq::empty(),
                refresh: 43200,
                suffixes: Seq::empty(),
                fcrdns_ttl: 3600,
            }),
    {
        let b = Builder {
            name,
            urls: Vec::new(),
            refresh: 43200,
            suffixes: Vec::new(),
            fcrdns_ttl: 3600,
        };
        assert(b@.urls =~= Seq::empty());
        assert(b@.suffixes =~= Seq::empty());
        b
    }

    /// Apply one line of the block, given as its words. `false` for an unknown
    /// directive, which is a configuration error.
    pub fn verifier_inner(&mut self, words: &[String]) -> (known: bool)
        requires
            times_fit(views(words@)),
        ensures
            match applied(old(self)@, views(words@)) {
                Some(b) => known && final(self)@ == b,
                None => !known && final(self)@ == old(self)@,
            },
    {
        if words.len() == 0 {
            return true;
        }
        let ghost all = views(words@);
        let ghost before = self@;
        assert(all[0] == words@[0]@);
        let directive = words[0].as_str();
        if same(directive, "ip_ranges_url") {
            if words.len() > 1 {
                assert(all[1] == words@[1]@);
                self.urls.push(words[1].as_str().to_owned());
                assert(views(self.urls@) =~= before.urls.push(all[1]));
            }
            return true;
        }
        if same(directive, "ip_ranges_refresh") {
            if words.len() > 1 {
                assert(all[1] == words@[1]@);
                if let Some(t) = parse_time(words[1].as_str()) {
                    self.refresh = t;
                }
            }
            return true;
        }
        if same(directive, "fcrdns_suffix") {
            let mut i: usize = 1;
            assert(self@.suffixes =~= before.suffixes + all.subrange(1, 1));
            while i < words.len()
                invariant
                    all == views(words@),
                    1 <= i <= words@.len(),
                    self@ == (BuilderView {
                        suffixes: before.suffixes + all.subrange(1, i as int),
                        ..before
                    }),
                decreases words@.len() - i,
            {
                assert(all[i as int] == words@[i as int]@);
                let ghost so_far = self.suffixes@;
                self.suffixes.push(words[i].as_str().to_owned());
                assert(views(self.suffixes@) =~= views(so_far).push(all[i as int]));
                assert(self@.suffixes =~= before.suffixes + all.subrange(1, i + 1));
                i = i + 1;
            }
            assert(all.subrange(1, i as int) =~= all.skip(1));
            return true;
        }
        if same(directive, "fcrdns_ttl") {
            if words.len() > 1 {
                assert(all[1] == words@[1]@);
                if let Some(t) = parse_time(words[1].as_str()) {
                    self.fcrdns_ttl = t;
                }
            }
            return true;
        }
        false
    }
}

// ------------------------------------------------------------------- ranges

/// The most that is read of a feed, in bytes.
pub const MAX_FEED_BYTES: u64 = 8388608;

/// The CIDR texts of a list of feeds, in order.
pub open spec fn feeds_texts(feeds: Seq<Vec<u8>>) -> Seq<Seq<char>>
    decreases feeds.len(),
{
    if feeds.len() == 0 {
        Seq::empty()
    } else {
        feeds_texts(feeds.drop_last()) + feed_texts(feeds.last()@)
    }
}

proof fn lemma_texts_add(a: Seq<Seq<char>>, b: Seq<Seq<char>>)
    ensures
        count_valid(a + b) == count_valid(a) + count_valid(b),
        covered_by_all(a + b) == covered_by_all(a).union(covered_by_all(b)),
    decreases b.len(),
{
    if b.len() == 0 {
        assert(a + b =~= a);
        assert(covered_by_all(a).union(covered_by_all(b)) =~= covered_by_all(a));
    } else {
        lemma_texts_add(a, b.drop_last());
        assert((a + b).drop_last() =~= a + b.drop_last());
        assert((a + b).last() == b.last());
        assert(covered_by_all(a + b) =~= covered_by_all(a).union(covered_by_all(b)));
    }
}

/// The ranges of the feeds that could be fetched; `None` where they hold none, in
/// which case the ranges at hand are kept.
pub fn refreshed(feeds: &[Vec<u8>]) -> (r: Option<IpRangeSet>)
    ensures
        r is Some == (count_valid(feeds_texts(feeds@)) > 0),
        r matches Some(set) ==> set@ == covered_by_all(feeds_texts(feeds@)) && set.count()
            == count_valid(feeds_texts(feeds@)),
{
    let mut set = IpRangeSet::new();
    for i in 0..feeds.len()
        invariant
            set@ == covered_by_all(feeds_texts(feeds@.take(i as int))),
            set.count() == count_valid(feeds_texts(feeds@.take(i as int))),
    {
        assert(feeds@.take(i + 1).drop_last() =~= feeds@.take(i as int));
        proof {
            lemma_texts_add(feeds_texts(feeds@.take(i as int)), feed_texts(feeds@[i as int]@));
        }
        set.add_feed_json(feeds[i].as_slice());
    }
    assert(feeds@.take(feeds@.len() as int) =~= feeds@);
    if set.is_empty() {
        None
    } else {
        Some(set)
    }
}

// ------------------------------------------------------------------- FCrDNS

/// What `str::to_lowercase` makes of a text.
pub uninterp spec fn lowercase_text(s: Seq<char>) -> Seq<char>;

/// `str::to_lowercase`, which maps every character by the Unicode tables: a
/// function of the text, and of an ASCII text the one with `A`..`Z` mapped to
/// `a`..`z`.
#[verifier::external_body]
fn lowercase(s: &str) -> (r: String)
    ensures
        r@ == lowercase_text(s@),
        ascii(s@) ==> r@ == lower(s@),
{
    s.to_lowercase()
}

/// `host` lies under one of the suffixes.
pub open spec fn under_any(host: Seq<char>, suffixes: Seq<Seq<char>>) -> bool {
    exists|i: int| 0 <= i < suffixes.len() && under_suffix(host, #[trigger] suffixes[i])
}

/// Does `host` lie under one of the suffixes?
pub fn matches_any(host: &str, suffixes: &[String]) -> (r: bool)
    ensures
        r == under_any(host@, views(suffixes@)),
{
    for i in 0..suffixes.len()
        invariant
            forall|j: int|
                0 <= j < i ==> !under_suffix(host@, #[trigger] views(suffixes@)[j]),
    {
        assert(views(suffixes@)[i as int] == suffixes@[i as int]@);
        if host_matches_suffix(host, suffixes[i].as_str()) {
            return true;
        }
    }
    false
}

/// The host to look up for a PTR name: the name in lower case, if it lies under
/// one of the suffixes.
pub open spec fn host_to_confirm(ptr: Option<Seq<char>>, suffixes: Seq<Seq<char>>) -> Option<
    Seq<char>,
> {
    match ptr {
        Some(name) if under_any(lowercase_text(name), suffixes) => Some(lowercase_text(name)),
        _ => None,
    }
}

proof fn lemma_under_any_lower(host: Seq<char>, suffixes: Seq<Seq<char>>)
    ensures
        under_any(lower(host), suffixes) == under_any(host, suffixes),
{
    assert(lower(lower(host)) =~= lower(host));
    assert forall|i: int| 0 <= i < suffixes.len() implies under_suffix(
        lower(host),
        #[trigger] suffixes[i],
    ) == under_suffix(host, suffixes[i]) by {
        matches_ignore_case(host, suffixes[i]);
        matches_ignore_case(lower(host), suffixes[i]);
    }
}

/// The host that has to resolve back, given the PTR name of an address: `None`
/// where there is no name, or it lies under none of the suffixes, so that the
/// address is not confirmed. Of an ASCII name, which a DNS name is, it is the name
/// with `A`..`Z` mapped to `a`..`z`.
pub fn fcrdns_candidate(ptr: Option<&str>, suffixes: &[String]) -> (r: Option<String>)
    ensures
        match (
            r,
            host_to_confirm(
                match ptr {
                    Some(p) => Some(p@),
                    None => None,
                },
                views(suffixes@),
            ),
        ) {
            (None, None) => true,
            (Some(a), Some(b)) => a@ == b,
            _ => false,
        },
        ptr matches Some(p) ==> (ascii(p@) ==> match r {
            Some(host) => under_any(p@, views(suffixes@)) && host@ == lower(p@),
            None => !under_any(p@, views(suffixes@)),
        }),
{
    let host = match ptr {
        Some(p) => lowercase(p),
        None => return None,
    };
    proof {
        lemma_under_any_lower(ptr->0@, views(suffixes@));
    }
    if matches_any(host.as_str(), suffixes) {
        Some(host)
    } else {
        None
    }
}

/// Does the forward lookup lead back to `ip`?
pub fn fcrdns_confirm(addresses: &[IpAddr], ip: IpAddr) -> (r: bool)
    ensures
        r == addresses@.contains(ip),
{
    for i in 0..addresses.len()
        invariant
            forall|j: int| 0 <= j < i ==> addresses@[j] != ip,
    {
        if addresses[i] == ip {
            return true;
        }
    }
    false
}

/// FCrDNS verdicts by address, each with the time at which it was made, in
/// nanoseconds of a clock that does not go back.
pub struct Verdicts {
    v4: HashMap<u32, (bool, u64)>,
    v6: HashMap<u128, (bool, u64)>,
}

impl View for Verdicts {
    type V = Map<IpAddr, (bool, u64)>;

    closed spec fn view(&self) -> Map<IpAddr, (bool, u64)> {
        Map::new(
            |ip: IpAddr|
                match ip {
                    IpAddr::V4(a) => self.v4@.contains_key(a),
                    IpAddr::V6(a) => self.v6@.contains_key(a),
                },
            |ip: IpAddr|
                match ip {
                    IpAddr::V4(a) => self.v4@[a],
                    IpAddr::V6(a) => self.v6@[a],
                },
        )
    }
}

impl Verdicts {
    /// No verdict.
    pub fn new() -> (r: Verdicts)
        ensures
            r@ == Map::<IpAddr, (bool, u64)>::empty(),
    {
        let r = Verdicts { v4: HashMap::new(), v6: HashMap::new() };
        assert(r@ =~= Map::empty());
        r
    }

    /// The verdict on `ip`, if there is one.
    pub fn get(&self, ip: IpAddr) -> (r: Option<(bool, u64)>)
        ensures
            r == (if self@.contains_key(ip) {
                Some(self@[ip])
            } else {
                None
            }),
    {
        match ip {
            IpAddr::V4(a) => match self.v4.get(&a) {
                Some(v) => Some(*v),
                None => None,
            },
            IpAddr::V6(a) => match self.v6.get(&a) {
                Some(v) => Some(*v),
                None => None,
            },
        }
    }

    /// Keep a verdict on `ip`, in place of an earlier one.
    pub fn record(&mut self, ip: IpAddr, confirmed: bool, now: u64)
        ensures
            final(self)@ == old(self)@.insert(ip, (confirmed, now)),
    {
        match ip {
            IpAddr::V4(a) => {
                self.v4.insert(a, (confirmed, now));
            },
            IpAddr::V6(a) => {
                self.v6.insert(a, (confirmed, now));
            },
        }
        assert(self@ =~= old(self)@.insert(ip, (confirmed, now)));
    }
}

/// The nanoseconds from `then` to `now`; none, if `then` is later.
pub open spec fn elapsed(then: u64, now: u64) -> int {
    if now >= then {
        now - then
    } else {
        0
    }
}

/// The verdict on `ip` that still counts at `now`, when verdicts count for `ttl`
/// seconds.
pub open spec fn current_verdict(
    verdicts: Map<IpAddr, (bool, u64)>,
    ip: IpAddr,
    ttl: u64,
    now: u64,
) -> Option<bool> {
    if verdicts.contains_key(ip) && elapsed(verdicts[ip].1, now) < ttl * 1_000_000_000 {
        Some(verdicts[ip].0)
    } else {
        None
    }
}

/// What a verifier says of an address.
#[derive(Debug, Clone, Copy, PartialEq, Eq, Structural)]
pub enum Answer {
    /// The address is the bot's.
    Allowed,
    /// It is not, or is not known to be.
    Refused,
    /// It is not known to be: look it up in the background, and
    /// [`record`](Verdicts::record) what comes out. For now it is refused (the
    /// client just gets a normal challenge this once).
    Resolve,
}

/// What a verifier says of an address.
pub open spec fn verifier_answer(
    ranges: Set<IpAddr>,
    has_suffixes: bool,
    verdicts: Map<IpAddr, (bool, u64)>,
    ttl: u64,
    ip: IpAddr,
    now: u64,
) -> Answer {
    if ranges.contains(ip) {
        Answer::Allowed
    } else if !has_suffixes {
        Answer::Refused
    } else {
        match current_verdict(verdicts, ip, ttl, now) {
            Some(true) => Answer::Allowed,
            Some(false) => Answer::Refused,
            None => Answer::Resolve,
        }
    }
}

/// The cached verdict on `ip`. Where there is none that counts, the address is
/// marked as pending and refused for now.
pub fn fcrdns_cached(verdicts: &mut Verdicts, ttl: u64, ip: IpAddr, now: u64) -> (r: Answer)
    ensures
        match current_verdict(old(verdicts)@, ip, ttl, now) {
            Some(true) => r == Answer::Allowed && final(verdicts)@ == old(verdicts)@,
            Some(false) => r == Answer::Refused && final(verdicts)@ == old(verdicts)@,
            None => r == Answer::Resolve && final(verdicts)@ == old(verdicts)@.insert(
                ip,
                (false, now),
            ),
        },
{
    if let Some((confirmed, then)) = verdicts.get(ip) {
        let age: u64 = if now >= then {
            now - then
        } else {
            0
        };
        if (age as u128) < ttl as u128 * 1_000_000_000 {
            return if confirmed {
                Answer::Allowed
            } else {
                Answer::Refused
            };
        }
    }
    verdicts.record(ip, false, now);
    Answer::Resolve
}

/// Does a verifier confirm `ip`? The ranges first, then a cached FCrDNS verdict.
/// Never waits: DNS happens in the background.
pub fn verifier_allows(
    ranges: &IpRangeSet,
    suffixes: &[String],
    verdicts: &mut Verdicts,
    ttl: u64,
    ip: IpAddr,
    now: u64,
) -> (r: Answer)
    ensures
        r == verifier_answer(ranges@, suffixes@.len() > 0, old(verdicts)@, ttl, ip, now),
        final(verdicts)@ == (if r == Answer::Resolve {
            old(verdicts)@.insert(ip, (false, now))
        } else {
            old(verdicts)@
        }),
{
    if ranges.contains(ip) {
        return Answer::Allowed;
    }
    if suffixes.len() > 0 {
        return fcrdns_cached(verdicts, ttl, ip, now);
    }
    Answer::Refused
}

// -------------------------------------------------------------------- laws

/// While a lookup is pending the address is refused, and no second lookup is
/// started until the verdict is stale.
pub proof fn one_lookup_at_a_time(
    ranges: Set<IpAddr>,
    verdicts: Map<IpAddr, (bool, u64)>,
    ttl: u64,
    ip: IpAddr,
    now: u64,
    later: u64,
)
    requires
        verifier_answer(ranges, true, verdicts, ttl, ip, now) == Answer::Resolve,
        now <= later,
        later - now < ttl * 1_000_000_000,
    ensures
        verifier_answer(ranges, true, verdicts.insert(ip, (false, now)), ttl, ip, later)
            == Answer::Refused,
{
}

/// A verdict that was recorded is the answer until it is stale, for every address
/// outside the ranges.
pub proof fn recorded_verdicts_are_answered(
    ranges: Set<IpAddr>,
    verdicts: Map<IpAddr, (bool, u64)>,
    ttl: u64,
    ip: IpAddr,
    confirmed: bool,
    now: u64,
    later: u64,
)
    requires
        !ranges.contains(ip),
        now <= later,
    ensures
        verifier_answer(ranges, true, verdicts.insert(ip, (confirmed, now)), ttl, ip, later) == (
        if later - now < ttl * 1_000_000_000 {
            if confirmed {
                Answer::Allowed
            } else {
                Answer::Refused
            }
        } else {
            Answer::Resolve
        }),
{
}

/// An address in the ranges is confirmed whatever the cache holds, and without
/// suffixes nothing else is.
pub proof fn ranges_decide_without_suffixes(
    ranges: Set<IpAddr>,
    verdicts: Map<IpAddr, (bool, u64)>,
    ttl: u64,
    ip: IpAddr,
    now: u64,
    has_suffixes: bool,
)
    ensures
        ranges.contains(ip) ==> verifier_answer(ranges, has_suffixes, verdicts, ttl, ip, now)
            == Answer::Allowed,
        (verifier_answer(ranges, false, verdicts, ttl, ip, now) == Answer::Allowed)
            == ranges.contains(ip),
{
}

/// A time is a number and a unit, seconds, minutes, hours or days, or a number of
/// seconds alone, for every number.
pub proof fn times_are_numbers_of_units(n: u64)
    ensures
        time_seconds(decimal(n as int)) == n,
        time_seconds(decimal(n as int).push('s')) == n,
        time_seconds(decimal(n as int).push('m')) == n * 60,
        time_seconds(decimal(n as int).push('h')) == n * 3600,
        time_seconds(decimal(n as int).push('d')) == n * 86400,
{
    let t = decimal(n as int);
    decimal_chars(n as int);
    assert(is_digit(t[0]) || t[0] == '-');
    assert(is_digit(t[t.len() - 1]) || t[t.len() - 1] == '-');
    white_space_around_is_left_out(t, ' ');
    unsigned_read_back(n);
    assert(t.push('s').drop_last() =~= t);
    assert(t.push('m').drop_last() =~= t);
    assert(t.push('h').drop_last() =~= t);
    assert(t.push('d').drop_last() =~= t);
    white_space_around_is_left_out(t.push('s'), ' ');
    white_space_around_is_left_out(t.push('m'), ' ');
    white_space_around_is_left_out(t.push('h'), ' ');
    white_space_around_is_left_out(t.push('d'), ' ');
    assert(number_or_zero(t) == n);
    assert(trim(t.push('s')) == t.push('s') && t.push('s').last() == 's');
    assert(time_seconds(t.push('s')) == number_or_zero(t) * 1);
}

/// Each line of a block changes what its directive names, and nothing else: a feed is
/// added, suffixes are added in order, a time is set.
pub proof fn directives_change_what_they_name(b: BuilderView, args: Seq<Seq<char>>, arg: Seq<char>)
    requires
        args.len() > 0,
        arg == args[0],
    ensures
        applied(b, seq!["ip_ranges_url"@] + args) == Some(
            BuilderView {
                name: b.name,
                urls: b.urls.push(arg),
                refresh: b.refresh,
                suffixes: b.suffixes,
                fcrdns_ttl: b.fcrdns_ttl,
            },
        ),
        applied(b, seq!["ip_ranges_refresh"@] + args) == Some(
            BuilderView {
                name: b.name,
                urls: b.urls,
                refresh: time_seconds(arg),
                suffixes: b.suffixes,
                fcrdns_ttl: b.fcrdns_ttl,
            },
        ),
        applied(b, seq!["fcrdns_suffix"@] + args) == Some(
            BuilderView {
                name: b.name,
                urls: b.urls,
                refresh: b.refresh,
                suffixes: b.suffixes + args,
                fcrdns_ttl: b.fcrdns_ttl,
            },
        ),
        applied(b, seq!["fcrdns_ttl"@] + args) == Some(
            BuilderView {
                name: b.name,
                urls: b.urls,
                refresh: b.refresh,
                suffixes: b.suffixes,
                fcrdns_ttl: time_seconds(arg),
            },
        ),
{
    reveal_strlit("ip_ranges_url");
    reveal_strlit("ip_ranges_refresh");
    reveal_strlit("fcrdns_suffix");
    reveal_strlit("fcrdns_ttl");
    assert("ip_ranges_url"@.len() == 13 && "ip_ranges_refresh"@.len() == 17);
    assert("fcrdns_suffix"@.len() == 13 && "fcrdns_ttl"@.len() == 10);
    assert("ip_ranges_url"@[0] != "fcrdns_suffix"@[0]);
    assert((seq!["fcrdns_suffix"@] + args).skip(1) =~= args);
    assert((seq!["ip_ranges_url"@] + args)[1] == arg);
    assert((seq!["ip_ranges_refresh"@] + args)[1] == arg);
    assert((seq!["fcrdns_ttl"@] + args)[1] == arg);
}

/// A directive without an argument changes nothing, an empty line neither, and any
/// other word is an error.
pub proof fn other_lines_change_nothing(b: BuilderView, word: Seq<char>, args: Seq<Seq<char>>)
    ensures
        applied(b, Seq::empty()) == Some(b),
        word == "ip_ranges_url"@ || word == "ip_ranges_refresh"@ || word == "fcrdns_suffix"@ || word
            == "fcrdns_ttl"@ ==> applied(b, seq![word]) == Some(b),
        word != "ip_ranges_url"@ && word != "ip_ranges_refresh"@ && word != "fcrdns_suffix"@ && word
            != "fcrdns_ttl"@ ==> applied(b, seq![word] + args) is None,
{
    reveal_strlit("ip_ranges_url");
    reveal_strlit("ip_ranges_refresh");
    reveal_strlit("fcrdns_suffix");
    reveal_strlit("fcrdns_ttl");
    assert("ip_ranges_url"@.len() == 13 && "ip_ranges_refresh"@.len() == 17);
    assert("fcrdns_suffix"@.len() == 13 && "fcrdns_ttl"@.len() == 10);
    assert("ip_ranges_url"@[0] != "fcrdns_suffix"@[0]);
    assert(seq![word].skip(1) =~= Seq::<Seq<char>>::empty());
    assert(b.suffixes + seq![word].skip(1) =~= b.suffixes);
    assert((seq![word] + args)[0] == word);
}

/// The ranges of several feeds are those of each of them: an address is covered
/// exactly when a text of one of the feeds covers it.
pub proof fn feeds_are_put_together(feeds: Seq<Vec<u8>>, feed: Vec<u8>, ip: IpAddr)
    ensures
        feeds_texts(feeds.push(feed)) == feeds_texts(feeds) + feed_texts(feed@),
        feeds_texts(Seq::empty()) == Seq::<Seq<char>>::empty(),
        covered_by_all(feeds_texts(feeds.push(feed))).contains(ip) <==> covered_by_all(
            feeds_texts(feeds),
        ).contains(ip) || covered_by_all(feed_texts(feed@)).contains(ip),
        count_valid(feeds_texts(feeds.push(feed))) == count_valid(feeds_texts(feeds)) + count_valid(
            feed_texts(feed@),
        ),
{
    assert(feeds.push(feed).drop_last() =~= feeds);
    lemma_texts_add(feeds_texts(feeds), feed_texts(feed@));
}

/// An address outside the ranges of which nothing is known is looked up, where there
/// are suffixes to hold its name to; and what is known of it is asked no more of than
/// its age.
pub proof fn unknown_addresses_are_looked_up(
    ranges: Set<IpAddr>,
    verdicts: Map<IpAddr, (bool, u64)>,
    ttl: u64,
    ip: IpAddr,
    now: u64,
)
    requires
        !ranges.contains(ip),
    ensures
        !verdicts.contains_key(ip) ==> verifier_answer(ranges, true, verdicts, ttl, ip, now)
            == Answer::Resolve,
        verdicts.contains_key(ip) ==> verifier_answer(ranges, true, verdicts, ttl, ip, now) == (
        if now - verdicts[ip].1 >= ttl * 1_000_000_000 && now >= verdicts[ip].1 || ttl == 0 {
            Answer::Resolve
        } else if verdicts[ip].0 {
            Answer::Allowed
        } else {
            Answer::Refused
        }),
{
}

/// A PTR name is to be confirmed exactly when it lies under one of the suffixes, as
/// `str::to_lowercase` writes it; without a name nothing is.
pub proof fn names_under_a_suffix_are_confirmed(name: Seq<char>, suffixes: Seq<Seq<char>>, i: int)
    ensures
        0 <= i < suffixes.len() && under_suffix(lowercase_text(name), suffixes[i])
            ==> host_to_confirm(Some(name), suffixes) == Some(lowercase_text(name)),
        (forall|j: int|
            0 <= j < suffixes.len() ==> !under_suffix(
                lowercase_text(name),
                #[trigger] suffixes[j],
            )) ==> host_to_confirm(Some(name), suffixes) is None,
        host_to_confirm(None, suffixes) is None,
{
}

/// What is no number is no time, with a unit or without.
pub proof fn what_is_no_number_is_no_time(s: Seq<char>)
    requires
        s.len() > 0 && !crate::text::is_white(s[0]) && !crate::text::is_white(s.last()),
        unsigned_number(s, u64::MAX as nat) is None,
    ensures
        time_seconds(s.push('s')) == 0,
        time_seconds(s.push('m')) == 0,
        time_seconds(s.push('h')) == 0,
        time_seconds(s.push('d')) == 0,
        s.last() != 's' && s.last() != 'm' && s.last() != 'h' && s.last() != 'd' ==> time_seconds(s)
            == 0,
{
    white_space_around_is_left_out(s, ' ');
    white_space_around_is_left_out(s.push('s'), ' ');
    white_space_around_is_left_out(s.push('m'), ' ');
    white_space_around_is_left_out(s.push('h'), ' ');
    white_space_around_is_left_out(s.push('d'), ' ');
    assert(s.push('s').drop_last() =~= s);
    assert(s.push('m').drop_last() =~= s);
    assert(s.push('h').drop_last() =~= s);
    assert(s.push('d').drop_last() =~= s);
    assert(number_or_zero(s) == 0);
    assert(time_seconds(s.push('s')) == 0 * 1);
    assert(time_seconds(s.push('m')) == 0 * 60);
    assert(time_seconds(s.push('h')) == 0 * 3600);
    assert(time_seconds(s.push('d')) == 0 * 86400);
}

/// Eight mebibytes are read of a feed.
pub proof fn feeds_are_bounded()
    ensures
        MAX_FEED_BYTES == 8 * 1024 * 1024,
{
}

} // verus!
