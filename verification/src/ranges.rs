//! IP-range membership for the good-bot verifier: parse CIDRs (and the official
//! crawler IP-range JSON feeds), then test an address in O(ranges).
//!
//! A set of ranges is, to its callers, the set of addresses that it covers.

use crate::address::{address, IpAddr};
use crate::json::{
    documents, is_json, json_elements, read_elements, record_of, Record, RecordView,
};
use crate::number::{
    decimal, decimal_chars, is_digit, lemma_decimal_lacks, numbers_are_digits, read_unsigned,
    unsigned_number,
};
use crate::text::{
    chars, cut, dot, ends_with, has_suffix, is_white, lemma_split_once_joined, lower, lower_char, lowered, same_chars, split_once,
    strip_end, strip_start, trim, trimmed, white, without_leading_dots,
    white_space_around_is_left_out, without_trailing_dots,
};
use vstd::arithmetic::power2::{lemma2_to64, pow2};
use vstd::prelude::*;

verus! {

// ------------------------------------------------------------ host suffixes

/// A host name as it is compared: without surrounding white space and trailing
/// dots, in lower case.
pub open spec fn host_name(host: Seq<char>) -> Seq<char> {
    lower(strip_end(trim(host), dot()))
}

/// A suffix as it is compared: without surrounding white space and dots, in lower
/// case.
pub open spec fn suffix_name(suffix: Seq<char>) -> Seq<char> {
    lower(strip_end(strip_start(trim(suffix), dot()), dot()))
}

/// `host` is `suffix`, or sits below it on a label boundary.
pub open spec fn under_suffix(host: Seq<char>, suffix: Seq<char>) -> bool {
    let h = host_name(host);
    let s = suffix_name(suffix);
    h.len() > 0 && s.len() > 0 && (h == s || ends_with(h, seq!['.'] + s))
}

/// Forward-confirmed-rDNS suffix test with **label-boundary** semantics.
///
/// `host` matches `suffix` only when it *is* the suffix or sits strictly below it
/// on a DNS label boundary: `bot.googlebot.com` matches `googlebot.com`, but the
/// look-alike `evilgooglebot.com` does **not**. A plain `ends_with` would wrongly
/// accept the latter.
///
/// Comparison is case-insensitive; leading/trailing dots on `suffix` and a
/// trailing dot on `host` (FQDN form) are ignored, so `.googlebot.com.` and
/// `googlebot.com` behave identically.
pub fn host_matches_suffix(host: &str, suffix: &str) -> (r: bool)
    ensures
        r == under_suffix(host@, suffix@),
{
    let host_chars = chars(host);
    let suffix_chars = chars(suffix);
    let h = lowered(without_trailing_dots(trimmed(host_chars.as_slice())));
    let s = lowered(without_trailing_dots(without_leading_dots(trimmed(suffix_chars.as_slice()))));
    if h.len() == 0 || s.len() == 0 {
        return false;
    }
    if same_chars(h.as_slice(), s.as_slice()) {
        return true;
    }
    let mut dotted: Vec<char> = Vec::new();
    dotted.push('.');
    for i in 0..s.len()
        invariant
            dotted@ == seq!['.'] + s@.take(i as int),
    {
        dotted.push(s[i]);
        assert(dotted@ =~= seq!['.'] + s@.take(i + 1));
    }
    assert(s@.take(s@.len() as int) =~= s@);
    has_suffix(h.as_slice(), dotted.as_slice())
}

// -------------------------------------------------------------------- CIDRs

/// The smaller of two numbers.
pub open spec fn at_most(n: nat, max: nat) -> nat {
    if n < max {
        n
    } else {
        max
    }
}

/// How many bits an address of the family of `ip` has.
pub open spec fn width(ip: IpAddr) -> nat {
    match ip {
        IpAddr::V4(_) => 32,
        IpAddr::V6(_) => 128,
    }
}

/// The address and the prefix length that a CIDR text denotes. Without a slash it
/// is a host route; with one, what follows must be a number, and a prefix longer
/// than the address is cut to its length.
pub open spec fn cidr(s: Seq<char>) -> Option<(IpAddr, nat)> {
    match split_once(s, '/') {
        Some((i, p)) => match (address(trim(i)), unsigned_number(trim(p), u32::MAX as nat)) {
            (Some(ip), Some(n)) => Some((ip, at_most(n, width(ip)))),
            _ => None,
        },
        None => match address(trim(s)) {
            Some(ip) => Some((ip, width(ip))),
            None => None,
        },
    }
}

/// The addresses that share their first `bits` bits with `base`.
pub open spec fn block(base: IpAddr, bits: nat) -> Set<IpAddr> {
    Set::new(
        |ip: IpAddr|
            match (base, ip) {
                (IpAddr::V4(a), IpAddr::V4(x)) => x as nat / pow2((32 - bits) as nat) == a as nat
                    / pow2((32 - bits) as nat),
                (IpAddr::V6(a), IpAddr::V6(x)) => x as nat / pow2((128 - bits) as nat) == a as nat
                    / pow2((128 - bits) as nat),
                _ => false,
            },
    )
}

/// The addresses that a CIDR text covers; none, if it is none.
pub open spec fn covered(s: Seq<char>) -> Set<IpAddr> {
    match cidr(s) {
        Some((base, bits)) => block(base, bits),
        None => Set::empty(),
    }
}

/// The texts of `list` that are CIDRs, counted.
pub open spec fn count_valid(list: Seq<Seq<char>>) -> nat
    decreases list.len(),
{
    if list.len() == 0 {
        0
    } else {
        count_valid(list.drop_last()) + if cidr(list.last()) is Some {
            1nat
        } else {
            0nat
        }
    }
}

/// The addresses that the texts of `list` cover.
pub open spec fn covered_by_all(list: Seq<Seq<char>>) -> Set<IpAddr>
    decreases list.len(),
{
    if list.len() == 0 {
        Set::empty()
    } else {
        covered_by_all(list.drop_last()).union(covered(list.last()))
    }
}

// -------------------------------------------------------------------- feeds

/// A field of a feed entry: the text that it holds, or nothing.
pub open spec fn optional_text(r: RecordView, name: Seq<char>, at: nat) -> Option<Seq<Seq<char>>> {
    match r.text(name, at) {
        Some(t) => Some(seq![t]),
        None => if r.unset(name, at) {
            Some(Seq::empty())
        } else {
            None
        },
    }
}

/// The CIDR texts of one feed entry; `None` if the entry is malformed.
pub open spec fn entry_texts(doc: Seq<u8>) -> Option<Seq<Seq<char>>> {
    match record_of(doc, 2) {
        Some(r) => match (optional_text(r, "ipv4Prefix"@, 0), optional_text(r, "ipv6Prefix"@, 1)) {
            (Some(a), Some(b)) => Some(a + b),
            _ => None,
        },
        None => None,
    }
}

/// The CIDR texts of a list of feed entries; `None` if one of them is malformed.
pub open spec fn entries_texts(docs: Seq<Seq<u8>>) -> Option<Seq<Seq<char>>>
    decreases docs.len(),
{
    if docs.len() == 0 {
        Some(Seq::empty())
    } else {
        match (entries_texts(docs.drop_last()), entry_texts(docs.last())) {
            (Some(a), Some(b)) => Some(a + b),
            _ => None,
        }
    }
}

/// The entries of a feed: the elements of the array that its one field holds.
pub open spec fn feed_entries(doc: Seq<u8>) -> Option<Seq<Seq<u8>>> {
    match record_of(doc, 1) {
        Some(r) => if r.values("prefixes"@, 0).len() == 1 {
            json_elements(r.values("prefixes"@, 0)[0])
        } else {
            None
        },
        None => None,
    }
}

/// The CIDR texts of a feed, in order; none, if the feed is malformed.
pub open spec fn feed_texts(doc: Seq<u8>) -> Seq<Seq<char>> {
    match feed_entries(doc) {
        Some(docs) => match entries_texts(docs) {
            Some(list) => list,
            None => Seq::empty(),
        },
        None => Seq::empty(),
    }
}

/// The texts of a sequence of strings.
pub open spec fn views(v: Seq<String>) -> Seq<Seq<char>> {
    Seq::new(v.len(), |i: int| v[i]@)
}

fn push_optional_text(out: &mut Vec<String>, r: &Record, name: &str, at: usize) -> (ok: bool)
    ensures
        match optional_text(r@, name@, at as nat) {
            Some(list) => ok && views(final(out)@) == views(old(out)@) + list,
            None => !ok,
        },
{
    match r.text(name, at) {
        Some(t) => {
            out.push(t);
            assert(views(out@) =~= views(old(out)@) + seq![t@]);
            true
        },
        None => {
            assert(views(out@) =~= views(old(out)@) + Seq::empty());
            r.unset(name, at)
        },
    }
}

/// The CIDR texts of a list of feed entries, in order; none, if one of the entries
/// is malformed.
pub fn read_entries(items: &[Vec<u8>]) -> (r: Vec<String>)
    ensures
        match entries_texts(documents(items@)) {
            Some(list) => views(r@) == list,
            None => r@.len() == 0,
        },
{
    let ghost docs = documents(items@);
    let mut out: Vec<String> = Vec::new();
    assert(views(out@) =~= Seq::empty());
    for i in 0..items.len()
        invariant
            docs == documents(items@),
            entries_texts(docs.take(i as int)) == Some(views(out@)),
    {
        let doc = items[i].as_slice();
        assert(docs.take(i + 1).drop_last() =~= docs.take(i as int));
        assert(docs.take(i + 1).last() == doc@);
        let ghost before = views(out@);
        let ok = match Record::read(doc, 2) {
            Some(r) => push_optional_text(&mut out, &r, "ipv4Prefix", 0) && push_optional_text(
                &mut out,
                &r,
                "ipv6Prefix",
                1,
            ),
            None => false,
        };
        if !ok {
            proof {
                lemma_malformed_entry(docs, i + 1);
            }
            return Vec::new();
        }
        assert(views(out@) =~= before + entry_texts(doc@)->0);
    }
    assert(docs.take(docs.len() as int) =~= docs);
    out
}

/// The CIDR texts of a feed, in order; none, if the feed is malformed. Unknown and
/// extra fields are ignored.
pub fn read_feed(doc: &[u8]) -> (r: Vec<String>)
    ensures
        views(r@) == feed_texts(doc@),
{
    let entries = match Record::read(doc, 1) {
        Some(r) => match r.value("prefixes", 0) {
            Some(part) => read_elements(part),
            None => None,
        },
        None => None,
    };
    let r = match entries {
        Some(items) => read_entries(items.as_slice()),
        None => Vec::new(),
    };
    assert(views(r@) =~= feed_texts(doc@));
    r
}

proof fn lemma_malformed_entry(docs: Seq<Seq<u8>>, n: int)
    requires
        0 <= n <= docs.len(),
        entries_texts(docs.take(n)) is None,
    ensures
        entries_texts(docs) is None,
    decreases docs.len() - n,
{
    if n == docs.len() {
        assert(docs.take(n) =~= docs);
    } else {
        assert(docs.take(n + 1).drop_last() =~= docs.take(n));
        lemma_malformed_entry(docs, n + 1);
    }
}

// ---------------------------------------------------------------- the set

/// A set of IPv4 + IPv6 CIDR ranges, as (network, mask) pairs.
#[derive(Clone)]
pub struct IpRangeSet {
    v4: Vec<(u32, u32)>,
    v6: Vec<(u128, u128)>,
}

impl View for IpRangeSet {
    type V = Set<IpAddr>;

    /// The addresses that the ranges cover.
    closed spec fn view(&self) -> Set<IpAddr> {
        Set::new(
            |ip: IpAddr|
                match ip {
                    IpAddr::V4(x) => exists|i: int|
                        0 <= i < self.v4@.len() && x & (#[trigger] self.v4@[i]).1 == self.v4@[i].0,
                    IpAddr::V6(x) => exists|i: int|
                        0 <= i < self.v6@.len() && x & (#[trigger] self.v6@[i]).1 == self.v6@[i].0,
                },
        )
    }
}

impl Default for IpRangeSet {
    fn default() -> (r: Self)
        ensures
            r@ == Set::<IpAddr>::empty(),
            r.count() == 0,
    {
        let r = IpRangeSet { v4: Vec::new(), v6: Vec::new() };
        assert(r@ =~= Set::<IpAddr>::empty());
        r
    }
}

impl IpRangeSet {
    /// How many ranges were added.
    pub closed spec fn count(&self) -> nat {
        self.v4@.len() + self.v6@.len()
    }

    /// No range, no address.
    pub fn new() -> (r: Self)
        ensures
            r@ == Set::<IpAddr>::empty(),
            r.count() == 0,
    {
        Self::default()
    }

    fn add_v4(&mut self, a: u32, bits: u32)
        requires
            bits <= 32,
        ensures
            final(self)@ == old(self)@.union(block(IpAddr::V4(a), bits as nat)),
            final(self).count() == old(self).count() + 1,
    {
        let mask: u32 = if bits == 0 {
            0
        } else {
            u32::MAX << (32 - bits)
        };
        let net: u32 = a & mask;
        self.v4.push((net, mask));
        proof {
            let before = old(self).v4@;
            assert(self.v4@ == before.push((net, mask)));
            assert forall|x: u32| (#[trigger] (x & mask) == net) == block(
                IpAddr::V4(a),
                bits as nat,
            ).contains(IpAddr::V4(x)) by {
                lemma_mask_v4(a, x, bits);
            }
            assert forall|ip: IpAddr| self@.contains(ip) == (old(self)@.contains(ip) || block(
                IpAddr::V4(a),
                bits as nat,
            ).contains(ip)) by {
                match ip {
                    IpAddr::V4(x) => {
                        assert(self.v4@[before.len() as int] == (net, mask));
                        assert forall|i: int| 0 <= i < before.len() implies self.v4@[i]
                            == before[i] by {}
                        if old(self)@.contains(ip) {
                            let i = choose|i: int|
                                0 <= i < before.len() && x & (#[trigger] before[i]).1
                                    == before[i].0;
                            assert(self.v4@[i] == before[i]);
                        }
                        if self@.contains(ip) {
                            let i = choose|i: int|
                                0 <= i < self.v4@.len() && x & (#[trigger] self.v4@[i]).1
                                    == self.v4@[i].0;
                            if i < before.len() {
                                assert(before[i] == self.v4@[i]);
                            }
                        }
                    },
                    IpAddr::V6(x) => {},
                }
            }
            assert(self@ =~= old(self)@.union(block(IpAddr::V4(a), bits as nat)));
        }
    }

    fn add_v6(&mut self, a: u128, bits: u32)
        requires
            bits <= 128,
        ensures
            final(self)@ == old(self)@.union(block(IpAddr::V6(a), bits as nat)),
            final(self).count() == old(self).count() + 1,
    {
        let mask: u128 = if bits == 0 {
            0
        } else {
            u128::MAX << (128 - bits)
        };
        let net: u128 = a & mask;
        self.v6.push((net, mask));
        proof {
            let before = old(self).v6@;
            assert(self.v6@ == before.push((net, mask)));
            assert forall|x: u128| (#[trigger] (x & mask) == net) == block(
                IpAddr::V6(a),
                bits as nat,
            ).contains(IpAddr::V6(x)) by {
                lemma_mask_v6(a, x, bits);
            }
            assert forall|ip: IpAddr| self@.contains(ip) == (old(self)@.contains(ip) || block(
                IpAddr::V6(a),
                bits as nat,
            ).contains(ip)) by {
                match ip {
                    IpAddr::V6(x) => {
                        assert(self.v6@[before.len() as int] == (net, mask));
                        if old(self)@.contains(ip) {
                            let i = choose|i: int|
                                0 <= i < before.len() && x & (#[trigger] before[i]).1
                                    == before[i].0;
                            assert(self.v6@[i] == before[i]);
                        }
                        if self@.contains(ip) {
                            let i = choose|i: int|
                                0 <= i < self.v6@.len() && x & (#[trigger] self.v6@[i]).1
                                    == self.v6@[i].0;
                            if i < before.len() {
                                assert(before[i] == self.v6@[i]);
                            }
                        }
                    },
                    IpAddr::V4(x) => {},
                }
            }
            assert(self@ =~= old(self)@.union(block(IpAddr::V6(a), bits as nat)));
        }
    }

    /// Add a CIDR like `192.0.2.0/24` or `2001:db8::/32`. A bare address (no `/`)
    /// is treated as a host route (`/32` or `/128`). Returns `false` if unparseable,
    /// and leaves the set as it was.
    pub fn add_cidr(&mut self, cidr: &str) -> (added: bool)
        ensures
            added == (self::cidr(cidr@) is Some),
            final(self)@ == old(self)@.union(covered(cidr@)),
            final(self).count() == old(self).count() + if added {
                1nat
            } else {
                0nat
            },
    {
        let all = chars(cidr);
        assert(self@ =~= self@.union(Set::empty()));
        let (ip, prefix) = match cut(all.as_slice(), '/') {
            Some((i, p)) => match read_unsigned(trimmed(p), u32::MAX as u64) {
                Some(n) => (trimmed(i), n),
                None => return false,
            },
            None => (trimmed(all.as_slice()), u32::MAX as u64),
        };
        match IpAddr::read(ip) {
            Some(IpAddr::V4(a)) => {
                let bits: u32 = if prefix < 32 {
                    prefix as u32
                } else {
                    32
                };
                self.add_v4(a, bits);
                true
            },
            Some(IpAddr::V6(a)) => {
                let bits: u32 = if prefix < 128 {
                    prefix as u32
                } else {
                    128
                };
                self.add_v6(a, bits);
                true
            },
            None => false,
        }
    }

    /// Is `ip` within any range?
    pub fn contains(&self, ip: IpAddr) -> (r: bool)
        ensures
            r == self@.contains(ip),
    {
        match ip {
            IpAddr::V4(x) => {
                for i in 0..self.v4.len()
                    invariant
                        ip == IpAddr::V4(x),
                        forall|j: int| 0 <= j < i ==> x & (#[trigger] self.v4@[j]).1
                            != self.v4@[j].0,
                {
                    if x & self.v4[i].1 == self.v4[i].0 {
                        assert(x & self.v4@[i as int].1 == self.v4@[i as int].0);
                        return true;
                    }
                }
                false
            },
            IpAddr::V6(x) => {
                for i in 0..self.v6.len()
                    invariant
                        ip == IpAddr::V6(x),
                        forall|j: int| 0 <= j < i ==> x & (#[trigger] self.v6@[j]).1
                            != self.v6@[j].0,
                {
                    if x & self.v6[i].1 == self.v6[i].0 {
                        assert(x & self.v6@[i as int].1 == self.v6@[i as int].0);
                        return true;
                    }
                }
                false
            },
        }
    }

    /// How many ranges the set was made of.
    pub fn len(&self) -> (n: usize)
        requires
            self.count() <= usize::MAX,
        ensures
            n == self.count(),
    {
        self.v4.len() + self.v6.len()
    }

    /// No range was added.
    pub fn is_empty(&self) -> (r: bool)
        ensures
            r == (self.count() == 0),
    {
        self.v4.len() == 0 && self.v6.len() == 0
    }

    /// Merge the official crawler feed JSON: Google/Bing publish
    /// `{ "prefixes": [ { "ipv4Prefix": "..." }, { "ipv6Prefix": "..." } ] }`.
    /// Returns the count of prefixes added. Unknown/extra fields are ignored. What
    /// is no JSON adds nothing.
    pub fn add_feed_json(&mut self, bytes: &[u8]) -> (n: usize)
        ensures
            n == count_valid(feed_texts(bytes@)),
            final(self)@ == old(self)@.union(covered_by_all(feed_texts(bytes@))),
            final(self).count() == old(self).count() + n,
            n == 0 ==> final(self)@ == old(self)@,
            !is_json(bytes@) ==> n == 0,
    {
        let list = read_feed(bytes);
        proof {
            feeds_only_add(self@, bytes@);
        }
        self.add_all(list.as_slice())
    }

    /// Add each CIDR of `list`. Returns how many were added.
    pub fn add_all(&mut self, list: &[String]) -> (n: usize)
        ensures
            n == count_valid(views(list@)),
            final(self)@ == old(self)@.union(covered_by_all(views(list@))),
            final(self).count() == old(self).count() + n,
    {
        let mut n: usize = 0;
        let ghost all = views(list@);
        assert(self@ =~= old(self)@.union(Set::empty()));
        for i in 0..list.len()
            invariant
                all == views(list@),
                n <= i,
                n == count_valid(all.take(i as int)),
                self@ == old(self)@.union(covered_by_all(all.take(i as int))),
                self.count() == old(self).count() + n,
        {
            assert(all.take(i + 1).drop_last() =~= all.take(i as int));
            assert(all.take(i + 1).last() == list@[i as int]@);
            let ghost before = self@;
            if self.add_cidr(list[i].as_str()) {
                n = n + 1;
            }
            assert(self@ =~= old(self)@.union(covered_by_all(all.take(i + 1))));
        }
        assert(all.take(list@.len() as int) =~= all);
        n
    }
}

proof fn lemma_mask_v4(a: u32, x: u32, bits: u32)
    requires
        bits <= 32,
    ensures
        ({
            let mask: u32 = if bits == 0 {
                0
            } else {
                u32::MAX << (32 - bits) as u32
            };
            (x & mask == a & mask) == (x as nat / pow2((32 - bits) as nat) == a as nat / pow2(
                (32 - bits) as nat,
            ))
        }),
{
    if bits == 0 {
        assert(x & 0 == a & 0) by (bit_vector);
        lemma2_to64();
        assert(x as nat / 0x1_0000_0000 == 0);
        assert(a as nat / 0x1_0000_0000 == 0);
    } else {
        let s = (32 - bits) as u32;
        vstd::bits::lemma_u32_shr_is_div(x, s);
        vstd::bits::lemma_u32_shr_is_div(a, s);
        assert((x & (u32::MAX << s) == a & (u32::MAX << s)) == (x >> s == a >> s)) by (bit_vector)
            requires
                s < 32,
        ;
    }
}

proof fn lemma_mask_is_shift(x: u128, t: u32)
    requires
        t < 128,
    ensures
        x & (u128::MAX << t) == (x >> t) << t,
        ((x >> t) << t) >> t == x >> t,
{
    assert(x & (u128::MAX << t) == (x >> t) << t) by (bit_vector)
        requires
            t < 128,
    ;
    assert(((x >> t) << t) >> t == x >> t) by (bit_vector)
        requires
            t < 128,
    ;
}

proof fn lemma_mask_v6(a: u128, x: u128, bits: u32)
    requires
        bits <= 128,
    ensures
        ({
            let mask: u128 = if bits == 0 {
                0
            } else {
                u128::MAX << (128 - bits) as u32
            };
            (x & mask == a & mask) == (x as nat / pow2((128 - bits) as nat) == a as nat / pow2(
                (128 - bits) as nat,
            ))
        }),
{
    if bits == 0 {
        assert(x & 0 == a & 0) by (bit_vector);
        lemma2_to64();
        vstd::arithmetic::power2::lemma_pow2_adds(64, 64);
        assert(pow2(128) == u128::MAX + 1);
        vstd::arithmetic::div_mod::lemma_basic_div(x as int, pow2(128) as int);
        vstd::arithmetic::div_mod::lemma_basic_div(a as int, pow2(128) as int);
    } else {
        let s = (128 - bits) as u128;
        vstd::bits::lemma_u128_shr_is_div(x, s);
        vstd::bits::lemma_u128_shr_is_div(a, s);
        let t = (128 - bits) as u32;
        lemma_mask_is_shift(x, t);
        lemma_mask_is_shift(a, t);
        assert(x >> t == x >> s);
        assert(a >> t == a >> s);
    }
}

// -------------------------------------------------------------------- laws

/// A host route covers its own address and no other.
pub proof fn host_route_is_one_address(a: u32, b: u128, ip: IpAddr)
    ensures
        block(IpAddr::V4(a), 32).contains(ip) == (ip == IpAddr::V4(a)),
        block(IpAddr::V6(b), 128).contains(ip) == (ip == IpAddr::V6(b)),
{
    lemma2_to64();
}

/// A prefix of no bits covers every address of the family, and none of the other.
pub proof fn empty_prefix_covers_the_family(a: u32, b: u128, ip: IpAddr)
    ensures
        block(IpAddr::V4(a), 0).contains(ip) == (ip is V4),
        block(IpAddr::V6(b), 0).contains(ip) == (ip is V6),
{
    match ip {
        IpAddr::V4(x) => lemma_mask_v4(a, x, 0),
        IpAddr::V6(x) => lemma_mask_v6(b, x, 0),
    }
    assert(0u32 & 0 == 0) by (bit_vector);
    match ip {
        IpAddr::V4(x) => {
            assert(x & 0 == a & 0) by (bit_vector);
        },
        IpAddr::V6(x) => {
            assert(x & 0 == b & 0) by (bit_vector);
        },
    }
}

/// A range always covers the address that it was written with.
pub proof fn ranges_cover_their_base(s: Seq<char>)
    ensures
        cidr(s) matches Some((base, bits)) ==> covered(s).contains(base),
{
}

/// A feed only adds: no address is lost, a feed without a valid prefix changes
/// nothing, and a feed merged twice covers what it covers merged once. What is no
/// JSON holds no prefix.
pub proof fn feeds_only_add(before: Set<IpAddr>, doc: Seq<u8>)
    ensures
        ({
            let list = feed_texts(doc);
            let after = before.union(covered_by_all(list));
            &&& before.subset_of(after)
            &&& count_valid(list) == 0 ==> after == before
            &&& after.union(covered_by_all(list)) == after
        }),
        !is_json(doc) ==> feed_texts(doc).len() == 0,
{
    let list = feed_texts(doc);
    let after = before.union(covered_by_all(list));
    assert(after.union(covered_by_all(list)) =~= after);
    if count_valid(list) == 0 {
        lemma_none_valid_covers_none(list);
        assert(after =~= before);
    }
}

proof fn lemma_none_valid_covers_none(list: Seq<Seq<char>>)
    requires
        count_valid(list) == 0,
    ensures
        covered_by_all(list) == Set::<IpAddr>::empty(),
    decreases list.len(),
{
    if list.len() > 0 {
        lemma_none_valid_covers_none(list.drop_last());
        assert(covered_by_all(list) =~= Set::<IpAddr>::empty());
    }
}

/// Two feed entries that give the same for the two fields that count.
pub open spec fn same_entry(a: Seq<u8>, b: Seq<u8>) -> bool {
    match (record_of(a, 2), record_of(b, 2)) {
        (Some(r), Some(s)) => {
            &&& r.values("ipv4Prefix"@, 0) == s.values("ipv4Prefix"@, 0)
            &&& r.values("ipv6Prefix"@, 1) == s.values("ipv6Prefix"@, 1)
        },
        (None, None) => true,
        _ => false,
    }
}

/// Other fields never count: feeds whose entries give the same for `ipv4Prefix` and
/// `ipv6Prefix`, one by one, hold the same prefixes, whatever else stands in the
/// feeds and in the entries ([`crate::json::other_names_are_skipped`]).
pub proof fn other_fields_are_ignored(a: Seq<u8>, b: Seq<u8>)
    requires
        match (feed_entries(a), feed_entries(b)) {
            (Some(x), Some(y)) => x.len() == y.len() && forall|i: int|
                0 <= i < x.len() ==> same_entry(#[trigger] x[i], y[i]),
            (None, None) => true,
            _ => false,
        },
    ensures
        feed_texts(a) == feed_texts(b),
{
    if let (Some(x), Some(y)) = (feed_entries(a), feed_entries(b)) {
        lemma_same_entries(x, y);
    }
}

proof fn lemma_same_entries(x: Seq<Seq<u8>>, y: Seq<Seq<u8>>)
    requires
        x.len() == y.len(),
        forall|i: int| 0 <= i < x.len() ==> same_entry(#[trigger] x[i], y[i]),
    ensures
        entries_texts(x) == entries_texts(y),
    decreases x.len(),
{
    if x.len() > 0 {
        assert forall|i: int| 0 <= i < x.len() - 1 implies same_entry(
            #[trigger] x.drop_last()[i],
            y.drop_last()[i],
        ) by {
            assert(same_entry(x[i], y[i]));
        }
        lemma_same_entries(x.drop_last(), y.drop_last());
        assert(same_entry(x[x.len() - 1], y[x.len() - 1]));
    }
}

/// What is no CIDR changes nothing: an address behind which a slash is followed by
/// anything but a number is refused, and only one without a slash is a host route.
pub proof fn prefixes_must_be_numbers(s: Seq<char>)
    ensures
        match split_once(s, '/') {
            Some((i, p)) => unsigned_number(trim(p), u32::MAX as nat) is None ==> cidr(s) is None
                && covered(s) == Set::<IpAddr>::empty(),
            None => cidr(s) matches Some((ip, bits)) ==> bits == width(ip),
        },
{
}

/// A host that matches is the suffix itself, or has a dot right before it: a name
/// that merely ends in the same characters does not match.
pub proof fn matches_stop_at_a_label(host: Seq<char>, suffix: Seq<char>)
    requires
        under_suffix(host, suffix),
    ensures
        ends_with(host_name(host), suffix_name(suffix)),
        host_name(host) == suffix_name(suffix) || host_name(host)[host_name(host).len()
            - suffix_name(suffix).len() - 1] == '.',
{
    let h = host_name(host);
    let s = suffix_name(suffix);
    if h != s {
        let d = seq!['.'] + s;
        let tail = h.skip(h.len() - d.len());
        assert(tail == d);
        assert(tail[0] == '.');
        assert(h.skip(h.len() - s.len()) =~= d.skip(1));
        assert(d.skip(1) =~= s);
    } else {
        assert(h.skip(0) =~= h);
    }
}

/// Case makes no difference to a match.
pub proof fn matches_ignore_case(host: Seq<char>, suffix: Seq<char>)
    ensures
        under_suffix(host, suffix) == under_suffix(lower(host), lower(suffix)),
{
    lemma_strip_lower(host, white());
    lemma_strip_lower(suffix, white());
    let h = strip_start(host, white());
    let s = strip_start(suffix, white());
    lemma_strip_lower(h, white());
    lemma_strip_lower(s, white());
    lemma_strip_lower(trim(host), dot());
    lemma_strip_lower(trim(suffix), dot());
    lemma_strip_lower(strip_start(trim(suffix), dot()), dot());
    assert(lower(host_name(host)) =~= host_name(host));
    assert(lower(suffix_name(suffix)) =~= suffix_name(suffix));
}

proof fn lemma_strip_lower(s: Seq<char>, set: Set<char>)
    requires
        set == white() || set == dot(),
    ensures
        strip_start(lower(s), set) == lower(strip_start(s, set)),
        strip_end(lower(s), set) == lower(strip_end(s, set)),
    decreases s.len(),
{
    if s.len() > 0 {
        assert(lower(s)[0] == lower_char(s[0]));
        assert(set.contains(lower_char(s[0])) == set.contains(s[0]));
        assert(set.contains(lower_char(s.last())) == set.contains(s.last()));
        lemma_strip_lower(s.drop_first(), set);
        lemma_strip_lower(s.drop_last(), set);
        assert(lower(s).drop_first() =~= lower(s.drop_first()));
        assert(lower(s).drop_last() =~= lower(s.drop_last()));
        assert(lower(s).last() == lower_char(s.last()));
    }
}

/// One more dot on either side of a suffix makes no difference to a match, nor
/// does one more behind a host; neither may have white space at its ends.
pub proof fn matches_ignore_outer_dots(host: Seq<char>, suffix: Seq<char>)
    requires
        trim(host) == host,
        trim(suffix) == suffix,
    ensures
        under_suffix(host.push('.'), seq!['.'] + suffix.push('.')) == under_suffix(host, suffix),
{
    let h = host.push('.');
    let s = seq!['.'] + suffix.push('.');
    lemma_trim_dotted(host);
    lemma_no_white_start(suffix);
    assert(s[0] == '.' && s.last() == '.');
    assert(strip_start(s, white()) == s);
    assert(strip_end(s, white()) == s);
    assert(h.drop_last() =~= host);
    assert(s.drop_first() =~= suffix.push('.'));
    lemma_strip_start_push(suffix);
    let inner = strip_start(suffix, dot());
    if inner.len() > 0 {
        assert(inner.push('.').drop_last() =~= inner);
    }
}

proof fn lemma_no_white_start(s: Seq<char>)
    requires
        trim(s) == s,
    ensures
        s.len() > 0 ==> !white().contains(s[0]),
{
    lemma_strip_shorter(s, white());
    lemma_strip_shorter(strip_start(s, white()), white());
}

proof fn lemma_strip_shorter(s: Seq<char>, set: Set<char>)
    ensures
        strip_start(s, set).len() <= s.len(),
        strip_end(s, set).len() <= s.len(),
        s.len() > 0 && set.contains(s[0]) ==> strip_start(s, set).len() < s.len(),
    decreases s.len(),
{
    if s.len() > 0 {
        lemma_strip_shorter(s.drop_first(), set);
        lemma_strip_shorter(s.drop_last(), set);
    }
}

proof fn lemma_trim_dotted(s: Seq<char>)
    requires
        trim(s) == s,
    ensures
        trim(s.push('.')) == s.push('.'),
{
    lemma_no_white_start(s);
    let d = s.push('.');
    assert(!white().contains(d[0]));
    assert(!white().contains(d.last()));
}

proof fn lemma_strip_start_push(s: Seq<char>)
    ensures
        strip_start(s.push('.'), dot()) == if strip_start(s, dot()).len() == 0 {
            Seq::empty()
        } else {
            strip_start(s, dot()).push('.')
        },
    decreases s.len(),
{
    let d = s.push('.');
    if s.len() == 0 {
        assert(d.drop_first() =~= Seq::<char>::empty());
        assert(strip_start(d, dot()) == strip_start(d.drop_first(), dot()));
    } else if s[0] == '.' {
        lemma_strip_start_push(s.drop_first());
        assert(d.drop_first() =~= s.drop_first().push('.'));
    }
}

/// A CIDR is an address, a slash and the length of the prefix in decimal, which
/// counts up to the width of the address; an address alone is a range of its own.
pub proof fn ranges_are_written_with_their_prefix(text: Seq<char>, ip: IpAddr, n: u32)
    requires
        text.len() > 0,
        !is_white(text[0]),
        !is_white(text.last()),
        !text.contains('/'),
        address(text) == Some(ip),
    ensures
        cidr(text) == Some(
            (
                ip,
                match ip {
                    IpAddr::V4(_) => 32nat,
                    IpAddr::V6(_) => 128nat,
                },
            ),
        ),
        cidr(text + "/"@ + decimal(n as int)) == Some(
            (
                ip,
                match ip {
                    IpAddr::V4(_) => if n > 32 {
                        32nat
                    } else {
                        n as nat
                    },
                    IpAddr::V6(_) => if n > 128 {
                        128nat
                    } else {
                        n as nat
                    },
                },
            ),
        ),
{
    reveal_strlit("/");
    let d = decimal(n as int);
    assert(text + "/"@ + d =~= text.push('/') + d);
    lemma_split_once_joined(text, '/', d);
    white_space_around_is_left_out(text, ' ');
    decimal_chars(n as int);
    assert(is_digit(d[0]) || d[0] == '-');
    assert(is_digit(d[d.len() - 1]) || d[d.len() - 1] == '-');
    white_space_around_is_left_out(d, ' ');
    numbers_are_digits(n as nat, u32::MAX as nat, d, 0);
}

/// What stands before the slash, or the whole text without one, must be an address.
pub proof fn ranges_take_an_address(text: Seq<char>, rest: Seq<char>)
    requires
        !text.contains('/'),
        address(trim(text)) is None,
    ensures
        cidr(text) is None,
        cidr(text + "/"@ + rest) is None,
{
    reveal_strlit("/");
    assert(text + "/"@ + rest =~= text.push('/') + rest);
    lemma_split_once_joined(text, '/', rest);
}

/// A range is an interval: from its base, the bits behind the prefix cleared, on for
/// as many addresses as these bits can count, and of one family.
pub proof fn ranges_are_intervals(a: u32, x: u32, b: u128, y: u128, bits: nat)
    ensures
        bits <= 32 ==> ({
            let size = pow2((32 - bits) as nat) as int;
            let base = a as int - a as int % size;
            block(IpAddr::V4(a), bits).contains(IpAddr::V4(x)) <==> base <= x < base + size
        }),
        bits <= 128 ==> ({
            let size = pow2((128 - bits) as nat) as int;
            let base = b as int - b as int % size;
            block(IpAddr::V6(b), bits).contains(IpAddr::V6(y)) <==> base <= y < base + size
        }),
        !block(IpAddr::V4(a), bits).contains(IpAddr::V6(y)),
        !block(IpAddr::V6(b), bits).contains(IpAddr::V4(x)),
{
    if bits <= 32 {
        vstd::arithmetic::power2::lemma_pow2_pos((32 - bits) as nat);
        lemma_same_quotient(a as int, x as int, pow2((32 - bits) as nat) as int);
    }
    if bits <= 128 {
        vstd::arithmetic::power2::lemma_pow2_pos((128 - bits) as nat);
        lemma_same_quotient(b as int, y as int, pow2((128 - bits) as nat) as int);
    }
}

proof fn lemma_same_quotient(a: int, x: int, d: int)
    requires
        d > 0,
    ensures
        x / d == a / d <==> a - a % d <= x < a - a % d + d,
{
    vstd::arithmetic::div_mod::lemma_fundamental_div_mod(a, d);
    vstd::arithmetic::div_mod::lemma_fundamental_div_mod(x, d);
    vstd::arithmetic::div_mod::lemma_mod_bound(a, d);
    vstd::arithmetic::div_mod::lemma_mod_bound(x, d);
    let q = a / d;
    let p = x / d;
    if a - a % d <= x < a - a % d + d {
        assert(p == q) by (nonlinear_arith)
            requires
                d > 0,
                x == d * p + x % d,
                0 <= x % d < d,
                d * q <= x < d * q + d,
        ;
    }
}

/// A list of texts covers what one of them covers, and counts those that are CIDRs.
pub proof fn lists_cover_what_their_texts_cover(list: Seq<Seq<char>>, ip: IpAddr, s: Seq<char>)
    ensures
        covered_by_all(list).contains(ip) <==> exists|i: int|
            0 <= i < list.len() && (#[trigger] covered(list[i])).contains(ip),
        count_valid(list.push(s)) == count_valid(list) + (if cidr(s) is Some {
            1nat
        } else {
            0nat
        }),
        count_valid(Seq::empty()) == 0,
        cidr(s) matches Some((base, bits)) ==> covered(s) == block(base, bits),
    decreases list.len(),
{
    assert(list.push(s).drop_last() =~= list);
    if list.len() > 0 {
        let init = list.drop_last();
        lists_cover_what_their_texts_cover(init, ip, s);
        if covered_by_all(list).contains(ip) {
            if covered_by_all(init).contains(ip) {
                let i = choose|i: int|
                    0 <= i < init.len() && (#[trigger] covered(init[i])).contains(ip);
                assert(covered(list[i]).contains(ip));
            } else {
                assert(covered(list[list.len() - 1]).contains(ip));
            }
        }
        if exists|i: int| 0 <= i < list.len() && (#[trigger] covered(list[i])).contains(ip) {
            let i = choose|i: int| 0 <= i < list.len() && (#[trigger] covered(list[i])).contains(ip);
            if i < list.len() - 1 {
                assert(covered(init[i]).contains(ip));
            }
        }
    }
}

/// The prefixes of a feed are those of its entries, in order, of each the IPv4 one
/// and then the IPv6 one, as far as they are given; one malformed entry spoils the
/// feed.
pub proof fn feeds_list_the_prefixes_of_their_entries(
    docs: Seq<Seq<u8>>,
    doc: Seq<u8>,
    r: RecordView,
    v4: Seq<char>,
    v6: Seq<char>,
)
    requires
        record_of(doc, 2) == Some(r),
    ensures
        r.text("ipv4Prefix"@, 0) == Some(v4) && r.text("ipv6Prefix"@, 1) == Some(v6) ==> entry_texts(
            doc,
        ) == Some(seq![v4, v6]),
        r.text("ipv4Prefix"@, 0) == Some(v4) && r.values("ipv6Prefix"@, 1).len() == 0
            ==> entry_texts(doc) == Some(seq![v4]),
        r.values("ipv4Prefix"@, 0).len() == 0 && r.text("ipv6Prefix"@, 1) == Some(v6)
            ==> entry_texts(doc) == Some(seq![v6]),
        r.values("ipv4Prefix"@, 0).len() == 0 && r.values("ipv6Prefix"@, 1).len() == 0
            ==> entry_texts(doc) == Some(Seq::<Seq<char>>::empty()),
        entries_texts(docs.push(doc)) == (match (entries_texts(docs), entry_texts(doc)) {
            (Some(a), Some(b)) => Some(a + b),
            _ => None,
        }),
        entries_texts(Seq::empty()) == Some(Seq::<Seq<char>>::empty()),
{
    assert(docs.push(doc).drop_last() =~= docs);
    assert(seq![v4] + seq![v6] =~= seq![v4, v6]);
    assert(seq![v4] + Seq::<Seq<char>>::empty() =~= seq![v4]);
    assert(Seq::<Seq<char>>::empty() + seq![v6] =~= seq![v6]);
    assert(Seq::<Seq<char>>::empty() + Seq::<Seq<char>>::empty() =~= Seq::<Seq<char>>::empty());
}

/// The entries of a feed are the elements of the array under `prefixes`.
pub proof fn entries_stand_under_prefixes(doc: Seq<u8>, r: RecordView, part: Seq<u8>, docs: Seq<Seq<u8>>)
    requires
        record_of(doc, 1) == Some(r),
        r.values("prefixes"@, 0) == seq![part],
        json_elements(part) == Some(docs),
    ensures
        entries_texts(docs) matches Some(list) ==> feed_texts(doc) == list,
        entries_texts(docs) is None ==> feed_texts(doc).len() == 0,
{
}

/// A host below a suffix matches it, and so does the suffix itself, in any case:
/// whatever stands before the dot.
pub proof fn hosts_below_a_suffix_match(below: Seq<char>, suffix: Seq<char>)
    requires
        suffix.len() > 0,
        !is_white(suffix[0]) && suffix[0] != '.',
        !is_white(suffix.last()) && suffix.last() != '.',
        below.len() > 0 && !is_white(below[0]),
    ensures
        under_suffix(suffix, suffix),
        under_suffix(below + "."@ + suffix, suffix),
        under_suffix(lower(below + "."@ + suffix), suffix),
{
    reveal_strlit(".");
    let host = below + "."@ + suffix;
    assert(host[0] == below[0] && host.last() == suffix.last());
    white_space_around_is_left_out(suffix, ' ');
    white_space_around_is_left_out(host, ' ');
    assert(strip_start(suffix, dot()) == suffix);
    assert(strip_end(suffix, dot()) == suffix);
    assert(strip_end(host, dot()) == host);
    let h = lower(host);
    let s = lower(suffix);
    assert(h.len() == host.len() && s.len() == suffix.len());
    assert(h.skip(h.len() - (s.len() + 1)) =~= seq!['.'] + s);
    matches_ignore_case(host, suffix);
    matches_ignore_case(lower(host), suffix);
    assert(lower(lower(host)) =~= lower(host));
}

/// White space around a host or a suffix makes no difference to a match, and nothing
/// matches where either is empty.
pub proof fn matches_ignore_outer_white_space(host: Seq<char>, suffix: Seq<char>)
    ensures
        under_suffix(seq![' '] + host, suffix) == under_suffix(host, suffix),
        under_suffix(host.push(' '), suffix) == under_suffix(host, suffix),
        under_suffix(host, seq![' '] + suffix) == under_suffix(host, suffix),
        under_suffix(host, suffix.push(' ')) == under_suffix(host, suffix),
        !under_suffix(Seq::empty(), suffix),
        !under_suffix(host, Seq::empty()),
{
    white_space_around_is_left_out(host, ' ');
    white_space_around_is_left_out(suffix, ' ');
}

} // verus!
