//! Internet addresses as numbers, and their textual form.
//!
//! IPv4 is dotted decimal: four octets without leading zeros. IPv6 is eight
//! groups of up to four hexadecimal digits; `::` stands for one zero group or
//! more, and the last two groups may be written as an IPv4 address.

use crate::number::{
    all_digits, decimal, digit_char, digits, digits_read_back, is_digit, lemma_decimal_lacks, number,
    read_unsigned, without_plus,
};
use crate::text::{
    chars, lemma_split_once_joined, lemma_split_once_shorter, pieces, split, split_once, texts,
};
use vstd::arithmetic::power2::{lemma2_to64, lemma_pow2_adds, pow2};
use vstd::prelude::*;
use vstd::slice::slice_subrange;

verus! {

/// An IPv4 or IPv6 address, as the number that its octets make in network order.
#[derive(Debug, Clone, Copy, PartialEq, Eq, Structural)]
pub enum IpAddr {
    V4(u32),
    V6(u128),
}

// -------------------------------------------------------------------- IPv4

/// The octet that `s` denotes: one to three digits, no leading zero, at most 255.
pub open spec fn octet(s: Seq<char>) -> Option<nat> {
    if 1 <= s.len() <= 3 && all_digits(s) && (s.len() > 1 ==> s[0] != '0') && number(s) <= 255 {
        Some(number(s))
    } else {
        None
    }
}

/// The number of the IPv4 address that `s` denotes.
pub open spec fn v4_value(s: Seq<char>) -> Option<nat> {
    let p = split(s, '.');
    if p.len() != 4 {
        None
    } else {
        match (octet(p[0]), octet(p[1]), octet(p[2]), octet(p[3])) {
            (Some(a), Some(b), Some(c), Some(d)) => Some(((a * 256 + b) * 256 + c) * 256 + d),
            _ => None,
        }
    }
}

fn read_octet(s: &[char]) -> (r: Option<u32>)
    ensures
        match (r, octet(s@)) {
            (None, None) => true,
            (Some(a), Some(b)) => a == b,
            _ => false,
        },
{
    if s.len() == 0 || s.len() > 3 {
        return None;
    }
    if s.len() > 1 && s[0] == '0' {
        return None;
    }
    if s[0] == '+' {
        assert(!is_digit(s@[0]));
        return None;
    }
    assert(without_plus(s@) == s@);
    match read_unsigned(s, 255) {
        Some(n) => Some(n as u32),
        None => None,
    }
}

fn read_v4(s: &[char]) -> (r: Option<u32>)
    ensures
        match (r, v4_value(s@)) {
            (None, None) => true,
            (Some(a), Some(b)) => a == b,
            _ => false,
        },
{
    let p = pieces(s, '.');
    assert(p@.len() == split(s@, '.').len());
    if p.len() != 4 {
        return None;
    }
    assert(forall|i: int| 0 <= i < 4 ==> (#[trigger] p@[i])@ == texts(p@)[i]);
    match (read_octet(p[0]), read_octet(p[1]), read_octet(p[2]), read_octet(p[3])) {
        (Some(a), Some(b), Some(c), Some(d)) => Some(((a * 256 + b) * 256 + c) * 256 + d),
        _ => None,
    }
}

// -------------------------------------------------------------------- IPv6

/// `c` is a hexadecimal digit, of either case.
pub open spec fn is_hex(c: char) -> bool {
    '0' <= c <= '9' || 'a' <= c <= 'f' || 'A' <= c <= 'F'
}

/// The value of a hexadecimal digit.
pub open spec fn hex_value(c: char) -> nat {
    if '0' <= c <= '9' {
        (c as u32 - '0' as u32) as nat
    } else if 'a' <= c <= 'f' {
        (c as u32 - 'a' as u32 + 10) as nat
    } else {
        (c as u32 - 'A' as u32 + 10) as nat
    }
}

/// The number that a run of hexadecimal digits denotes.
pub open spec fn hex_number(s: Seq<char>) -> nat
    decreases s.len(),
{
    if s.len() == 0 {
        0
    } else {
        hex_number(s.drop_last()) * 16 + hex_value(s.last())
    }
}

/// The 16-bit group that `s` denotes: one to four hexadecimal digits.
pub open spec fn group(s: Seq<char>) -> Option<nat> {
    if 1 <= s.len() <= 4 && forall|i: int| 0 <= i < s.len() ==> is_hex(#[trigger] s[i]) {
        Some(hex_number(s))
    } else {
        None
    }
}

/// The groups that the pieces of `p` denote, if each of them denotes one.
pub open spec fn groups(p: Seq<Seq<char>>) -> Option<Seq<nat>> {
    if forall|i: int| 0 <= i < p.len() ==> group(#[trigger] p[i]) is Some {
        Some(Seq::new(p.len(), |i: int| group(p[i])->0))
    } else {
        None
    }
}

/// As [`groups`], where the last piece may be an IPv4 address that stands for two.
pub open spec fn tail_groups(p: Seq<Seq<char>>) -> Option<Seq<nat>> {
    match groups(p) {
        Some(g) => Some(g),
        None => if p.len() == 0 {
            None
        } else {
            match (groups(p.drop_last()), v4_value(p.last())) {
                (Some(g), Some(v)) => Some(g.push(v / 0x1_0000).push(v % 0x1_0000)),
                _ => None,
            }
        },
    }
}

/// The pieces between the colons of `s`; none, if `s` is empty.
pub open spec fn colon_list(s: Seq<char>) -> Seq<Seq<char>> {
    if s.len() == 0 {
        Seq::empty()
    } else {
        split(s, ':')
    }
}

/// A `::` stands at position `i` of `s`.
pub open spec fn gap_at(s: Seq<char>, i: int) -> bool {
    0 <= i && i + 1 < s.len() && s[i] == ':' && s[i + 1] == ':'
}

/// `i` is the position of the first `::` of `s`.
pub open spec fn is_gap(s: Seq<char>, i: int) -> bool {
    gap_at(s, i) && forall|j: int| 0 <= j < i ==> !gap_at(s, j)
}

/// The eight groups of the IPv6 address that `s` denotes.
pub open spec fn v6_groups(s: Seq<char>) -> Option<Seq<nat>> {
    if exists|i: int| is_gap(s, i) {
        let i = choose|i: int| is_gap(s, i);
        match (groups(colon_list(s.take(i))), tail_groups(colon_list(s.skip(i + 2)))) {
            (Some(head), Some(tail)) => if head.len() + tail.len() <= 7 {
                Some(head + Seq::new((8 - head.len() - tail.len()) as nat, |j: int| 0nat) + tail)
            } else {
                None
            },
            _ => None,
        }
    } else {
        match tail_groups(split(s, ':')) {
            Some(g) if g.len() == 8 => Some(g),
            _ => None,
        }
    }
}

/// The number that 16-bit groups make, the first group the most significant.
pub open spec fn groups_value(g: Seq<nat>) -> nat
    decreases g.len(),
{
    if g.len() == 0 {
        0
    } else {
        groups_value(g.drop_last()) * 0x1_0000 + g.last()
    }
}

/// The address that `s` denotes.
pub open spec fn address(s: Seq<char>) -> Option<IpAddr> {
    match v4_value(s) {
        Some(v) => Some(IpAddr::V4(v as u32)),
        None => match v6_groups(s) {
            Some(g) => Some(IpAddr::V6(groups_value(g) as u128)),
            None => None,
        },
    }
}

/// Groups as natural numbers.
pub open spec fn nats(g: Seq<u16>) -> Seq<nat> {
    Seq::new(g.len(), |i: int| g[i] as nat)
}

fn hex_digit(c: char) -> (r: Option<u16>)
    ensures
        match r {
            Some(v) => is_hex(c) && v == hex_value(c) && v < 16,
            None => !is_hex(c),
        },
{
    let code: u32 = c as u32;
    if '0' <= c && c <= '9' {
        Some((code - 48) as u16)
    } else if 'a' <= c && c <= 'f' {
        Some((code - 87) as u16)
    } else if 'A' <= c && c <= 'F' {
        Some((code - 55) as u16)
    } else {
        None
    }
}

fn read_group(s: &[char]) -> (r: Option<u16>)
    ensures
        match (r, group(s@)) {
            (None, None) => true,
            (Some(a), Some(b)) => a == b,
            _ => false,
        },
{
    if s.len() == 0 || s.len() > 4 {
        return None;
    }
    let mut v: u32 = 0;
    let mut bound: u32 = 1;
    for i in 0..s.len()
        invariant
            s@.len() <= 4,
            v == hex_number(s@.take(i as int)),
            forall|j: int| 0 <= j < i ==> is_hex(#[trigger] s@[j]),
            i == 0 ==> bound == 1,
            i == 1 ==> bound == 0x10,
            i == 2 ==> bound == 0x100,
            i == 3 ==> bound == 0x1000,
            i == 4 ==> bound == 0x1_0000,
            v < bound,
    {
        match hex_digit(s[i]) {
            Some(d) => {
                assert(s@.take(i + 1).drop_last() =~= s@.take(i as int));
                v = v * 16 + d as u32;
                bound = bound * 16;
            },
            None => return None,
        }
    }
    assert(s@.take(s@.len() as int) =~= s@);
    Some(v as u16)
}

fn read_groups(p: &[&[char]]) -> (r: Option<Vec<u16>>)
    ensures
        match (r, groups(texts(p@))) {
            (None, None) => true,
            (Some(a), Some(b)) => nats(a@) == b,
            _ => false,
        },
{
    let mut g: Vec<u16> = Vec::new();
    for i in 0..p.len()
        invariant
            g@.len() == i,
            forall|j: int|
                0 <= j < i ==> group(#[trigger] texts(p@)[j]) == Some(g@[j] as nat),
    {
        assert(texts(p@)[i as int] == p@[i as int]@);
        match read_group(p[i]) {
            Some(v) => g.push(v),
            None => return None,
        }
    }
    proof {
        let want = groups(texts(p@));
        assert(want is Some);
        assert(nats(g@) =~= want->0);
    }
    Some(g)
}

fn read_tail_groups(p: &[&[char]]) -> (r: Option<Vec<u16>>)
    ensures
        match (r, tail_groups(texts(p@))) {
            (None, None) => true,
            (Some(a), Some(b)) => nats(a@) == b,
            _ => false,
        },
{
    if let Some(g) = read_groups(p) {
        return Some(g);
    }
    if p.len() == 0 {
        return None;
    }
    let init = slice_subrange(p, 0, p.len() - 1);
    assert(texts(init@) =~= texts(p@).drop_last());
    assert(texts(p@).last() == p@.last()@);
    match (read_groups(init), read_v4(p[p.len() - 1])) {
        (Some(mut g), Some(v)) => {
            let ghost before = nats(g@);
            g.push((v / 0x1_0000) as u16);
            g.push((v % 0x1_0000) as u16);
            assert(nats(g@) =~= before.push((v / 0x1_0000) as nat).push((v % 0x1_0000) as nat));
            Some(g)
        },
        _ => None,
    }
}

fn read_colon_list(s: &[char]) -> (r: Vec<&[char]>)
    ensures
        texts(r@) == colon_list(s@),
{
    if s.len() == 0 {
        let r: Vec<&[char]> = Vec::new();
        assert(texts(r@) =~= colon_list(s@));
        return r;
    }
    pieces(s, ':')
}

fn read_v6_groups(s: &[char]) -> (r: Option<Vec<u16>>)
    ensures
        match (r, v6_groups(s@)) {
            (None, None) => true,
            (Some(a), Some(b)) => nats(a@) == b && a@.len() == 8,
            _ => false,
        },
{
    let mut i: usize = 0;
    while s.len() - i > 1
        invariant
            i <= s@.len(),
            forall|j: int| 0 <= j < i ==> !gap_at(s@, j),
        decreases s@.len() - i,
    {
        if s[i] == ':' && s[i + 1] == ':' {
            proof {
                assert(is_gap(s@, i as int));
                let k = choose|k: int| is_gap(s@, k);
                assert(k == i) by {
                    if k < i {
                        assert(gap_at(s@, k));
                    } else if i < k {
                        assert(gap_at(s@, i as int));
                    }
                }
            }
            let front = slice_subrange(s, 0, i);
            let back = slice_subrange(s, i + 2, s.len());
            assert(front@ =~= s@.take(i as int));
            assert(back@ =~= s@.skip(i + 2));
            let head = read_groups(read_colon_list(front).as_slice());
            let tail = read_tail_groups(read_colon_list(back).as_slice());
            return match (head, tail) {
                (Some(h), Some(t)) => {
                    assert(nats(h@).len() == h@.len());
                    assert(nats(t@).len() == t@.len());
                    joined(h, t)
                },
                _ => None,
            };
        }
        i = i + 1;
    }
    assert(!exists|k: int| is_gap(s@, k)) by {
        if exists|k: int| is_gap(s@, k) {
            let k = choose|k: int| is_gap(s@, k);
            assert(gap_at(s@, k));
        }
    }
    match read_tail_groups(pieces(s, ':').as_slice()) {
        Some(g) => {
            assert(nats(g@).len() == g@.len());
            if g.len() == 8 {
                Some(g)
            } else {
                None
            }
        },
        None => None,
    }
}

fn joined(head: Vec<u16>, tail: Vec<u16>) -> (r: Option<Vec<u16>>)
    ensures
        match r {
            Some(g) => head@.len() + tail@.len() <= 7 && g@.len() == 8 && nats(g@) == nats(head@)
                + Seq::new((8 - head@.len() - tail@.len()) as nat, |j: int| 0nat) + nats(tail@),
            None => head@.len() + tail@.len() > 7,
        },
{
    if head.len() > 7 || tail.len() > 7 - head.len() {
        return None;
    }
    let ghost front = head@;
    let mut g = head;
    let zeros: usize = 8 - g.len() - tail.len();
    for j in 0..zeros
        invariant
            g@ == front + Seq::new(j as nat, |k: int| 0u16),
    {
        g.push(0);
        assert(g@ =~= front + Seq::new((j + 1) as nat, |k: int| 0u16));
    }
    let ghost middle = g@;
    for j in 0..tail.len()
        invariant
            g@ == middle + tail@.take(j as int),
    {
        g.push(tail[j]);
        assert(g@ =~= middle + tail@.take(j + 1));
    }
    assert(nats(g@) =~= nats(front) + Seq::new(zeros as nat, |k: int| 0nat) + nats(tail@));
    Some(g)
}

proof fn lemma_groups_bound(g: Seq<u16>)
    ensures
        groups_value(nats(g)) < pow2(16 * g.len()),
    decreases g.len(),
{
    lemma2_to64();
    if g.len() > 0 {
        lemma_groups_bound(g.drop_last());
        assert(nats(g).drop_last() =~= nats(g.drop_last()));
        lemma_pow2_adds(16 * (g.len() - 1) as nat, 16);
    }
}

fn number_of_groups(g: &[u16]) -> (v: u128)
    requires
        g@.len() == 8,
    ensures
        v == groups_value(nats(g@)),
{
    let mut v: u128 = 0;
    for i in 0..g.len()
        invariant
            g@.len() == 8,
            v == groups_value(nats(g@.take(i as int))),
    {
        proof {
            let next = g@.take(i + 1);
            assert(nats(next).drop_last() =~= nats(g@.take(i as int)));
            lemma_groups_bound(next);
            lemma_pow2_at_most_128(16 * next.len());
        }
        v = v * 0x1_0000 + g[i] as u128;
    }
    assert(g@.take(8) =~= g@);
    v
}

/// The powers of two up to the width of `u128`.
pub proof fn lemma_pow2_at_most_128(e: nat)
    requires
        e <= 128,
    ensures
        pow2(e) <= u128::MAX + 1,
{
    lemma2_to64();
    lemma_pow2_adds(64, 64);
    assert(pow2(128) == u128::MAX + 1);
    if e < 128 {
        vstd::arithmetic::power2::lemma_pow2_strictly_increases(e, 128);
    }
}

impl IpAddr {
    /// The address that `s` denotes, if it denotes one.
    pub fn parse(s: &str) -> (r: Option<IpAddr>)
        ensures
            r == address(s@),
    {
        IpAddr::read(chars(s).as_slice())
    }

    /// [`IpAddr::parse`] on a slice of characters.
    pub fn read(s: &[char]) -> (r: Option<IpAddr>)
        ensures
            r == address(s@),
    {
        match read_v4(s) {
            Some(v) => Some(IpAddr::V4(v)),
            None => match read_v6_groups(s) {
                Some(g) => Some(IpAddr::V6(number_of_groups(g.as_slice()))),
                None => None,
            },
        }
    }
}

// -------------------------------------------------------------------- laws

proof fn lemma_octet_read_back(n: nat)
    requires
        n <= 255,
    ensures
        octet(digits(n)) == Some(n),
        !digits(n).contains('.'),
{
    digits_read_back(n);
    if n >= 10 {
        if n >= 100 {
            assert(digits(n / 10) == digits(n / 10 / 10).push(digit_char(n / 10 % 10)));
            assert(digits(n / 10 / 10) == seq![digit_char(n / 10 / 10)]);
            assert(digits(n)[0] == digit_char(n / 10 / 10));
        } else {
            assert(digits(n / 10) == seq![digit_char(n / 10)]);
            assert(digits(n)[0] == digit_char(n / 10));
        }
    }
    lemma_decimal_lacks(n as int, '.');
}

/// Every IPv4 address is read from its four octets in decimal, with dots between them.
pub proof fn octets_are_read_back(a: u8, b: u8, c: u8, d: u8)
    ensures
        address(
            decimal(a as int) + "."@ + decimal(b as int) + "."@ + decimal(c as int) + "."@
                + decimal(d as int),
        ) == Some(
            IpAddr::V4(
                (a as u32 * 0x100_0000 + b as u32 * 0x1_0000 + c as u32 * 0x100 + d as u32) as u32,
            ),
        ),
{
    reveal_strlit(".");
    let (p, q, r, t) = (digits(a as nat), digits(b as nat), digits(c as nat), digits(d as nat));
    lemma_octet_read_back(a as nat);
    lemma_octet_read_back(b as nat);
    lemma_octet_read_back(c as nat);
    lemma_octet_read_back(d as nat);
    let s2 = r.push('.') + t;
    let s1 = q.push('.') + s2;
    let s0 = p.push('.') + s1;
    assert(decimal(a as int) + "."@ + decimal(b as int) + "."@ + decimal(c as int) + "."@ + decimal(
        d as int,
    ) =~= s0);
    lemma_split_once_joined(p, '.', s1);
    lemma_split_once_joined(q, '.', s2);
    lemma_split_once_joined(r, '.', t);
    assert(split(t, '.') =~= seq![t]);
    assert(split(s2, '.') =~= seq![r, t]);
    assert(split(s1, '.') =~= seq![q, r, t]);
    assert(split(s0, '.') =~= seq![p, q, r, t]);
}

proof fn lemma_pieces_hold_the_rest(s: Seq<char>, c: char, x: char)
    requires
        x != c,
        s.contains(x),
    ensures
        exists|i: int| 0 <= i < split(s, c).len() && (#[trigger] split(s, c)[i]).contains(x),
    decreases s.len(),
{
    lemma_split_once_shorter(s, c);
    match split_once(s, c) {
        None => {
            assert(split(s, c)[0].contains(x));
        },
        Some((a, b)) => {
            let list = split(s, c);
            assert(list == seq![a] + split(b, c));
            let k = choose|k: int| 0 <= k < s.len() && s[k] == x;
            if k < a.len() {
                assert(a[k] == x);
                assert(list[0].contains(x));
            } else {
                assert(b[k - a.len() - 1] == x);
                lemma_pieces_hold_the_rest(b, c, x);
                let i = choose|i: int|
                    0 <= i < split(b, c).len() && (#[trigger] split(b, c)[i]).contains(x);
                assert(list[i + 1] == split(b, c)[i]);
            }
        },
    }
}

proof fn lemma_colons_are_no_v4(s: Seq<char>)
    requires
        s.contains(':'),
    ensures
        v4_value(s) is None,
{
    lemma_pieces_hold_the_rest(s, '.', ':');
    let p = split(s, '.');
    let i = choose|i: int| 0 <= i < p.len() && (#[trigger] p[i]).contains(':');
    let k = choose|k: int| 0 <= k < p[i].len() && p[i][k] == ':';
    assert(!is_digit(p[i][k]));
    if p.len() == 4 {
        assert(octet(p[i]) is None);
    }
}

/// An IPv6 address with a gap is read from the groups on both sides of it, and zeros
/// for those that are left out: seven groups at most are written out.
pub proof fn gaps_stand_for_zeros(a: Seq<char>, b: Seq<char>, head: Seq<nat>, tail: Seq<nat>)
    requires
        forall|i: int| !gap_at(a, i),
        a.len() > 0 ==> a.last() != ':',
        groups(colon_list(a)) == Some(head),
        tail_groups(colon_list(b)) == Some(tail),
    ensures
        address(a + "::"@ + b) == (if head.len() + tail.len() <= 7 {
            Some(
                IpAddr::V6(
                    groups_value(
                        head + Seq::new((8 - head.len() - tail.len()) as nat, |j: int| 0nat) + tail,
                    ) as u128,
                ),
            )
        } else {
            None
        }),
{
    reveal_strlit("::");
    let s = a + "::"@ + b;
    let n = a.len() as int;
    assert(s[n] == ':' && s[n + 1] == ':');
    assert(s.contains(':'));
    lemma_colons_are_no_v4(s);
    assert forall|j: int| 0 <= j < n implies !gap_at(s, j) by {
        if gap_at(s, j) {
            assert(a[j] == ':');
            if j + 1 < n {
                assert(gap_at(a, j));
            }
        }
    }
    assert(is_gap(s, n));
    let i = choose|i: int| is_gap(s, i);
    assert(i == n) by {
        if i < n {
            assert(gap_at(s, i));
        } else if n < i {
            assert(gap_at(s, n));
        }
    }
    assert(s.take(n) =~= a);
    assert(s.skip(n + 2) =~= b);
}

/// An IPv6 address without a gap is read from its eight groups, with colons between
/// them.
pub proof fn eight_groups_make_an_address(s: Seq<char>, g: Seq<nat>)
    requires
        s.contains(':'),
        forall|i: int| !gap_at(s, i),
        tail_groups(split(s, ':')) == Some(g),
    ensures
        address(s) == (if g.len() == 8 {
            Some(IpAddr::V6(groups_value(g) as u128))
        } else {
            None
        }),
{
    lemma_colons_are_no_v4(s);
    assert(!exists|i: int| is_gap(s, i)) by {
        if exists|i: int| is_gap(s, i) {
            let i = choose|i: int| is_gap(s, i);
            assert(gap_at(s, i));
        }
    }
}

/// A group is one to four hexadecimal digits, of either case, the first the most
/// significant; groups make a number in the same way.
pub proof fn groups_are_hexadecimal(s: Seq<char>, c: char, g: Seq<nat>, v: nat)
    ensures
        s.len() == 0 ==> group(s) is None,
        s.len() > 4 ==> group(s) is None,
        is_hex(c) ==> group(seq![c]) == Some(hex_value(c)),
        1 <= s.len() <= 3 && is_hex(c) ==> (group(s) matches Some(n) ==> group(s.push(c)) == Some(
            n * 16 + hex_value(c),
        )),
        group(s) is Some && !is_hex(c) ==> group(s.push(c)) is None,
        groups_value(g.push(v)) == groups_value(g) * 0x1_0000 + v,
        groups_value(Seq::empty()) == 0,
{
    assert(seq![c].drop_last() =~= Seq::<char>::empty());
    assert(hex_number(seq![c].drop_last()) == 0);
    assert(seq![c].last() == c);
    assert(s.push(c).drop_last() =~= s);
    assert(g.push(v).drop_last() =~= g);
    assert(s.push(c)[s.len() as int] == c);
    if 1 <= s.len() <= 3 && is_hex(c) && group(s) is Some {
        let t = s.push(c);
        assert forall|i: int| 0 <= i < t.len() implies is_hex(#[trigger] t[i]) by {
            if i < s.len() {
                assert(is_hex(s[i]));
            }
        }
    }
}

/// The digits of hexadecimal count from zero to fifteen, in either case.
pub proof fn hexadecimal_counts_to_fifteen(i: int)
    requires
        0 <= i < 16,
    ensures
        is_hex("0123456789abcdef"@[i]) && hex_value("0123456789abcdef"@[i]) == i,
        is_hex("0123456789ABCDEF"@[i]) && hex_value("0123456789ABCDEF"@[i]) == i,
{
    reveal_strlit("0123456789abcdef");
    reveal_strlit("0123456789ABCDEF");
}

/// The last two groups may be written as an IPv4 address.
pub proof fn the_tail_may_be_an_ipv4_address(p: Seq<Seq<char>>, text: Seq<char>, g: Seq<nat>, v: nat)
    requires
        groups(p) == Some(g),
        group(text) is None,
        v4_value(text) == Some(v),
    ensures
        tail_groups(p) == Some(g),
        tail_groups(p.push(text)) == Some(g.push(v / 0x1_0000).push(v % 0x1_0000)),
{
    assert(p.push(text).drop_last() =~= p);
    assert(p.push(text)[p.len() as int] == text);
    assert(groups(p.push(text)) is None);
}

/// An octet is written without a leading zero, without a sign, and counts to 255; an
/// IPv4 address has four.
pub proof fn octets_are_strict(s: Seq<char>, rest: Seq<char>)
    ensures
        rest.len() > 0 ==> octet(seq!['0'] + rest) is None,
        octet(seq!['+'] + rest) is None,
        octet(seq!['-'] + rest) is None,
        octet(Seq::empty()) is None,
        number(s) > 255 ==> octet(s) is None,
        !s.contains(':') && split(s, '.').len() != 4 ==> address(s) is None,
{
    assert((seq!['0'] + rest)[0] == '0');
    assert((seq!['+'] + rest)[0] == '+');
    assert(!is_digit((seq!['+'] + rest)[0]));
    assert(!is_digit((seq!['-'] + rest)[0]));
    if !s.contains(':') {
        assert(!exists|i: int| is_gap(s, i)) by {
            if exists|i: int| is_gap(s, i) {
                let i = choose|i: int| is_gap(s, i);
                assert(s[i] == ':');
            }
        }
        assert(split(s, ':') =~= seq![s]);
        let p = seq![s];
        assert(p.drop_last() =~= Seq::<Seq<char>>::empty());
        match tail_groups(split(s, ':')) {
            Some(g) => {
                assert(g.len() <= 2);
            },
            None => {},
        }
    }
}

} // verus!
