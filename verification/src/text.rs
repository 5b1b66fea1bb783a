//! Text as sequences of characters.
//!
//! The engine's rules speak of separators, affixes, decimal numbers and ASCII
//! case. This module gives each of them a meaning on `Seq<char>` and an
//! executable function that is proved to compute it.

use vstd::prelude::*;
use vstd::slice::slice_subrange;
use vstd::utf8::encode_utf8;

verus! {

/// `String::push`: appends one character.
pub assume_specification[ String::push ](s: &mut String, c: char)
    ensures
        final(s)@ == old(s)@.push(c),
;

// ------------------------------------------------------------ conversions

/// The characters of `s`, in order.
pub fn chars(s: &str) -> (v: Vec<char>)
    ensures
        v@ == s@,
{
    let mut v: Vec<char> = Vec::new();
    for c in it: s.chars()
        invariant
            v@ == s@.take(it.index()),
            it.seq() == s@,
    {
        v.push(c);
        assert(s@.take(it.index() + 1) == s@.take(it.index() as int).push(c));
    }
    assert(s@.take(s@.len() as int) == s@);
    v
}

/// The string made of the characters of `v`.
pub fn string(v: &[char]) -> (s: String)
    ensures
        s@ == v@,
{
    let mut s = String::new();
    for i in 0..v.len()
        invariant
            s@ == v@.take(i as int),
    {
        s.push(v[i]);
        assert(v@.take(i + 1) == v@.take(i as int).push(v@[i as int]));
    }
    assert(v@.take(v@.len() as int) == v@);
    s
}

/// Equality of two texts.
pub fn same(a: &str, b: &str) -> (r: bool)
    ensures
        r == (a@ == b@),
{
    a.to_owned() == b.to_owned()
}

/// Equality of two character slices.
pub fn same_chars(a: &[char], b: &[char]) -> (r: bool)
    ensures
        r == (a@ == b@),
{
    if a.len() != b.len() {
        return false;
    }
    for i in 0..a.len()
        invariant
            a@.len() == b@.len(),
            forall|j: int| 0 <= j < i ==> a@[j] == b@[j],
    {
        if a[i] != b[i] {
            return false;
        }
    }
    assert(a@ =~= b@);
    true
}

// ------------------------------------------------------------- separators

/// `i` is the position of the first `c` in `s`.
pub open spec fn is_first(s: Seq<char>, c: char, i: int) -> bool {
    &&& 0 <= i < s.len()
    &&& s[i] == c
    &&& forall|j: int| 0 <= j < i ==> s[j] != c
}

/// `i` is the position of the last `c` in `s`.
pub open spec fn is_last(s: Seq<char>, c: char, i: int) -> bool {
    &&& 0 <= i < s.len()
    &&& s[i] == c
    &&& forall|j: int| i < j < s.len() ==> s[j] != c
}

/// What stands before and after the first `c` of `s`; `None` if there is none.
pub open spec fn split_once(s: Seq<char>, c: char) -> Option<(Seq<char>, Seq<char>)> {
    if s.contains(c) {
        let i = choose|i: int| is_first(s, c, i);
        Some((s.take(i), s.skip(i + 1)))
    } else {
        None
    }
}

/// What stands before and after the last `c` of `s`; `None` if there is none.
pub open spec fn rsplit_once(s: Seq<char>, c: char) -> Option<(Seq<char>, Seq<char>)> {
    if s.contains(c) {
        let i = choose|i: int| is_last(s, c, i);
        Some((s.take(i), s.skip(i + 1)))
    } else {
        None
    }
}

/// The first position of `c`, found by looking from the left.
pub proof fn lemma_first_exists(s: Seq<char>, c: char)
    requires
        s.contains(c),
    ensures
        exists|i: int| is_first(s, c, i),
    decreases s.len(),
{
    if s[0] == c {
        assert(is_first(s, c, 0));
    } else {
        let t = s.drop_first();
        let k = choose|k: int| 0 <= k < s.len() && s[k] == c;
        assert(t[k - 1] == c);
        lemma_first_exists(t, c);
        let i = choose|i: int| is_first(t, c, i);
        assert forall|j: int| 0 <= j < i + 1 implies s[j] != c by {
            if j > 0 {
                assert(t[j - 1] == s[j]);
            }
        }
        assert(is_first(s, c, i + 1));
    }
}

/// Where the first `c` is known, so is the split.
pub proof fn lemma_split_once_at(s: Seq<char>, c: char, i: int)
    requires
        is_first(s, c, i),
    ensures
        split_once(s, c) == Some((s.take(i), s.skip(i + 1))),
{
    assert(s.contains(c));
    let k = choose|k: int| is_first(s, c, k);
    assert(is_first(s, c, k));
    assert(k == i);
}

/// Where the last `c` is known, so is the split.
pub proof fn lemma_rsplit_once_at(s: Seq<char>, c: char, i: int)
    requires
        is_last(s, c, i),
    ensures
        rsplit_once(s, c) == Some((s.take(i), s.skip(i + 1))),
{
    assert(s.contains(c));
    let k = choose|k: int| is_last(s, c, k);
    assert(is_last(s, c, k));
    assert(k == i);
}

/// Both halves of a split are shorter than the whole.
pub proof fn lemma_split_once_shorter(s: Seq<char>, c: char)
    ensures
        split_once(s, c) matches Some((a, b)) ==> a.len() + b.len() + 1 == s.len() && !a.contains(c)
            && s == a.push(c) + b,
{
    if s.contains(c) {
        lemma_first_exists(s, c);
        let i = choose|i: int| is_first(s, c, i);
        lemma_split_once_at(s, c, i);
        let (a, b) = split_once(s, c).unwrap();
        assert(a.push(c) + b =~= s);
        if a.contains(c) {
            let j = choose|j: int| 0 <= j < a.len() && a[j] == c;
            assert(s[j] == c);
        }
    }
}

/// A text joined from a part without `c`, a `c` and any rest splits there.
pub proof fn lemma_split_once_joined(a: Seq<char>, c: char, b: Seq<char>)
    requires
        !a.contains(c),
    ensures
        split_once(a.push(c) + b, c) == Some((a, b)),
{
    let s = a.push(c) + b;
    let i = a.len() as int;
    assert forall|j: int| 0 <= j < i implies s[j] != c by {
        if s[j] == c {
            assert(a[j] == c);
            assert(a.contains(c));
        }
    }
    assert(is_first(s, c, i));
    lemma_split_once_at(s, c, i);
    assert(s.take(i) =~= a);
    assert(s.skip(i + 1) =~= b);
}

/// A text joined from any part, a `c` and a rest without `c` splits there from
/// the right.
pub proof fn lemma_rsplit_once_joined(a: Seq<char>, c: char, b: Seq<char>)
    requires
        !b.contains(c),
    ensures
        rsplit_once(a.push(c) + b, c) == Some((a, b)),
{
    let s = a.push(c) + b;
    let i = a.len() as int;
    assert forall|j: int| i < j < s.len() implies s[j] != c by {
        if s[j] == c {
            assert(b[j - i - 1] == c);
            assert(b.contains(c));
        }
    }
    assert(is_last(s, c, i));
    lemma_rsplit_once_at(s, c, i);
    assert(s.take(i) =~= a);
    assert(s.skip(i + 1) =~= b);
}

/// The pieces of `s` between the occurrences of `c`; one piece more than there
/// are occurrences.
pub open spec fn split(s: Seq<char>, c: char) -> Seq<Seq<char>>
    decreases s.len(),
    via split_decreases
{
    match split_once(s, c) {
        None => seq![s],
        Some((a, b)) => seq![a] + split(b, c),
    }
}

#[via_fn]
proof fn split_decreases(s: Seq<char>, c: char) {
    lemma_split_once_shorter(s, c);
}

/// The position of the first `c`, or the length of `s`.
pub fn position(s: &[char], c: char) -> (i: usize)
    ensures
        i <= s@.len(),
        i < s@.len() ==> is_first(s@, c, i as int),
        i == s@.len() ==> !s@.contains(c),
{
    let mut i: usize = 0;
    while i < s.len()
        invariant
            i <= s@.len(),
            forall|j: int| 0 <= j < i ==> s@[j] != c,
        decreases s@.len() - i,
    {
        if s[i] == c {
            return i;
        }
        i = i + 1;
    }
    i
}

/// [`split_once`] on slices.
pub fn cut(s: &[char], c: char) -> (r: Option<(&[char], &[char])>)
    ensures
        match (r, split_once(s@, c)) {
            (None, None) => true,
            (Some((a, b)), Some((x, y))) => a@ == x && b@ == y,
            _ => false,
        },
{
    let i = position(s, c);
    if i == s.len() {
        return None;
    }
    proof {
        lemma_split_once_at(s@, c, i as int);
    }
    let a = slice_subrange(s, 0, i);
    let b = slice_subrange(s, i + 1, s.len());
    assert(a@ =~= s@.take(i as int));
    assert(b@ =~= s@.skip(i + 1));
    Some((a, b))
}

/// [`rsplit_once`] on slices.
pub fn rcut(s: &[char], c: char) -> (r: Option<(&[char], &[char])>)
    ensures
        match (r, rsplit_once(s@, c)) {
            (None, None) => true,
            (Some((a, b)), Some((x, y))) => a@ == x && b@ == y,
            _ => false,
        },
{
    let mut i: usize = s.len();
    while i > 0
        invariant
            i <= s@.len(),
            forall|j: int| i <= j < s@.len() ==> s@[j] != c,
        decreases i,
    {
        if s[i - 1] == c {
            proof {
                lemma_rsplit_once_at(s@, c, i - 1);
            }
            let a = slice_subrange(s, 0, i - 1);
            let b = slice_subrange(s, i, s.len());
            assert(a@ =~= s@.take(i - 1));
            assert(b@ =~= s@.skip(i as int));
            return Some((a, b));
        }
        i = i - 1;
    }
    None
}

/// The texts of a sequence of slices.
pub open spec fn texts(v: Seq<&[char]>) -> Seq<Seq<char>> {
    Seq::new(v.len(), |i: int| v[i]@)
}

/// [`split`] on slices.
pub fn pieces(s: &[char], c: char) -> (r: Vec<&[char]>)
    ensures
        texts(r@) == split(s@, c),
{
    let mut r: Vec<&[char]> = Vec::new();
    let mut rest = s;
    assert(texts(r@) + split(rest@, c) =~= split(s@, c));
    loop
        invariant
            texts(r@) + split(rest@, c) == split(s@, c),
        decreases rest@.len(),
    {
        let ghost done = texts(r@);
        let ghost open = rest@;
        proof {
            lemma_split_once_shorter(rest@, c);
        }
        match cut(rest, c) {
            None => {
                r.push(rest);
                assert(texts(r@) =~= done + split(open, c));
                return r;
            },
            Some((a, b)) => {
                r.push(a);
                rest = b;
                assert(texts(r@) + split(rest@, c) =~= done + split(open, c));
            },
        }
    }
}

// ----------------------------------------------------------------- affixes

/// `s` starts with `p`.
pub open spec fn starts_with(s: Seq<char>, p: Seq<char>) -> bool {
    p.len() <= s.len() && s.take(p.len() as int) == p
}

/// `s` ends with `p`.
pub open spec fn ends_with(s: Seq<char>, p: Seq<char>) -> bool {
    p.len() <= s.len() && s.skip(s.len() - p.len()) == p
}

/// Does `s` start with `p`?
pub fn has_prefix(s: &[char], p: &[char]) -> (r: bool)
    ensures
        r == starts_with(s@, p@),
{
    if p.len() > s.len() {
        return false;
    }
    let head = slice_subrange(s, 0, p.len());
    assert(head@ =~= s@.take(p@.len() as int));
    same_chars(head, p)
}

/// Does `s` end with `p`?
pub fn has_suffix(s: &[char], p: &[char]) -> (r: bool)
    ensures
        r == ends_with(s@, p@),
{
    if p.len() > s.len() {
        return false;
    }
    let tail = slice_subrange(s, s.len() - p.len(), s.len());
    assert(tail@ =~= s@.skip(s@.len() - p@.len()));
    same_chars(tail, p)
}

/// `s` without its longest run of leading characters of `set`.
pub open spec fn strip_start(s: Seq<char>, set: Set<char>) -> Seq<char>
    decreases s.len(),
{
    if s.len() > 0 && set.contains(s[0]) {
        strip_start(s.drop_first(), set)
    } else {
        s
    }
}

/// `s` without its longest run of trailing characters of `set`.
pub open spec fn strip_end(s: Seq<char>, set: Set<char>) -> Seq<char>
    decreases s.len(),
{
    if s.len() > 0 && set.contains(s.last()) {
        strip_end(s.drop_last(), set)
    } else {
        s
    }
}

/// The characters with the Unicode property `White_Space`.
pub open spec fn is_white(c: char) -> bool {
    ||| '\u{9}' <= c <= '\u{d}'
    ||| c == '\u{20}'
    ||| c == '\u{85}'
    ||| c == '\u{a0}'
    ||| c == '\u{1680}'
    ||| '\u{2000}' <= c <= '\u{200a}'
    ||| c == '\u{2028}'
    ||| c == '\u{2029}'
    ||| c == '\u{202f}'
    ||| c == '\u{205f}'
    ||| c == '\u{3000}'
}

/// The set of white-space characters.
pub open spec fn white() -> Set<char> {
    Set::new(|c: char| is_white(c))
}

/// The set that holds the dot alone.
pub open spec fn dot() -> Set<char> {
    Set::new(|c: char| c == '.')
}

/// `s` without leading and trailing white space.
pub open spec fn trim(s: Seq<char>) -> Seq<char> {
    strip_end(strip_start(s, white()), white())
}

/// Is `c` white space?
pub fn white_space(c: char) -> (r: bool)
    ensures
        r == is_white(c),
{
    ('\u{9}' <= c && c <= '\u{d}') || c == '\u{20}' || c == '\u{85}' || c == '\u{a0}' || c
        == '\u{1680}' || ('\u{2000}' <= c && c <= '\u{200a}') || c == '\u{2028}' || c == '\u{2029}'
        || c == '\u{202f}' || c == '\u{205f}' || c == '\u{3000}'
}

/// [`trim`] on slices.
pub fn trimmed(s: &[char]) -> (r: &[char])
    ensures
        r@ == trim(s@),
{
    let mut i: usize = 0;
    assert(s@.skip(0) =~= s@);
    while i < s.len() && white_space(s[i])
        invariant
            i <= s@.len(),
            strip_start(s@, white()) == strip_start(s@.skip(i as int), white()),
        decreases s@.len() - i,
    {
        assert(s@.skip(i as int).drop_first() =~= s@.skip(i + 1));
        i = i + 1;
    }
    let rest = slice_subrange(s, i, s.len());
    assert(rest@ =~= s@.skip(i as int));
    let mut n: usize = rest.len();
    assert(rest@.take(n as int) =~= rest@);
    while n > 0 && white_space(rest[n - 1])
        invariant
            n <= rest@.len(),
            strip_end(rest@, white()) == strip_end(rest@.take(n as int), white()),
        decreases n,
    {
        assert(rest@.take(n as int).drop_last() =~= rest@.take(n - 1));
        n = n - 1;
    }
    let r = slice_subrange(rest, 0, n);
    assert(r@ =~= rest@.take(n as int));
    r
}

/// `s` without its leading dots.
pub fn without_leading_dots(s: &[char]) -> (r: &[char])
    ensures
        r@ == strip_start(s@, dot()),
{
    let mut i: usize = 0;
    assert(s@.skip(0) =~= s@);
    while i < s.len() && s[i] == '.'
        invariant
            i <= s@.len(),
            strip_start(s@, dot()) == strip_start(s@.skip(i as int), dot()),
        decreases s@.len() - i,
    {
        assert(s@.skip(i as int).drop_first() =~= s@.skip(i + 1));
        i = i + 1;
    }
    let r = slice_subrange(s, i, s.len());
    assert(r@ =~= s@.skip(i as int));
    r
}

/// `s` without its trailing dots.
pub fn without_trailing_dots(s: &[char]) -> (r: &[char])
    ensures
        r@ == strip_end(s@, dot()),
{
    let mut n: usize = s.len();
    assert(s@.take(n as int) =~= s@);
    while n > 0 && s[n - 1] == '.'
        invariant
            n <= s@.len(),
            strip_end(s@, dot()) == strip_end(s@.take(n as int), dot()),
        decreases n,
    {
        assert(s@.take(n as int).drop_last() =~= s@.take(n - 1));
        n = n - 1;
    }
    let r = slice_subrange(s, 0, n);
    assert(r@ =~= s@.take(n as int));
    r
}

// ------------------------------------------------------------------- UTF-8

/// Two texts with the same UTF-8 bytes are equal.
pub proof fn lemma_utf8_injective(a: Seq<char>, b: Seq<char>)
    requires
        encode_utf8(a) == encode_utf8(b),
    ensures
        a == b,
{
    vstd::utf8::encode_utf8_decode_utf8(a);
    vstd::utf8::encode_utf8_decode_utf8(b);
}

// -------------------------------------------------------------- ASCII case

/// `c` with `A`..`Z` mapped to `a`..`z`.
pub open spec fn lower_char(c: char) -> char {
    if 'A' <= c <= 'Z' {
        (c as u32 + 32) as char
    } else {
        c
    }
}

/// `s` with `A`..`Z` mapped to `a`..`z`.
pub open spec fn lower(s: Seq<char>) -> Seq<char> {
    s.map_values(|c: char| lower_char(c))
}

/// Every character of `s` is ASCII.
pub open spec fn ascii(s: Seq<char>) -> bool {
    forall|i: int| 0 <= i < s.len() ==> #[trigger] s[i] <= '\x7f'
}

/// [`lower_char`] of one character.
pub fn lowered_char(c: char) -> (r: char)
    ensures
        r == lower_char(c),
{
    if 'A' <= c && c <= 'Z' {
        let code: u8 = c as u8;
        (code + 32) as char
    } else {
        c
    }
}

/// [`lower`] on slices.
pub fn lowered(s: &[char]) -> (r: Vec<char>)
    ensures
        r@ == lower(s@),
{
    let mut r: Vec<char> = Vec::new();
    for i in 0..s.len()
        invariant
            r@ == lower(s@.take(i as int)),
    {
        r.push(lowered_char(s[i]));
        assert(r@ =~= lower(s@.take(i + 1)));
    }
    assert(s@.take(s@.len() as int) =~= s@);
    r
}

/// Equality up to ASCII case.
pub fn same_ignoring_case(a: &str, b: &str) -> (r: bool)
    ensures
        r == (lower(a@) == lower(b@)),
{
    let x = lowered(chars(a).as_slice());
    let y = lowered(chars(b).as_slice());
    same_chars(x.as_slice(), y.as_slice())
}

// -------------------------------------------------------------------- laws

/// White space around a text is left out, as much as there is, and nothing of a text
/// that neither starts nor ends with it.
pub proof fn white_space_around_is_left_out(s: Seq<char>, c: char)
    ensures
        s.len() > 0 && !is_white(s[0]) && !is_white(s.last()) ==> trim(s) == s,
        c == ' ' || c == '\t' || c == '\r' || c == '\n' ==> trim(seq![c] + s) == trim(s) && trim(
            s.push(c),
        ) == trim(s),
        trim(Seq::empty()) == Seq::<char>::empty(),
{
    if c == ' ' || c == '\t' || c == '\r' || c == '\n' {
        assert(white().contains(c));
        assert((seq![c] + s).drop_first() =~= s);
        lemma_strip_start_push(s, c);
        let a = strip_start(s, white());
        if a.len() > 0 {
            assert(a.push(c).drop_last() =~= a);
        }
    }
}

proof fn lemma_strip_start_push(s: Seq<char>, c: char)
    requires
        white().contains(c),
    ensures
        strip_start(s.push(c), white()) == if strip_start(s, white()).len() == 0 {
            Seq::empty()
        } else {
            strip_start(s, white()).push(c)
        },
    decreases s.len(),
{
    if s.len() == 0 {
        assert(s.push(c).drop_first() =~= Seq::<char>::empty());
        assert(strip_start(s.push(c), white()) == strip_start(
            s.push(c).drop_first(),
            white(),
        ));
    } else if white().contains(s[0]) {
        lemma_strip_start_push(s.drop_first(), c);
        assert(s.push(c).drop_first() =~= s.drop_first().push(c));
    }
}

/// The capital letters of ASCII become small, and every other character stays.
pub proof fn capitals_become_small(c: char)
    ensures
        lower("ABCDEFGHIJKLMNOPQRSTUVWXYZ"@) == "abcdefghijklmnopqrstuvwxyz"@,
        !('A' <= c <= 'Z') ==> lower(seq![c]) == seq![c],
{
    reveal_strlit("ABCDEFGHIJKLMNOPQRSTUVWXYZ");
    reveal_strlit("abcdefghijklmnopqrstuvwxyz");
    assert(lower("ABCDEFGHIJKLMNOPQRSTUVWXYZ"@) =~= "abcdefghijklmnopqrstuvwxyz"@);
    if !('A' <= c <= 'Z') {
        assert(lower(seq![c]) =~= seq![c]);
    }
}

/// The case of one part of a text does not depend on the other.
pub proof fn case_is_by_character(a: Seq<char>, b: Seq<char>)
    ensures
        lower(a + b) == lower(a) + lower(b),
        lower(a).len() == a.len(),
{
    assert(lower(a + b) =~= lower(a) + lower(b));
}

} // verus!
