//! Byte strings: joining, searching, and ASCII case.

use vstd::prelude::*;

verus! {

/// Append `more` to `out`.
pub fn append_bytes(out: &mut Vec<u8>, more: &[u8])
    ensures
        final(out)@ == old(out)@ + more@,
{
    assert(out@ =~= old(out)@ + more@.take(0));
    for i in 0..more.len()
        invariant
            out@ == old(out)@ + more@.take(i as int),
    {
        out.push(more[i]);
        assert(out@ =~= old(out)@ + more@.take(i + 1));
    }
    assert(more@.take(more@.len() as int) =~= more@);
}

/// A copy of `b`.
pub fn copy(b: &[u8]) -> (r: Vec<u8>)
    ensures
        r@ == b@,
{
    let mut r: Vec<u8> = Vec::new();
    append_bytes(&mut r, b);
    assert(r@ =~= b@);
    r
}

/// `b` with `A`..`Z` mapped to `a`..`z`.
pub open spec fn lower_byte(b: u8) -> u8 {
    if 0x41 <= b <= 0x5a {
        (b + 0x20) as u8
    } else {
        b
    }
}

/// [`lower_byte`] of one byte.
pub fn lowered_byte(b: u8) -> (r: u8)
    ensures
        r == lower_byte(b),
{
    if 0x41 <= b && b <= 0x5a {
        b + 0x20
    } else {
        b
    }
}

/// `needle` stands at position `i` of `s`, up to ASCII case.
pub open spec fn matches_at(s: Seq<u8>, needle: Seq<u8>, i: int) -> bool {
    &&& 0 <= i <= s.len() - needle.len()
    &&& forall|k: int|
        0 <= k < needle.len() ==> lower_byte(#[trigger] s[i + k]) == lower_byte(needle[k])
}

/// `i` is the last position at which `needle` stands.
pub open spec fn is_last_match(s: Seq<u8>, needle: Seq<u8>, i: int) -> bool {
    matches_at(s, needle, i) && forall|j: int| i < j ==> !matches_at(s, needle, j)
}

/// The last position at which `needle` stands, up to ASCII case; an empty needle
/// stands nowhere.
pub open spec fn last_match(s: Seq<u8>, needle: Seq<u8>) -> Option<int> {
    if needle.len() > 0 && exists|i: int| is_last_match(s, needle, i) {
        Some(choose|i: int| is_last_match(s, needle, i))
    } else {
        None
    }
}

fn stands_at(s: &[u8], needle: &[u8], i: usize) -> (r: bool)
    requires
        i + needle@.len() <= s@.len(),
    ensures
        r == matches_at(s@, needle@, i as int),
{
    let n: usize = s.len();
    for k in 0..needle.len()
        invariant
            n == s@.len(),
            i + needle@.len() <= n,
            forall|j: int|
                0 <= j < k ==> lower_byte(#[trigger] s@[i + j]) == lower_byte(needle@[j]),
    {
        if lowered_byte(s[i + k]) != lowered_byte(needle[k]) {
            assert(lower_byte(s@[i + k]) != lower_byte(needle@[k as int]));
            return false;
        }
    }
    true
}

/// [`last_match`] by search from the end.
pub fn rfind_ci(haystack: &[u8], needle: &[u8]) -> (r: Option<usize>)
    ensures
        match (r, last_match(haystack@, needle@)) {
            (None, None) => true,
            (Some(a), Some(b)) => a == b && a <= haystack@.len(),
            _ => false,
        },
{
    if needle.len() == 0 || haystack.len() < needle.len() {
        return None;
    }
    let mut i: usize = haystack.len() - needle.len();
    loop
        invariant
            0 < needle@.len() <= haystack@.len(),
            i <= haystack@.len() - needle@.len(),
            forall|j: int| i < j ==> !matches_at(haystack@, needle@, j),
        decreases i,
    {
        if stands_at(haystack, needle, i) {
            proof {
                assert(is_last_match(haystack@, needle@, i as int));
                let k = choose|k: int| is_last_match(haystack@, needle@, k);
                assert(k == i) by {
                    if k < i {
                        assert(matches_at(haystack@, needle@, i as int));
                    }
                }
            }
            return Some(i);
        }
        if i == 0 {
            assert(!exists|k: int| is_last_match(haystack@, needle@, k)) by {
                if exists|k: int| is_last_match(haystack@, needle@, k) {
                    let k = choose|k: int| is_last_match(haystack@, needle@, k);
                    assert(matches_at(haystack@, needle@, k));
                }
            }
            return None;
        }
        i = i - 1;
    }
}

// -------------------------------------------------------------------- laws

/// The capital letters of ASCII become small, and every other byte stays.
pub proof fn capital_bytes_become_small(b: u8)
    ensures
        0x41 <= b <= 0x5a ==> lower_byte(b) == b + 0x20,
        b < 0x41 || b > 0x5a ==> lower_byte(b) == b,
{
}

/// The last match is a match, no match follows it, and there is one wherever there is
/// any.
pub proof fn the_last_match_is_found(s: Seq<u8>, needle: Seq<u8>, i: int)
    requires
        needle.len() > 0,
        matches_at(s, needle, i),
    ensures
        last_match(s, needle) matches Some(k) && matches_at(s, needle, k) && i <= k && forall|j: int|
            k < j ==> !matches_at(s, needle, j),
    decreases s.len() - i,
{
    if exists|j: int| i < j && matches_at(s, needle, j) {
        let j = choose|j: int| i < j && matches_at(s, needle, j);
        the_last_match_is_found(s, needle, j);
    } else {
        assert(is_last_match(s, needle, i));
    }
}

} // verus!
