//! Decimal numbers as text: how an integer is written, and which texts are read
//! back as one.

use vstd::prelude::*;
use vstd::slice::slice_subrange;

verus! {

// ----------------------------------------------------------------- writing

/// The digit for `d`, where `d < 10`.
pub open spec fn digit_char(d: nat) -> char {
    ('0' as u32 + d) as char
}

/// `n` in decimal, without leading zeros.
pub open spec fn digits(n: nat) -> Seq<char>
    decreases n,
{
    if n < 10 {
        seq![digit_char(n)]
    } else {
        digits(n / 10).push(digit_char(n % 10))
    }
}

/// `n` in decimal, with a `-` in front of a negative one.
pub open spec fn decimal(n: int) -> Seq<char> {
    if n < 0 {
        seq!['-'] + digits((-n) as nat)
    } else {
        digits(n as nat)
    }
}

fn push_digits(out: &mut String, n: u64)
    ensures
        final(out)@ == old(out)@ + digits(n as nat),
    decreases n,
{
    if n >= 10 {
        push_digits(out, n / 10);
    }
    let d: u8 = (n % 10) as u8;
    out.push((48 + d) as char);
    assert(out@ =~= old(out)@ + digits(n as nat));
}

/// `n` in decimal.
pub fn decimal_u64(n: u64) -> (s: String)
    ensures
        s@ == decimal(n as int),
{
    let mut s = String::new();
    push_digits(&mut s, n);
    assert(s@ =~= digits(n as nat));
    s
}

/// `n` in decimal.
pub fn decimal_i64(n: i64) -> (s: String)
    ensures
        s@ == decimal(n as int),
{
    let mut s = String::new();
    if n < 0 {
        s.push('-');
        let magnitude: u64 = (-(n as i128)) as u64;
        push_digits(&mut s, magnitude);
        assert(s@ =~= decimal(n as int));
    } else {
        push_digits(&mut s, n as u64);
        assert(s@ =~= decimal(n as int));
    }
    s
}

// ----------------------------------------------------------------- reading

/// `c` is an ASCII digit.
pub open spec fn is_digit(c: char) -> bool {
    '0' <= c <= '9'
}

/// `s` is one digit or more, and nothing else.
pub open spec fn all_digits(s: Seq<char>) -> bool {
    s.len() > 0 && forall|i: int| 0 <= i < s.len() ==> is_digit(#[trigger] s[i])
}

/// The number that a run of digits denotes.
pub open spec fn number(s: Seq<char>) -> nat
    decreases s.len(),
{
    if s.len() == 0 {
        0
    } else {
        number(s.drop_last()) * 10 + (s.last() as u32 - '0' as u32) as nat
    }
}

/// `s` without one leading `+`.
pub open spec fn without_plus(s: Seq<char>) -> Seq<char> {
    if s.len() > 0 && s[0] == '+' {
        s.skip(1)
    } else {
        s
    }
}

/// The number that `s` denotes, if it is a run of digits, with a `+` in front or
/// not, and no greater than `max`.
pub open spec fn unsigned_number(s: Seq<char>, max: nat) -> Option<nat> {
    let body = without_plus(s);
    if all_digits(body) && number(body) <= max {
        Some(number(body))
    } else {
        None
    }
}

/// The number that `s` denotes, if it is a run of digits, with a sign in front or
/// not, within the range of `i64`.
pub open spec fn signed_number(s: Seq<char>) -> Option<int> {
    if s.len() > 0 && s[0] == '-' {
        let body = s.skip(1);
        if all_digits(body) && number(body) <= 0x8000_0000_0000_0000 {
            Some(-number(body))
        } else {
            None
        }
    } else {
        match unsigned_number(s, 0x7fff_ffff_ffff_ffff) {
            Some(n) => Some(n as int),
            None => None,
        }
    }
}

/// A longer run of digits denotes no smaller a number.
proof fn lemma_number_grows(s: Seq<char>, k: int)
    requires
        forall|i: int| 0 <= i < s.len() ==> is_digit(#[trigger] s[i]),
        0 <= k <= s.len(),
    ensures
        number(s.take(k)) <= number(s),
    decreases s.len(),
{
    if k == s.len() {
        assert(s.take(k) =~= s);
    } else {
        let t = s.drop_last();
        assert forall|i: int| 0 <= i < t.len() implies is_digit(#[trigger] t[i]) by {
            assert(t[i] == s[i]);
        }
        lemma_number_grows(t, k);
        assert(t.take(k) =~= s.take(k));
        assert(is_digit(s[s.len() - 1]));
    }
}

/// The value of a run of digits, if it is one and no greater than `max`.
fn read_digits(s: &[char], max: u64) -> (r: Option<u64>)
    ensures
        match r {
            Some(n) => all_digits(s@) && n == number(s@) && n <= max,
            None => !(all_digits(s@) && number(s@) <= max),
        },
{
    if s.len() == 0 {
        return None;
    }
    let mut n: u64 = 0;
    let mut i: usize = 0;
    assert(s@.take(0) =~= Seq::<char>::empty());
    while i < s.len()
        invariant
            i <= s@.len(),
            n == number(s@.take(i as int)),
            n <= max,
            forall|j: int| 0 <= j < i ==> is_digit(#[trigger] s@[j]),
        decreases s@.len() - i,
    {
        let c = s[i];
        if c < '0' || c > '9' {
            assert(!is_digit(s@[i as int]));
            return None;
        }
        let d: u64 = (c as u32 - 48) as u64;
        assert(s@.take(i + 1).drop_last() =~= s@.take(i as int));
        assert(number(s@.take(i + 1)) == n * 10 + d);
        let wide: u128 = n as u128 * 10 + d as u128;
        if wide > max as u128 {
            proof {
                if all_digits(s@) {
                    lemma_number_grows(s@, i + 1);
                }
            }
            return None;
        }
        n = wide as u64;
        i = i + 1;
    }
    assert(s@.take(i as int) =~= s@);
    Some(n)
}

/// [`unsigned_number`] on slices.
pub fn read_unsigned(s: &[char], max: u64) -> (r: Option<u64>)
    ensures
        match (r, unsigned_number(s@, max as nat)) {
            (None, None) => true,
            (Some(a), Some(b)) => a == b,
            _ => false,
        },
{
    if s.len() > 0 && s[0] == '+' {
        let body = slice_subrange(s, 1, s.len());
        assert(body@ =~= s@.skip(1));
        read_digits(body, max)
    } else {
        read_digits(s, max)
    }
}

/// [`signed_number`] on slices.
pub fn read_signed(s: &[char]) -> (r: Option<i64>)
    ensures
        match (r, signed_number(s@)) {
            (None, None) => true,
            (Some(a), Some(b)) => a == b,
            _ => false,
        },
{
    if s.len() > 0 && s[0] == '-' {
        let body = slice_subrange(s, 1, s.len());
        assert(body@ =~= s@.skip(1));
        match read_digits(body, 0x8000_0000_0000_0000) {
            Some(n) => Some((-(n as i128)) as i64),
            None => None,
        }
    } else {
        match read_unsigned(s, 0x7fff_ffff_ffff_ffff) {
            Some(n) => Some(n as i64),
            None => None,
        }
    }
}

// -------------------------------------------------------------------- laws

/// What is written in digits is read back.
pub proof fn digits_read_back(n: nat)
    ensures
        all_digits(digits(n)),
        number(digits(n)) == n,
    decreases n,
{
    if n < 10 {
        let s = digits(n);
        assert(s.drop_last() =~= Seq::<char>::empty());
        assert(number(s.drop_last()) == 0);
        assert(s.last() as u32 == '0' as u32 + n);
    } else {
        digits_read_back(n / 10);
        let s = digits(n);
        let h = digits(n / 10);
        assert(s.drop_last() =~= h);
        assert(s.last() as u32 == '0' as u32 + n % 10);
        assert forall|i: int| 0 <= i < s.len() implies is_digit(#[trigger] s[i]) by {
            if i < h.len() {
                assert(s[i] == h[i]);
            }
        }
    }
}

/// Every `u64` is read back from its decimal text.
pub proof fn unsigned_read_back(n: u64)
    ensures
        unsigned_number(decimal(n as int), u64::MAX as nat) == Some(n as nat),
{
    digits_read_back(n as nat);
    assert(is_digit(digits(n as nat)[0]));
}

/// Every `i64` is read back from its decimal text.
pub proof fn signed_read_back(n: i64)
    ensures
        signed_number(decimal(n as int)) == Some(n as int),
{
    if n < 0 {
        digits_read_back((-n) as nat);
        assert(decimal(n as int).skip(1) =~= digits((-n) as nat));
    } else {
        digits_read_back(n as nat);
        assert(is_digit(digits(n as nat)[0]));
    }
}

/// Two integers with one decimal text are equal.
pub proof fn decimal_injective(a: int, b: int)
    requires
        decimal(a) == decimal(b),
    ensures
        a == b,
{
    let x: nat = if a < 0 { (-a) as nat } else { a as nat };
    let y: nat = if b < 0 { (-b) as nat } else { b as nat };
    digits_read_back(x);
    digits_read_back(y);
    assert(is_digit(digits(x)[0]));
    assert(is_digit(digits(y)[0]));
    if a < 0 {
        assert(decimal(a)[0] == '-');
        assert(decimal(a).skip(1) =~= digits(x));
        assert(decimal(b).skip(1) =~= digits(y));
    }
}

/// A decimal text is a `-` or nothing, then digits.
pub proof fn decimal_chars(n: int)
    ensures
        decimal(n).len() > 0,
        forall|i: int|
            0 <= i < decimal(n).len() ==> is_digit(#[trigger] decimal(n)[i]) || decimal(n)[i] == '-',
{
    let x: nat = if n < 0 { (-n) as nat } else { n as nat };
    digits_read_back(x);
    if n < 0 {
        assert forall|i: int| 0 <= i < decimal(n).len() implies is_digit(#[trigger] decimal(n)[i])
            || decimal(n)[i] == '-' by {
            if i > 0 {
                assert(decimal(n)[i] == digits(x)[i - 1]);
            }
        }
    }
}

/// A decimal text holds no character but digits and `-`.
pub proof fn lemma_decimal_lacks(n: int, c: char)
    requires
        !is_digit(c),
        c != '-',
    ensures
        !decimal(n).contains(c),
{
    decimal_chars(n);
    if decimal(n).contains(c) {
        let i = choose|i: int| 0 <= i < decimal(n).len() && decimal(n)[i] == c;
        assert(is_digit(decimal(n)[i]) || decimal(n)[i] == '-');
    }
}

/// What is read as a number: digits alone, one at least, with a `+` in front or not,
/// leading zeros or not, and no more than the greatest that is asked for.
pub proof fn numbers_are_digits(n: nat, max: nat, s: Seq<char>, i: int)
    ensures
        unsigned_number(digits(n), max) == (if n <= max {
            Some(n)
        } else {
            None
        }),
        unsigned_number(seq!['+'] + digits(n), max) == unsigned_number(digits(n), max),
        all_digits(s) ==> unsigned_number(seq!['0'] + s, max) == unsigned_number(s, max),
        unsigned_number(Seq::empty(), max) is None,
        0 < i < s.len() && !('0' <= s[i] <= '9') ==> unsigned_number(s, max) is None,
{
    digits_read_back(n);
    assert(is_digit(digits(n)[0]));
    assert((seq!['+'] + digits(n)).skip(1) =~= digits(n));
    if all_digits(s) {
        let t = seq!['0'] + s;
        assert(is_digit(s[0]));
        assert forall|j: int| 0 <= j < t.len() implies is_digit(#[trigger] t[j]) by {
            if j > 0 {
                assert(t[j] == s[j - 1]);
            }
        }
        lemma_leading_zero(s);
    }
    if 0 < i < s.len() && !('0' <= s[i] <= '9') {
        if s[0] == '+' {
            assert(s.skip(1)[i - 1] == s[i]);
            assert(!is_digit(s.skip(1)[i - 1]));
        } else {
            assert(!is_digit(s[i]));
        }
    }
}

proof fn lemma_leading_zero(s: Seq<char>)
    ensures
        number(seq!['0'] + s) == number(s),
    decreases s.len(),
{
    let t = seq!['0'] + s;
    if s.len() == 0 {
        assert(t.drop_last() =~= Seq::<char>::empty());
        assert(number(t.drop_last()) == 0);
        assert(t.last() == '0');
    } else {
        assert(t.drop_last() =~= seq!['0'] + s.drop_last());
        assert(t.last() == s.last());
        lemma_leading_zero(s.drop_last());
    }
}

/// A decimal text is built digit by digit.
pub proof fn decimals_are_built_by_digit(n: nat, d: nat)
    requires
        d < 10,
    ensures
        digits(d) == seq![digit_char(d)],
        n > 0 ==> digits(n * 10 + d) == digits(n).push(digit_char(d)),
        n > 0 ==> decimal(-(n as int)) == seq!['-'] + decimal(n as int),
        digit_char(0) == '0',
        digit_char(9) == '9',
{
    if n > 0 {
        assert((n * 10 + d) / 10 == n);
        assert((n * 10 + d) % 10 == d);
    }
}

} // verus!
