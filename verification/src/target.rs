//! Difficulty to target, and the big-endian comparison the PoW check uses.
//!
//! A solution is valid when `SHA-256(salt || nonce) < target`, where
//! `target = floor(2^256 / difficulty)`. So a larger `difficulty` yields a
//! smaller target, meaning fewer of the 2^256 possible hashes qualify, meaning
//! the client must try about `difficulty` of them on average. The browser
//! computes the identical target from the same `difficulty`, so both sides agree
//! on success.

use crate::number::{decimal, decimal_u64};
use sha2::{Digest, Sha256};
use vstd::arithmetic::power2::{lemma2_to64, lemma_pow2_adds, lemma_pow2_pos, pow2};
use vstd::prelude::*;
use vstd::utf8::encode_utf8;

verus! {

// -------------------------------------------------------------- big-endian

/// The number that `s` denotes in base 256, most significant byte first.
pub open spec fn be_value(s: Seq<u8>) -> nat
    decreases s.len(),
{
    if s.len() == 0 {
        0
    } else {
        be_value(s.drop_last()) * 256 + s.last() as nat
    }
}

/// Of two byte strings of one length, the one with the smaller byte at the first
/// difference denotes the smaller number.
proof fn lemma_be_first_difference(a: Seq<u8>, b: Seq<u8>, i: int)
    requires
        a.len() == b.len(),
        0 <= i < a.len(),
        a.take(i) == b.take(i),
        a[i] < b[i],
    ensures
        be_value(a) < be_value(b),
    decreases a.len(),
{
    if i == a.len() - 1 {
        assert(a.drop_last() =~= a.take(i));
        assert(b.drop_last() =~= b.take(i));
    } else {
        let x = a.drop_last();
        let y = b.drop_last();
        assert(x.take(i) =~= a.take(i));
        assert(y.take(i) =~= b.take(i));
        lemma_be_first_difference(x, y, i);
    }
}

/// A leading zero byte changes nothing.
proof fn lemma_be_leading_zero(s: Seq<u8>)
    requires
        s.len() > 0,
        s[0] == 0,
    ensures
        be_value(s) == be_value(s.skip(1)),
    decreases s.len(),
{
    if s.len() == 1 {
        assert(s.drop_last() =~= Seq::<u8>::empty());
        assert(s.skip(1) =~= Seq::<u8>::empty());
        assert(be_value(s.drop_last()) == 0);
        assert(be_value(s.skip(1)) == 0);
    } else {
        lemma_be_leading_zero(s.drop_last());
        assert(s.drop_last().skip(1) =~= s.skip(1).drop_last());
    }
}

/// A one followed by `k` zero bytes denotes `2^(8 k)`.
proof fn lemma_be_one_and_zeros(s: Seq<u8>)
    requires
        s.len() > 0,
        s[0] == 1,
        forall|i: int| 1 <= i < s.len() ==> s[i] == 0,
    ensures
        be_value(s) == pow2((8 * (s.len() - 1)) as nat),
    decreases s.len(),
{
    lemma2_to64();
    if s.len() == 1 {
        assert(s.drop_last() =~= Seq::<u8>::empty());
        assert(be_value(s.drop_last()) == 0);
    } else {
        lemma_be_one_and_zeros(s.drop_last());
        lemma_pow2_adds((8 * (s.len() - 2)) as nat, 8);
    }
}

/// Thirty-two bytes of ones denote `2^256 - 1`; `k` of them, `2^(8 k) - 1`.
proof fn lemma_be_ones(s: Seq<u8>)
    requires
        forall|i: int| 0 <= i < s.len() ==> s[i] == 0xff,
    ensures
        be_value(s) == pow2(8 * s.len()) - 1,
    decreases s.len(),
{
    lemma2_to64();
    if s.len() > 0 {
        lemma_be_ones(s.drop_last());
        lemma_pow2_adds((8 * (s.len() - 1)) as nat, 8);
    }
}

/// No byte string denotes as much as `2^(8 len)`.
pub proof fn lemma_be_bound(s: Seq<u8>)
    ensures
        be_value(s) < pow2(8 * s.len()),
    decreases s.len(),
{
    lemma2_to64();
    if s.len() > 0 {
        lemma_be_bound(s.drop_last());
        lemma_pow2_adds((8 * (s.len() - 1)) as nat, 8);
    }
}

// ------------------------------------------------------------------ target

/// The target for `difficulty`: `floor(2^256 / difficulty)`, and the greatest
/// 256-bit number for a difficulty of one or less.
pub open spec fn target_value(difficulty: u64) -> nat {
    if difficulty <= 1 {
        (pow2(256) - 1) as nat
    } else {
        pow2(256) / difficulty as nat
    }
}

/// One step of long division in base 256.
proof fn lemma_division_step(n: nat, q: nat, r: nat, d: nat, byte: nat)
    requires
        d > 0,
        n == q * d + r,
        r < d,
        byte < 256,
    ensures
        n * 256 + byte == (q * 256 + (r * 256 + byte) / d) * d + (r * 256 + byte) % d,
        (r * 256 + byte) / d < 256,
        (r * 256 + byte) % d < d,
{
    let cur = r * 256 + byte;
    vstd::arithmetic::div_mod::lemma_fundamental_div_mod(cur as int, d as int);
    vstd::arithmetic::div_mod::lemma_mod_bound(cur as int, d as int);
    let k = cur / d;
    assert(k < 256) by (nonlinear_arith)
        requires
            cur == d * k + cur % d,
            cur % d >= 0,
            cur < 256 * d,
            d > 0,
    ;
    assert((q * 256 + k) * d + cur % d == (q * d) * 256 + (d * k + cur % d)) by (nonlinear_arith);
}

/// Only one quotient leaves a remainder below the divisor.
proof fn lemma_quotient(n: nat, q: nat, r: nat, d: nat)
    requires
        d > 0,
        n == q * d + r,
        r < d,
    ensures
        q == n / d,
{
    vstd::arithmetic::div_mod::lemma_fundamental_div_mod_converse(
        n as int,
        d as int,
        q as int,
        r as int,
    );
}

/// `target = floor(2^256 / difficulty)` as a 256-bit big-endian array.
///
/// `difficulty <= 1` returns the maximum target, and every hash passes
/// ([`digest_solves`]): a useful "effectively off" value. The division is exact long division base 256 over the 33-byte
/// numerator `2^256` (`0x01` followed by 32 zero bytes).
pub fn difficulty_to_target(difficulty: u64) -> (target: [u8; 32])
    ensures
        be_value(target@) == target_value(difficulty),
{
    if difficulty <= 1 {
        let ones = [0xffu8; 32];
        proof {
            lemma_be_ones(ones@);
        }
        return ones;
    }
    // Numerator 2^256 = one leading 1 byte then 32 zero bytes (33 digits base 256).
    let mut numerator = [0u8; 33];
    numerator[0] = 1;
    proof {
        lemma_be_one_and_zeros(numerator@);
    }

    let d: u128 = difficulty as u128;
    let mut quotient = [0u8; 33];
    let mut remainder: u128 = 0;
    let mut i: usize = 0;
    assert(numerator@.take(0) =~= Seq::<u8>::empty());
    assert(quotient@.take(0) =~= Seq::<u8>::empty());
    assert(be_value(numerator@.take(0)) == 0);
    assert(be_value(quotient@.take(0)) == 0);
    while i < 33
        invariant
            i <= 33,
            d == difficulty,
            d >= 2,
            remainder < d,
            numerator@.len() == 33,
            quotient@.len() == 33,
            numerator@[0] == 1,
            forall|j: int| 1 <= j < 33 ==> numerator@[j] == 0,
            i == 0 ==> remainder == 0,
            i > 0 ==> quotient@[0] == 0,
            be_value(numerator@.take(i as int)) == be_value(quotient@.take(i as int)) * (d as nat)
                + remainder,
        decreases 33 - i,
    {
        let ghost q0 = quotient@;
        let cur: u128 = remainder * 256 + numerator[i] as u128;
        proof {
            lemma_division_step(
                be_value(numerator@.take(i as int)),
                be_value(q0.take(i as int)),
                remainder as nat,
                d as nat,
                numerator@[i as int] as nat,
            );
            if i == 0 {
                vstd::arithmetic::div_mod::lemma_basic_div(cur as int, d as int);
            }
        }
        quotient[i] = (cur / d) as u8;
        remainder = cur % d;
        proof {
            assert(numerator@.take(i + 1).drop_last() =~= numerator@.take(i as int));
            assert(quotient@.take(i + 1).drop_last() =~= q0.take(i as int));
        }
        i = i + 1;
    }
    assert(numerator@.take(33) =~= numerator@);
    assert(quotient@.take(33) =~= quotient@);
    proof {
        lemma_quotient(be_value(numerator@), be_value(quotient@), remainder as nat, d as nat);
        lemma_be_leading_zero(quotient@);
    }

    // For difficulty >= 2 the result fits in 256 bits, so quotient[0] == 0.
    let mut target = [0u8; 32];
    let mut k: usize = 0;
    while k < 32
        invariant
            k <= 32,
            quotient@.len() == 33,
            target@.len() == 32,
            forall|j: int| 0 <= j < k ==> target@[j] == quotient@[j + 1],
        decreases 32 - k,
    {
        target[k] = quotient[k + 1];
        k = k + 1;
    }
    assert(target@ =~= quotient@.skip(1));
    target
}

/// `true` iff `hash` (big-endian) is strictly less than `target` (big-endian).
pub fn hash_below(hash: &[u8; 32], target: &[u8; 32]) -> (r: bool)
    ensures
        r == (be_value(hash@) < be_value(target@)),
{
    let mut i: usize = 0;
    while i < 32
        invariant
            i <= 32,
            hash@.len() == 32,
            target@.len() == 32,
            hash@.take(i as int) == target@.take(i as int),
        decreases 32 - i,
    {
        if hash[i] != target[i] {
            proof {
                if hash@[i as int] < target@[i as int] {
                    lemma_be_first_difference(hash@, target@, i as int);
                } else {
                    lemma_be_first_difference(target@, hash@, i as int);
                }
            }
            return hash[i] < target[i];
        }
        assert(hash@.take(i + 1) =~= hash@.take(i as int).push(hash@[i as int]));
        assert(target@.take(i + 1) =~= target@.take(i as int).push(target@[i as int]));
        i = i + 1;
    }
    assert(hash@.take(32) =~= hash@);
    assert(target@.take(32) =~= target@);
    false
}

// -------------------------------------------------------------------- hash

/// The SHA-256 digest of `msg`, as the `sha2` crate computes it.
pub uninterp spec fn sha256(msg: Seq<u8>) -> Seq<u8>;

/// `Sha256` of `sha2`, fed `head` and then `tail`: the digest of the two joined,
/// a function of those bytes.
#[verifier::external_body]
fn sha256_of(head: &[u8], tail: &[u8]) -> (digest: [u8; 32])
    ensures
        digest@ == sha256(head@ + tail@),
{
    let mut h = Sha256::new();
    h.update(head);
    h.update(tail);
    h.finalize().into()
}

/// What is hashed for `salt` and `nonce`: the salt, then the nonce in decimal.
pub open spec fn pow_message(salt: Seq<char>, nonce: u64) -> Seq<u8> {
    encode_utf8(salt) + encode_utf8(decimal(nonce as int))
}

/// The PoW hash: `SHA-256(utf8(salt) || utf8(decimal nonce))`.
///
/// Defined over the ASCII forms of `salt` and `nonce` so the browser can compute
/// it byte-for-byte with `TextEncoder` + WebCrypto `SHA-256`.
pub fn pow_hash(salt: &str, nonce: u64) -> (digest: [u8; 32])
    ensures
        digest@ == sha256(pow_message(salt@, nonce)),
{
    let text = decimal_u64(nonce);
    sha256_of(salt.as_bytes(), text.as_str().as_bytes())
}

/// A digest solves a difficulty when it denotes less than the target; at a
/// difficulty of one or less every digest does.
pub open spec fn solves(digest: Seq<u8>, difficulty: u64) -> bool {
    difficulty <= 1 || be_value(digest) < target_value(difficulty)
}

/// `nonce` solves `salt` at `difficulty`.
pub open spec fn is_solution(salt: Seq<char>, nonce: u64, difficulty: u64) -> bool {
    solves(sha256(pow_message(salt, nonce)), difficulty)
}

/// Does `digest` solve `difficulty`?
pub fn digest_solves(digest: &[u8; 32], difficulty: u64) -> (r: bool)
    ensures
        r == solves(digest@, difficulty),
{
    difficulty <= 1 || hash_below(digest, &difficulty_to_target(difficulty))
}

/// `true` iff `nonce` solves `salt` at `difficulty`.
pub fn solution_valid(salt: &str, nonce: u64, difficulty: u64) -> (r: bool)
    ensures
        r == is_solution(salt@, nonce, difficulty),
{
    digest_solves(&pow_hash(salt, nonce), difficulty)
}

// -------------------------------------------------------------------- laws

/// A larger difficulty never has a larger target.
pub proof fn target_shrinks_with_difficulty(easy: u64, hard: u64)
    requires
        easy <= hard,
    ensures
        target_value(hard) <= target_value(easy),
{
    lemma_pow2_pos(256);
    let n = pow2(256) as int;
    if hard >= 2 {
        if easy <= 1 {
            lemma_pow2_adds(255, 1);
            lemma2_to64();
            lemma_pow2_pos(255);
            vstd::arithmetic::div_mod::lemma_div_is_ordered_by_denominator(n, 2, hard as int);
            assert(n / 2 <= n - 1);
        } else {
            vstd::arithmetic::div_mod::lemma_div_is_ordered_by_denominator(
                n,
                easy as int,
                hard as int,
            );
        }
    }
}

/// What solves a difficulty solves every smaller one, so that a solution found
/// for a harder challenge is never worth less than one for an easier.
pub proof fn hard_solutions_are_easy_solutions(digest: Seq<u8>, easy: u64, hard: u64)
    requires
        easy <= hard,
        solves(digest, hard),
    ensures
        solves(digest, easy),
{
    target_shrinks_with_difficulty(easy, hard);
}

/// A digest passes exactly when it denotes less than `2^256 / difficulty`, so that
/// at a difficulty of one, and of none at all, every digest passes.
pub proof fn digests_are_measured_by_the_quotient(digest: Seq<u8>, difficulty: u64)
    requires
        digest.len() == 32,
    ensures
        difficulty >= 1 ==> solves(digest, difficulty) == (be_value(digest) < pow2(256)
            / difficulty as nat),
        difficulty <= 1 ==> solves(digest, difficulty),
{
    lemma_be_bound(digest);
    if difficulty == 1 {
        vstd::arithmetic::div_mod::lemma_div_basics(pow2(256) as int);
    }
}

/// At a difficulty of one or less every nonce solves every salt.
pub proof fn easiest_difficulty_accepts(salt: Seq<char>, nonce: u64, difficulty: u64)
    requires
        difficulty <= 1,
    ensures
        is_solution(salt, nonce, difficulty),
{
}

/// The target is never zero: at every difficulty some digest passes.
pub proof fn every_difficulty_can_be_solved(difficulty: u64)
    ensures
        target_value(difficulty) > 0,
        exists|digest: Seq<u8>| digest.len() == 32 && solves(digest, difficulty),
{
    lemma2_to64();
    lemma_pow2_adds(64, 192);
    lemma_pow2_pos(192);
    let n = pow2(256) as int;
    assert(pow2(64) == 0x1_0000_0000_0000_0000);
    assert(n >= pow2(64) * 1) by (nonlinear_arith)
        requires
            n == pow2(64) * pow2(192),
            pow2(192) >= 1,
            pow2(64) >= 0,
    ;
    if difficulty >= 2 {
        vstd::arithmetic::div_mod::lemma_div_is_ordered(difficulty as int, n, difficulty as int);
        vstd::arithmetic::div_mod::lemma_div_by_self(difficulty as int);
    }
    let zeros = Seq::new(32, |i: int| 0u8);
    lemma_be_zeros(zeros);
    assert(solves(zeros, difficulty));
}

proof fn lemma_be_zeros(s: Seq<u8>)
    requires
        forall|i: int| 0 <= i < s.len() ==> s[i] == 0,
    ensures
        be_value(s) == 0,
    decreases s.len(),
{
    if s.len() > 0 {
        lemma_be_zeros(s.drop_last());
    }
}

/// A nonce solves a salt exactly when the SHA-256 digest of the salt followed by the
/// nonce in decimal denotes less than `2^256 / difficulty`; at a difficulty of one or
/// less every nonce does.
pub proof fn solutions_hash_the_salt_and_the_nonce(salt: Seq<char>, nonce: u64, difficulty: u64)
    ensures
        is_solution(salt, nonce, difficulty) == (difficulty <= 1 || be_value(
            sha256(encode_utf8(salt) + encode_utf8(decimal(nonce as int))),
        ) < pow2(256) / difficulty as nat),
{
}

/// The target is the quotient of `2^256` by the difficulty, rounded down, and all ones
/// for a difficulty of one or less.
pub proof fn targets_are_quotients(difficulty: u64)
    ensures
        difficulty >= 2 ==> target_value(difficulty) * difficulty <= pow2(256) < (target_value(
            difficulty,
        ) + 1) * difficulty,
        difficulty <= 1 ==> target_value(difficulty) + 1 == pow2(256),
{
    lemma_pow2_pos(256);
    if difficulty >= 2 {
        let n = pow2(256) as int;
        let d = difficulty as int;
        vstd::arithmetic::div_mod::lemma_fundamental_div_mod(n, d);
        vstd::arithmetic::div_mod::lemma_mod_bound(n, d);
        let q = n / d;
        assert(q * d <= n < (q + 1) * d) by (nonlinear_arith)
            requires
                n == d * q + n % d,
                0 <= n % d < d,
        ;
    }
}

} // verus!
