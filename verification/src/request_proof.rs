//! The per-request proof: an ECDSA P-256 signature binding one request to the
//! cleared client's keypair.
//!
//! The client signs the ASCII message `"<method> <path> <ts>"` with the private
//! key whose public half is in the clearance token. The server reconstructs the
//! message, checks the timestamp is within `skew` of now (so a captured proof
//! can't be replayed later), and verifies the signature against that public key.
//!
//! Signature encoding is the fixed 64-byte `r || s` produced by WebCrypto's
//! `ECDSA` with `SHA-256`, which is exactly what `p256` verifies.

use crate::number::{decimal, decimal_i64, decimal_injective, lemma_decimal_lacks};
use crate::text::{
    lemma_rsplit_once_joined, lemma_split_once_joined, lemma_utf8_injective, rsplit_once,
    split_once,
};
use p256::ecdsa::signature::Verifier;
use p256::ecdsa::{Signature, VerifyingKey};
use vstd::prelude::*;
use vstd::string::StringExecFns;
use vstd::utf8::encode_utf8;

verus! {

/// The text that is signed for a request.
pub open spec fn message_text(method: Seq<char>, path: Seq<char>, ts: i64) -> Seq<char> {
    (method.push(' ') + path).push(' ') + decimal(ts as int)
}

/// Whether `p256` reads `pk` as a SEC1 public key and `sig` as a signature, and
/// the signature on `msg` verifies under the key.
pub uninterp spec fn p256_accepts(pk: Seq<u8>, msg: Seq<u8>, sig: Seq<u8>) -> bool;

/// `VerifyingKey::from_sec1_bytes`, `Signature::from_slice` and `Verifier::verify`
/// of `p256`: whether all three succeed, a function of the three byte strings. A
/// SEC1 point has 33 or 65 bytes and a signature has 64; nothing else passes.
#[verifier::external_body]
fn p256_verify(pk: &[u8], msg: &[u8], sig: &[u8]) -> (r: bool)
    ensures
        r == p256_accepts(pk@, msg@, sig@),
        r ==> pk@.len() == 33 || pk@.len() == 65,
        r ==> sig@.len() == 64,
{
    let Ok(key) = VerifyingKey::from_sec1_bytes(pk) else {
        return false;
    };
    let Ok(signature) = Signature::from_slice(sig) else {
        return false;
    };
    key.verify(msg, &signature).is_ok()
}

/// The signed message for `(method, path, ts)`.
pub fn message(method: &str, path: &str, ts: i64) -> (s: String)
    ensures
        s@ == message_text(method@, path@, ts),
{
    let mut s = method.to_owned();
    s.push(' ');
    s.append(path);
    s.push(' ');
    s.append(decimal_i64(ts).as_str());
    s
}

/// The distance between two times, in seconds.
pub open spec fn distance(a: i64, b: i64) -> int {
    if a >= b {
        a - b
    } else {
        b - a
    }
}

/// Is `ts` no further than `skew` from `now`?
pub fn fresh(ts: i64, now: i64, skew: i64) -> (r: bool)
    ensures
        r == (distance(now, ts) <= skew),
{
    let apart: i128 = if now >= ts {
        now as i128 - ts as i128
    } else {
        ts as i128 - now as i128
    };
    apart <= skew as i128
}

/// A proof counts when its time is fresh and its signature verifies.
pub open spec fn proven(
    pk: Seq<u8>,
    method: Seq<char>,
    path: Seq<char>,
    ts: i64,
    sig: Seq<u8>,
    now: i64,
    skew: i64,
) -> bool {
    &&& distance(now, ts) <= skew
    &&& p256_accepts(pk, encode_utf8(message_text(method, path, ts)), sig)
}

/// Verify a per-request proof.
///
/// * `pk_sec1`: the client public key from the clearance token (raw SEC1 bytes).
/// * `sig`: the 64-byte `r || s` signature.
/// * `skew`: max allowed `|now - ts|`, seconds.
pub fn verify(
    pk_sec1: &[u8],
    method: &str,
    path: &str,
    ts: i64,
    sig: &[u8],
    now: i64,
    skew: i64,
) -> (r: bool)
    ensures
        r == proven(pk_sec1@, method@, path@, ts, sig@, now, skew),
        r ==> pk_sec1@.len() == 33 || pk_sec1@.len() == 65,
        r ==> sig@.len() == 64,
{
    if !fresh(ts, now, skew) {
        return false;
    }
    p256_verify(pk_sec1, message(method, path, ts).as_str().as_bytes(), sig)
}

// -------------------------------------------------------------------- laws

/// The signed message determines the request: two requests whose methods hold no
/// space and whose messages are the same have the same method, path and time.
pub proof fn message_binds_the_request(
    method1: Seq<char>,
    path1: Seq<char>,
    ts1: i64,
    method2: Seq<char>,
    path2: Seq<char>,
    ts2: i64,
)
    requires
        !method1.contains(' '),
        !method2.contains(' '),
        encode_utf8(message_text(method1, path1, ts1)) == encode_utf8(
            message_text(method2, path2, ts2),
        ),
    ensures
        method1 == method2,
        path1 == path2,
        ts1 == ts2,
{
    let a = message_text(method1, path1, ts1);
    let b = message_text(method2, path2, ts2);
    lemma_utf8_injective(a, b);
    lemma_decimal_lacks(ts1 as int, ' ');
    lemma_decimal_lacks(ts2 as int, ' ');
    let h1 = method1.push(' ') + path1;
    let h2 = method2.push(' ') + path2;
    lemma_rsplit_once_joined(h1, ' ', decimal(ts1 as int));
    lemma_rsplit_once_joined(h2, ' ', decimal(ts2 as int));
    assert(rsplit_once(a, ' ') == rsplit_once(b, ' '));
    lemma_split_once_joined(method1, ' ', path1);
    lemma_split_once_joined(method2, ' ', path2);
    assert(split_once(h1, ' ') == split_once(h2, ' '));
    decimal_injective(ts1 as int, ts2 as int);
}

/// A captured proof is worthless once `skew` seconds have passed.
pub proof fn proofs_go_stale(
    pk: Seq<u8>,
    method: Seq<char>,
    path: Seq<char>,
    ts: i64,
    sig: Seq<u8>,
    now: i64,
    skew: i64,
)
    requires
        now > ts + skew || now < ts - skew,
    ensures
        !proven(pk, method, path, ts, sig, now, skew),
{
}

/// What is signed is the method, the path and the time in decimal, with a space
/// between them; a proof counts exactly when the times are no further apart than the
/// skew and the signature on that text verifies.
pub proof fn proofs_are_signatures_on_the_request(
    pk: Seq<u8>,
    method: Seq<char>,
    path: Seq<char>,
    ts: i64,
    sig: Seq<u8>,
    now: i64,
    skew: i64,
)
    ensures
        message_text(method, path, ts) == method + " "@ + path + " "@ + decimal(ts as int),
        proven(pk, method, path, ts, sig, now, skew) <==> -skew <= now - ts <= skew
            && p256_accepts(
            pk,
            encode_utf8(method + " "@ + path + " "@ + decimal(ts as int)),
            sig,
        ),
{
    reveal_strlit(" ");
    assert(message_text(method, path, ts) =~= method + " "@ + path + " "@ + decimal(ts as int));
}

} // verus!
