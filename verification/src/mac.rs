//! HMAC-SHA256 and constant-time comparison, the spine of clearance and
//! challenge integrity.

use hmac::{Hmac, Mac};
use sha2::Sha256;
use subtle::ConstantTimeEq;
use vstd::prelude::*;

verus! {

/// The HMAC-SHA256 tag of `msg` under `key`, as the `hmac` and `sha2` crates
/// compute it.
pub uninterp spec fn hmac_tag(key: Seq<u8>, msg: Seq<u8>) -> Seq<u8>;

/// HMAC-SHA256 of `msg` under `key`: `Hmac::<Sha256>`, which takes a key of any
/// length, so that making it never fails. The tag is a function of the key and
/// the message.
#[verifier::external_body]
pub fn hmac(key: &[u8], msg: &[u8]) -> (tag: [u8; 32])
    ensures
        tag@ == hmac_tag(key@, msg@),
{
    let mut m = Hmac::<Sha256>::new_from_slice(key).expect("HMAC accepts any key length");
    m.update(msg);
    m.finalize().into_bytes().into()
}

/// `ConstantTimeEq::ct_eq` of `subtle` on two byte slices: whether they hold the
/// same bytes. That the time taken does not depend on the contents is no part of
/// the contract.
#[verifier::external_body]
fn subtle_eq(a: &[u8], b: &[u8]) -> (r: bool)
    ensures
        r == (a@ == b@),
{
    a.ct_eq(b).into()
}

/// Constant-time equality. Returns `false` on length mismatch (lengths are not
/// secret here, so an early return is fine).
pub fn ct_eq(a: &[u8], b: &[u8]) -> (r: bool)
    ensures
        r == (a@ == b@),
{
    a.len() == b.len() && subtle_eq(a, b)
}

} // verus!
