//! The clearance token: proof a client already solved a challenge.
//!
//! Format (a cookie value):
//!
//! ```text
//!   <payload_b64> "." <tag_b64>
//!   payload_b64 = base64url(JSON{ pk, iat, exp })
//!   tag_b64     = base64url(HMAC-SHA256(key, payload_b64))
//! ```
//!
//! `pk` is the client's public key (base64url SEC1) so the per-request
//! [`crate::request_proof`] can be checked against it. The HMAC makes the token
//! unforgeable; verification is constant-time and enforces expiry.

use crate::codec::{all_b64url, b64url, b64url_bytes, b64url_text, lemma_b64url_lacks, lemma_b64url_printable, unb64url};
use crate::json::{
    field_texts, json_string, member, object, record_of, write_object, written_members_are_read_back,
    Field, Record,
};
use crate::mac::{ct_eq, hmac, hmac_tag};
use crate::number::decimal;
use crate::text::{chars, cut, lemma_split_once_joined, split_once, string};
use vstd::prelude::*;
use vstd::string::StringExecFns;
use vstd::utf8::encode_utf8;

verus! {

/// Decoded clearance payload.
#[derive(Debug, Clone, PartialEq, Eq)]
pub struct Clearance {
    /// Client public key, base64url SEC1 (uncompressed): binds the token to a key.
    pub pk: String,
    /// Issued-at, unix seconds.
    pub iat: i64,
    /// Expiry, unix seconds (`iat + clearance_ttl`).
    pub exp: i64,
}

/// What a [`Clearance`] says.
pub struct ClearanceView {
    pub pk: Seq<char>,
    pub iat: int,
    pub exp: int,
}

impl View for Clearance {
    type V = ClearanceView;

    open spec fn view(&self) -> ClearanceView {
        ClearanceView { pk: self.pk@, iat: self.iat as int, exp: self.exp as int }
    }
}

// ------------------------------------------------------------------ format

/// The payload of a clearance as JSON.
pub open spec fn payload_json(c: ClearanceView) -> Seq<char> {
    object(
        seq![
            member("pk"@, json_string(c.pk)),
            member("iat"@, decimal(c.iat)),
            member("exp"@, decimal(c.exp)),
        ],
    )
}

/// The clearance that a JSON document holds, if it has the three fields.
pub open spec fn payload_of(doc: Seq<u8>) -> Option<ClearanceView> {
    match record_of(doc, 3) {
        Some(r) => match (r.text("pk"@, 0), r.signed("iat"@, 1), r.signed("exp"@, 2)) {
            (Some(pk), Some(iat), Some(exp)) => Some(
                ClearanceView { pk, iat: iat as int, exp: exp as int },
            ),
            _ => None,
        },
        None => None,
    }
}

/// A payload text under its tag.
pub open spec fn sealed(key: Seq<u8>, payload: Seq<char>) -> Seq<char> {
    payload.push('.') + b64url_text(hmac_tag(key, encode_utf8(payload)))
}

/// The clearance for a public key, valid for `ttl` seconds from `iat`.
pub open spec fn granted(pk_sec1: Seq<u8>, iat: int, ttl: int) -> ClearanceView {
    ClearanceView { pk: b64url_text(pk_sec1), iat, exp: iat + ttl }
}

/// The token that carries `c` under `key`.
pub open spec fn token_for(key: Seq<u8>, c: ClearanceView) -> Seq<char> {
    sealed(key, b64url_text(encode_utf8(payload_json(c))))
}

/// The text under the tag of a token: what stands before the first dot.
pub open spec fn signed_text(token: Seq<char>) -> Option<Seq<char>> {
    match split_once(token, '.') {
        Some((payload, _)) => Some(payload),
        None => None,
    }
}

/// The payload of an authentic token, whether expired or not: the tag is that of
/// the payload text under `key`, and the text decodes to a clearance.
pub open spec fn authentic(key: Seq<u8>, token: Seq<char>) -> Option<ClearanceView> {
    match split_once(token, '.') {
        None => None,
        Some((payload, tag)) => if b64url_bytes(tag) == Some(
            hmac_tag(key, encode_utf8(payload)),
        ) {
            match b64url_bytes(payload) {
                None => None,
                Some(doc) => payload_of(doc),
            }
        } else {
            None
        },
    }
}

/// What verifying a token yields: the payload of an authentic token whose expiry
/// is still in the future.
pub open spec fn verified(key: Seq<u8>, token: Seq<char>, now: int) -> Option<ClearanceView> {
    match authentic(key, token) {
        Some(c) if now < c.exp => Some(c),
        _ => None,
    }
}

// --------------------------------------------------------------- functions

impl Clearance {
    /// Raw SEC1 public-key bytes, for [`crate::request_proof::verify`].
    pub fn pk_bytes(&self) -> (r: Option<Vec<u8>>)
        ensures
            match (r, b64url_bytes(self.pk@)) {
                (None, None) => true,
                (Some(a), Some(b)) => a@ == b,
                _ => false,
            },
    {
        unb64url(self.pk.as_str())
    }
}

/// Mint a clearance token for `pk_sec1` (raw SEC1 public key bytes).
///
/// Until it expires, the token verifies under the same key to the clearance it
/// was minted for, whose key decodes to `pk_sec1`; from then on it is refused.
pub fn issue(key: &[u8], pk_sec1: &[u8], iat: i64, ttl: i64) -> (token: String)
    requires
        i64::MIN <= iat + ttl <= i64::MAX,
    ensures
        token@ == token_for(key@, granted(pk_sec1@, iat as int, ttl as int)),
        authentic(key@, token@) == Some(granted(pk_sec1@, iat as int, ttl as int)),
        b64url_bytes(b64url_text(pk_sec1@)) == Some(pk_sec1@),
        signed_text(token@) matches Some(p) && all_b64url(p),
{
    proof {
        reveal_strlit("pk");
        reveal_strlit("iat");
        reveal_strlit("exp");
        assert("pk"@.len() != "iat"@.len());
        assert("iat"@[0] != "exp"@[0]);
    }
    let pk = b64url(pk_sec1);
    proof {
        lemma_b64url_printable(pk@);
    }
    let members = [Field::Text("pk", pk.as_str()), Field::Int("iat", iat), Field::Int(
        "exp",
        iat + ttl,
    )];
    let doc = write_object(&members);
    proof {
        assert(field_texts(members@) =~= seq![
            members@[0].text(),
            members@[1].text(),
            members@[2].text(),
        ]);
        let d = encode_utf8(doc@);
        written_members_are_read_back(d, members@, 3, 0, 0);
        written_members_are_read_back(d, members@, 3, 1, 1);
        written_members_are_read_back(d, members@, 3, 2, 2);
    }
    let payload = b64url(doc.as_str().as_bytes());
    let tag = b64url(&hmac(key, payload.as_str().as_bytes()));
    let mut token = payload.as_str().to_owned();
    token.push('.');
    token.append(tag.as_str());
    proof {
        lemma_b64url_lacks(payload@, '.');
        lemma_split_once_joined(payload@, '.', tag@);
    }
    token
}

/// The clearance that a JSON document holds, if it has the three fields.
pub fn read_payload(doc: &[u8]) -> (r: Option<Clearance>)
    ensures
        match (r, payload_of(doc@)) {
            (None, None) => true,
            (Some(a), Some(b)) => a@ == b,
            _ => false,
        },
{
    let r = match Record::read(doc, 3) {
        Some(r) => r,
        None => return None,
    };
    let pk = match r.text("pk", 0) {
        Some(pk) => pk,
        None => return None,
    };
    let iat = match r.signed("iat", 1) {
        Some(iat) => iat,
        None => return None,
    };
    let exp = match r.signed("exp", 2) {
        Some(exp) => exp,
        None => return None,
    };
    Some(Clearance { pk, iat, exp })
}

/// An authentic payload counts only while its expiry is in the future.
pub fn unexpired(payload: Clearance, now: i64) -> (r: Option<Clearance>)
    ensures
        r == (if now < payload.exp { Some(payload) } else { None }),
{
    if payload.exp <= now {
        return None;
    }
    Some(payload)
}

/// Verify a clearance token. Returns the payload only when the HMAC is authentic
/// (constant-time) and `exp` is still in the future. What was signed is then
/// base64url, and so never the signed text of another kind of token.
pub fn verify(key: &[u8], token: &str, now: i64) -> (r: Option<Clearance>)
    ensures
        match (r, verified(key@, token@, now as int)) {
            (None, None) => true,
            (Some(a), Some(b)) => a@ == b,
            _ => false,
        },
        r is Some ==> (signed_text(token@) matches Some(p) && all_b64url(p)),
{
    let all = chars(token);
    let (payload, tag) = match cut(all.as_slice(), '.') {
        Some((p, t)) => (string(p), string(t)),
        None => return None,
    };
    let expected = hmac(key, payload.as_str().as_bytes());
    let provided = match unb64url(tag.as_str()) {
        Some(b) => b,
        None => return None,
    };
    if !ct_eq(&expected, provided.as_slice()) {
        return None;
    }
    let doc = match unb64url(payload.as_str()) {
        Some(d) => d,
        None => return None,
    };
    match read_payload(doc.as_slice()) {
        Some(c) => unexpired(c, now),
        None => None,
    }
}

// -------------------------------------------------------------------- laws

/// A minted clearance is valid from the start until it expires, and from then on
/// it is refused.
pub proof fn clearances_last_for_their_lifetime(
    key: Seq<u8>,
    token: Seq<char>,
    pk_sec1: Seq<u8>,
    iat: int,
    ttl: int,
    now: int,
)
    requires
        authentic(key, token) == Some(granted(pk_sec1, iat, ttl)),
    ensures
        verified(key, token, now) == (if now < iat + ttl {
            Some(granted(pk_sec1, iat, ttl))
        } else {
            None
        }),
{
}

/// An accepted token carries the HMAC of its own text under the key: a changed
/// text needs a tag of its own.
pub proof fn accepted_tokens_are_signed(key: Seq<u8>, token: Seq<char>, now: int)
    requires
        verified(key, token, now) is Some,
    ensures
        split_once(token, '.') matches Some((payload, tag)) && b64url_bytes(tag) == Some(
            hmac_tag(key, encode_utf8(payload)),
        ),
{
}

/// A token is accepted exactly when what stands behind its first dot decodes to the
/// HMAC of what stands before it, that text decodes to a clearance, and the clearance
/// expires later than now; what is handed back is that clearance.
pub proof fn tokens_are_accepted_exactly(
    key: Seq<u8>,
    payload: Seq<char>,
    tag: Seq<char>,
    now: int,
    c: ClearanceView,
)
    requires
        !payload.contains('.'),
    ensures
        verified(key, payload + "."@ + tag, now) == Some(c) <==> (b64url_bytes(tag) == Some(
            hmac_tag(key, encode_utf8(payload)),
        ) && (b64url_bytes(payload) matches Some(doc) && payload_of(doc) == Some(c)) && now
            < c.exp),
{
    reveal_strlit(".");
    assert(payload + "."@ + tag =~= payload.push('.') + tag);
    lemma_split_once_joined(payload, '.', tag);
}

/// A text without a dot is no token.
pub proof fn tokens_have_two_parts(key: Seq<u8>, token: Seq<char>, now: int)
    requires
        !token.contains('.'),
    ensures
        verified(key, token, now) is None,
{
}

/// A clearance is for the key it was minted for, and lasts from then for its lifetime.
pub proof fn clearances_hold_their_key_and_lifetime(pk_sec1: Seq<u8>, iat: int, ttl: int)
    ensures
        granted(pk_sec1, iat, ttl).pk == b64url_text(pk_sec1),
        granted(pk_sec1, iat, ttl).iat == iat,
        granted(pk_sec1, iat, ttl).exp == iat + ttl,
{
}

/// A clearance is read field by field: a record in which each of the three fields is
/// given once, with a value of its kind, is the clearance of just these values.
pub proof fn payloads_are_read_by_field(
    doc: Seq<u8>,
    r: crate::json::RecordView,
    pk: Seq<char>,
    iat: i64,
    exp: i64,
)
    requires
        record_of(doc, 3) == Some(r),
        r.text("pk"@, 0) == Some(pk),
        r.signed("iat"@, 1) == Some(iat),
        r.signed("exp"@, 2) == Some(exp),
    ensures
        payload_of(doc) == Some(ClearanceView { pk, iat: iat as int, exp: exp as int }),
{
}

} // verus!
