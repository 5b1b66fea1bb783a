//! Clearance validation: the cookie and the optional per-request proof of a
//! request.

use crate::clearance::{authentic, granted, verified, verify, Clearance};
use crate::codec::{b64url_bytes, unb64url};
use crate::number::{decimal, lemma_decimal_lacks, read_signed, signed_number, signed_read_back};
use crate::request_proof::{p256_accepts, proven, verify as verify_proof};
use crate::server::response::fields;
use crate::server::runtime::{cookie, cookie_value, header, header_value, Cfg, Request};
use crate::text::{
    chars, lemma_rsplit_once_joined, lower, rcut, rsplit_once, same_ignoring_case, string,
};
use vstd::prelude::*;
use vstd::utf8::encode_utf8;

verus! {

/// The request was issued by page script, which alone can attach a header field.
pub open spec fn from_script(headers: Seq<(Seq<char>, Seq<char>)>) -> bool {
    match header_value(headers, "sec-fetch-dest"@) {
        Some(dest) => lower(dest) == lower("empty"@),
        None => false,
    }
}

/// Could this request have attached the `X-Pow-Proof` header?
///
/// Only requests issued by page JavaScript (`fetch()` and XHR) can carry a custom
/// header. Browsers mark exactly those with `Sec-Fetch-Dest: empty`; every other
/// destination (`document`, `script`, `style`, `image`, `font`, ...) is a
/// navigation or a tag-driven subresource load with no way to add one. Note
/// `Sec-Fetch-Mode` is *not* a usable signal here: fonts, module scripts and
/// preloads are `mode: cors` yet still cannot carry headers.
///
/// A request with **no** Sec-Fetch metadata (older browsers, non-browser agents)
/// is treated as unable to carry a proof, so it passes on the cookie alone.
pub fn can_carry_proof(headers: &[(String, String)]) -> (r: bool)
    ensures
        r == from_script(fields(headers@)),
{
    match header(headers, "sec-fetch-dest") {
        Some(dest) => same_ignoring_case(dest.as_str(), "empty"),
        None => false,
    }
}

/// The signature and the time of an `X-Pow-Proof` field.
pub open spec fn proof_parts(h: Seq<char>) -> Option<(Seq<u8>, int)> {
    match rsplit_once(h, '.') {
        Some((sig, ts)) => match (b64url_bytes(sig), signed_number(ts)) {
            (Some(s), Some(t)) => Some((s, t)),
            _ => None,
        },
        None => None,
    }
}

/// Parse `X-Pow-Proof: <base64url-sig>.<unix-ts>`.
pub fn parse_proof(h: &str) -> (r: Option<(Vec<u8>, i64)>)
    ensures
        match (r, proof_parts(h@)) {
            (None, None) => true,
            (Some((sig, ts)), Some((s, t))) => sig@ == s && ts == t,
            _ => false,
        },
{
    let all = chars(h);
    let (sig_text, ts_text) = match rcut(all.as_slice(), '.') {
        Some(x) => x,
        None => return None,
    };
    let sig = match unb64url(string(sig_text).as_str()) {
        Some(sig) => sig,
        None => return None,
    };
    match read_signed(ts_text) {
        Some(ts) => Some((sig, ts)),
        None => None,
    }
}

/// The proof requirement is met by a request whose clearance holds `pk`.
pub open spec fn proof_met(
    pk: Seq<char>,
    headers: Seq<(Seq<char>, Seq<char>)>,
    method: Seq<char>,
    path: Seq<char>,
    require_proof: bool,
    now: i64,
    skew: i64,
) -> bool {
    match header_value(headers, "x-pow-proof"@) {
        Some(h) => match (b64url_bytes(pk), proof_parts(h)) {
            (Some(key), Some((sig, ts))) => proven(key, method, path, ts as i64, sig, now, skew),
            _ => false,
        },
        None => !require_proof || !from_script(headers),
    }
}

/// The request carries a valid clearance.
pub open spec fn cleared(req: Request, cfg: Cfg, now: i64) -> bool {
    let headers = fields(req.headers@);
    cfg.key_ok && match cookie_value(headers, cfg.cookie.name@) {
        Some(token) => match verified(cfg.key@, token, now as int) {
            Some(c) => proof_met(
                c.pk,
                headers,
                req.method@,
                req.uri@,
                cfg.require_proof,
                now,
                cfg.proof_skew,
            ),
            None => false,
        },
        None => false,
    }
}

/// Is the proof requirement met, given the clearance that the cookie carries?
///
/// * A present `X-Pow-Proof` header is always verified against the cookie-bound
///   key within `proof_skew`; a present-but-bad proof fails closed.
/// * An absent proof is accepted unless `pow_gate_require_proof` is on *and* the
///   request is one that could have carried the header ([`can_carry_proof`]).
pub fn has_required_proof(clearance: &Clearance, req: &Request, cfg: &Cfg, now: i64) -> (r: bool)
    ensures
        r == proof_met(
            clearance.pk@,
            fields(req.headers@),
            req.method@,
            req.uri@,
            cfg.require_proof,
            now,
            cfg.proof_skew,
        ),
        r && header_value(fields(req.headers@), "x-pow-proof"@) is Some ==> (b64url_bytes(
            clearance.pk@,
        ) matches Some(key) && (key.len() == 33 || key.len() == 65)),
{
    match header(req.headers.as_slice(), "x-pow-proof") {
        Some(proof_header) => {
            let pk = match clearance.pk_bytes() {
                Some(pk) => pk,
                None => return false,
            };
            let (sig, ts) = match parse_proof(proof_header.as_str()) {
                Some(x) => x,
                None => return false,
            };
            verify_proof(
                pk.as_slice(),
                req.method.as_str(),
                req.uri.as_str(),
                ts,
                sig.as_slice(),
                now,
                cfg.proof_skew,
            )
        },
        None => !cfg.require_proof || !can_carry_proof(req.headers.as_slice()),
    }
}

/// Validate the clearance cookie and the per-request proof: `true` iff the
/// cookie's HMAC verifies and it is unexpired, *and* the proof requirement is met.
///
/// Without a usable key no cookie is ever trusted: the client is challenged.
pub fn has_valid_clearance(req: &Request, cfg: &Cfg, now: i64) -> (r: bool)
    ensures
        r == cleared(*req, *cfg, now),
{
    if !cfg.key_ok {
        return false;
    }
    let token = match cookie(req.headers.as_slice(), cfg.cookie.name.as_str()) {
        Some(c) => c,
        None => return false,
    };
    match verify(cfg.key.as_slice(), token.as_str(), now) {
        Some(c) => has_required_proof(&c, req, cfg, now),
        None => false,
    }
}

// -------------------------------------------------------------------- laws

/// Without a proof the cookie alone is enough, unless proofs are required and the
/// request came from page script: navigations and the loads that tags issue, which
/// cannot carry one, always pass on the cookie.
pub proof fn only_scripts_owe_a_proof(
    pk: Seq<char>,
    headers: Seq<(Seq<char>, Seq<char>)>,
    method: Seq<char>,
    path: Seq<char>,
    require_proof: bool,
    now: i64,
    skew: i64,
)
    requires
        header_value(headers, "x-pow-proof"@) is None,
    ensures
        proof_met(pk, headers, method, path, require_proof, now, skew) == !(require_proof
            && from_script(headers)),
{
}

/// A proof that is present counts, required or not: a bad one is refused.
pub proof fn a_bad_proof_is_never_ignored(
    pk: Seq<char>,
    headers: Seq<(Seq<char>, Seq<char>)>,
    method: Seq<char>,
    path: Seq<char>,
    require_proof: bool,
    now: i64,
    skew: i64,
)
    requires
        proof_met(pk, headers, method, path, require_proof, now, skew),
        header_value(headers, "x-pow-proof"@) is Some,
    ensures
        b64url_bytes(pk) is Some,
        proof_parts(header_value(headers, "x-pow-proof"@)->0) matches Some((sig, ts))
            && now - skew <= ts <= now + skew,
{
}

/// Without a usable key nobody is cleared, whatever cookie is sent.
pub proof fn no_key_clears_nobody(req: Request, cfg: Cfg, now: i64)
    requires
        !cfg.key_ok,
    ensures
        !cleared(req, cfg, now),
{
}

/// A clearance opens the way while it lasts: a request with the cookie, and
/// without a proof that it does not owe, passes.
pub proof fn cleared_clients_pass(
    req: Request,
    cfg: Cfg,
    token: Seq<char>,
    pk_sec1: Seq<u8>,
    iat: int,
    ttl: int,
    now: i64,
)
    requires
        cfg.key_ok,
        authentic(cfg.key@, token) == Some(granted(pk_sec1, iat, ttl)),
        cookie_value(fields(req.headers@), cfg.cookie.name@) == Some(token),
        header_value(fields(req.headers@), "x-pow-proof"@) is None,
        !cfg.require_proof || !from_script(fields(req.headers@)),
    ensures
        cleared(req, cfg, now) == (now < iat + ttl),
{
}

/// A proof is a signature on the request's own method, its own path and the time of
/// the proof, with a space between them, under the key in the clearance; it counts
/// for as long as the clocks are no further apart than the skew. For every method
/// and every path, required or not.
pub proof fn proofs_sign_the_request(
    pk: Seq<char>,
    headers: Seq<(Seq<char>, Seq<char>)>,
    method: Seq<char>,
    path: Seq<char>,
    require_proof: bool,
    now: i64,
    skew: i64,
    key: Seq<u8>,
    sig: Seq<u8>,
    ts: i64,
)
    requires
        b64url_bytes(pk) == Some(key),
        header_value(headers, "x-pow-proof"@) matches Some(h) && proof_parts(h) == Some(
            (sig, ts as int),
        ),
    ensures
        proof_met(pk, headers, method, path, require_proof, now, skew) == (-skew <= now - ts <= skew
            && p256_accepts(
            key,
            encode_utf8(method + " "@ + path + " "@ + decimal(ts as int)),
            sig,
        )),
{
    reveal_strlit(" ");
    assert(" "@ =~= seq![' ']);
    assert(method + " "@ + path + " "@ + decimal(ts as int) =~= (method.push(' ') + path).push(' ')
        + decimal(ts as int));
}

/// A proof that cannot be read, or that comes with a clearance without a key, is
/// refused.
pub proof fn unreadable_proofs_are_refused(
    pk: Seq<char>,
    headers: Seq<(Seq<char>, Seq<char>)>,
    method: Seq<char>,
    path: Seq<char>,
    require_proof: bool,
    now: i64,
    skew: i64,
)
    requires
        header_value(headers, "x-pow-proof"@) matches Some(h) && (proof_parts(h) is None
            || b64url_bytes(pk) is None),
    ensures
        !proof_met(pk, headers, method, path, require_proof, now, skew),
{
}

/// A proof field is a signature in base64url, a dot and a time: every pair of the two
/// is read back from it.
pub proof fn proof_fields_are_read_back(sig_text: Seq<char>, sig: Seq<u8>, ts: i64)
    requires
        b64url_bytes(sig_text) == Some(sig),
    ensures
        proof_parts(sig_text + "."@ + decimal(ts as int)) == Some((sig, ts as int)),
{
    reveal_strlit(".");
    lemma_decimal_lacks(ts as int, '.');
    lemma_rsplit_once_joined(sig_text, '.', decimal(ts as int));
    assert(sig_text + "."@ + decimal(ts as int) =~= sig_text.push('.') + decimal(ts as int));
    signed_read_back(ts);
}

/// A request is cleared exactly when a key is usable, the cookie of the configured
/// name carries an authentic token that has not expired, and the proof requirement is
/// met for the public key in that token, at the request's own method and path.
pub proof fn clearance_takes_a_token_and_a_proof(req: Request, cfg: Cfg, now: i64)
    ensures
        cleared(req, cfg, now) <==> (cfg.key_ok && (cookie_value(
            fields(req.headers@),
            cfg.cookie.name@,
        ) matches Some(token) && (authentic(cfg.key@, token) matches Some(c) && now < c.exp
            && proof_met(
            c.pk,
            fields(req.headers@),
            req.method@,
            req.uri@,
            cfg.require_proof,
            now,
            cfg.proof_skew,
        )))),
{
}

/// A request is taken to come from page script exactly when its `Sec-Fetch-Dest`
/// says `empty`, in any case.
pub proof fn scripts_are_known_by_their_destination(headers: Seq<(Seq<char>, Seq<char>)>)
    ensures
        from_script(headers) <==> (header_value(headers, "sec-fetch-dest"@) matches Some(dest)
            && lower(dest) == "empty"@),
{
    reveal_strlit("empty");
    assert(lower("empty"@) =~= "empty"@);
}

} // verus!
