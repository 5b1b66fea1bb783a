//! `GET {endpoint}pass`: redeem a no-JS meta-refresh grant.
//!
//! The `challenge:nojs` page meta-refreshes to `{endpoint}pass?t=<grant>` after
//! the grant's delay. The answer depends on the grant:
//!
//!   * waited long enough: mint a clearance (empty pubkey, a no-JS client cannot
//!     sign per-request proofs), `Set-Cookie`, `302` back to the page the client
//!     originally asked for.
//!   * redeemed too early: the no-JS page again with a FRESH grant: the impatient
//!     client starts its wait over.
//!   * forged / expired: `302 /`, which lands back on whatever challenge the
//!     decision assigns.

use crate::clearance::{
    authentic as cleared_by, granted as clearance_granted, issue as issue_clearance,
    token_for as clearance_token, ClearanceView,
};
use crate::nojs::{
    authentic, granted, issue, token_for, verified, verify, GrantView, Verdict, VerdictView,
};
use crate::server::challenge::{html, nojs_page_view, serve_nojs_page};
use crate::server::response::{
    plain, Response, ResponseView, MOVED_TEMPORARILY, SERVICE_UNAVAILABLE,
};
use crate::server::runtime::{
    build_set_cookie, expiry_fits, find_pair, pair_value, same_text, set_cookie_text, Cfg,
};
use crate::text::{chars, pieces, split};
use vstd::prelude::*;
use vstd::string::{StrSliceExecFns, StringExecFns};
use vstd::utf8::encode_utf8;

verus! {

/// Minimal 302 body: a link for agents that don't follow redirects.
pub open spec fn redirect_text(path: Seq<char>) -> Seq<char> {
    "<html><body><a href=\""@ + path + "\">Continue</a></body></html>\n"@
}

/// Minimal 302 body: a link for agents that don't follow redirects. `path` comes
/// out of a verified grant (or is the literal `/`), so it is free of markup.
pub fn redirect_body(path: &str) -> (s: String)
    ensures
        s@ == redirect_text(path@),
{
    let mut s = "<html><body><a href=\"".to_owned();
    s.append(path);
    s.append("\">Continue</a></body></html>\n");
    s
}

/// Value of `name` in a query string (no percent-decoding: grant tokens are
/// base64url + '.', never escaped).
pub fn query_param(args: &str, name: &str) -> (r: Option<String>)
    ensures
        same_text(r, pair_value(split(args@, '&'), name@)),
{
    let all = chars(args);
    let pairs = pieces(all.as_slice(), '&');
    let wanted = chars(name);
    find_pair(pairs.as_slice(), wanted.as_slice())
}

/// The URL that redeems a grant.
pub open spec fn pass_url_text(endpoint: Seq<char>, grant: Seq<char>) -> Seq<char> {
    endpoint + "pass?t="@ + grant
}

/// The URL that redeems a grant.
pub fn pass_url(endpoint: &str, grant: &str) -> (s: String)
    ensures
        s@ == pass_url_text(endpoint@, grant@),
{
    let mut s = endpoint.to_owned();
    s.append("pass?t=");
    s.append(grant);
    s
}

/// The no-JS page with a grant for `path` that was minted at `now`.
pub open spec fn granting_page(
    cfg: Cfg,
    template: Seq<u8>,
    path: Seq<char>,
    delay: int,
    now: int,
) -> ResponseView {
    nojs_page_view(
        template,
        pass_url_text(cfg.endpoint@, token_for(cfg.key@, granted(path, delay, now))),
        delay,
    )
}

/// Serve the no-JS page with a fresh grant for `path`, which is authentic.
pub fn serve_granting_page(cfg: &Cfg, template: &[u8], path: &str, delay: i64, now: i64) -> (r:
    Response)
    ensures
        r@ == granting_page(*cfg, template@, path@, delay as int, now as int),
        authentic(cfg.key@, token_for(cfg.key@, granted(path@, delay as int, now as int))) == Some(
            granted(path@, delay as int, now as int),
        ),
{
    let fresh = issue(cfg.key.as_slice(), path, delay, now);
    let url = pass_url(cfg.endpoint.as_str(), fresh.as_str());
    serve_nojs_page(template, url.as_str(), delay)
}

/// A redirect to `path`.
pub open spec fn redirect(path: Seq<char>) -> ResponseView {
    plain(MOVED_TEMPORARILY, html(), encode_utf8(redirect_text(path))).with("Location"@, path)
}

/// The answer to a grant with a verdict.
pub open spec fn answer_view(v: VerdictView, cfg: Cfg, template: Seq<u8>, now: i64) -> ResponseView {
    match v {
        VerdictView::Accepted(g) => redirect(g.path).with(
            "Set-Cookie"@,
            set_cookie_text(
                clearance_token(
                    cfg.key@,
                    clearance_granted(Seq::empty(), now as int, cfg.clearance_ttl as int),
                ),
                cfg.cookie,
            ),
        ).with("Cache-Control"@, "no-store"@),
        // Fresh grant, wait starts over: the delay cannot be skipped by hammering
        // the pass URL.
        VerdictView::TooEarly(g) => granting_page(cfg, template, g.path, g.delay, now as int),
        VerdictView::Bad => redirect("/"@).with("Cache-Control"@, "no-store"@),
    }
}

/// The grant in a query string; empty, if there is none.
pub open spec fn passed_grant(args: Seq<char>) -> Seq<char> {
    match pair_value(split(args, '&'), "t"@) {
        Some(t) => t,
        None => Seq::empty(),
    }
}

/// The answer to `GET {endpoint}pass` with a query string.
pub open spec fn pass_view(args: Seq<char>, cfg: Cfg, template: Seq<u8>, now: i64) -> ResponseView {
    if !cfg.key_ok {
        plain(SERVICE_UNAVAILABLE, "text/plain"@, encode_utf8("unavailable\n"@))
    } else {
        answer_view(verified(cfg.key@, passed_grant(args), now as int), cfg, template, now)
    }
}

/// A clearance is minted for the grant in a query string.
pub open spec fn pass_mints(args: Seq<char>, cfg: Cfg, now: i64) -> bool {
    cfg.key_ok && verified(cfg.key@, passed_grant(args), now as int) is Accepted
}

/// Answer a grant with a verdict. The clearance that is minted for an accepted one
/// is authentic.
pub fn answer(verdict: Verdict, cfg: &Cfg, template: &[u8], now: i64) -> (r: Response)
    requires
        verdict is Accepted ==> expiry_fits(*cfg, now),
    ensures
        r@ == answer_view(verdict@, *cfg, template@, now),
        verdict is Accepted ==> cleared_by(
            cfg.key@,
            clearance_token(
                cfg.key@,
                clearance_granted(Seq::empty(), now as int, cfg.clearance_ttl as int),
            ),
        ) == Some(clearance_granted(Seq::empty(), now as int, cfg.clearance_ttl as int)),
{
    match verdict {
        Verdict::Accepted(grant) => {
            let empty: Vec<u8> = Vec::new();
            let clearance = issue_clearance(
                cfg.key.as_slice(),
                empty.as_slice(),
                now,
                cfg.clearance_ttl,
            );
            assert(empty@ =~= Seq::empty());
            let set_cookie = build_set_cookie(clearance.as_str(), &cfg.cookie);
            let body = redirect_body(grant.path.as_str());
            Response::new(
                MOVED_TEMPORARILY,
                "text/html; charset=utf-8",
                body.as_str().as_bytes_vec(),
            ).with_header("Location", grant.path.as_str()).with_header(
                "Set-Cookie",
                set_cookie.as_str(),
            ).with_header("Cache-Control", "no-store")
        },
        Verdict::TooEarly(grant) => serve_granting_page(
            cfg,
            template,
            grant.path.as_str(),
            grant.delay,
            now,
        ),
        Verdict::Bad => {
            let body = redirect_body("/");
            Response::new(
                MOVED_TEMPORARILY,
                "text/html; charset=utf-8",
                body.as_str().as_bytes_vec(),
            ).with_header("Location", "/").with_header("Cache-Control", "no-store")
        },
    }
}

/// `GET {endpoint}pass`: redeem the grant in the query string.
///
/// No usable HMAC key: never mint anything.
pub fn pass(args: &str, cfg: &Cfg, template: &[u8], now: i64) -> (r: Response)
    requires
        pass_mints(args@, *cfg, now) ==> expiry_fits(*cfg, now),
    ensures
        r@ == pass_view(args@, *cfg, template@, now),
{
    if !cfg.key_ok {
        return Response::new(
            SERVICE_UNAVAILABLE,
            "text/plain",
            "unavailable\n".as_bytes_vec(),
        );
    }
    let verdict = verify(cfg.key.as_slice(), grant_in(args).as_str(), now);
    answer(verdict, cfg, template, now)
}

/// The grant in a query string; empty, if there is none.
fn grant_in(args: &str) -> (r: String)
    ensures
        r@ == passed_grant(args@),
{
    match query_param(args, "t") {
        Some(t) => t,
        None => {
            let empty = String::new();
            assert(empty@ =~= Seq::empty());
            empty
        },
    }
}

/// [`pass`] for any time and lifetime: `None` where a clearance would be minted whose
/// expiry is out of the range of times.
pub fn pass_in_range(args: &str, cfg: &Cfg, template: &[u8], now: i64) -> (r: Option<Response>)
    ensures
        r matches Some(resp) ==> resp@ == pass_view(args@, *cfg, template@, now),
        r is None == (pass_mints(args@, *cfg, now) && !expiry_fits(*cfg, now)),
{
    if cfg.key_ok && now.checked_add(cfg.clearance_ttl).is_none() {
        if let Verdict::Accepted(_) = verify(cfg.key.as_slice(), grant_in(args).as_str(), now) {
            return None;
        }
    }
    Some(pass(args, cfg, template, now))
}

// -------------------------------------------------------------------- laws

/// The token of a pass URL is found again in its query string.
pub proof fn pass_urls_carry_their_grant(grant: Seq<char>)
    requires
        !grant.contains('&'),
    ensures
        pair_value(split("t="@ + grant, '&'), "t"@) == Some(grant),
{
    reveal_strlit("t=");
    reveal_strlit("t");
    let s = "t="@ + grant;
    assert(!s.contains('&')) by {
        if s.contains('&') {
            let i = choose|i: int| 0 <= i < s.len() && s[i] == '&';
            if i >= 2 {
                assert(grant[i - 2] == '&');
            }
        }
    }
    crate::text::lemma_split_once_shorter(s, '&');
    assert(split(s, '&') =~= seq![s]);
    assert(s =~= "t"@.push('=') + grant);
    assert(!"t"@.contains('='));
    crate::text::lemma_split_once_joined("t"@, '=', grant);
}

/// A cookie is set exactly for a grant that is accepted: neither an early nor a
/// forged or stale one clears anybody.
pub proof fn only_accepted_grants_set_a_cookie(v: VerdictView, cfg: Cfg, template: Seq<u8>, now: i64)
    ensures
        (exists|i: int|
            0 <= i < answer_view(v, cfg, template, now).headers.len() && (
            #[trigger] answer_view(v, cfg, template, now).headers[i]).0 == "Set-Cookie"@)
            == (v is Accepted),
{
    reveal_strlit("Set-Cookie");
    reveal_strlit("Location");
    reveal_strlit("Cache-Control");
    assert("Set-Cookie"@.len() == 10 && "Location"@.len() == 8 && "Cache-Control"@.len() == 13);
    let headers = answer_view(v, cfg, template, now).headers;
    if v is Accepted {
        assert(headers[1].0 == "Set-Cookie"@);
    }
}

/// A grant that is accepted clears the client: it is sent back to the path in the
/// grant, with a clearance without a key for the configured lifetime, in a response
/// that may not be stored.
pub proof fn accepted_grants_clear_the_client(g: GrantView, cfg: Cfg, template: Seq<u8>, now: i64)
    ensures
        ({
            let r = answer_view(VerdictView::Accepted(g), cfg, template, now);
            &&& r.status == 302
            &&& r.headers == seq![
                ("Location"@, g.path),
                (
                    "Set-Cookie"@,
                    set_cookie_text(
                        clearance_token(
                            cfg.key@,
                            (ClearanceView {
                                pk: crate::codec::b64url_text(Seq::empty()),
                                iat: now as int,
                                exp: now + cfg.clearance_ttl,
                            }),
                        ),
                        cfg.cookie,
                    ),
                ),
                ("Cache-Control"@, "no-store"@),
            ]
        }),
{
    let r = answer_view(VerdictView::Accepted(g), cfg, template, now);
    assert(r.headers.len() == 3);
    assert(r.headers =~= seq![
        ("Location"@, g.path),
        (
            "Set-Cookie"@,
            set_cookie_text(
                clearance_token(
                    cfg.key@,
                    clearance_granted(Seq::empty(), now as int, cfg.clearance_ttl as int),
                ),
                cfg.cookie,
            ),
        ),
        ("Cache-Control"@, "no-store"@),
    ]);
}

/// A grant that comes too early starts over: the page again, with a fresh grant for
/// the same path and the same wait, minted now, in a response that may not be stored.
pub proof fn early_grants_start_over(g: GrantView, cfg: Cfg, template: Seq<u8>, now: i64)
    requires
        crate::uri::safe_path(g.path),
    ensures
        answer_view(VerdictView::TooEarly(g), cfg, template, now) == nojs_page_view(
            template,
            cfg.endpoint@ + "pass?t="@ + token_for(
                cfg.key@,
                GrantView { path: g.path, iat: now as int, delay: g.delay },
            ),
            g.delay,
        ),
{
}

/// Any other grant sends the client to the root, without a cookie, in a response that
/// may not be stored.
pub proof fn bad_grants_lead_to_the_root(cfg: Cfg, template: Seq<u8>, now: i64)
    ensures
        ({
            let r = answer_view(VerdictView::Bad, cfg, template, now);
            &&& r.status == 302
            &&& r.headers == seq![("Location"@, "/"@), ("Cache-Control"@, "no-store"@)]
        }),
{
    let r = answer_view(VerdictView::Bad, cfg, template, now);
    assert(r.headers.len() == 2);
    assert(r.headers =~= seq![("Location"@, "/"@), ("Cache-Control"@, "no-store"@)]);
}

/// The grant that is redeemed is the one under `t` in the query string, judged now;
/// where there is none, an empty one is judged. Without a usable key nothing is
/// redeemed.
pub proof fn the_grant_in_the_query_is_redeemed(
    args: Seq<char>,
    cfg: Cfg,
    template: Seq<u8>,
    now: i64,
    grant: Seq<char>,
)
    ensures
        cfg.key_ok && pair_value(split(args, '&'), "t"@) == Some(grant) ==> pass_view(
            args,
            cfg,
            template,
            now,
        ) == answer_view(verified(cfg.key@, grant, now as int), cfg, template, now),
        cfg.key_ok && pair_value(split(args, '&'), "t"@) is None ==> pass_view(
            args,
            cfg,
            template,
            now,
        ) == answer_view(VerdictView::Bad, cfg, template, now),
        !cfg.key_ok ==> pass_view(args, cfg, template, now).status == 503 && pass_view(
            args,
            cfg,
            template,
            now,
        ).headers.len() == 0,
{
    crate::nojs::grants_have_two_parts(cfg.key@, Seq::empty(), now as int);
}

/// The page that grants passage leads to the pass endpoint under the configured
/// prefix, with a grant for the path, minted now with the wait; an unsafe path is
/// replaced by the root.
pub proof fn granting_pages_lead_to_the_pass(
    cfg: Cfg,
    template: Seq<u8>,
    path: Seq<char>,
    delay: int,
    now: int,
)
    ensures
        granting_page(cfg, template, path, delay, now) == nojs_page_view(
            template,
            cfg.endpoint@ + "pass?t="@ + token_for(
                cfg.key@,
                GrantView {
                    path: if crate::uri::safe_path(path) {
                        path
                    } else {
                        "/"@
                    },
                    iat: now,
                    delay,
                },
            ),
            delay,
        ),
{
}

/// A redirect is a page with a link to where it leads.
pub proof fn redirects_link_to_their_path(path: Seq<char>)
    ensures
        redirect(path).status == 302,
        redirect(path).content_type == "text/html; charset=utf-8"@,
        redirect(path).headers == seq![("Location"@, path)],
        redirect(path).body == encode_utf8(
            "<html><body><a href=\""@ + path + "\">Continue</a></body></html>\n"@,
        ),
{
    assert(redirect(path).headers =~= seq![("Location"@, path)]);
}

/// The answer to a grant that is not too early is such a redirect: to the path of the
/// grant where it is accepted, to the root where it is bad.
pub proof fn redeemed_grants_redirect(g: GrantView, cfg: Cfg, template: Seq<u8>, now: i64)
    ensures
        answer_view(VerdictView::Accepted(g), cfg, template, now).body == redirect(g.path).body,
        answer_view(VerdictView::Accepted(g), cfg, template, now).content_type == redirect(
            g.path,
        ).content_type,
        answer_view(VerdictView::Bad, cfg, template, now).body == redirect("/"@).body,
        answer_view(VerdictView::Bad, cfg, template, now).content_type == redirect(
            "/"@,
        ).content_type,
{
}

/// A clearance is minted exactly for a grant that is accepted, under a usable key.
pub proof fn clearances_are_minted_for_accepted_grants(
    args: Seq<char>,
    cfg: Cfg,
    now: i64,
    grant: Seq<char>,
)
    ensures
        pair_value(split(args, '&'), "t"@) == Some(grant) ==> (pass_mints(args, cfg, now)
            <==> cfg.key_ok && verified(cfg.key@, grant, now as int) is Accepted),
        pair_value(split(args, '&'), "t"@) is None ==> !pass_mints(args, cfg, now),
{
    crate::nojs::grants_have_two_parts(cfg.key@, Seq::empty(), now as int);
}

} // verus!
