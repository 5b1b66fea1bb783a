//! Challenge-page rendering and the internal endpoints.
//!
//! When a client must prove work, it is served an HTML page instead of the
//! upstream's answer. That page loads the solver, which talks to the internal
//! routes under `pow_gate_endpoint` (default `/.pow/`):
//!
//!   GET  {endpoint}challenge  fresh challenge params (difficulty, salt, exp)
//!   GET  {endpoint}solver.js  the proof-of-work + signing client
//!   POST {endpoint}verify     submit solution + pubkey; sets clearance cookie
//!   GET  {endpoint}pass       redeem a no-JS meta-refresh grant
//!
//! The challenge page may be overridden by the operator; the solver is always the
//! one that ships with the module, because it is the client half of the protocol.

use crate::bytes::{append_bytes, copy};
use crate::number::{decimal, decimal_i64, decimal_u64};
use crate::server::response::{plain, Response, ResponseView, SUCCESS};
use crate::text::same;
use vstd::prelude::*;
use vstd::utf8::encode_utf8;

verus! {

// ---------------------------------------------------------------- templates

/// `s` starts with `p`.
pub open spec fn begins(s: Seq<u8>, p: Seq<u8>) -> bool {
    p.len() <= s.len() && s.take(p.len() as int) == p
}

/// `s` with every occurrence of `needle`, from left to right, replaced.
pub open spec fn replaced(s: Seq<u8>, needle: Seq<u8>, with: Seq<u8>) -> Seq<u8>
    decreases s.len(),
{
    if s.len() == 0 {
        Seq::empty()
    } else if needle.len() > 0 && begins(s, needle) {
        with + replaced(s.skip(needle.len() as int), needle, with)
    } else {
        seq![s[0]] + replaced(s.skip(1), needle, with)
    }
}

fn begins_at(s: &[u8], at: usize, p: &[u8]) -> (r: bool)
    requires
        at <= s@.len(),
    ensures
        r == begins(s@.skip(at as int), p@),
{
    let n: usize = s.len();
    if p.len() > n - at {
        return false;
    }
    for k in 0..p.len()
        invariant
            n == s@.len(),
            at + p@.len() <= n,
            forall|j: int| 0 <= j < k ==> s@[at + j] == #[trigger] p@[j],
    {
        if s[at + k] != p[k] {
            assert(s@.skip(at as int).take(p@.len() as int)[k as int] != p@[k as int]);
            return false;
        }
    }
    assert(s@.skip(at as int).take(p@.len() as int) =~= p@);
    true
}

/// Replace every occurrence of `needle` in `haystack` (no overlap handling
/// needed: the placeholders cannot overlap themselves).
pub fn replace_all(haystack: &[u8], needle: &[u8], with: &[u8]) -> (out: Vec<u8>)
    requires
        needle@.len() > 0,
    ensures
        out@ == replaced(haystack@, needle@, with@),
{
    let mut out: Vec<u8> = Vec::new();
    let mut i: usize = 0;
    assert(haystack@.skip(0) =~= haystack@);
    assert(out@ + replaced(haystack@.skip(0), needle@, with@) =~= replaced(
        haystack@,
        needle@,
        with@,
    ));
    while i < haystack.len()
        invariant
            needle@.len() > 0,
            i <= haystack@.len(),
            out@ + replaced(haystack@.skip(i as int), needle@, with@) == replaced(
                haystack@,
                needle@,
                with@,
            ),
        decreases haystack@.len() - i,
    {
        let ghost before = out@;
        let ghost rest = haystack@.skip(i as int);
        if begins_at(haystack, i, needle) {
            append_bytes(&mut out, with);
            assert(rest.skip(needle@.len() as int) =~= haystack@.skip(i + needle@.len()));
            assert(out@ + replaced(rest.skip(needle@.len() as int), needle@, with@) =~= before
                + replaced(rest, needle@, with@));
            i = i + needle.len();
        } else {
            out.push(haystack[i]);
            assert(rest.skip(1) =~= haystack@.skip(i + 1));
            assert(out@ + replaced(rest.skip(1), needle@, with@) =~= before + replaced(
                rest,
                needle@,
                with@,
            ));
            i = i + 1;
        }
    }
    assert(haystack@.skip(i as int) =~= Seq::empty());
    assert(out@ =~= replaced(haystack@, needle@, with@));
    out
}

/// A literal of at least one character has at least one byte.
proof fn lemma_utf8_nonempty(s: Seq<char>)
    requires
        s.len() > 0,
    ensures
        encode_utf8(s).len() > 0,
{
    if encode_utf8(s).len() == 0 {
        assert(encode_utf8(Seq::<char>::empty()) =~= Seq::<u8>::empty());
        assert(encode_utf8(s) =~= encode_utf8(Seq::<char>::empty()));
        crate::text::lemma_utf8_injective(s, Seq::empty());
    }
}

/// A challenge page for a difficulty and an endpoint.
pub open spec fn page_bytes(raw: Seq<u8>, difficulty: u64, endpoint: Seq<char>) -> Seq<u8> {
    replaced(
        replaced(raw, encode_utf8("{{difficulty}}"@), encode_utf8(decimal(difficulty as int))),
        encode_utf8("{{endpoint}}"@),
        encode_utf8(endpoint),
    )
}

/// A no-JS challenge page for a pass URL and a delay.
pub open spec fn nojs_page_bytes(template: Seq<u8>, pass_url: Seq<char>, delay: int) -> Seq<u8> {
    replaced(
        replaced(template, encode_utf8("{{pass_url}}"@), encode_utf8(pass_url)),
        encode_utf8("{{delay}}"@),
        encode_utf8(decimal(delay)),
    )
}

/// Render a challenge page: substitute the `{{difficulty}}` / `{{endpoint}}`
/// placeholders. Done once per location, not per request.
pub fn render_page(raw: &[u8], difficulty: u64, endpoint: &str) -> (out: Vec<u8>)
    ensures
        out@ == page_bytes(raw@, difficulty, endpoint@),
{
    proof {
        reveal_strlit("{{difficulty}}");
        reveal_strlit("{{endpoint}}");
        lemma_utf8_nonempty("{{difficulty}}"@);
        lemma_utf8_nonempty("{{endpoint}}"@);
    }
    let first = replace_all(
        raw,
        "{{difficulty}}".as_bytes(),
        decimal_u64(difficulty).as_str().as_bytes(),
    );
    replace_all(first.as_slice(), "{{endpoint}}".as_bytes(), endpoint.as_bytes())
}

/// Render a no-JS challenge page: substitute the one-shot pass URL and the delay,
/// both of them per request.
pub fn render_nojs_page(template: &[u8], pass_url: &str, delay: i64) -> (out: Vec<u8>)
    ensures
        out@ == nojs_page_bytes(template@, pass_url@, delay as int),
{
    proof {
        reveal_strlit("{{pass_url}}");
        reveal_strlit("{{delay}}");
        lemma_utf8_nonempty("{{pass_url}}"@);
        lemma_utf8_nonempty("{{delay}}"@);
    }
    let first = replace_all(template, "{{pass_url}}".as_bytes(), pass_url.as_bytes());
    replace_all(
        first.as_slice(),
        "{{delay}}".as_bytes(),
        decimal_i64(delay).as_str().as_bytes(),
    )
}

// ---------------------------------------------------------------- responses

/// The media type of an HTML page.
pub open spec fn html() -> Seq<char> {
    "text/html; charset=utf-8"@
}

/// The response that carries a page and may not be stored: the page is bound to
/// one request.
pub open spec fn unstored_page(body: Seq<u8>) -> ResponseView {
    plain(SUCCESS, html(), body).with("Cache-Control"@, "no-store"@)
}

/// The response that carries a no-JS challenge page.
pub open spec fn nojs_page_view(template: Seq<u8>, pass_url: Seq<char>, delay: int) -> ResponseView {
    unstored_page(nojs_page_bytes(template, pass_url, delay))
}

/// Render + serve the no-JS challenge page. `Cache-Control: no-store` because the
/// embedded grant is time-bound and per-request.
pub fn serve_nojs_page(template: &[u8], pass_url: &str, delay: i64) -> (r: Response)
    ensures
        r@ == nojs_page_view(template@, pass_url@, delay as int),
{
    Response::new(
        SUCCESS,
        "text/html; charset=utf-8",
        render_nojs_page(template, pass_url, delay),
    ).with_header("Cache-Control", "no-store")
}

/// Serve the challenge page: `200 OK`, `Content-Type: text/html`, body = `page`.
///
/// The page itself then fetches `{endpoint}challenge`, runs the solver from
/// `{endpoint}solver.js`, POSTs `{endpoint}verify`, and reloads on success.
pub fn serve_challenge_page(page: &[u8]) -> (r: Response)
    ensures
        r@ == plain(SUCCESS, html(), page@),
{
    Response::new(SUCCESS, "text/html; charset=utf-8", copy(page))
}

/// Serve the solver: `200 OK`, `Content-Type: text/javascript`.
pub fn serve_solver(solver_js: &[u8]) -> (r: Response)
    ensures
        r@ == plain(SUCCESS, "text/javascript; charset=utf-8"@, solver_js@),
{
    Response::new(SUCCESS, "text/javascript; charset=utf-8", copy(solver_js))
}

// ------------------------------------------------------------------- routes

/// An internal endpoint.
#[derive(Debug, Clone, Copy, PartialEq, Eq, Structural)]
pub enum Route {
    /// `GET {endpoint}challenge`
    Challenge,
    /// `GET {endpoint}solver.js`
    Solver,
    /// `POST {endpoint}verify`
    Verify,
    /// `GET {endpoint}pass`
    Pass,
}

/// The endpoint that what follows the prefix names.
pub open spec fn route_of(suffix: Seq<char>) -> Option<Route> {
    if suffix == "challenge"@ {
        Some(Route::Challenge)
    } else if suffix == "solver.js"@ {
        Some(Route::Solver)
    } else if suffix == "verify"@ {
        Some(Route::Verify)
    } else if suffix == "pass"@ {
        Some(Route::Pass)
    } else {
        None
    }
}

/// Dispatch a request to `{endpoint}*`: `Some` when it is one of ours, `None`
/// otherwise.
pub fn route_internal(suffix: &str) -> (r: Option<Route>)
    ensures
        r == route_of(suffix@),
{
    if same(suffix, "challenge") {
        Some(Route::Challenge)
    } else if same(suffix, "solver.js") {
        Some(Route::Solver)
    } else if same(suffix, "verify") {
        Some(Route::Verify)
    } else if same(suffix, "pass") {
        Some(Route::Pass)
    } else {
        None
    }
}

// -------------------------------------------------------------------- laws

/// `needle` occurs in `s`.
pub open spec fn occurs(s: Seq<u8>, needle: Seq<u8>) -> bool {
    exists|i: int| 0 <= i <= s.len() && begins(#[trigger] s.skip(i), needle)
}

/// A page without placeholders is served as it is.
pub proof fn replacing_nothing_changes_nothing(s: Seq<u8>, needle: Seq<u8>, with: Seq<u8>)
    requires
        !occurs(s, needle),
    ensures
        replaced(s, needle, with) == s,
    decreases s.len(),
{
    if s.len() > 0 {
        assert(s.skip(0) =~= s);
        assert(!begins(s, needle)) by {
            if begins(s, needle) {
                assert(begins(s.skip(0), needle));
            }
        }
        let rest = s.skip(1);
        assert(!occurs(rest, needle)) by {
            if occurs(rest, needle) {
                let i = choose|i: int| 0 <= i <= rest.len() && begins(#[trigger] rest.skip(i), needle);
                assert(s.skip(i + 1) =~= rest.skip(i));
            }
        }
        replacing_nothing_changes_nothing(rest, needle, with);
        assert(seq![s[0]] + rest =~= s);
    }
}

/// A placeholder is replaced where it stands, and what surrounds it stays: text
/// in which no placeholder begins, a placeholder, and a rest.
pub proof fn placeholders_are_filled_in(
    before: Seq<u8>,
    needle: Seq<u8>,
    after: Seq<u8>,
    with: Seq<u8>,
)
    requires
        needle.len() > 0,
        forall|i: int|
            0 <= i < before.len() ==> !begins(#[trigger] (before + needle + after).skip(i), needle),
    ensures
        replaced(before + needle + after, needle, with) == before + with + replaced(
            after,
            needle,
            with,
        ),
    decreases before.len(),
{
    let s = before + needle + after;
    if before.len() == 0 {
        assert(s.take(needle.len() as int) =~= needle);
        assert(s.skip(needle.len() as int) =~= after);
        assert(before + with + replaced(after, needle, with) =~= with + replaced(
            after,
            needle,
            with,
        ));
    } else {
        assert(s.skip(0) =~= s);
        assert(!begins(s.skip(0), needle));
        let rest = before.skip(1);
        assert(s.skip(1) =~= rest + needle + after);
        assert forall|i: int| 0 <= i < rest.len() implies !begins(
            #[trigger] (rest + needle + after).skip(i),
            needle,
        ) by {
            assert((rest + needle + after).skip(i) =~= s.skip(i + 1));
        }
        placeholders_are_filled_in(rest, needle, after, with);
        assert(seq![s[0]] + (rest + with + replaced(after, needle, with)) =~= before + with
            + replaced(after, needle, with));
    }
}

/// A challenge page is its template with the difficulty in decimal and the endpoint in
/// place of their placeholders, and nothing else changed.
pub proof fn pages_show_difficulty_and_endpoint(raw: Seq<u8>, difficulty: u64, endpoint: Seq<char>)
    ensures
        page_bytes(raw, difficulty, endpoint) == replaced(
            replaced(raw, encode_utf8("{{difficulty}}"@), encode_utf8(decimal(difficulty as int))),
            encode_utf8("{{endpoint}}"@),
            encode_utf8(endpoint),
        ),
        !occurs(raw, encode_utf8("{{difficulty}}"@)) && !occurs(raw, encode_utf8("{{endpoint}}"@))
            ==> page_bytes(raw, difficulty, endpoint) == raw,
{
    if !occurs(raw, encode_utf8("{{difficulty}}"@)) && !occurs(raw, encode_utf8("{{endpoint}}"@)) {
        replacing_nothing_changes_nothing(
            raw,
            encode_utf8("{{difficulty}}"@),
            encode_utf8(decimal(difficulty as int)),
        );
        replacing_nothing_changes_nothing(
            raw,
            encode_utf8("{{endpoint}}"@),
            encode_utf8(endpoint),
        );
    }
}

/// A no-JS page is its template with the pass URL and the wait in decimal in place of
/// their placeholders, in a response that may not be stored.
pub proof fn nojs_pages_show_url_and_wait(template: Seq<u8>, pass_url: Seq<char>, delay: int)
    ensures
        ({
            let r = nojs_page_view(template, pass_url, delay);
            &&& r.status == 200
            &&& r.content_type == "text/html; charset=utf-8"@
            &&& r.headers == seq![("Cache-Control"@, "no-store"@)]
            &&& r.body == replaced(
                replaced(template, encode_utf8("{{pass_url}}"@), encode_utf8(pass_url)),
                encode_utf8("{{delay}}"@),
                encode_utf8(decimal(delay)),
            )
        }),
{
    assert(nojs_page_view(template, pass_url, delay).headers =~= seq![
        ("Cache-Control"@, "no-store"@),
    ]);
}

/// A page that is bound to one request is served in full, and may not be stored.
pub proof fn bound_pages_are_not_stored(body: Seq<u8>)
    ensures
        unstored_page(body).status == 200,
        unstored_page(body).content_type == "text/html; charset=utf-8"@,
        unstored_page(body).headers == seq![("Cache-Control"@, "no-store"@)],
        unstored_page(body).body == body,
{
    assert(unstored_page(body).headers =~= seq![("Cache-Control"@, "no-store"@)]);
}

/// Replacement goes from left to right and looks at each byte once: a needle at the
/// start is replaced, a byte at which none starts is kept, and the rest is treated
/// alike.
pub proof fn replacement_goes_from_left_to_right(s: Seq<u8>, needle: Seq<u8>, with: Seq<u8>)
    requires
        needle.len() > 0,
    ensures
        replaced(needle + s, needle, with) == with + replaced(s, needle, with),
        s.len() > 0 && !begins(s, needle) ==> replaced(s, needle, with) == seq![s[0]] + replaced(
            s.skip(1),
            needle,
            with,
        ),
        replaced(Seq::empty(), needle, with) == Seq::<u8>::empty(),
{
    assert((needle + s).take(needle.len() as int) =~= needle);
    assert((needle + s).skip(needle.len() as int) =~= s);
}

/// The endpoints are known by their names, and nothing else is one.
pub proof fn endpoints_are_known_by_name(suffix: Seq<char>)
    ensures
        route_of(suffix) == Some(Route::Challenge) <==> suffix == "challenge"@,
        route_of(suffix) == Some(Route::Solver) <==> suffix == "solver.js"@,
        route_of(suffix) == Some(Route::Verify) <==> suffix == "verify"@,
        route_of(suffix) == Some(Route::Pass) <==> suffix == "pass"@,
{
    reveal_strlit("challenge");
    reveal_strlit("solver.js");
    reveal_strlit("verify");
    reveal_strlit("pass");
    assert("challenge"@[0] != "solver.js"@[0] && "verify"@.len() == 6 && "pass"@.len() == 4);
    assert("challenge"@.len() == 9 && "solver.js"@.len() == 9);
}

} // verus!
