//! The access decision: internal endpoints, then allow / deny / challenge.
//!
//! Decision order (first match wins):
//!
//!   0. module off here           pass straight to upstream
//!   1. internal `{endpoint}*`    handled by the module
//!   2. trusted network (`geo`)   pass
//!   3. decision `allow`          pass
//!   4. decision `deny`           403
//!   5. decision `verify:<n>`     run the verifier; pass if it confirms the bot
//!   6. valid clearance cookie    pass
//!   7. otherwise                 serve the challenge the decision asks for
//!
//! The server runs the verifier between [`first_step`] and [`after_verifier`].

use crate::address::IpAddr;
use crate::decision::{
    meaning, named_difficulties_are_asked_for, named_verifiers_are_asked, named_waits_are_asked_for,
    words_mean_what_they_say, Decision, DecisionView,
};
use crate::number::decimal;
use crate::pow::drawable;
use crate::server::capture::{should_capture, to_capture};
use crate::server::challenge::{
    html, route_internal, route_of, serve_challenge_page, serve_solver, Route,
};
use crate::server::clearance::{cleared, has_valid_clearance};
use crate::server::nojs::{granting_page, pass_in_range, pass_mints, pass_view, serve_granting_page};
use crate::server::pow::{challenge_view, issue_challenge, CHALLENGE_GRACE};
use crate::server::response::{plain, Response, ResponseView, SUCCESS};
use crate::server::runtime::{expiry_fits, is_blank, Cfg, Request};
use crate::text::{chars, has_prefix, same, starts_with, string};
use vstd::prelude::*;
use vstd::slice::slice_subrange;

verus! {

/// What is to be done about a request.
#[derive(Debug)]
pub enum Step {
    /// Pass to upstream.
    Decline,
    /// Refuse with 403.
    Forbidden,
    /// Serve an internal endpoint, at the difficulty that the decision asks for.
    Internal(Route, u64),
    /// Ask the verifier of this name about this address.
    Verify(String, IpAddr),
    /// Let cleared clients pass and challenge the others: with a no-JS challenge
    /// of so many seconds, or with the JS challenge.
    Guard(Option<i64>),
}

/// What a [`Step`] says.
pub enum StepView {
    Decline,
    Forbidden,
    Internal(Route, u64),
    Verify(Seq<char>, IpAddr),
    Guard(Option<int>),
}

impl View for Step {
    type V = StepView;

    open spec fn view(&self) -> StepView {
        match self {
            Step::Decline => StepView::Decline,
            Step::Forbidden => StepView::Forbidden,
            Step::Internal(route, difficulty) => StepView::Internal(*route, *difficulty),
            Step::Verify(name, ip) => StepView::Verify(name@, *ip),
            Step::Guard(Some(delay)) => StepView::Guard(Some(*delay as int)),
            Step::Guard(None) => StepView::Guard(None),
        }
    }
}

/// The difficulty for this client: what the decision overrides, else the
/// configured one.
pub open spec fn effective_difficulty(decision: Seq<char>, configured: u64) -> u64 {
    match meaning(decision) {
        DecisionView::Challenge { difficulty: Some(n) } => n as u64,
        _ => configured,
    }
}

/// The request is for an internal endpoint, known or not.
pub open spec fn is_internal(uri: Seq<char>, endpoint: Seq<char>) -> bool {
    endpoint.len() > 0 && starts_with(uri, endpoint)
}

/// What is to be done about a request, before a verifier or a cookie is looked at.
pub open spec fn step_for(req: Request, enabled: isize, cfg: Cfg) -> StepView {
    if enabled == 0 {
        StepView::Decline
    } else if is_internal(req.uri@, cfg.endpoint@) {
        match route_of(req.uri@.skip(cfg.endpoint@.len() as int)) {
            Some(route) => StepView::Internal(
                route,
                effective_difficulty(req.decision@, cfg.difficulty),
            ),
            None => StepView::Decline,
        }
    } else if req.trusted@ == "1"@ {
        StepView::Decline
    } else {
        match meaning(req.decision@) {
            DecisionView::Allow => StepView::Decline,
            DecisionView::Deny => StepView::Forbidden,
            DecisionView::Verify(name) => match req.address {
                Some(ip) => StepView::Verify(name, ip),
                None => StepView::Guard(None),
            },
            DecisionView::Challenge { .. } => StepView::Guard(None),
            DecisionView::ChallengeNoJs { delay } => StepView::Guard(Some(delay)),
        }
    }
}

/// What is to be done about a request, before a verifier or a cookie is looked at.
pub fn first_step(req: &Request, enabled: isize, cfg: &Cfg) -> (s: Step)
    ensures
        s@ == step_for(*req, enabled, *cfg),
{
    if enabled == 0 {
        return Step::Decline;
    }
    let decision = Decision::parse(req.decision.as_str());
    let uri = chars(req.uri.as_str());
    let endpoint = chars(cfg.endpoint.as_str());
    if !is_blank(cfg.endpoint.as_str()) && has_prefix(uri.as_slice(), endpoint.as_slice()) {
        let suffix = slice_subrange(uri.as_slice(), endpoint.len(), uri.len());
        assert(suffix@ =~= req.uri@.skip(cfg.endpoint@.len() as int));
        let difficulty: u64 = match decision {
            Decision::Challenge { difficulty: Some(n) } => n,
            _ => cfg.difficulty,
        };
        return match route_internal(string(suffix).as_str()) {
            Some(route) => Step::Internal(route, difficulty),
            None => Step::Decline,
        };
    }
    if same(req.trusted.as_str(), "1") {
        return Step::Decline;
    }
    match decision {
        Decision::Allow => Step::Decline,
        Decision::Deny => Step::Forbidden,
        Decision::Verify(name) => match req.address {
            Some(ip) => Step::Verify(name.to_owned(), ip),
            None => Step::Guard(None),
        },
        Decision::Challenge { .. } => Step::Guard(None),
        Decision::ChallengeNoJs { delay } => Step::Guard(Some(delay)),
    }
}

/// What is to be done once a verifier has answered: a confirmed bot passes; a
/// spoofed User-Agent is challenged like anybody else, not denied.
pub fn after_verifier(confirmed: bool) -> (s: Step)
    ensures
        s@ == (if confirmed {
            StepView::Decline
        } else {
            StepView::Guard(None)
        }),
{
    if confirmed {
        Step::Decline
    } else {
        Step::Guard(None)
    }
}

/// What is answered to a guarded request.
#[derive(Debug)]
pub enum Outcome {
    /// Pass to upstream.
    Decline,
    /// Read the body, then hand the request back inside the challenge page
    /// ([`crate::server::capture::body_ready`]).
    Capture,
    /// Answer at once.
    Respond(Response),
}

/// What an [`Outcome`] says.
pub enum OutcomeView {
    Decline,
    Capture,
    Respond(ResponseView),
}

impl View for Outcome {
    type V = OutcomeView;

    open spec fn view(&self) -> OutcomeView {
        match self {
            Outcome::Decline => OutcomeView::Decline,
            Outcome::Capture => OutcomeView::Capture,
            Outcome::Respond(r) => OutcomeView::Respond(r@),
        }
    }
}

/// What is answered to a guarded request: cleared clients pass; everyone else gets
/// the challenge. The grant of a no-JS challenge leads back to the target that the
/// client sent; without a usable key none is minted, and the JS challenge is served.
pub open spec fn guarded(
    req: Request,
    cfg: Cfg,
    page: Seq<u8>,
    nojs_template: Seq<u8>,
    nojs_delay: Option<int>,
    now: i64,
) -> OutcomeView {
    if cleared(req, cfg, now) {
        OutcomeView::Decline
    } else {
        match nojs_delay {
            Some(delay) if cfg.key_ok => OutcomeView::Respond(
                granting_page(cfg, nojs_template, req.unparsed_uri@, delay, now as int),
            ),
            _ => if to_capture(req, cfg) {
                OutcomeView::Capture
            } else {
                OutcomeView::Respond(plain(SUCCESS, html(), page))
            },
        }
    }
}

/// Let a cleared client pass, and challenge the others.
pub fn guard(
    req: &Request,
    cfg: &Cfg,
    page: &[u8],
    nojs_template: &[u8],
    nojs_delay: Option<i64>,
    now: i64,
) -> (o: Outcome)
    ensures
        o@ == guarded(
            *req,
            *cfg,
            page@,
            nojs_template@,
            match nojs_delay {
                Some(d) => Some(d as int),
                None => None,
            },
            now,
        ),
{
    if has_valid_clearance(req, cfg, now) {
        return Outcome::Decline;
    }
    if let Some(delay) = nojs_delay {
        if cfg.key_ok {
            return Outcome::Respond(
                serve_granting_page(cfg, nojs_template, req.unparsed_uri.as_str(), delay, now),
            );
        }
    }
    if should_capture(req, cfg) {
        Outcome::Capture
    } else {
        Outcome::Respond(serve_challenge_page(page))
    }
}

/// What is answered by an internal endpoint.
#[derive(Debug)]
pub enum Internal {
    /// Answer at once.
    Respond(Response),
    /// Read the body, then answer with [`crate::server::pow::verify_body`].
    ReadBody,
    /// No challenge can be issued: the operating system has no random bytes.
    NoRandomness,
    /// A challenge or a clearance would expire beyond the range of times.
    OutOfRange,
}

/// What the challenge endpoint answers, given the response that carries the
/// challenge, if one could be issued.
pub fn internal_challenge(answer: Option<Response>) -> (r: Internal)
    ensures
        match (answer, r) {
            (Some(a), Internal::Respond(resp)) => resp == a,
            (None, Internal::NoRandomness) => true,
            _ => false,
        },
{
    match answer {
        Some(r) => Internal::Respond(r),
        None => Internal::NoRandomness,
    }
}

/// Serve an internal endpoint. `difficulty` is the effective one for THIS client,
/// so that a challenge is issued as the decision demands; `nojs_template` backs
/// the `pass` endpoint's too-early re-challenge. What the challenge endpoint makes
/// of an issued challenge, [`internal_challenge`] says.
pub fn serve_internal(
    route: Route,
    difficulty: u64,
    req: &Request,
    cfg: &Cfg,
    nojs_template: &[u8],
    solver_js: &[u8],
    now: i64,
) -> (r: Internal)
    ensures
        match (route, r) {
            (Route::Challenge, Internal::Respond(resp)) => exists|raw: [u8; 16]|
                resp@ == challenge_view(*cfg, difficulty, now, #[trigger] raw@),
            (Route::Challenge, Internal::NoRandomness) => cfg.key_ok,
            (Route::Challenge, Internal::OutOfRange) => true,
            (Route::Solver, Internal::Respond(resp)) => resp@ == plain(
                SUCCESS,
                "text/javascript; charset=utf-8"@,
                solver_js@,
            ),
            (Route::Verify, Internal::ReadBody) => true,
            (Route::Pass, Internal::Respond(resp)) => resp@ == pass_view(
                req.args@,
                *cfg,
                nojs_template@,
                now,
            ),
            (Route::Pass, Internal::OutOfRange) => true,
            _ => false,
        },
        route is Challenge && cfg.key_ok && !(r is OutOfRange) ==> exists|
            drawn: Option<[u8; 16]>,
        | #[trigger]
            drawable(drawn) && match (drawn, r) {
                (Some(raw), Internal::Respond(resp)) => resp@ == challenge_view(
                    *cfg,
                    difficulty,
                    now,
                    raw@,
                ),
                (None, Internal::NoRandomness) => true,
                _ => false,
            },
        r is OutOfRange == match route {
            Route::Challenge => cfg.key_ok && now + CHALLENGE_GRACE > i64::MAX,
            Route::Pass => pass_mints(req.args@, *cfg, now) && !expiry_fits(*cfg, now),
            _ => false,
        },
{
    match route {
        Route::Challenge => if cfg.key_ok && now > i64::MAX - CHALLENGE_GRACE {
            Internal::OutOfRange
        } else {
            internal_challenge(issue_challenge(cfg, difficulty, now))
        },
        Route::Solver => Internal::Respond(serve_solver(solver_js)),
        Route::Verify => Internal::ReadBody,
        Route::Pass => match pass_in_range(req.args.as_str(), cfg, nojs_template, now) {
            Some(r) => Internal::Respond(r),
            None => Internal::OutOfRange,
        },
    }
}

// -------------------------------------------------------------------- laws

/// A request passes unexamined for one of four reasons only: the module is off,
/// the target is an unknown internal one, the network is trusted, or the decision
/// says `allow`. In particular a decision that cannot be read never opens.
pub proof fn nothing_else_passes_unexamined(req: Request, enabled: isize, cfg: Cfg)
    requires
        step_for(req, enabled, cfg) is Decline,
    ensures
        ({
            ||| enabled == 0
            ||| is_internal(req.uri@, cfg.endpoint@) && route_of(
                req.uri@.skip(cfg.endpoint@.len() as int),
            ) is None
            ||| req.trusted@ == "1"@
            ||| req.decision@ == "allow"@
        }),
{
    crate::decision::only_allow_opens(req.decision@);
}

/// The guard lets exactly the cleared clients pass, whatever challenge was asked
/// for.
pub proof fn only_cleared_clients_pass_the_guard(
    req: Request,
    cfg: Cfg,
    page: Seq<u8>,
    nojs_template: Seq<u8>,
    nojs_delay: Option<int>,
    now: i64,
)
    ensures
        (guarded(req, cfg, page, nojs_template, nojs_delay, now) is Decline) == cleared(
            req,
            cfg,
            now,
        ),
{
}

/// The challenge that is issued is at least as hard as one, and at the configured
/// difficulty unless the decision names another.
pub proof fn effective_difficulty_is_the_decisions(decision: Seq<char>, configured: u64)
    ensures
        match meaning(decision) {
            DecisionView::Challenge { difficulty: Some(n) } => effective_difficulty(
                decision,
                configured,
            ) == n && n >= 1,
            _ => effective_difficulty(decision, configured) == configured,
        },
{
    crate::decision::challenges_are_bounded(decision);
}

/// The request reaches the decision: the module is on, the target is not internal,
/// and the network is not trusted.
pub open spec fn is_decided(req: Request, enabled: isize, cfg: Cfg) -> bool {
    &&& enabled != 0
    &&& cfg.endpoint@.len() == 0 || !(req.uri@.len() >= cfg.endpoint@.len() && req.uri@.take(
        cfg.endpoint@.len() as int,
    ) == cfg.endpoint@)
    &&& req.trusted@ != "1"@
}

/// Where the decision names a verifier, that verifier is asked about the client's own
/// address, of whichever family; a client without an address is challenged.
pub proof fn verifiers_are_asked_about_the_client(
    req: Request,
    enabled: isize,
    cfg: Cfg,
    name: Seq<char>,
)
    requires
        is_decided(req, enabled, cfg),
        name.len() > 0,
        req.decision@ == "verify:"@ + name,
    ensures
        step_for(req, enabled, cfg) == match req.address {
            Some(ip) => StepView::Verify(name, ip),
            None => StepView::Guard(None),
        },
{
    named_verifiers_are_asked(name);
}

/// The words of a decision are followed: `allow` passes, `deny` is refused, and a
/// challenge is the JS one or the no-JS one, as the decision says.
pub proof fn decisions_are_followed(req: Request, enabled: isize, cfg: Cfg, n: u64, secs: i64)
    requires
        is_decided(req, enabled, cfg),
    ensures
        req.decision@ == "allow"@ ==> step_for(req, enabled, cfg) is Decline,
        req.decision@ == "deny"@ ==> step_for(req, enabled, cfg) is Forbidden,
        req.decision@ == "challenge"@ || req.decision@ == "challenge:js"@ || req.decision@
            == "challenge:"@ + decimal(n as int) ==> step_for(req, enabled, cfg)
            == StepView::Guard(None),
        req.decision@ == "challenge:nojs"@ ==> step_for(req, enabled, cfg) == StepView::Guard(
            Some(2),
        ),
        req.decision@ == "challenge:nojs:"@ + decimal(secs as int) && 1 <= secs <= 30 ==> step_for(
            req,
            enabled,
            cfg,
        ) == StepView::Guard(Some(secs as int)),
{
    words_mean_what_they_say();
    named_difficulties_are_asked_for(n);
    named_waits_are_asked_for(secs);
}

/// Whatever the decision says, a client that it neither lets through nor refuses nor
/// hands to a verifier is guarded: with the wait that the decision asks for, or with
/// the JS challenge.
pub proof fn the_rest_is_guarded(req: Request, enabled: isize, cfg: Cfg)
    requires
        is_decided(req, enabled, cfg),
    ensures
        match meaning(req.decision@) {
            DecisionView::Challenge { difficulty } => step_for(req, enabled, cfg)
                == StepView::Guard(None),
            DecisionView::ChallengeNoJs { delay } => step_for(req, enabled, cfg)
                == StepView::Guard(Some(delay)),
            DecisionView::Allow => step_for(req, enabled, cfg) is Decline,
            DecisionView::Deny => step_for(req, enabled, cfg) is Forbidden,
            DecisionView::Verify(name) => req.address matches Some(ip) ==> step_for(
                req,
                enabled,
                cfg,
            ) == StepView::Verify(name, ip),
        },
{
}

/// The module keeps out of the way where it is off, and lets trusted networks pass,
/// whatever the decision says.
pub proof fn off_and_trusted_pass(req: Request, enabled: isize, cfg: Cfg)
    ensures
        enabled == 0 ==> step_for(req, enabled, cfg) is Decline,
        !is_internal(req.uri@, cfg.endpoint@) && req.trusted@ == "1"@ ==> step_for(
            req,
            enabled,
            cfg,
        ) is Decline,
{
}

/// The internal endpoints are served under the configured prefix, whatever the
/// network and the decision say, at the difficulty that the decision names or else at
/// the configured one; any other target under the prefix is left to upstream.
pub proof fn endpoints_stand_under_the_prefix(
    req: Request,
    enabled: isize,
    cfg: Cfg,
    name: Seq<char>,
    n: u64,
)
    requires
        enabled != 0,
        cfg.endpoint@.len() > 0,
        req.uri@ == cfg.endpoint@ + name,
    ensures
        ({
            let d = effective_difficulty(req.decision@, cfg.difficulty);
            let s = step_for(req, enabled, cfg);
            &&& name == "challenge"@ ==> s == StepView::Internal(Route::Challenge, d)
            &&& name == "solver.js"@ ==> s == StepView::Internal(Route::Solver, d)
            &&& name == "verify"@ ==> s == StepView::Internal(Route::Verify, d)
            &&& name == "pass"@ ==> s == StepView::Internal(Route::Pass, d)
            &&& name != "challenge"@ && name != "solver.js"@ && name != "verify"@ && name
                != "pass"@ ==> s is Decline
            &&& req.decision@ == "challenge:"@ + decimal(n as int) ==> d == (if n == 0 {
                1
            } else {
                n
            })
            &&& req.decision@ == "challenge:js"@ ==> d == 1
            &&& !(meaning(req.decision@) is Challenge) || req.decision@ == "challenge"@ ==> d
                == cfg.difficulty
        }),
{
    reveal_strlit("challenge");
    reveal_strlit("solver.js");
    reveal_strlit("verify");
    reveal_strlit("pass");
    assert("challenge"@[0] != "solver.js"@[0] && "verify"@.len() == 6 && "pass"@.len() == 4);
    assert("challenge"@.len() == 9 && "solver.js"@.len() == 9);
    assert(req.uri@.take(cfg.endpoint@.len() as int) =~= cfg.endpoint@);
    assert(req.uri@.skip(cfg.endpoint@.len() as int) =~= name);
    words_mean_what_they_say();
    named_difficulties_are_asked_for(n);
}

/// What the guard answers: a cleared client passes; any other gets the no-JS page
/// with a grant for the target that it sent where a wait is asked for and a key is
/// usable, and else the JS page, in which its own request is kept where it is one
/// that can be kept.
pub proof fn guarded_clients_are_answered(
    req: Request,
    cfg: Cfg,
    page: Seq<u8>,
    nojs_template: Seq<u8>,
    nojs_delay: Option<int>,
    now: i64,
)
    ensures
        ({
            let o = guarded(req, cfg, page, nojs_template, nojs_delay, now);
            &&& cleared(req, cfg, now) ==> o is Decline
            &&& !cleared(req, cfg, now) && cfg.key_ok && nojs_delay is Some ==> o
                == OutcomeView::Respond(
                granting_page(cfg, nojs_template, req.unparsed_uri@, nojs_delay->0, now as int),
            )
            &&& !cleared(req, cfg, now) && (!cfg.key_ok || nojs_delay is None) && to_capture(
                req,
                cfg,
            ) ==> o is Capture
            &&& !cleared(req, cfg, now) && (!cfg.key_ok || nojs_delay is None) && !to_capture(
                req,
                cfg,
            ) ==> (o matches OutcomeView::Respond(r) && r.status == 200 && r.content_type
                == "text/html; charset=utf-8"@ && r.headers.len() == 0 && r.body == page)
        }),
{
}

} // verus!
