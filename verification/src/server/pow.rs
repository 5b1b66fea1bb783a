//! The proof-of-work endpoints.
//!
//! `GET {endpoint}challenge` issues parameters. `POST {endpoint}verify` answers a
//! submitted solution, once the request body has been read.

use crate::clearance::{
    authentic, granted, issue as issue_clearance, token_for as clearance_token, ClearanceView,
};
use crate::codec::{b64url_bytes, b64url_text, hex_is_faithful, hex_text, lemma_b64url_printable, unb64url};
use crate::json::{
    field_texts, json_string, member, object, printable, record_of, write_object,
    written_members_are_read_back, Field, Record, RecordView,
};
use crate::number::decimal;
use crate::pow::{
    challenge_of, drawable, is_answer_to_draw, is_challenge, issue, issue_from, judged, token_for, verify_solution, Challenge,
    ChallengeView, Verdict,
};
use crate::server::response::{
    plain, Response, ResponseView, BAD_REQUEST, NO_CONTENT, SERVICE_UNAVAILABLE, SUCCESS,
};
use crate::server::runtime::{build_set_cookie, expiry_fits, set_cookie_text, Cfg};
use vstd::prelude::*;
use vstd::string::StrSliceExecFns;
use vstd::utf8::encode_utf8;

verus! {

/// How long (seconds) a client has to solve a challenge: anti-precompute bound.
pub const CHALLENGE_GRACE: i64 = 120;

/// A response without a body.
pub open spec fn bare(status: u16) -> ResponseView {
    plain(status, "text/plain"@, Seq::empty())
}

/// A status-only response.
pub fn status_only(status: u16) -> (r: Response)
    ensures
        r@ == bare(status),
{
    Response::new(status, "text/plain", Vec::new())
}

// ---------------------------------------------------------------- challenge

/// A challenge as JSON.
pub open spec fn challenge_json(
    salt: Seq<char>,
    exp: int,
    difficulty: u64,
    token: Seq<char>,
) -> Seq<char> {
    object(
        seq![
            member("salt"@, json_string(salt)),
            member("exp"@, decimal(exp)),
            member("difficulty"@, decimal(difficulty as int)),
            member("token"@, json_string(token)),
        ],
    )
}

/// The challenge for the sixteen random bytes `raw`.
pub open spec fn issued_challenge(
    key: Seq<u8>,
    difficulty: u64,
    now: i64,
    raw: Seq<u8>,
) -> ChallengeView {
    let salt = hex_text(raw);
    let exp = (now + CHALLENGE_GRACE) as i64;
    ChallengeView { salt, exp, difficulty, token: token_for(key, salt, exp, difficulty) }
}

/// The answer to `GET {endpoint}challenge` for the sixteen random bytes `raw`.
pub open spec fn challenge_view(cfg: Cfg, difficulty: u64, now: i64, raw: Seq<u8>) -> ResponseView {
    if !cfg.key_ok {
        bare(SERVICE_UNAVAILABLE)
    } else {
        let c = issued_challenge(cfg.key@, difficulty, now, raw);
        plain(
            SUCCESS,
            "application/json"@,
            encode_utf8(challenge_json(c.salt, c.exp as int, c.difficulty, c.token)),
        )
    }
}

/// The response that carries a challenge.
fn challenge_response(c: &Challenge) -> (r: Response)
    requires
        printable(c.salt@),
        printable(c.token@),
    ensures
        r@ == plain(
            SUCCESS,
            "application/json"@,
            encode_utf8(challenge_json(c.salt@, c.exp as int, c.difficulty, c.token@)),
        ),
        challenge_of(r.body@) == Some(c@),
{
    proof {
        reveal_strlit("salt");
        reveal_strlit("exp");
        reveal_strlit("difficulty");
        reveal_strlit("token");
        assert("salt"@.len() == 4 && "exp"@.len() == 3);
        assert("difficulty"@.len() == 10 && "token"@.len() == 5);
    }
    let members = [
        Field::Text("salt", c.salt.as_str()),
        Field::Int("exp", c.exp),
        Field::Uint("difficulty", c.difficulty),
        Field::Text("token", c.token.as_str()),
    ];
    let doc = write_object(&members);
    proof {
        assert(field_texts(members@) =~= seq![
            members@[0].text(),
            members@[1].text(),
            members@[2].text(),
            members@[3].text(),
        ]);
        let d = encode_utf8(doc@);
        written_members_are_read_back(d, members@, 4, 0, 0);
        written_members_are_read_back(d, members@, 4, 1, 1);
        written_members_are_read_back(d, members@, 4, 2, 2);
        written_members_are_read_back(d, members@, 4, 3, 3);
    }
    Response::new(SUCCESS, "application/json", doc.as_str().as_bytes_vec())
}

/// The answer to `GET {endpoint}challenge` for sixteen random bytes. The document
/// is read back as the challenge that was issued.
///
/// No usable HMAC key: refuse rather than issue a forgeable challenge token.
pub fn issue_challenge_from(cfg: &Cfg, difficulty: u64, now: i64, raw: &[u8; 16]) -> (r: Response)
    requires
        cfg.key_ok ==> now + CHALLENGE_GRACE <= i64::MAX,
    ensures
        r@ == challenge_view(*cfg, difficulty, now, raw@),
        cfg.key_ok ==> challenge_of(r.body@) == Some(
            issued_challenge(cfg.key@, difficulty, now, raw@),
        ),
{
    if !cfg.key_ok {
        return status_only(SERVICE_UNAVAILABLE);
    }
    let c = issue_from(cfg.key.as_slice(), raw, difficulty, now, CHALLENGE_GRACE);
    proof {
        lemma_challenge_printable(c, cfg.key@, raw@);
    }
    challenge_response(&c)
}

proof fn lemma_challenge_printable(c: Challenge, key: Seq<u8>, raw: Seq<u8>)
    requires
        c.salt@ == hex_text(raw),
        crate::codec::all_b64url(c.token@),
    ensures
        printable(c.salt@),
        printable(c.token@),
{
    hex_is_faithful(raw, raw);
    lemma_b64url_printable(c.token@);
}

/// The answer to `GET {endpoint}challenge` for what was issued: the challenge as
/// JSON, which is read back as that challenge, or none where none was issued.
pub fn challenge_answer(issued: Option<Challenge>) -> (r: Option<Response>)
    requires
        issued matches Some(c) ==> printable(c.salt@) && printable(c.token@),
    ensures
        match (issued, r) {
            (Some(c), Some(resp)) => {
                &&& resp@ == plain(
                    SUCCESS,
                    "application/json"@,
                    encode_utf8(challenge_json(c.salt@, c.exp as int, c.difficulty, c.token@)),
                )
                &&& challenge_of(resp.body@) == Some(c@)
            },
            (None, None) => true,
            _ => false,
        },
{
    match issued {
        Some(c) => Some(challenge_response(&c)),
        None => None,
    }
}

/// What the endpoint makes of a draw: the challenge for sixteen bytes, no answer for
/// none.
pub open spec fn is_endpoint_answer(
    drawn: Option<[u8; 16]>,
    r: Option<Response>,
    cfg: Cfg,
    difficulty: u64,
    now: i64,
) -> bool {
    match (drawn, r) {
        (Some(raw), Some(resp)) => resp@ == challenge_view(cfg, difficulty, now, raw@),
        (None, None) => true,
        _ => false,
    }
}

/// `GET {endpoint}challenge`: issue fresh challenge parameters as JSON. `None`
/// when, and only when, a key is usable and the operating system gave no random bytes;
/// [`challenge_answer`] says what becomes of each challenge.
pub fn issue_challenge(cfg: &Cfg, difficulty: u64, now: i64) -> (r: Option<Response>)
    requires
        cfg.key_ok ==> now + CHALLENGE_GRACE <= i64::MAX,
    ensures
        !cfg.key_ok ==> r is Some,
        r matches Some(resp) ==> exists|raw: [u8; 16]|
            resp@ == challenge_view(*cfg, difficulty, now, #[trigger] raw@),
        cfg.key_ok ==> exists|drawn: Option<[u8; 16]>| #[trigger]
            drawable(drawn) && is_endpoint_answer(drawn, r, *cfg, difficulty, now),
{
    if !cfg.key_ok {
        let r = status_only(SERVICE_UNAVAILABLE);
        let ghost raw: [u8; 16] = arbitrary();
        assert(r@ == challenge_view(*cfg, difficulty, now, raw@));
        return Some(r);
    }
    let issued = issue(cfg.key.as_slice(), difficulty, now, CHALLENGE_GRACE);
    proof {
        if issued is Some {
            let c = issued->0;
            let raw = choose|raw: [u8; 16]|
                is_challenge(c, cfg.key@, #[trigger] raw@, difficulty, now + CHALLENGE_GRACE);
            lemma_challenge_printable(c, cfg.key@, raw@);
        }
    }
    let ghost drawn = choose|drawn: Option<[u8; 16]>| #[trigger]
        drawable(drawn) && is_answer_to_draw(
            drawn,
            issued,
            cfg.key@,
            difficulty,
            now + CHALLENGE_GRACE,
        );
    let r = challenge_answer(issued);
    assert(drawable(drawn) && is_endpoint_answer(drawn, r, *cfg, difficulty, now));
    r
}

// ------------------------------------------------------------------- verify

/// Submitted `/verify` body. Mirrors what the solver POSTs.
#[derive(Debug)]
pub struct Submission {
    pub salt: String,
    pub exp: i64,
    pub token: String,
    pub nonce: u64,
    /// base64url SEC1 (uncompressed) public key.
    pub pubkey: String,
    /// The difficulty echoed from the challenge; the token authenticates it.
    pub difficulty: Option<u64>,
}

/// What a [`Submission`] says.
pub struct SubmissionView {
    pub salt: Seq<char>,
    pub exp: i64,
    pub token: Seq<char>,
    pub nonce: u64,
    pub pubkey: Seq<char>,
    pub difficulty: Option<u64>,
}

impl View for Submission {
    type V = SubmissionView;

    open spec fn view(&self) -> SubmissionView {
        SubmissionView {
            salt: self.salt@,
            exp: self.exp,
            token: self.token@,
            nonce: self.nonce,
            pubkey: self.pubkey@,
            difficulty: self.difficulty,
        }
    }
}

/// The difficulty that a submission echoes: `Some(None)` if it has none.
pub open spec fn echoed_difficulty(r: RecordView) -> Option<Option<u64>> {
    match r.unsigned("difficulty"@, 5) {
        Some(n) => Some(Some(n)),
        None => if r.unset("difficulty"@, 5) {
            Some(None)
        } else {
            None
        },
    }
}

/// The submission that a JSON document holds.
pub open spec fn submission_of(doc: Seq<u8>) -> Option<SubmissionView> {
    match record_of(doc, 6) {
        Some(r) => match (
            r.text("salt"@, 0),
            r.signed("exp"@, 1),
            r.text("token"@, 2),
            r.unsigned("nonce"@, 3),
            r.text("pubkey"@, 4),
            echoed_difficulty(r),
        ) {
            (
                Some(salt),
                Some(exp),
                Some(token),
                Some(nonce),
                Some(pubkey),
                Some(difficulty),
            ) => Some(SubmissionView { salt, exp, token, nonce, pubkey, difficulty }),
            _ => None,
        },
        None => None,
    }
}

impl Submission {
    /// The submission that a JSON document holds, if it has all its fields.
    pub fn read(doc: &[u8]) -> (r: Option<Submission>)
        ensures
            match (r, submission_of(doc@)) {
                (None, None) => true,
                (Some(a), Some(b)) => a@ == b,
                _ => false,
            },
    {
        let r = match Record::read(doc, 6) {
            Some(r) => r,
            None => return None,
        };
        let salt = match r.text("salt", 0) {
            Some(v) => v,
            None => return None,
        };
        let exp = match r.signed("exp", 1) {
            Some(v) => v,
            None => return None,
        };
        let token = match r.text("token", 2) {
            Some(v) => v,
            None => return None,
        };
        let nonce = match r.unsigned("nonce", 3) {
            Some(v) => v,
            None => return None,
        };
        let pubkey = match r.text("pubkey", 4) {
            Some(v) => v,
            None => return None,
        };
        let difficulty = match r.unsigned("difficulty", 5) {
            Some(n) => Some(n),
            None => if r.unset("difficulty", 5) {
                None
            } else {
                return None
            },
        };
        Some(Submission { salt, exp, token, nonce, pubkey, difficulty })
    }
}

/// The difficulty that a submission is judged by: the echoed one, else the
/// configured one.
pub open spec fn judged_difficulty(s: SubmissionView, configured: u64) -> u64 {
    match s.difficulty {
        Some(n) => n,
        None => configured,
    }
}

/// The verdict on a submission.
pub open spec fn verdict_on(s: SubmissionView, cfg: Cfg, now: i64) -> Verdict {
    judged(
        cfg.key@,
        s.salt,
        s.exp,
        s.token,
        s.nonce,
        judged_difficulty(s, cfg.difficulty),
        now,
    )
}

/// The answer to a judged solution: a clearance for the public key that
/// came with an accepted one, and `400` otherwise.
pub open spec fn clearance_view(
    verdict: Verdict,
    pubkey: Seq<char>,
    cfg: Cfg,
    now: i64,
) -> ResponseView {
    match b64url_bytes(pubkey) {
        Some(pk) if verdict == Verdict::Accepted => bare(NO_CONTENT).with(
            "Set-Cookie"@,
            set_cookie_text(
                clearance_token(cfg.key@, granted(pk, now as int, cfg.clearance_ttl as int)),
                cfg.cookie,
            ),
        ),
        _ => bare(BAD_REQUEST),
    }
}

/// The answer to `POST {endpoint}verify` with `body`, `None` where it cannot be
/// read.
pub open spec fn verify_view(cfg: Cfg, body: Option<Seq<u8>>, now: i64) -> ResponseView {
    if !cfg.key_ok {
        bare(SERVICE_UNAVAILABLE)
    } else {
        match body {
            Some(doc) => match submission_of(doc) {
                Some(s) => clearance_view(verdict_on(s, cfg, now), s.pubkey, cfg, now),
                None => bare(BAD_REQUEST),
            },
            None => bare(BAD_REQUEST),
        }
    }
}

/// A clearance is minted for `body`.
pub open spec fn verify_mints(cfg: Cfg, body: Option<Seq<u8>>, now: i64) -> bool {
    cfg.key_ok && (body matches Some(doc) && (submission_of(doc) matches Some(s) && b64url_bytes(
        s.pubkey,
    ) is Some && verdict_on(s, cfg, now) == Verdict::Accepted))
}

/// The bytes of a body that was read.
pub open spec fn body_view(body: Option<&[u8]>) -> Option<Seq<u8>> {
    match body {
        Some(b) => Some(b@),
        None => None,
    }
}

/// Answer a judged solution: set the clearance cookie, or `400`.
///
/// A cookie that is set carries a token that is authentic under the key, for the
/// submitted public key, until the lifetime is over.
pub fn grant_clearance(verdict: Verdict, pubkey: &str, cfg: &Cfg, now: i64) -> (r: Response)
    requires
        verdict == Verdict::Accepted && b64url_bytes(pubkey@) is Some ==> expiry_fits(*cfg, now),
    ensures
        r@ == clearance_view(verdict, pubkey@, *cfg, now),
        r.status == NO_CONTENT ==> (b64url_bytes(pubkey@) matches Some(pk) && authentic(
            cfg.key@,
            clearance_token(cfg.key@, granted(pk, now as int, cfg.clearance_ttl as int)),
        ) == Some(granted(pk, now as int, cfg.clearance_ttl as int))),
{
    if verdict != Verdict::Accepted {
        return status_only(BAD_REQUEST);
    }
    let pk = match unb64url(pubkey) {
        Some(pk) => pk,
        None => return status_only(BAD_REQUEST),
    };
    let token = issue_clearance(cfg.key.as_slice(), pk.as_slice(), now, cfg.clearance_ttl);
    let set_cookie = build_set_cookie(token.as_str(), &cfg.cookie);
    status_only(NO_CONTENT).with_header("Set-Cookie", set_cookie.as_str())
}

/// `POST {endpoint}verify`, once the body is there: validate the solution, set the
/// clearance cookie. The difficulty is the one echoed from the challenge, which
/// the token authenticates, or the configured one where none is echoed.
///
/// No usable HMAC key: refuse to mint a clearance (it would be forgeable).
pub fn verify_body(cfg: &Cfg, body: Option<&[u8]>, now: i64) -> (r: Response)
    requires
        verify_mints(*cfg, body_view(body), now) ==> expiry_fits(*cfg, now),
    ensures
        r@ == verify_view(*cfg, body_view(body), now),
{
    if !cfg.key_ok {
        return status_only(SERVICE_UNAVAILABLE);
    }
    let doc = match body {
        Some(b) => b,
        None => return status_only(BAD_REQUEST),
    };
    let sub = match Submission::read(doc) {
        Some(s) => s,
        None => return status_only(BAD_REQUEST),
    };
    let difficulty: u64 = match sub.difficulty {
        Some(n) => n,
        None => cfg.difficulty,
    };
    let verdict = verify_solution(
        cfg.key.as_slice(),
        sub.salt.as_str(),
        sub.exp,
        sub.token.as_str(),
        sub.nonce,
        difficulty,
        now,
    );
    grant_clearance(verdict, sub.pubkey.as_str(), cfg, now)
}

/// Would a clearance be minted for `body`?
fn earns_clearance(cfg: &Cfg, body: Option<&[u8]>, now: i64) -> (r: bool)
    ensures
        r == verify_mints(*cfg, body_view(body), now),
{
    let doc = match body {
        Some(b) => b,
        None => return false,
    };
    let sub = match Submission::read(doc) {
        Some(s) => s,
        None => return false,
    };
    let difficulty: u64 = match sub.difficulty {
        Some(n) => n,
        None => cfg.difficulty,
    };
    cfg.key_ok && unb64url(sub.pubkey.as_str()).is_some() && verify_solution(
        cfg.key.as_slice(),
        sub.salt.as_str(),
        sub.exp,
        sub.token.as_str(),
        sub.nonce,
        difficulty,
        now,
    ) == Verdict::Accepted
}

/// [`verify_body`] for any time and lifetime: `None` where a clearance would be
/// minted whose expiry is out of the range of times.
pub fn verify_body_in_range(cfg: &Cfg, body: Option<&[u8]>, now: i64) -> (r: Option<Response>)
    ensures
        r matches Some(resp) ==> resp@ == verify_view(*cfg, body_view(body), now),
        r is None == (verify_mints(*cfg, body_view(body), now) && !expiry_fits(*cfg, now)),
{
    if now.checked_add(cfg.clearance_ttl).is_none() && earns_clearance(cfg, body, now) {
        return None;
    }
    Some(verify_body(cfg, body, now))
}

// -------------------------------------------------------------------- laws

/// Nothing is issued and nothing is granted without a usable key.
pub proof fn no_key_mints_nothing(cfg: Cfg, difficulty: u64, now: i64, raw: Seq<u8>, body: Option<
    Seq<u8>,
>)
    requires
        !cfg.key_ok,
    ensures
        challenge_view(cfg, difficulty, now, raw) == bare(SERVICE_UNAVAILABLE),
        verify_view(cfg, body, now) == bare(SERVICE_UNAVAILABLE),
{
}

/// A clearance is granted only for a solution of a challenge that was issued
/// under the key, with the difficulty that it was issued with, and is not expired.
pub proof fn clearance_takes_a_solution(cfg: Cfg, body: Option<Seq<u8>>, now: i64)
    requires
        verify_view(cfg, body, now).status == NO_CONTENT,
    ensures
        cfg.key_ok,
        body matches Some(doc) && (submission_of(doc) matches Some(s) && ({
            let d = judged_difficulty(s, cfg.difficulty);
            &&& s.token == token_for(cfg.key@, s.salt, s.exp, d)
            &&& now < s.exp
            &&& crate::target::is_solution(s.salt, s.nonce, d)
        })),
{
}

/// A solved challenge is cleared: the values that a challenge came with, a nonce
/// that solves it in time, and a public key that decodes are answered with a
/// clearance.
pub proof fn solved_challenges_are_cleared(
    cfg: Cfg,
    doc: Seq<u8>,
    s: SubmissionView,
    issued: i64,
    now: i64,
)
    requires
        cfg.key_ok,
        submission_of(doc) == Some(s),
        s.exp == issued + CHALLENGE_GRACE,
        s.token == token_for(cfg.key@, s.salt, s.exp, judged_difficulty(s, cfg.difficulty)),
        now < issued + CHALLENGE_GRACE,
        crate::target::is_solution(s.salt, s.nonce, judged_difficulty(s, cfg.difficulty)),
        b64url_bytes(s.pubkey) is Some,
    ensures
        verify_view(cfg, Some(doc), now).status == NO_CONTENT,
{
}

/// A submission is judged at the difficulty that it echoes, whatever that is, and at
/// the configured one where it echoes none: it is cleared exactly when its token is
/// the one for that difficulty, it comes in time, and its nonce solves that
/// difficulty. Any other is a bad request, and sets no cookie.
pub proof fn submissions_are_judged_as_echoed(
    cfg: Cfg,
    doc: Seq<u8>,
    s: SubmissionView,
    d: u64,
    now: i64,
)
    requires
        cfg.key_ok,
        submission_of(doc) == Some(s),
        b64url_bytes(s.pubkey) is Some,
        s.difficulty == Some(d) || s.difficulty is None && d == cfg.difficulty,
    ensures
        ({
            let r = verify_view(cfg, Some(doc), now);
            let solved = s.token == token_for(cfg.key@, s.salt, s.exp, d) && now < s.exp
                && crate::target::is_solution(s.salt, s.nonce, d);
            &&& solved ==> r.status == 204 && r.body.len() == 0
            &&& !solved ==> r.status == 400 && r.headers.len() == 0
        }),
{
}

/// What is submitted in any other way is a bad request, and sets no cookie: nothing,
/// what is no submission, and a public key that does not decode.
pub proof fn other_submissions_are_bad_requests(cfg: Cfg, body: Option<Seq<u8>>, now: i64)
    requires
        cfg.key_ok,
        body is None || submission_of(body->0) is None || b64url_bytes(
            submission_of(body->0)->0.pubkey,
        ) is None,
    ensures
        verify_view(cfg, body, now).status == 400,
        verify_view(cfg, body, now).headers.len() == 0,
{
}

/// The cookie that an accepted submission sets is a clearance for the very public key
/// that was submitted, from now on and for the configured lifetime.
pub proof fn clearances_are_for_the_submitted_key(
    cfg: Cfg,
    doc: Seq<u8>,
    s: SubmissionView,
    pk: Seq<u8>,
    now: i64,
)
    requires
        submission_of(doc) == Some(s),
        b64url_bytes(s.pubkey) == Some(pk),
        verify_view(cfg, Some(doc), now).status == 204,
    ensures
        verify_view(cfg, Some(doc), now).headers == seq![
            (
                "Set-Cookie"@,
                set_cookie_text(
                    clearance_token(
                        cfg.key@,
                        (ClearanceView {
                            pk: b64url_text(pk),
                            iat: now as int,
                            exp: now + cfg.clearance_ttl,
                        }),
                    ),
                    cfg.cookie,
                ),
            ),
        ],
{
    assert(verify_view(cfg, Some(doc), now).headers =~= seq![
        (
            "Set-Cookie"@,
            set_cookie_text(
                clearance_token(cfg.key@, granted(pk, now as int, cfg.clearance_ttl as int)),
                cfg.cookie,
            ),
        ),
    ]);
}

/// A submission is read field by field: a record in which each of the five fields is
/// given once, with a value of its kind, and the difficulty once or not at all, is
/// the submission of just these values.
pub proof fn submissions_are_read_by_field(
    doc: Seq<u8>,
    r: RecordView,
    salt: Seq<char>,
    exp: i64,
    token: Seq<char>,
    nonce: u64,
    pubkey: Seq<char>,
)
    requires
        record_of(doc, 6) == Some(r),
        r.text("salt"@, 0) == Some(salt),
        r.signed("exp"@, 1) == Some(exp),
        r.text("token"@, 2) == Some(token),
        r.unsigned("nonce"@, 3) == Some(nonce),
        r.text("pubkey"@, 4) == Some(pubkey),
    ensures
        r.unsigned("difficulty"@, 5) matches Some(d) ==> submission_of(doc) == Some(
            SubmissionView { salt, exp, token, nonce, pubkey, difficulty: Some(d) },
        ),
        r.values("difficulty"@, 5).len() == 0 ==> submission_of(doc) == Some(
            SubmissionView { salt, exp, token, nonce, pubkey, difficulty: None },
        ),
{
}

/// The challenge endpoint answers every draw, at every difficulty, with a challenge
/// for that draw and that difficulty which can be solved for two minutes from now.
pub proof fn challenges_are_fresh(cfg: Cfg, difficulty: u64, now: i64, raw: Seq<u8>)
    requires
        cfg.key_ok,
        now + 120 <= i64::MAX,
    ensures
        ({
            let r = challenge_view(cfg, difficulty, now, raw);
            let salt = hex_text(raw);
            let exp = (now + 120) as i64;
            &&& r.status == 200
            &&& r.content_type == "application/json"@
            &&& r.headers.len() == 0
            &&& r.body == encode_utf8(
                object(
                    seq![
                        member("salt"@, json_string(salt)),
                        member("exp"@, decimal(now + 120)),
                        member("difficulty"@, decimal(difficulty as int)),
                        member(
                            "token"@,
                            json_string(token_for(cfg.key@, salt, exp, difficulty)),
                        ),
                    ],
                ),
            )
        }),
{
}

/// A clearance is minted exactly where a submission is answered with success.
pub proof fn clearances_are_minted_on_success(cfg: Cfg, body: Option<Seq<u8>>, now: i64)
    ensures
        verify_mints(cfg, body, now) <==> verify_view(cfg, body, now).status == 204,
{
}

/// A bare response has no body and no further header fields.
pub proof fn bare_responses_are_empty(status: u16)
    ensures
        bare(status).status == status,
        bare(status).content_type == "text/plain"@,
        bare(status).headers.len() == 0,
        bare(status).body.len() == 0,
{
}

/// The endpoint answers every draw: with a challenge exactly when there were bytes, at
/// every difficulty, and it is the one for these bytes.
pub proof fn the_endpoint_answers_every_draw(
    drawn: Option<[u8; 16]>,
    r: Option<Response>,
    cfg: Cfg,
    difficulty: u64,
    now: i64,
)
    requires
        is_endpoint_answer(drawn, r, cfg, difficulty, now),
    ensures
        drawn is Some <==> r is Some,
        drawn matches Some(raw) ==> (r matches Some(resp) && resp@ == challenge_view(
            cfg,
            difficulty,
            now,
            raw@,
        )),
{
}

} // verus!
