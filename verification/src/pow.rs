//! Challenge issuance and solution verification: the stateless PoW handshake.
//!
//! The server keeps **no per-challenge state**. It binds the random `salt`, the
//! expiry and the difficulty to itself with an HMAC `token`; at verify time it
//! re-derives that token to confirm the three are ones it issued together and
//! unexpired, then checks the hash. The client echoes the difficulty, but cannot
//! choose it: echoing any other value than the one issued fails the token check.

use crate::codec::{all_b64url, b64url, b64url_bytes, b64url_text, hex, hex_text};
use crate::json::{record_of, Record};
use crate::mac::{ct_eq, hmac, hmac_tag};
use crate::number::{decimal, decimal_i64, decimal_injective, decimal_u64, lemma_decimal_lacks};
use crate::target::{is_solution, solution_valid};
use crate::text::{lemma_rsplit_once_joined, lemma_utf8_injective, rsplit_once};
use vstd::prelude::*;
use vstd::string::{StrSliceExecFns, StringExecFns};
use vstd::utf8::encode_utf8;

verus! {

/// What `GET {endpoint}challenge` returns to the browser.
#[derive(Debug, Clone)]
pub struct Challenge {
    /// Random per-request salt (hex).
    pub salt: String,
    /// Unix seconds after which a solution is rejected.
    pub exp: i64,
    /// Expected-hash count; the browser derives the same target from it.
    pub difficulty: u64,
    /// HMAC binding `salt`, `exp` and `difficulty` to the server (opaque to the
    /// client).
    pub token: String,
}

/// What a [`Challenge`] says.
pub struct ChallengeView {
    pub salt: Seq<char>,
    pub exp: i64,
    pub difficulty: u64,
    pub token: Seq<char>,
}

impl View for Challenge {
    type V = ChallengeView;

    open spec fn view(&self) -> ChallengeView {
        ChallengeView {
            salt: self.salt@,
            exp: self.exp,
            difficulty: self.difficulty,
            token: self.token@,
        }
    }
}

/// The challenge that a JSON document holds, if it has the four fields.
pub open spec fn challenge_of(doc: Seq<u8>) -> Option<ChallengeView> {
    match record_of(doc, 4) {
        Some(r) => match (
            r.text("salt"@, 0),
            r.signed("exp"@, 1),
            r.unsigned("difficulty"@, 2),
            r.text("token"@, 3),
        ) {
            (Some(salt), Some(exp), Some(difficulty), Some(token)) => Some(
                ChallengeView { salt, exp, difficulty, token },
            ),
            _ => None,
        },
        None => None,
    }
}

impl Challenge {
    /// The challenge that a JSON document holds, if it has the four fields.
    pub fn read(doc: &[u8]) -> (r: Option<Challenge>)
        ensures
            match (r, challenge_of(doc@)) {
                (None, None) => true,
                (Some(a), Some(b)) => a@ == b,
                _ => false,
            },
    {
        let r = match Record::read(doc, 4) {
            Some(r) => r,
            None => return None,
        };
        let salt = match r.text("salt", 0) {
            Some(v) => v,
            None => return None,
        };
        let exp = match r.signed("exp", 1) {
            Some(v) => v,
            None => return None,
        };
        let difficulty = match r.unsigned("difficulty", 2) {
            Some(v) => v,
            None => return None,
        };
        let token = match r.text("token", 3) {
            Some(v) => v,
            None => return None,
        };
        Some(Challenge { salt, exp, difficulty, token })
    }
}

/// What the salt, the expiry and the difficulty are bound under.
pub open spec fn binding_text(salt: Seq<char>, exp: i64, difficulty: u64) -> Seq<char> {
    (salt.push('|') + decimal(exp as int)).push('|') + decimal(difficulty as int)
}

/// The token for a salt, an expiry and a difficulty under `key`.
pub open spec fn token_for(key: Seq<u8>, salt: Seq<char>, exp: i64, difficulty: u64) -> Seq<char> {
    b64url_text(hmac_tag(key, encode_utf8(binding_text(salt, exp, difficulty))))
}

/// `token` decodes to the HMAC of a salt, an expiry and a difficulty under `key`.
pub open spec fn decodes_to_tag(
    key: Seq<u8>,
    token: Seq<char>,
    salt: Seq<char>,
    exp: i64,
    difficulty: u64,
) -> bool {
    b64url_bytes(token) == Some(hmac_tag(key, encode_utf8(binding_text(salt, exp, difficulty))))
}

/// `c` is the challenge that `key` binds for the sixteen random bytes `raw`.
pub open spec fn is_challenge(
    c: Challenge,
    key: Seq<u8>,
    raw: Seq<u8>,
    difficulty: u64,
    exp: int,
) -> bool {
    &&& c.salt@ == hex_text(raw)
    &&& c.exp == exp
    &&& c.difficulty == difficulty
    &&& c.token@ == token_for(key, c.salt@, c.exp, difficulty)
}

/// What the salt, the expiry and the difficulty are bound under. Kept private
/// and stable so issue and verify always agree.
fn binding(salt: &str, exp: i64, difficulty: u64) -> (bytes: Vec<u8>)
    ensures
        bytes@ == encode_utf8(binding_text(salt@, exp, difficulty)),
{
    let mut s = salt.to_owned();
    s.push('|');
    s.append(decimal_i64(exp).as_str());
    s.push('|');
    s.append(decimal_u64(difficulty).as_str());
    s.as_str().as_bytes_vec()
}

/// `getrandom::getrandom` into sixteen bytes: `None` when the operating system
/// has no random bytes to give. Nothing is claimed of the bytes.
#[verifier::external_body]
fn random_bytes() -> (r: Option<[u8; 16]>) {
    let mut raw = [0u8; 16];
    getrandom::getrandom(&mut raw).ok()?;
    Some(raw)
}

/// `drawn` is what a call for random bytes may return.
pub closed spec fn drawable(drawn: Option<[u8; 16]>) -> bool {
    call_ensures(random_bytes, (), drawn)
}

/// What becomes of a draw: a challenge for sixteen bytes, none for none.
pub open spec fn is_answer_to_draw(
    drawn: Option<[u8; 16]>,
    r: Option<Challenge>,
    key: Seq<u8>,
    difficulty: u64,
    exp: int,
) -> bool {
    match (drawn, r) {
        (Some(raw), Some(c)) => is_challenge(c, key, raw@, difficulty, exp),
        (None, None) => true,
        _ => false,
    }
}

/// The challenge for sixteen random bytes.
pub fn issue_from(key: &[u8], raw: &[u8; 16], difficulty: u64, now: i64, ttl: i64) -> (c: Challenge)
    requires
        i64::MIN <= now + ttl <= i64::MAX,
    ensures
        is_challenge(c, key@, raw@, difficulty, now + ttl),
        all_b64url(c.token@),
        decodes_to_tag(key@, c.token@, c.salt@, c.exp, c.difficulty),
{
    let salt = hex(raw);
    let exp: i64 = now + ttl;
    let token = b64url(&hmac(key, binding(salt.as_str(), exp, difficulty).as_slice()));
    Challenge { salt, exp, difficulty, token }
}

/// The challenge for what was drawn from the operating system: that of
/// [`issue_from`] for sixteen bytes, none where there were no bytes to give.
pub fn issue_with(
    key: &[u8],
    drawn: Option<[u8; 16]>,
    difficulty: u64,
    now: i64,
    ttl: i64,
) -> (r: Option<Challenge>)
    requires
        i64::MIN <= now + ttl <= i64::MAX,
    ensures
        match (drawn, r) {
            (Some(raw), Some(c)) => {
                &&& is_challenge(c, key@, raw@, difficulty, now + ttl)
                &&& all_b64url(c.token@)
                &&& decodes_to_tag(key@, c.token@, c.salt@, c.exp, c.difficulty)
            },
            (None, None) => true,
            _ => false,
        },
{
    match drawn {
        Some(raw) => Some(issue_from(key, &raw, difficulty, now, ttl)),
        None => None,
    }
}

/// Issue a fresh challenge. `now` and `ttl` are seconds; `ttl` bounds how long the
/// client has to solve (defeats precomputation). `None` when, and only when, the
/// operating system gave no random bytes; [`issue_with`] says what becomes of each
/// draw.
pub fn issue(key: &[u8], difficulty: u64, now: i64, ttl: i64) -> (r: Option<Challenge>)
    requires
        i64::MIN <= now + ttl <= i64::MAX,
    ensures
        r matches Some(c) ==> exists|raw: [u8; 16]|
            is_challenge(c, key@, #[trigger] raw@, difficulty, now + ttl),
        r matches Some(c) ==> all_b64url(c.token@),
        r matches Some(c) ==> decodes_to_tag(key@, c.token@, c.salt@, c.exp, c.difficulty),
        exists|drawn: Option<[u8; 16]>| #[trigger]
            drawable(drawn) && is_answer_to_draw(drawn, r, key@, difficulty, now + ttl),
{
    let drawn = random_bytes();
    assert(drawable(drawn));
    issue_with(key, drawn, difficulty, now, ttl)
}

/// Outcome of verifying a submitted solution.
#[derive(Debug, Clone, Copy, PartialEq, Eq, Structural)]
pub enum Verdict {
    Accepted,
    Expired,
    BadToken,
    WrongSolution,
}

/// The verdict on a submission: the token first, then the expiry, then the hash.
pub open spec fn judged(
    key: Seq<u8>,
    salt: Seq<char>,
    exp: i64,
    token: Seq<char>,
    nonce: u64,
    difficulty: u64,
    now: i64,
) -> Verdict {
    if token != token_for(key, salt, exp, difficulty) {
        Verdict::BadToken
    } else if exp <= now {
        Verdict::Expired
    } else if !is_solution(salt, nonce, difficulty) {
        Verdict::WrongSolution
    } else {
        Verdict::Accepted
    }
}

/// The verdict, once it is known whether the token is the one issued and whether
/// the hash is below the target.
pub fn judge(authentic: bool, exp: i64, solved: bool, now: i64) -> (v: Verdict)
    ensures
        v == (if !authentic {
            Verdict::BadToken
        } else if exp <= now {
            Verdict::Expired
        } else if !solved {
            Verdict::WrongSolution
        } else {
            Verdict::Accepted
        }),
{
    if !authentic {
        return Verdict::BadToken;
    }
    if exp <= now {
        return Verdict::Expired;
    }
    if !solved {
        return Verdict::WrongSolution;
    }
    Verdict::Accepted
}

/// Verify a submitted solution against a challenge the server issued.
///
/// `difficulty` is the value the challenge was issued with; the token
/// authenticates it together with `salt` and `exp`. All of: token authentic, not
/// expired, and hash below target.
pub fn verify_solution(
    key: &[u8],
    salt: &str,
    exp: i64,
    token: &str,
    nonce: u64,
    difficulty: u64,
    now: i64,
) -> (v: Verdict)
    ensures
        v == judged(key@, salt@, exp, token@, nonce, difficulty, now),
        v != Verdict::BadToken ==> decodes_to_tag(key@, token@, salt@, exp, difficulty),
{
    let expect = b64url(&hmac(key, binding(salt, exp, difficulty).as_slice()));
    let authentic = ct_eq(expect.as_str().as_bytes(), token.as_bytes());
    proof {
        if authentic {
            lemma_utf8_injective(expect@, token@);
        }
    }
    if !authentic || exp <= now {
        return judge(authentic, exp, false, now);
    }
    judge(true, exp, solution_valid(salt, nonce, difficulty), now)
}

// -------------------------------------------------------------------- laws

/// A challenge is honoured as issued: submitted back with its own salt, expiry,
/// difficulty and token, it is refused only for its age or for the nonce.
pub proof fn issued_challenges_are_honoured(
    c: Challenge,
    key: Seq<u8>,
    raw: Seq<u8>,
    difficulty: u64,
    exp: int,
    nonce: u64,
    now: i64,
)
    requires
        is_challenge(c, key, raw, difficulty, exp),
    ensures
        judged(key, c.salt@, c.exp, c.token@, nonce, c.difficulty, now) == (if exp <= now {
            Verdict::Expired
        } else if !is_solution(c.salt@, nonce, difficulty) {
            Verdict::WrongSolution
        } else {
            Verdict::Accepted
        }),
{
}

/// A challenge is honoured with its own token alone: submitted with any other it is
/// refused, whatever the time and the nonce.
pub proof fn foreign_tokens_are_refused(
    c: Challenge,
    key: Seq<u8>,
    raw: Seq<u8>,
    difficulty: u64,
    exp: int,
    token: Seq<char>,
    nonce: u64,
    now: i64,
)
    requires
        is_challenge(c, key, raw, difficulty, exp),
        token != c.token@,
    ensures
        judged(key, c.salt@, c.exp, token, nonce, c.difficulty, now) == Verdict::BadToken,
{
}

/// A challenge is honoured for its own values alone: submitted with another salt,
/// another expiry or another difficulty its token is refused, whatever the time and
/// the nonce, unless the MAC gives two messages one tag text.
pub proof fn changed_challenges_are_refused(
    c: Challenge,
    key: Seq<u8>,
    raw: Seq<u8>,
    difficulty: u64,
    exp: int,
    other: (Seq<char>, i64, u64),
    nonce: u64,
    now: i64,
)
    requires
        is_challenge(c, key, raw, difficulty, exp),
        other != (c.salt@, c.exp, c.difficulty),
    ensures
        ({
            ||| judged(key, other.0, other.1, c.token@, nonce, other.2, now) == Verdict::BadToken
            ||| exists|a: Seq<u8>, b: Seq<u8>|
                a != b && b64url_text(#[trigger] hmac_tag(key, a)) == b64url_text(
                    #[trigger] hmac_tag(key, b),
                )
        }),
{
    let a = encode_utf8(binding_text(c.salt@, c.exp, c.difficulty));
    let b = encode_utf8(binding_text(other.0, other.1, other.2));
    if a == b {
        binding_is_unambiguous(c.salt@, c.exp, c.difficulty, other.0, other.1, other.2);
    }
    if c.token@ == token_for(key, other.0, other.1, other.2) {
        assert(b64url_text(hmac_tag(key, a)) == b64url_text(hmac_tag(key, b)));
    }
}

/// A token that is good for two challenges would show two messages with one HMAC:
/// [`issue_from`] and [`verify_solution`] say that a good token decodes to the HMAC of
/// its message.
pub proof fn a_token_for_two_is_a_collision(
    key: Seq<u8>,
    token: Seq<char>,
    one: (Seq<char>, i64, u64),
    other: (Seq<char>, i64, u64),
)
    requires
        one != other,
        decodes_to_tag(key, token, one.0, one.1, one.2),
        decodes_to_tag(key, token, other.0, other.1, other.2),
    ensures
        exists|a: Seq<u8>, b: Seq<u8>| a != b && #[trigger] hmac_tag(key, a) == #[trigger] hmac_tag(key, b),
{
    let a = encode_utf8(binding_text(one.0, one.1, one.2));
    let b = encode_utf8(binding_text(other.0, other.1, other.2));
    if a == b {
        binding_is_unambiguous(one.0, one.1, one.2, other.0, other.1, other.2);
    }
    assert(hmac_tag(key, a) == hmac_tag(key, b));
}

/// The message under the token determines salt, expiry and difficulty, so that a
/// token is never good for a difficulty, an expiry or a salt other than those it
/// was issued for unless the MAC itself repeats on another message.
pub proof fn binding_is_unambiguous(
    salt1: Seq<char>,
    exp1: i64,
    difficulty1: u64,
    salt2: Seq<char>,
    exp2: i64,
    difficulty2: u64,
)
    requires
        encode_utf8(binding_text(salt1, exp1, difficulty1)) == encode_utf8(
            binding_text(salt2, exp2, difficulty2),
        ),
    ensures
        salt1 == salt2,
        exp1 == exp2,
        difficulty1 == difficulty2,
{
    let a = binding_text(salt1, exp1, difficulty1);
    let b = binding_text(salt2, exp2, difficulty2);
    lemma_utf8_injective(a, b);
    lemma_decimal_lacks(difficulty1 as int, '|');
    lemma_decimal_lacks(difficulty2 as int, '|');
    lemma_decimal_lacks(exp1 as int, '|');
    lemma_decimal_lacks(exp2 as int, '|');
    let h1 = salt1.push('|') + decimal(exp1 as int);
    let h2 = salt2.push('|') + decimal(exp2 as int);
    lemma_rsplit_once_joined(h1, '|', decimal(difficulty1 as int));
    lemma_rsplit_once_joined(h2, '|', decimal(difficulty2 as int));
    assert(rsplit_once(a, '|') == rsplit_once(b, '|'));
    lemma_rsplit_once_joined(salt1, '|', decimal(exp1 as int));
    lemma_rsplit_once_joined(salt2, '|', decimal(exp2 as int));
    decimal_injective(difficulty1 as int, difficulty2 as int);
    decimal_injective(exp1 as int, exp2 as int);
}

/// A token is the HMAC of the salt, the expiry and the difficulty in full, with bars
/// between them.
pub proof fn tokens_bind_the_whole_challenge(key: Seq<u8>, salt: Seq<char>, exp: i64, difficulty: u64)
    ensures
        token_for(key, salt, exp, difficulty) == b64url_text(
            hmac_tag(
                key,
                encode_utf8(salt + "|"@ + decimal(exp as int) + "|"@ + decimal(difficulty as int)),
            ),
        ),
{
    reveal_strlit("|");
    assert(salt + "|"@ + decimal(exp as int) + "|"@ + decimal(difficulty as int) =~= binding_text(
        salt,
        exp,
        difficulty,
    ));
}

/// An issued challenge is the one for its draw: its salt is the draw in hexadecimal,
/// its expiry and its difficulty are those asked for.
pub proof fn challenges_are_for_their_draw(
    c: Challenge,
    key: Seq<u8>,
    raw: Seq<u8>,
    difficulty: u64,
    exp: int,
)
    requires
        is_challenge(c, key, raw, difficulty, exp),
    ensures
        c.salt@ == hex_text(raw),
        c.exp == exp,
        c.difficulty == difficulty,
        c.token@ == token_for(key, hex_text(raw), c.exp, difficulty),
{
}

/// A draw is what the call for random bytes returned, and no other value.
proof fn draws_come_from_the_call(drawn: Option<[u8; 16]>)
    ensures
        drawable(drawn) <==> call_ensures(random_bytes, (), drawn),
{
}

/// Every draw is answered: a challenge is issued exactly when there were bytes, at
/// every difficulty, and it is the one for these bytes.
pub proof fn every_draw_is_answered(
    drawn: Option<[u8; 16]>,
    r: Option<Challenge>,
    key: Seq<u8>,
    difficulty: u64,
    exp: int,
)
    requires
        is_answer_to_draw(drawn, r, key, difficulty, exp),
    ensures
        drawn is Some <==> r is Some,
        drawn matches Some(raw) ==> (r matches Some(c) && c.salt@ == hex_text(raw@) && c.exp == exp
            && c.difficulty == difficulty && c.token@ == token_for(
            key,
            hex_text(raw@),
            c.exp,
            difficulty,
        )),
{
}

} // verus!
