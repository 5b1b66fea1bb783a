//! Parsing of `pow_gate_decision` values: the per-request verdict string the
//! operator produces with a native `map`.
//!
//! Grammar (first form that matches wins; anything unparsable falls back to the
//! default JS challenge, so that a typo in a `map` lets nobody in):
//!
//! ```text
//!   allow                    pass to upstream
//!   deny                     403
//!   verify:<name>            good-bot verifier (IP ranges / FCrDNS)
//!   challenge                JS proof-of-work, configured difficulty
//!   challenge:<N>            JS proof-of-work, difficulty N for this client
//!   challenge:js             JS execution proof only (difficulty 1: the
//!                            keypair + verify roundtrip is the whole test)
//!   challenge:nojs           no-JS meta-refresh challenge, default delay
//!   challenge:nojs:<secs>    no-JS meta-refresh challenge, explicit delay
//! ```

use crate::number::{
    decimal, read_signed, read_unsigned, signed_number, signed_read_back, unsigned_number,
    unsigned_read_back,
};
use crate::text::{
    chars, has_prefix, lemma_split_once_at, lemma_split_once_joined, lemma_split_once_shorter, position, same,
    same_chars, split_once, starts_with,
};
use vstd::prelude::*;
use vstd::slice::slice_subrange;
use vstd::string::StrSliceExecFns;

verus! {

/// Default wait (seconds) for the no-JS meta-refresh challenge.
pub const NOJS_DEFAULT_DELAY: i64 = 2;

/// Lower bound for the operator-chosen no-JS delay.
pub const NOJS_MIN_DELAY: i64 = 1;

/// Upper bound for the operator-chosen no-JS delay.
pub const NOJS_MAX_DELAY: i64 = 30;

/// A parsed `pow_gate_decision` value.
#[derive(Debug, Clone, PartialEq, Eq)]
pub enum Decision<'a> {
    /// JS proof-of-work challenge. `difficulty` overrides the configured value
    /// for this client when set (`challenge:<N>` / `challenge:js`).
    Challenge { difficulty: Option<u64> },
    /// No-JS meta-refresh challenge with a `delay`-second minimum wait.
    ChallengeNoJs { delay: i64 },
    Allow,
    Deny,
    /// Good-bot verifier by name.
    Verify(&'a str),
}

/// What a [`Decision`] says.
pub enum DecisionView {
    Challenge { difficulty: Option<nat> },
    ChallengeNoJs { delay: int },
    Allow,
    Deny,
    Verify(Seq<char>),
}

impl<'a> View for Decision<'a> {
    type V = DecisionView;

    open spec fn view(&self) -> DecisionView {
        match self {
            Decision::Challenge { difficulty: Some(n) } => DecisionView::Challenge {
                difficulty: Some(*n as nat),
            },
            Decision::Challenge { difficulty: None } => DecisionView::Challenge {
                difficulty: None,
            },
            Decision::ChallengeNoJs { delay } => DecisionView::ChallengeNoJs {
                delay: *delay as int,
            },
            Decision::Allow => DecisionView::Allow,
            Decision::Deny => DecisionView::Deny,
            Decision::Verify(name) => DecisionView::Verify(name@),
        }
    }
}

/// The default challenge, at the configured difficulty.
pub open spec fn default_challenge() -> DecisionView {
    DecisionView::Challenge { difficulty: None }
}

/// `n` held to the bounds of the no-JS delay.
pub open spec fn clamped(n: int) -> int {
    if n < NOJS_MIN_DELAY {
        NOJS_MIN_DELAY as int
    } else if n > NOJS_MAX_DELAY {
        NOJS_MAX_DELAY as int
    } else {
        n
    }
}

/// The meaning of what follows `challenge:`.
pub open spec fn challenge_meaning(arg: Seq<char>) -> DecisionView {
    if arg == "js"@ {
        DecisionView::Challenge { difficulty: Some(1) }
    } else if arg == "nojs"@ {
        DecisionView::ChallengeNoJs { delay: NOJS_DEFAULT_DELAY as int }
    } else if starts_with(arg, "nojs:"@) {
        DecisionView::ChallengeNoJs {
            delay: match signed_number(arg.skip(5)) {
                Some(n) => clamped(n),
                None => NOJS_DEFAULT_DELAY as int,
            },
        }
    } else {
        match unsigned_number(arg, u64::MAX as nat) {
            Some(n) => DecisionView::Challenge {
                difficulty: Some(
                    if n == 0 {
                        1
                    } else {
                        n
                    },
                ),
            },
            None => default_challenge(),
        }
    }
}

/// The meaning of a decision string.
pub open spec fn meaning(s: Seq<char>) -> DecisionView {
    if s == "allow"@ {
        DecisionView::Allow
    } else if s == "deny"@ {
        DecisionView::Deny
    } else {
        match split_once(s, ':') {
            Some((verb, arg)) => if verb == "verify"@ && arg.len() > 0 {
                DecisionView::Verify(arg)
            } else if verb == "challenge"@ {
                challenge_meaning(arg)
            } else {
                default_challenge()
            },
            None => default_challenge(),
        }
    }
}

fn parse_challenge(arg: &[char]) -> (d: Decision<'static>)
    ensures
        d@ == challenge_meaning(arg@),
{
    let js = chars("js");
    let nojs = chars("nojs");
    let nojs_secs = chars("nojs:");
    if same_chars(arg, js.as_slice()) {
        return Decision::Challenge { difficulty: Some(1) };
    }
    if same_chars(arg, nojs.as_slice()) {
        return Decision::ChallengeNoJs { delay: NOJS_DEFAULT_DELAY };
    }
    if has_prefix(arg, nojs_secs.as_slice()) {
        proof {
            reveal_strlit("nojs:");
        }
        let secs = slice_subrange(arg, 5, arg.len());
        assert(secs@ =~= arg@.skip(5));
        let delay: i64 = match read_signed(secs) {
            Some(n) => if n < NOJS_MIN_DELAY {
                NOJS_MIN_DELAY
            } else if n > NOJS_MAX_DELAY {
                NOJS_MAX_DELAY
            } else {
                n
            },
            None => NOJS_DEFAULT_DELAY,
        };
        return Decision::ChallengeNoJs { delay };
    }
    match read_unsigned(arg, u64::MAX) {
        Some(n) => Decision::Challenge {
            difficulty: Some(
                if n == 0 {
                    1
                } else {
                    n
                },
            ),
        },
        None => Decision::Challenge { difficulty: None },
    }
}

impl<'a> Decision<'a> {
    /// Parse a decision string. Unknown or malformed values become the default
    /// challenge: fail safe, never fail open.
    pub fn parse(s: &'a str) -> (d: Decision<'a>)
        ensures
            d@ == meaning(s@),
    {
        if same(s, "allow") {
            return Decision::Allow;
        }
        if same(s, "deny") {
            return Decision::Deny;
        }
        let all = chars(s);
        let i = position(all.as_slice(), ':');
        if i == all.len() {
            return Decision::Challenge { difficulty: None };
        }
        proof {
            lemma_split_once_at(s@, ':', i as int);
        }
        let verb = slice_subrange(all.as_slice(), 0, i);
        let arg = slice_subrange(all.as_slice(), i + 1, all.len());
        assert(verb@ =~= s@.take(i as int));
        assert(arg@ =~= s@.skip(i + 1));
        let verify = chars("verify");
        let challenge = chars("challenge");
        if same_chars(verb, verify.as_slice()) && arg.len() > 0 {
            return Decision::Verify(s.substring_char(i + 1, all.len()));
        }
        if same_chars(verb, challenge.as_slice()) {
            return parse_challenge(arg);
        }
        Decision::Challenge { difficulty: None }
    }
}

// -------------------------------------------------------------------- laws

/// Only the word `allow` lets a client through unseen, and only `verify:` with a
/// name hands it to a verifier: every other text is a challenge or a refusal.
pub proof fn only_allow_opens(s: Seq<char>)
    ensures
        meaning(s) is Allow ==> s == "allow"@,
        meaning(s) matches DecisionView::Verify(name) ==> s == "verify:"@ + name && name.len() > 0,
        meaning(s) is Deny ==> s == "deny"@,
{
    lemma_split_once_shorter(s, ':');
    reveal_strlit("verify");
    reveal_strlit("verify:");
    if let DecisionView::Verify(name) = meaning(s) {
        assert("verify"@.push(':') =~= "verify:"@);
    }
}

/// Whatever the operator writes, the difficulty of a challenge is at least one
/// and the delay of a no-JS challenge is within its bounds.
pub proof fn challenges_are_bounded(s: Seq<char>)
    ensures
        meaning(s) matches DecisionView::Challenge { difficulty: Some(n) } ==> 1 <= n <= u64::MAX,
        meaning(s) matches DecisionView::ChallengeNoJs { delay } ==> NOJS_MIN_DELAY <= delay
            <= NOJS_MAX_DELAY,
{
}

/// Every text without a `:` other than `allow` and `deny` is the default challenge:
/// no text at all, the word `challenge` alone, or a typing error.
pub proof fn unknown_words_are_challenged(s: Seq<char>)
    requires
        !s.contains(':'),
        s != "allow"@,
        s != "deny"@,
    ensures
        meaning(s) == default_challenge(),
{
    lemma_split_once_shorter(s, ':');
}

/// The words mean what they say.
pub proof fn words_mean_what_they_say()
    ensures
        meaning("allow"@) is Allow,
        meaning("deny"@) is Deny,
        meaning("challenge"@) == (DecisionView::Challenge { difficulty: None }),
        meaning("challenge:js"@) == (DecisionView::Challenge { difficulty: Some(1) }),
        meaning("challenge:nojs"@) == (DecisionView::ChallengeNoJs { delay: 2 }),
{
    reveal_strlit("allow");
    reveal_strlit("deny");
    reveal_strlit("challenge");
    reveal_strlit("challenge:js");
    reveal_strlit("challenge:nojs");
    reveal_strlit("js");
    reveal_strlit("nojs");
    reveal_strlit("verify");
    assert("allow"@.len() == 5 && "deny"@.len() == 4 && "challenge"@.len() == 9);
    unknown_words_are_challenged("challenge"@);
    lemma_challenge_arg("js"@);
    assert("challenge:js"@ =~= "challenge"@.push(':') + "js"@);
    lemma_challenge_arg("nojs"@);
    assert("challenge:nojs"@ =~= "challenge"@.push(':') + "nojs"@);
    assert("js"@.len() == 2 && "nojs"@.len() == 4);
}

/// `verify:` with a name hands the client to the verifier of that very name.
pub proof fn named_verifiers_are_asked(name: Seq<char>)
    requires
        name.len() > 0,
    ensures
        meaning("verify:"@ + name) == DecisionView::Verify(name),
{
    reveal_strlit("verify:");
    reveal_strlit("verify");
    reveal_strlit("allow");
    reveal_strlit("deny");
    let s = "verify:"@ + name;
    assert(s =~= "verify"@.push(':') + name);
    assert(s[0] == 'v' && "allow"@[0] == 'a' && "deny"@[0] == 'd');
    lemma_split_once_joined("verify"@, ':', name);
}

proof fn lemma_challenge_arg(arg: Seq<char>)
    ensures
        meaning("challenge"@.push(':') + arg) == challenge_meaning(arg),
{
    reveal_strlit("challenge");
    reveal_strlit("verify");
    reveal_strlit("allow");
    reveal_strlit("deny");
    let s = "challenge"@.push(':') + arg;
    assert(s[0] == 'c' && "allow"@[0] == 'a' && "deny"@[0] == 'd');
    assert("challenge"@.len() == 9 && "verify"@.len() == 6);
    lemma_split_once_joined("challenge"@, ':', arg);
}

/// `challenge:` with a number asks for that difficulty, for every number of 64 bits;
/// none at all counts as one.
pub proof fn named_difficulties_are_asked_for(n: u64)
    ensures
        meaning("challenge:"@ + decimal(n as int)) == (DecisionView::Challenge {
            difficulty: Some(
                if n == 0 {
                    1
                } else {
                    n as nat
                },
            ),
        }),
{
    let arg = decimal(n as int);
    reveal_strlit("challenge:");
    reveal_strlit("challenge");
    reveal_strlit("js");
    reveal_strlit("nojs");
    reveal_strlit("nojs:");
    assert("challenge:"@ + arg =~= "challenge"@.push(':') + arg);
    lemma_challenge_arg(arg);
    unsigned_read_back(n);
    crate::number::decimal_chars(n as int);
    assert(arg[0] != 'j' && arg[0] != 'n');
    assert("js"@[0] == 'j' && "nojs"@[0] == 'n');
    if starts_with(arg, "nojs:"@) {
        assert(arg.take(5)[0] == "nojs:"@[0]);
    }
}

/// `challenge:nojs:` with a number asks for a wait of so many seconds, held to one
/// at least and thirty at most.
pub proof fn named_waits_are_asked_for(n: i64)
    ensures
        meaning("challenge:nojs:"@ + decimal(n as int)) == (DecisionView::ChallengeNoJs {
            delay: if n < 1 {
                1
            } else if n > 30 {
                30
            } else {
                n as int
            },
        }),
{
    let secs = decimal(n as int);
    reveal_strlit("challenge:nojs:");
    reveal_strlit("challenge");
    reveal_strlit("js");
    reveal_strlit("nojs");
    reveal_strlit("nojs:");
    let arg = "nojs:"@ + secs;
    assert("challenge:nojs:"@ + secs =~= "challenge"@.push(':') + arg);
    lemma_challenge_arg(arg);
    signed_read_back(n);
    assert(arg.take(5) =~= "nojs:"@);
    assert(arg.skip(5) =~= secs);
    crate::number::decimal_chars(n as int);
    assert(arg.len() > 5 && "js"@.len() == 2 && "nojs"@.len() == 4);
}

/// A challenge that names neither a difficulty nor a wait is the default one: what
/// follows `challenge:` is no number, and not `js`, `nojs` or `nojs:`. Nor does any
/// other verb ask for one.
pub proof fn other_challenges_are_the_default(verb: Seq<char>, arg: Seq<char>)
    requires
        !verb.contains(':'),
        verb == "challenge"@ ==> arg != "js"@ && arg != "nojs"@ && !starts_with(arg, "nojs:"@)
            && unsigned_number(arg, u64::MAX as nat) is None,
        verb == "verify"@ ==> arg.len() == 0,
    ensures
        meaning(verb.push(':') + arg) == (DecisionView::Challenge { difficulty: None }),
{
    let s = verb.push(':') + arg;
    lemma_split_once_joined(verb, ':', arg);
    reveal_strlit("allow");
    reveal_strlit("deny");
    assert(s[verb.len() as int] == ':');
    assert(s.contains(':'));
    assert(!"allow"@.contains(':'));
    assert(!"deny"@.contains(':'));
}

} // verus!
