//! The client's side of the handshake, as the load generator plays it: which
//! request classes to measure, how a challenge is solved, and how a proof is sent.

use crate::codec::{b64url, b64url_bytes, b64url_text, lemma_b64url_printable};
use crate::json::{
    is_printable, other_members_are_absent, printable, write_object, written_members_are_read_back,
    Field,
};
use crate::number::{decimal, decimal_i64, lemma_decimal_lacks, signed_read_back};
use crate::pow::Challenge;
use crate::server::clearance::proof_parts;
use crate::server::pow::{submission_of, SubmissionView};
use crate::target::{is_solution, solution_valid};
use crate::text::{chars, lemma_rsplit_once_joined, pieces, same, split, string, texts};
use vstd::prelude::*;
use vstd::string::StringExecFns;
use vstd::utf8::encode_utf8;

verus! {

/// A request class.
#[derive(Debug, Clone, Copy, PartialEq, Eq, Structural)]
pub enum Mode {
    /// An excluded path: bare static serve.
    Baseline,
    /// No cookie: the challenge page is served.
    Challenge,
    /// The clearance cookie: steady state, HMAC verify only.
    Cleared,
    /// Cookie and `X-Pow-Proof`: adds the ECDSA proof verify.
    Proof,
}

/// The name of a request class.
pub open spec fn mode_name(m: Mode) -> Seq<char> {
    match m {
        Mode::Baseline => "baseline"@,
        Mode::Challenge => "challenge"@,
        Mode::Cleared => "cleared"@,
        Mode::Proof => "proof"@,
    }
}

/// The request class that a name denotes.
pub open spec fn named_mode(s: Seq<char>) -> Option<Mode> {
    if s == "baseline"@ {
        Some(Mode::Baseline)
    } else if s == "challenge"@ {
        Some(Mode::Challenge)
    } else if s == "cleared"@ {
        Some(Mode::Cleared)
    } else if s == "proof"@ {
        Some(Mode::Proof)
    } else {
        None
    }
}

/// The request classes that the names of a list denote; unknown names are left out.
pub open spec fn named_modes(list: Seq<Seq<char>>) -> Seq<Mode>
    decreases list.len(),
{
    if list.len() == 0 {
        Seq::empty()
    } else {
        match named_mode(list.last()) {
            Some(m) => named_modes(list.drop_last()).push(m),
            None => named_modes(list.drop_last()),
        }
    }
}

impl Mode {
    pub fn name(self) -> (s: &'static str)
        ensures
            s@ == mode_name(self),
    {
        match self {
            Mode::Baseline => "baseline",
            Mode::Challenge => "challenge",
            Mode::Cleared => "cleared",
            Mode::Proof => "proof",
        }
    }

    pub fn parse(s: &str) -> (r: Option<Mode>)
        ensures
            r == named_mode(s@),
    {
        if same(s, "baseline") {
            Some(Mode::Baseline)
        } else if same(s, "challenge") {
            Some(Mode::Challenge)
        } else if same(s, "cleared") {
            Some(Mode::Cleared)
        } else if same(s, "proof") {
            Some(Mode::Proof)
        } else {
            None
        }
    }

    /// The request classes of a list with commas; unknown names are left out.
    pub fn parse_list(csv: &str) -> (r: Vec<Mode>)
        ensures
            r@ == named_modes(split(csv@, ',')),
    {
        let all = chars(csv);
        let names = pieces(all.as_slice(), ',');
        let ghost list = texts(names@);
        let mut r: Vec<Mode> = Vec::new();
        for i in 0..names.len()
            invariant
                list == texts(names@),
                r@ == named_modes(list.take(i as int)),
        {
            assert(list.take(i + 1).drop_last() =~= list.take(i as int));
            assert(list.take(i + 1).last() == names@[i as int]@);
            if let Some(m) = Mode::parse(string(names[i]).as_str()) {
                r.push(m);
            }
        }
        assert(list.take(list.len() as int) =~= list);
        r
    }
}

/// The first nonce below `limit` that solves `salt` at `difficulty`.
pub fn solve(salt: &str, difficulty: u64, limit: u64) -> (r: Option<u64>)
    ensures
        match r {
            Some(n) => n < limit && is_solution(salt@, n, difficulty) && forall|m: u64|
                m < n ==> !is_solution(salt@, m, difficulty),
            None => forall|m: u64| m < limit ==> !is_solution(salt@, m, difficulty),
        },
{
    let mut n: u64 = 0;
    while n < limit
        invariant
            n <= limit,
            forall|m: u64| m < n ==> !is_solution(salt@, m, difficulty),
        decreases limit - n,
    {
        if solution_valid(salt, n, difficulty) {
            return Some(n);
        }
        n = n + 1;
    }
    None
}

/// The body that submits a solution: the values of the challenge, the nonce and the
/// public key, with the difficulty echoed or not. `None` where the challenge holds
/// what is not printable. The server reads the document as just these values.
pub fn submission_json(
    c: &Challenge,
    nonce: u64,
    pk_sec1: &[u8],
    echo_difficulty: bool,
) -> (r: Option<String>)
    ensures
        r is Some == (printable(c.salt@) && printable(c.token@)),
        r matches Some(s) ==> submission_of(encode_utf8(s@)) == Some(
            SubmissionView {
                salt: c.salt@,
                exp: c.exp,
                token: c.token@,
                nonce,
                pubkey: b64url_text(pk_sec1@),
                difficulty: if echo_difficulty {
                    Some(c.difficulty)
                } else {
                    None
                },
            },
        ),
        b64url_bytes(b64url_text(pk_sec1@)) == Some(pk_sec1@),
{
    let pubkey = b64url(pk_sec1);
    if !is_printable(c.salt.as_str()) || !is_printable(c.token.as_str()) {
        return None;
    }
    proof {
        reveal_strlit("salt");
        reveal_strlit("exp");
        reveal_strlit("token");
        reveal_strlit("nonce");
        reveal_strlit("pubkey");
        reveal_strlit("difficulty");
        assert("salt"@.len() == 4 && "exp"@.len() == 3 && "pubkey"@.len() == 6);
        assert("difficulty"@.len() == 10 && "token"@.len() == 5 && "nonce"@.len() == 5);
        assert("token"@[0] != "nonce"@[0]);
        lemma_b64url_printable(pubkey@);
    }
    let mut members = vec![
        Field::Text("salt", c.salt.as_str()),
        Field::Int("exp", c.exp),
        Field::Text("token", c.token.as_str()),
        Field::Uint("nonce", nonce),
        Field::Text("pubkey", pubkey.as_str()),
    ];
    if echo_difficulty {
        members.push(Field::Uint("difficulty", c.difficulty));
    }
    let doc = write_object(members.as_slice());
    proof {
        let d = encode_utf8(doc@);
        written_members_are_read_back(d, members@, 6, 0, 0);
        written_members_are_read_back(d, members@, 6, 1, 1);
        written_members_are_read_back(d, members@, 6, 2, 2);
        written_members_are_read_back(d, members@, 6, 3, 3);
        written_members_are_read_back(d, members@, 6, 4, 4);
        if echo_difficulty {
            written_members_are_read_back(d, members@, 6, 5, 5);
        } else {
            other_members_are_absent(d, members@, 6, "difficulty"@, 5);
        }
    }
    Some(doc)
}

/// The `name=value` pair of a `Set-Cookie` field: what stands before the first
/// semicolon.
pub fn cookie_pair(set_cookie: &str) -> (s: String)
    ensures
        s@ == split(set_cookie@, ';')[0],
{
    let all = chars(set_cookie);
    let parts = pieces(all.as_slice(), ';');
    proof {
        assert(split(set_cookie@, ';').len() > 0);
        assert(texts(parts@)[0] == parts@[0]@);
    }
    string(parts[0])
}

/// An `X-Pow-Proof` field: the signature, a dot, the time.
pub open spec fn proof_text(sig: Seq<u8>, ts: i64) -> Seq<char> {
    b64url_text(sig).push('.') + decimal(ts as int)
}

/// An `X-Pow-Proof` field for a signature and a time. It is read back as both.
pub fn proof_header(sig: &[u8], ts: i64) -> (s: String)
    ensures
        s@ == proof_text(sig@, ts),
        proof_parts(s@) == Some((sig@, ts as int)),
{
    let text = b64url(sig);
    let mut s = text.as_str().to_owned();
    s.push('.');
    s.append(decimal_i64(ts).as_str());
    proof {
        let d = decimal(ts as int);
        lemma_decimal_lacks(ts as int, '.');
        lemma_rsplit_once_joined(text@, '.', d);
        signed_read_back(ts);
    }
    s
}

// -------------------------------------------------------------- statistics

/// The sum of `list`.
pub open spec fn total(list: Seq<u64>) -> nat
    decreases list.len(),
{
    if list.len() == 0 {
        0
    } else {
        total(list.drop_last()) + list.last() as nat
    }
}

/// The order of latencies.
pub open spec fn no_later() -> spec_fn(u128, u128) -> bool {
    |a: u128, b: u128| a <= b
}

/// `list` in ascending order.
pub open spec fn ascending(list: Seq<u128>) -> Seq<u128> {
    list.sort_by(no_later())
}

/// The item of a list at a position; a position beyond the list is the last one, and
/// an empty list has zero everywhere.
pub open spec fn clamped(list: Seq<u128>, at: nat) -> u128 {
    if list.len() == 0 {
        0
    } else if at < list.len() {
        list[at as int]
    } else {
        list.last()
    }
}

/// The latency at a rank, counted from the least.
pub open spec fn at_rank(list: Seq<u128>, rank: nat) -> u128 {
    clamped(ascending(list), rank)
}

/// What was measured of a request class, latencies in microseconds.
#[derive(Debug, Clone, Copy, PartialEq, Eq, Structural)]
pub struct Summary {
    pub errors: u64,
    pub p50: u128,
    pub p95: u128,
    pub p99: u128,
    pub max: u128,
}

/// `slice::sort_unstable` of std: the same items, in ascending order.
#[verifier::external_body]
fn sort(list: &mut Vec<u128>)
    ensures
        final(list)@.to_multiset() == old(list)@.to_multiset(),
        vstd::relations::sorted_by(final(list)@, no_later()),
{
    list.sort_unstable();
}

/// What the workers measured, put together: their latencies, and how many requests
/// of each failed. `at50`, `at95` and `at99` are the ranks of the percentiles.
pub fn summarize(lats: Vec<u128>, errors: &[u64], at50: usize, at95: usize, at99: usize) -> (s:
    Summary)
    requires
        total(errors@) <= u64::MAX,
    ensures
        s.errors == total(errors@),
        s.p50 == at_rank(lats@, at50 as nat),
        s.p95 == at_rank(lats@, at95 as nat),
        s.p99 == at_rank(lats@, at99 as nat),
        s.max == at_rank(lats@, lats@.len()),
{
    let mut sum: u64 = 0;
    for i in 0..errors.len()
        invariant
            total(errors@) <= u64::MAX,
            sum == total(errors@.take(i as int)),
    {
        proof {
            lemma_total_grows(errors@, i + 1);
            assert(errors@.take(i + 1).drop_last() =~= errors@.take(i as int));
        }
        sum = sum + errors[i];
    }
    assert(errors@.take(errors@.len() as int) =~= errors@);
    let ghost all = lats@;
    let mut list = lats;
    sort(&mut list);
    proof {
        all.lemma_sort_by_ensures(no_later());
        vstd::seq_lib::lemma_sorted_unique(list@, ascending(all), no_later());
        lemma_ascending_len(all);
    }
    Summary {
        errors: sum,
        p50: pick(list.as_slice(), at50),
        p95: pick(list.as_slice(), at95),
        p99: pick(list.as_slice(), at99),
        max: pick(list.as_slice(), list.len()),
    }
}

/// The item of a list at a position.
fn pick(list: &[u128], at: usize) -> (v: u128)
    ensures
        v == clamped(list@, at as nat),
{
    if list.len() == 0 {
        0
    } else if at < list.len() {
        list[at]
    } else {
        list[list.len() - 1]
    }
}

proof fn lemma_total_grows(list: Seq<u64>, n: int)
    requires
        0 <= n <= list.len(),
    ensures
        total(list.take(n)) <= total(list),
    decreases list.len() - n,
{
    if n == list.len() {
        assert(list.take(n) =~= list);
    } else {
        lemma_total_grows(list, n + 1);
        assert(list.take(n + 1).drop_last() =~= list.take(n));
    }
}

proof fn lemma_ascending_len(list: Seq<u128>)
    ensures
        ascending(list).len() == list.len(),
{
    list.lemma_sort_by_ensures(no_later());
    list.to_multiset_ensures();
    ascending(list).to_multiset_ensures();
}

// -------------------------------------------------------------------- laws

/// The latency at a rank is one of those measured, a higher rank never has a lower
/// one, and none is above the last.
pub proof fn percentiles_are_ordered(list: Seq<u128>, low: nat, high: nat)
    requires
        low <= high,
    ensures
        at_rank(list, low) <= at_rank(list, high) <= at_rank(list, list.len()),
        list.len() > 0 ==> list.contains(at_rank(list, low)),
        forall|i: int| 0 <= i < list.len() ==> #[trigger] list[i] <= at_rank(list, list.len()),
{
    let s = ascending(list);
    let leq = no_later();
    list.lemma_sort_by_ensures(leq);
    lemma_ascending_len(list);
    list.to_multiset_ensures();
    s.to_multiset_ensures();
    assert forall|i: int, j: int| 0 <= i <= j < s.len() implies s[i] <= s[j] by {
        if i < j {
            assert(leq(s[i], s[j]));
        }
    }
    if list.len() > 0 {
        let k: int = if low < s.len() {
            low as int
        } else {
            s.len() - 1
        };
        assert(s.contains(s[k]));
    }
    assert forall|i: int| 0 <= i < list.len() implies #[trigger] list[i] <= at_rank(
        list,
        list.len(),
    ) by {
        assert(list.to_multiset().count(list[i]) > 0);
        assert(s.contains(list[i]));
        let j = choose|j: int| 0 <= j < s.len() && s[j] == list[i];
        assert(s[j] <= s[s.len() - 1]);
    }
}

/// Every request class is found again by its name.
pub proof fn modes_are_found_by_name(m: Mode)
    ensures
        named_mode(mode_name(m)) == Some(m),
{
    reveal_strlit("baseline");
    reveal_strlit("challenge");
    reveal_strlit("cleared");
    reveal_strlit("proof");
    assert("baseline"@.len() == 8 && "challenge"@.len() == 9);
    assert("cleared"@.len() == 7 && "proof"@.len() == 5);
}

/// The request classes of a list stand in its order, unknown names left out.
pub proof fn modes_are_listed_in_order(list: Seq<Seq<char>>, name: Seq<char>)
    ensures
        named_modes(list.push(name)) == (match named_mode(name) {
            Some(m) => named_modes(list).push(m),
            None => named_modes(list),
        }),
        named_modes(Seq::empty()) == Seq::<Mode>::empty(),
        named_mode(name) matches Some(m) ==> name == mode_name(m),
{
    assert(list.push(name).drop_last() =~= list);
}

/// The errors of all workers are counted, and a rank within the list is that of the
/// list in ascending order.
pub proof fn measurements_are_counted(errors: Seq<u64>, more: u64, lats: Seq<u128>, rank: nat)
    ensures
        total(errors.push(more)) == total(errors) + more,
        total(Seq::empty()) == 0,
        rank < lats.len() ==> at_rank(lats, rank) == lats.sort_by(|a: u128, b: u128| a <= b)[rank as int],
        lats.len() == 0 ==> at_rank(lats, rank) == 0,
{
    assert(errors.push(more).drop_last() =~= errors);
    lemma_ascending_len(lats);
}

} // verus!
