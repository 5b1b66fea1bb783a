//! The no-JS (meta-refresh) challenge grant: the token behind `challenge:nojs`.
//!
//! A no-JS client cannot hash or sign, so the challenge is *time*: the page
//! carries `<meta http-equiv="refresh" content="{delay};url={endpoint}pass?t={grant}">`
//! and the `pass` endpoint only honours the grant once `delay` seconds have
//! elapsed since issuance. That filters clients that fetch HTML but don't
//! behave like a rendering agent (no meta-refresh processing, no waiting).
//! It is deliberately the weakest challenge tier (a headless browser passes
//! it trivially), which is why it is only ever reachable via an explicit
//! `challenge:nojs` decision, never by client choice.
//!
//! Format mirrors [`crate::clearance`] (`payload_b64 "." tag_b64`) but the MAC
//! is domain-separated (`"nojs|" + payload`), so a grant can never be replayed
//! as a clearance cookie or vice versa. The payload binds the return path, so
//! the redirect target cannot be tampered with either.

use crate::codec::{all_b64url, b64url, b64url_bytes, b64url_text, lemma_b64url_lacks, unb64url};
use crate::json::{
    field_texts, json_string, member, object, record_of, write_object, written_members_are_read_back,
    Field, Record,
};
use crate::mac::{ct_eq, hmac, hmac_tag};
use crate::number::{decimal, lemma_decimal_lacks};
use crate::pow::binding_text;
use crate::text::{
    chars, cut, lemma_rsplit_once_joined, lemma_split_once_joined, lemma_utf8_injective, split_once,
    string,
};
use crate::uri::{path_char, safe_path, same_site_path};
use vstd::prelude::*;
use vstd::string::{StrSliceExecFns, StringExecFns};
use vstd::utf8::encode_utf8;

verus! {

/// How long (seconds) a grant stays redeemable after issuance. Bounds the
/// farming window the same way the PoW challenge grace does.
pub const NOJS_GRACE: i64 = 120;

/// Decoded grant payload.
#[derive(Debug, Clone, PartialEq, Eq)]
pub struct Grant {
    /// Same-site return path (starts with `/`), redirected to after the wait.
    pub path: String,
    /// Issued-at, unix seconds.
    pub iat: i64,
    /// Minimum wait in seconds before the grant may be redeemed.
    pub delay: i64,
}

/// What a [`Grant`] says.
pub struct GrantView {
    pub path: Seq<char>,
    pub iat: int,
    pub delay: int,
}

impl View for Grant {
    type V = GrantView;

    open spec fn view(&self) -> GrantView {
        GrantView { path: self.path@, iat: self.iat as int, delay: self.delay as int }
    }
}

/// Outcome of verifying a submitted grant.
#[derive(Debug, PartialEq, Eq)]
pub enum Verdict {
    /// Waited long enough: redirect to the contained path and set clearance.
    Accepted(Grant),
    /// Authentic but redeemed before `iat + delay`: re-challenge (fresh wait).
    TooEarly(Grant),
    /// Forged, malformed, expired, or unsafe path.
    Bad,
}

/// What a [`Verdict`] says.
pub enum VerdictView {
    Accepted(GrantView),
    TooEarly(GrantView),
    Bad,
}

impl View for Verdict {
    type V = VerdictView;

    open spec fn view(&self) -> VerdictView {
        match self {
            Verdict::Accepted(g) => VerdictView::Accepted(g@),
            Verdict::TooEarly(g) => VerdictView::TooEarly(g@),
            Verdict::Bad => VerdictView::Bad,
        }
    }
}

// ------------------------------------------------------------------ format

/// The text under the tag of a grant.
pub open spec fn mac_text(payload: Seq<char>) -> Seq<char> {
    "nojs|"@ + payload
}

/// The payload of a grant as JSON.
pub open spec fn payload_json(g: GrantView) -> Seq<char> {
    object(
        seq![
            member("path"@, json_string(g.path)),
            member("iat"@, decimal(g.iat)),
            member("delay"@, decimal(g.delay)),
        ],
    )
}

/// The grant that a JSON document holds, if it has the three fields.
pub open spec fn payload_of(doc: Seq<u8>) -> Option<GrantView> {
    match record_of(doc, 3) {
        Some(r) => match (r.text("path"@, 0), r.signed("iat"@, 1), r.signed("delay"@, 2)) {
            (Some(path), Some(iat), Some(delay)) => Some(
                GrantView { path, iat: iat as int, delay: delay as int },
            ),
            _ => None,
        },
        None => None,
    }
}

/// The path a grant is minted for: an unsafe one degrades to `/`.
pub open spec fn return_path(path: Seq<char>) -> Seq<char> {
    if safe_path(path) {
        path
    } else {
        "/"@
    }
}

/// The grant minted for `path` at `now`.
pub open spec fn granted(path: Seq<char>, delay: int, now: int) -> GrantView {
    GrantView { path: return_path(path), iat: now, delay }
}

/// The token that carries `g` under `key`.
pub open spec fn token_for(key: Seq<u8>, g: GrantView) -> Seq<char> {
    let payload = b64url_text(encode_utf8(payload_json(g)));
    payload.push('.') + b64url_text(hmac_tag(key, encode_utf8(mac_text(payload))))
}

/// The payload of an authentic grant, whatever the time: the tag is that of the
/// payload text under `key`, and the text decodes to a grant.
pub open spec fn authentic(key: Seq<u8>, token: Seq<char>) -> Option<GrantView> {
    match split_once(token, '.') {
        None => None,
        Some((payload, tag)) => if b64url_bytes(tag) == Some(
            hmac_tag(key, encode_utf8(mac_text(payload))),
        ) {
            match b64url_bytes(payload) {
                None => None,
                Some(doc) => payload_of(doc),
            }
        } else {
            None
        },
    }
}

/// The verdict on an authentic grant at `now`.
pub open spec fn judged(g: GrantView, now: int) -> VerdictView {
    if !safe_path(g.path) || g.delay < 0 || now >= g.iat + NOJS_GRACE {
        VerdictView::Bad
    } else if now < g.iat + g.delay {
        VerdictView::TooEarly(g)
    } else {
        VerdictView::Accepted(g)
    }
}

/// The verdict on a token at `now`.
pub open spec fn verified(key: Seq<u8>, token: Seq<char>, now: int) -> VerdictView {
    match authentic(key, token) {
        Some(g) => judged(g, now),
        None => VerdictView::Bad,
    }
}

// --------------------------------------------------------------- functions

fn mac_input(payload: &str) -> (bytes: Vec<u8>)
    ensures
        bytes@ == encode_utf8(mac_text(payload@)),
{
    let mut s = "nojs|".to_owned();
    s.append(payload);
    s.as_str().as_bytes_vec()
}

/// A safe same-site redirect path: see [`crate::uri::same_site_path`].
fn path_ok(path: &str) -> (r: bool)
    ensures
        r == safe_path(path@),
{
    same_site_path(path)
}

/// Mint a grant for `path` with a `delay`-second minimum wait. An unsafe path
/// degrades to `/` rather than failing: the client still gets challenged.
///
/// The token is authentic under the same key, and carries the grant it was
/// minted for.
pub fn issue(key: &[u8], path: &str, delay: i64, now: i64) -> (token: String)
    ensures
        token@ == token_for(key@, granted(path@, delay as int, now as int)),
        authentic(key@, token@) == Some(granted(path@, delay as int, now as int)),
{
    proof {
        reveal_strlit("path");
        reveal_strlit("iat");
        reveal_strlit("delay");
        reveal_strlit("/");
        assert("path"@.len() != "iat"@.len());
        assert("path"@.len() != "delay"@.len());
        assert("iat"@.len() != "delay"@.len());
    }
    let back = if path_ok(path) {
        path.to_owned()
    } else {
        "/".to_owned()
    };
    proof {
        assert forall|i: int| 0 <= i < back@.len() implies ' ' <= #[trigger] back@[i] <= '~' by {
            if safe_path(path@) {
                assert(path_char(path@[i]));
            }
        }
    }
    let members = [Field::Text("path", back.as_str()), Field::Int("iat", now), Field::Int(
        "delay",
        delay,
    )];
    let doc = write_object(&members);
    proof {
        assert(field_texts(members@) =~= seq![
            members@[0].text(),
            members@[1].text(),
            members@[2].text(),
        ]);
        let d = encode_utf8(doc@);
        written_members_are_read_back(d, members@, 3, 0, 0);
        written_members_are_read_back(d, members@, 3, 1, 1);
        written_members_are_read_back(d, members@, 3, 2, 2);
    }
    let payload = b64url(doc.as_str().as_bytes());
    let tag = b64url(&hmac(key, mac_input(payload.as_str()).as_slice()));
    let mut token = payload.as_str().to_owned();
    token.push('.');
    token.append(tag.as_str());
    proof {
        lemma_b64url_lacks(payload@, '.');
        lemma_split_once_joined(payload@, '.', tag@);
    }
    token
}

/// The grant that a JSON document holds, if it has the three fields.
pub fn read_payload(doc: &[u8]) -> (r: Option<Grant>)
    ensures
        match (r, payload_of(doc@)) {
            (None, None) => true,
            (Some(a), Some(b)) => a@ == b,
            _ => false,
        },
{
    let r = match Record::read(doc, 3) {
        Some(r) => r,
        None => return None,
    };
    let path = match r.text("path", 0) {
        Some(path) => path,
        None => return None,
    };
    let iat = match r.signed("iat", 1) {
        Some(iat) => iat,
        None => return None,
    };
    let delay = match r.signed("delay", 2) {
        Some(delay) => delay,
        None => return None,
    };
    Some(Grant { path, iat, delay })
}

/// The verdict on an authentic grant: safe path, not stale, waited long enough.
pub fn judge(grant: Grant, now: i64) -> (v: Verdict)
    ensures
        v@ == judged(grant@, now as int),
{
    if !path_ok(grant.path.as_str()) || grant.delay < 0 {
        return Verdict::Bad;
    }
    if now as i128 >= grant.iat as i128 + NOJS_GRACE as i128 {
        return Verdict::Bad;  // stale grant: full re-challenge
    }
    if (now as i128) < grant.iat as i128 + grant.delay as i128 {
        return Verdict::TooEarly(grant);
    }
    Verdict::Accepted(grant)
}

/// Verify a grant. Constant-time MAC check, then expiry and minimum-wait.
pub fn verify(key: &[u8], token: &str, now: i64) -> (v: Verdict)
    ensures
        v@ == verified(key@, token@, now as int),
{
    let all = chars(token);
    let (payload, tag) = match cut(all.as_slice(), '.') {
        Some((p, t)) => (string(p), string(t)),
        None => return Verdict::Bad,
    };
    let expected = hmac(key, mac_input(payload.as_str()).as_slice());
    let provided = match unb64url(tag.as_str()) {
        Some(b) => b,
        None => return Verdict::Bad,
    };
    if !ct_eq(&expected, provided.as_slice()) {
        return Verdict::Bad;
    }
    let doc = match unb64url(payload.as_str()) {
        Some(d) => d,
        None => return Verdict::Bad,
    };
    match read_payload(doc.as_slice()) {
        Some(g) => judge(g, now),
        None => Verdict::Bad,
    }
}

// -------------------------------------------------------------------- laws

/// A minted grant is redeemable in one window: before `delay` seconds have passed
/// it is too early, from then until the grace is over it is accepted, and after
/// that it is refused; the path that comes back is the one it was minted for, or
/// `/`.
pub proof fn grants_are_redeemable_in_their_window(path: Seq<char>, delay: int, iat: int, now: int)
    requires
        0 <= delay,
    ensures
        judged(granted(path, delay, iat), now) == (if now >= iat + NOJS_GRACE {
            VerdictView::Bad
        } else if now < iat + delay {
            VerdictView::TooEarly(granted(path, delay, iat))
        } else {
            VerdictView::Accepted(granted(path, delay, iat))
        }),
{
    reveal_strlit("/");
}

/// No verdict ever hands back an unsafe path.
pub proof fn redeemed_paths_are_safe(key: Seq<u8>, token: Seq<char>, now: int)
    ensures
        match verified(key, token, now) {
            VerdictView::Accepted(g) => safe_path(g.path),
            VerdictView::TooEarly(g) => safe_path(g.path),
            VerdictView::Bad => true,
        },
{
}

/// Once a grant is stale it stays so, and once the wait is over it is over: as
/// time passes the verdict only moves from too early to accepted to bad.
pub proof fn verdicts_move_forward(g: GrantView, earlier: int, later: int)
    requires
        earlier <= later,
    ensures
        judged(g, earlier) is Bad ==> judged(g, later) is Bad,
        judged(g, earlier) is Accepted ==> !(judged(g, later) is TooEarly),
{
}

/// The text under a grant's tag is never the text under a clearance's: what a
/// clearance signs is base64url (see [`crate::clearance::issue`] and
/// [`crate::clearance::verify`]), which has no `|`. So neither token passes as the
/// other unless the MAC itself repeats on another message.
pub proof fn grants_and_clearances_are_separate(grant_payload: Seq<char>, clearance_payload: Seq<char>)
    requires
        all_b64url(clearance_payload),
    ensures
        encode_utf8(mac_text(grant_payload)) != encode_utf8(clearance_payload),
{
    if encode_utf8(mac_text(grant_payload)) == encode_utf8(clearance_payload) {
        lemma_utf8_injective(mac_text(grant_payload), clearance_payload);
        reveal_strlit("nojs|");
        assert(mac_text(grant_payload)[4] == '|');
        lemma_b64url_lacks(clearance_payload, '|');
    }
}

/// A token that is authentic both as a grant and as a clearance would show two
/// messages with one HMAC.
pub proof fn a_token_for_both_is_a_collision(key: Seq<u8>, token: Seq<char>)
    requires
        authentic(key, token) is Some,
        crate::clearance::authentic(key, token) is Some,
    ensures
        exists|a: Seq<u8>, b: Seq<u8>| a != b && #[trigger] hmac_tag(key, a) == #[trigger] hmac_tag(key, b),
{
    let (payload, _) = split_once(token, '.')->0;
    let a = encode_utf8(payload);
    let b = encode_utf8(mac_text(payload));
    reveal_strlit("nojs|");
    if a == b {
        lemma_utf8_injective(payload, mac_text(payload));
        assert(mac_text(payload).len() == payload.len() + 5);
    }
    assert(hmac_tag(key, a) == hmac_tag(key, b));
}

/// A wait that is shorter than the grace can be waited out: a client that comes
/// back when it is over is accepted, with the path that it asked for.
pub proof fn waits_can_be_waited_out(path: Seq<char>, delay: int, iat: int)
    requires
        0 <= delay < NOJS_GRACE,
    ensures
        judged(granted(path, delay, iat), iat + delay) == VerdictView::Accepted(
            granted(path, delay, iat),
        ),
        safe_path(path) ==> granted(path, delay, iat).path == path,
{
    reveal_strlit("/");
}

/// What a challenge binds is never what a clearance or a grant signs: it holds two
/// bars, a grant's text holds one and a clearance's none.
pub proof fn challenges_are_separate(
    salt: Seq<char>,
    exp: i64,
    difficulty: u64,
    payload: Seq<char>,
)
    requires
        all_b64url(payload),
    ensures
        encode_utf8(binding_text(salt, exp, difficulty)) != encode_utf8(payload),
        encode_utf8(binding_text(salt, exp, difficulty)) != encode_utf8(mac_text(payload)),
{
    let b = binding_text(salt, exp, difficulty);
    let head = salt.push('|') + decimal(exp as int);
    let d = decimal(difficulty as int);
    lemma_decimal_lacks(difficulty as int, '|');
    lemma_b64url_lacks(payload, '|');
    assert(b[head.len() as int] == '|');
    if encode_utf8(b) == encode_utf8(payload) {
        lemma_utf8_injective(b, payload);
        assert(payload[head.len() as int] == '|');
    }
    if encode_utf8(b) == encode_utf8(mac_text(payload)) {
        lemma_utf8_injective(b, mac_text(payload));
        reveal_strlit("nojs|");
        let word = "nojs|"@.take(4);
        assert(mac_text(payload) =~= word.push('|') + payload);
        lemma_rsplit_once_joined(head, '|', d);
        lemma_rsplit_once_joined(word, '|', payload);
        assert(head == word);
        assert(head[salt.len() as int] == '|');
        assert(word[salt.len() as int] != '|');
    }
}

/// A grant is accepted, too early or bad by the time alone, once it is authentic and
/// its path is safe: for two minutes from its issue on, and not before its wait is
/// over.
pub proof fn grants_are_judged_by_the_time(g: GrantView, now: int)
    requires
        safe_path(g.path),
        g.delay >= 0,
    ensures
        judged(g, now) == VerdictView::Accepted(g) <==> g.iat + g.delay <= now < g.iat + 120,
        judged(g, now) == VerdictView::TooEarly(g) <==> now < g.iat + g.delay && now < g.iat + 120,
        judged(g, now) is Bad <==> now >= g.iat + 120,
{
}

/// What is signed and decodes is judged as it stands, what is not is bad: a token
/// whose tag is the HMAC of its payload under the grants' own prefix.
pub proof fn grants_are_accepted_exactly(
    key: Seq<u8>,
    payload: Seq<char>,
    tag: Seq<char>,
    now: int,
)
    requires
        !payload.contains('.'),
    ensures
        verified(key, payload + "."@ + tag, now) == (if b64url_bytes(tag) == Some(
            hmac_tag(key, encode_utf8("nojs|"@ + payload)),
        ) && b64url_bytes(payload) is Some && payload_of(b64url_bytes(payload)->0) is Some {
            judged(payload_of(b64url_bytes(payload)->0)->0, now)
        } else {
            VerdictView::Bad
        }),
{
    reveal_strlit(".");
    assert(payload + "."@ + tag =~= payload.push('.') + tag);
    lemma_split_once_joined(payload, '.', tag);
}

/// A text without a dot is no grant.
pub proof fn grants_have_two_parts(key: Seq<u8>, token: Seq<char>, now: int)
    requires
        !token.contains('.'),
    ensures
        verified(key, token, now) is Bad,
{
}

/// A grant leads back to the path it was minted for, and to the root where that path
/// is not safe to hand back; it holds the wait and the time as they were.
pub proof fn grants_hold_their_path_and_wait(path: Seq<char>, delay: int, now: int)
    ensures
        granted(path, delay, now).path == (if safe_path(path) {
            path
        } else {
            seq!['/']
        }),
        granted(path, delay, now).delay == delay,
        granted(path, delay, now).iat == now,
{
    reveal_strlit("/");
    assert("/"@ =~= seq!['/']);
}

/// A grant is read field by field: a record in which each of the three fields is
/// given once, with a value of its kind, is the grant of just these values.
pub proof fn payloads_are_read_by_field(
    doc: Seq<u8>,
    r: crate::json::RecordView,
    path: Seq<char>,
    iat: i64,
    delay: i64,
)
    requires
        record_of(doc, 3) == Some(r),
        r.text("path"@, 0) == Some(path),
        r.signed("iat"@, 1) == Some(iat),
        r.signed("delay"@, 2) == Some(delay),
    ensures
        payload_of(doc) == Some(GrantView { path, iat: iat as int, delay: delay as int }),
{
}

} // verus!
