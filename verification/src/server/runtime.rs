//! Request-time values: the resolved configuration, and the cookies, header
//! fields and body of a request.

use crate::address::{lemma_pow2_at_most_128, IpAddr};
use crate::bytes::append_bytes;
use crate::number::{decimal, decimal_i64};
use crate::server::config::LocationConf;
use crate::server::response::fields;
use crate::target::{be_value, lemma_be_bound};
use crate::text::{
    chars, cut, lemma_split_once_joined, lower, pieces, same, same_chars, same_ignoring_case, split, split_once, string,
    texts, trim, trimmed,
};
use std::sync::Arc;
use std::time::{SystemTime, UNIX_EPOCH};
use vstd::arithmetic::power2::lemma2_to64;
use vstd::prelude::*;
use vstd::string::StringExecFns;

verus! {

/// The shortest HMAC key that is usable.
pub const MIN_HMAC_KEY_LEN: usize = 16;

/// Resolved per-request configuration.
pub struct Cfg {
    pub key: Arc<Vec<u8>>,
    /// The key is long enough. Without a usable key nothing is minted and no
    /// cookie is trusted: an empty or known key would let anyone forge one.
    pub key_ok: bool,
    pub difficulty: u64,
    pub clearance_ttl: i64,
    pub proof_skew: i64,
    pub require_proof: bool,
    pub endpoint: String,
    pub replay: bool,
    pub replay_max_body: usize,
    pub cookie: CookieConfig,
}

/// Owned clearance-cookie attributes (from the `pow_gate_cookie_*` directives).
pub struct CookieConfig {
    pub name: String,
    pub domain: Option<String>,
    pub path: String,
    pub samesite: String,
    pub secure: bool,
    pub http_only: bool,
    pub max_age_secs: i64,
}

/// A request, as far as it is looked at.
pub struct Request {
    /// The method, e.g. `GET`.
    pub method: String,
    /// The path, decoded.
    pub uri: String,
    /// The target as the client sent it, with the query, still percent-encoded.
    pub unparsed_uri: String,
    /// The query string.
    pub args: String,
    /// The header fields, in order.
    pub headers: Vec<(String, String)>,
    /// The declared length of the body, where one is declared.
    pub content_length: Option<usize>,
    /// What `pow_gate_trusted` evaluates to.
    pub trusted: String,
    /// What `pow_gate_decision` evaluates to.
    pub decision: String,
    /// The client's address.
    pub address: Option<IpAddr>,
}

// -------------------------------------------------------------------- clock

/// The seconds since the epoch as a signed number; a clock before the epoch reads
/// as zero.
pub open spec fn clock_seconds(since_epoch: Option<u64>) -> int {
    match since_epoch {
        Some(s) => if s <= i64::MAX {
            s as int
        } else {
            s - 0x1_0000_0000_0000_0000
        },
        None => 0,
    }
}

/// `SystemTime::now` and `duration_since`, in whole seconds: `None` for a clock
/// that stands before the epoch. Nothing is claimed of the time.
#[verifier::external_body]
fn since_epoch() -> (r: Option<u64>) {
    Some(SystemTime::now().duration_since(UNIX_EPOCH).ok()?.as_secs())
}

/// What [`now`] makes of the clock.
pub fn seconds(since_epoch: Option<u64>) -> (t: i64)
    ensures
        t == clock_seconds(since_epoch),
{
    match since_epoch {
        Some(s) => {
            proof {
                assert(s > 0x7fff_ffff_ffff_ffff ==> s as i64 == s - 0x1_0000_0000_0000_0000)
                    by (bit_vector);
            }
            #[verifier::truncate]
            (s as i64)
        },
        None => 0,
    }
}

/// `reading` is what a look at the clock may return.
pub closed spec fn readable(reading: Option<u64>) -> bool {
    call_ensures(since_epoch, (), reading)
}

/// Unix seconds: what [`seconds`] makes of a reading of the clock. Nothing is
/// promised of the reading.
pub fn now() -> (t: i64)
    ensures
        exists|reading: Option<u64>| #[trigger]
            readable(reading) && t == clock_seconds(reading),
{
    let reading = since_epoch();
    assert(readable(reading));
    seconds(reading)
}

// ------------------------------------------------------------ configuration

/// `s`, or `default` where `s` is empty.
pub open spec fn or_default(s: Seq<char>, default: Seq<char>) -> Seq<char> {
    if s.len() == 0 {
        default
    } else {
        s
    }
}

/// Is `s` empty?
pub fn is_blank(s: &str) -> (r: bool)
    ensures
        r == (s@.len() == 0),
{
    proof {
        reveal_strlit("");
        assert(s@.len() == 0 ==> s@ =~= ""@);
    }
    same(s, "")
}

/// `s`, or `default` where `s` is empty.
pub fn nonempty(s: &str, default: &str) -> (r: String)
    ensures
        r@ == or_default(s@, default@),
{
    if is_blank(s) {
        default.to_owned()
    } else {
        s.to_owned()
    }
}

/// The expiry of a clearance that is minted at `now` is in the range of times.
pub open spec fn expiry_fits(cfg: Cfg, now: i64) -> bool {
    i64::MIN <= now + cfg.clearance_ttl <= i64::MAX
}

/// Is this a key to sign with?
pub fn key_usable(key: &[u8]) -> (r: bool)
    ensures
        r == (key@.len() >= MIN_HMAC_KEY_LEN),
{
    key.len() >= MIN_HMAC_KEY_LEN
}

/// The configuration for a location and a key.
pub open spec fn is_resolved(cfg: Cfg, lc: LocationConf, key: Seq<u8>) -> bool {
    &&& cfg.key@ == key
    &&& cfg.key_ok == (key.len() >= MIN_HMAC_KEY_LEN)
    &&& cfg.difficulty == lc.difficulty
    &&& cfg.clearance_ttl == lc.clearance_ttl
    &&& cfg.proof_skew == lc.proof_skew
    &&& cfg.require_proof == (lc.require_proof != 0)
    &&& cfg.endpoint@ == lc.endpoint@
    &&& cfg.replay == (lc.replay != 0)
    &&& cfg.replay_max_body == lc.replay_max_body
    &&& cfg.cookie.name@ == or_default(lc.cookie_name@, "pow_clearance"@)
    &&& same_text(
        cfg.cookie.domain,
        if lc.cookie_domain@.len() == 0 {
            None
        } else {
            Some(lc.cookie_domain@)
        },
    )
    &&& cfg.cookie.path@ == or_default(lc.cookie_path@, "/"@)
    &&& cfg.cookie.samesite@ == or_default(lc.cookie_samesite@, "Lax"@)
    &&& cfg.cookie.secure == (lc.cookie_secure != 0)
    &&& cfg.cookie.http_only == (lc.cookie_httponly != 0)
    &&& cfg.cookie.max_age_secs == lc.clearance_ttl
}

/// Resolve a `LocationConf` into owned [`Cfg`], with the bytes of its key file
/// (empty where it cannot be read). `Max-Age` tracks the clearance lifetime.
pub fn resolve(lc: &LocationConf, key: Arc<Vec<u8>>) -> (cfg: Cfg)
    ensures
        is_resolved(cfg, *lc, key@),
{
    let key_ok = key_usable(key.as_slice());
    Cfg {
        key,
        key_ok,
        difficulty: lc.difficulty as u64,
        clearance_ttl: lc.clearance_ttl,
        proof_skew: lc.proof_skew,
        require_proof: lc.require_proof != 0,
        endpoint: lc.endpoint.as_str().to_owned(),
        replay: lc.replay != 0,
        replay_max_body: lc.replay_max_body,
        cookie: CookieConfig {
            name: nonempty(lc.cookie_name.as_str(), "pow_clearance"),
            domain: if is_blank(lc.cookie_domain.as_str()) {
                None
            } else {
                Some(lc.cookie_domain.as_str().to_owned())
            },
            path: nonempty(lc.cookie_path.as_str(), "/"),
            samesite: nonempty(lc.cookie_samesite.as_str(), "Lax"),
            secure: lc.cookie_secure != 0,
            http_only: lc.cookie_httponly != 0,
            max_age_secs: lc.clearance_ttl,
        },
    }
}

// ------------------------------------------------------------ header reads

/// The value of the first field called `name`, in any case.
pub open spec fn header_value(headers: Seq<(Seq<char>, Seq<char>)>, name: Seq<char>) -> Option<
    Seq<char>,
>
    decreases headers.len(),
{
    if headers.len() == 0 {
        None
    } else if lower(headers[0].0) == lower(name) {
        Some(headers[0].1)
    } else {
        header_value(headers.drop_first(), name)
    }
}

/// The value of the first of the `name=value` pairs that is called `name`.
pub open spec fn pair_value(pairs: Seq<Seq<char>>, name: Seq<char>) -> Option<Seq<char>>
    decreases pairs.len(),
{
    if pairs.len() == 0 {
        None
    } else {
        match split_once(pairs[0], '=') {
            Some((n, v)) if n == name => Some(v),
            _ => pair_value(pairs.drop_first(), name),
        }
    }
}

/// The pairs of a `Cookie` field: between semicolons, without surrounding white
/// space.
pub open spec fn cookie_pairs(value: Seq<char>) -> Seq<Seq<char>> {
    split(value, ';').map_values(|p: Seq<char>| trim(p))
}

/// The value of the first cookie called `name` in the `Cookie` fields.
pub open spec fn cookie_value(headers: Seq<(Seq<char>, Seq<char>)>, name: Seq<char>) -> Option<
    Seq<char>,
>
    decreases headers.len(),
{
    if headers.len() == 0 {
        None
    } else {
        let here = if lower(headers[0].0) == lower("cookie"@) {
            pair_value(cookie_pairs(headers[0].1), name)
        } else {
            None
        };
        match here {
            Some(v) => Some(v),
            None => cookie_value(headers.drop_first(), name),
        }
    }
}

/// The two optional texts are the same.
pub open spec fn same_text(r: Option<String>, s: Option<Seq<char>>) -> bool {
    match (r, s) {
        (None, None) => true,
        (Some(a), Some(b)) => a@ == b,
        _ => false,
    }
}

/// [`pair_value`] on slices of characters.
pub fn find_pair(pairs: &[&[char]], name: &[char]) -> (r: Option<String>)
    ensures
        same_text(r, pair_value(texts(pairs@), name@)),
{
    let ghost all = texts(pairs@);
    assert(all.skip(0) =~= all);
    for i in 0..pairs.len()
        invariant
            all == texts(pairs@),
            pair_value(all, name@) == pair_value(all.skip(i as int), name@),
    {
        assert(all.skip(i as int)[0] == pairs@[i as int]@);
        assert(all.skip(i as int).drop_first() =~= all.skip(i + 1));
        if let Some((n, v)) = cut(pairs[i], '=') {
            if same_chars(n, name) {
                return Some(string(v));
            }
        }
    }
    None
}

fn find_cookie(value: &str, name: &str) -> (r: Option<String>)
    ensures
        same_text(r, pair_value(cookie_pairs(value@), name@)),
{
    let all = chars(value);
    let parts = pieces(all.as_slice(), ';');
    let wanted = chars(name);
    let mut pairs: Vec<&[char]> = Vec::new();
    for i in 0..parts.len()
        invariant
            pairs@.len() == i,
            forall|j: int| 0 <= j < i ==> (#[trigger] pairs@[j])@ == trim(texts(parts@)[j]),
    {
        assert(texts(parts@)[i as int] == parts@[i as int]@);
        pairs.push(trimmed(parts[i]));
    }
    assert(texts(pairs@) =~= cookie_pairs(value@));
    find_pair(pairs.as_slice(), wanted.as_slice())
}

/// Value of the cookie named `name` from the request's `Cookie` header(s).
pub fn cookie(headers: &[(String, String)], name: &str) -> (r: Option<String>)
    ensures
        same_text(r, cookie_value(fields(headers@), name@)),
{
    let ghost all = fields(headers@);
    assert(all.skip(0) =~= all);
    for i in 0..headers.len()
        invariant
            all == fields(headers@),
            cookie_value(all, name@) == cookie_value(all.skip(i as int), name@),
    {
        assert(all.skip(i as int)[0] == all[i as int]);
        assert(all.skip(i as int).drop_first() =~= all.skip(i + 1));
        if same_ignoring_case(headers[i].0.as_str(), "cookie") {
            if let Some(v) = find_cookie(headers[i].1.as_str(), name) {
                return Some(v);
            }
        }
    }
    None
}

/// Value of a request header (case-insensitive name).
pub fn header(headers: &[(String, String)], name: &str) -> (r: Option<String>)
    ensures
        same_text(r, header_value(fields(headers@), name@)),
{
    let ghost all = fields(headers@);
    assert(all.skip(0) =~= all);
    for i in 0..headers.len()
        invariant
            all == fields(headers@),
            header_value(all, name@) == header_value(all.skip(i as int), name@),
    {
        assert(all.skip(i as int)[0] == all[i as int]);
        assert(all.skip(i as int).drop_first() =~= all.skip(i + 1));
        if same_ignoring_case(headers[i].0.as_str(), name) {
            return Some(headers[i].1.as_str().to_owned());
        }
    }
    None
}

// ------------------------------------------------------------ the client

/// `AF_INET` on Linux.
pub const AF_INET: u16 = 2;

/// `AF_INET6` on Linux.
pub const AF_INET6: u16 = 10;

/// The address in a socket address: an IPv4 address stands in four bytes from the
/// fourth on, an IPv6 address in sixteen from the eighth on.
pub open spec fn socket_address(family: u16, sa: Seq<u8>) -> Option<IpAddr> {
    if family == AF_INET {
        Some(IpAddr::V4(be_value(sa.subrange(4, 8)) as u32))
    } else if family == AF_INET6 {
        Some(IpAddr::V6(be_value(sa.subrange(8, 24)) as u128))
    } else {
        None
    }
}

fn number_at(sa: &[u8], at: usize, len: usize) -> (v: u128)
    requires
        len <= 16,
        at + len <= sa@.len(),
    ensures
        v == be_value(sa@.subrange(at as int, at + len)),
{
    let total: usize = sa.len();
    assert(at + len <= total);
    let mut v: u128 = 0;
    let end: usize = at + len;
    let mut i: usize = at;
    assert(sa@.subrange(at as int, at as int) =~= Seq::empty());
    while i < end
        invariant
            at <= i <= end <= sa@.len(),
            end - at <= 16,
            v == be_value(sa@.subrange(at as int, i as int)),
        decreases end - i,
    {
        proof {
            let next = sa@.subrange(at as int, i + 1);
            assert(next.drop_last() =~= sa@.subrange(at as int, i as int));
            lemma_be_bound(next);
            lemma_pow2_at_most_128(8 * next.len());
        }
        v = v * 256 + sa[i] as u128;
        i = i + 1;
    }
    v
}

/// The connecting client's IP from the bytes of its socket address. Family and
/// address are read positionally.
pub fn client_ip(family: u16, sa: &[u8]) -> (r: Option<IpAddr>)
    requires
        family == AF_INET ==> sa@.len() >= 8,
        family == AF_INET6 ==> sa@.len() >= 24,
    ensures
        r == socket_address(family, sa@),
{
    if family == AF_INET {
        proof {
            lemma_be_bound(sa@.subrange(4, 8));
            lemma2_to64();
        }
        Some(IpAddr::V4(number_at(sa, 4, 4) as u32))
    } else if family == AF_INET6 {
        proof {
            lemma_be_bound(sa@.subrange(8, 24));
        }
        Some(IpAddr::V6(number_at(sa, 8, 16)))
    } else {
        None
    }
}

// ------------------------------------------------------------- set-cookie

/// `SameSite=None` forces `Secure` (browsers drop it otherwise).
pub open spec fn is_secure(c: CookieConfig) -> bool {
    c.secure || lower(c.samesite@) == lower("None"@)
}

/// The value of a `Set-Cookie` field.
pub open spec fn set_cookie_text(value: Seq<char>, c: CookieConfig) -> Seq<char> {
    c.name@ + "="@ + value + "; Path="@ + c.path@ + (match c.domain {
        Some(d) => "; Domain="@ + d@,
        None => Seq::empty(),
    }) + "; Max-Age="@ + decimal(c.max_age_secs as int) + "; SameSite="@ + c.samesite@ + (
    if is_secure(c) {
        "; Secure"@
    } else {
        Seq::empty()
    }) + (if c.http_only {
        "; HttpOnly"@
    } else {
        Seq::empty()
    })
}

/// Build a `Set-Cookie` header value from owned cookie config + a token value.
/// `SameSite=None` forces `Secure` (browsers drop it otherwise).
pub fn build_set_cookie(value: &str, c: &CookieConfig) -> (s: String)
    ensures
        s@ == set_cookie_text(value@, *c),
{
    let mut s = c.name.as_str().to_owned();
    s.append("=");
    s.append(value);
    s.append("; Path=");
    s.append(c.path.as_str());
    if let Some(d) = &c.domain {
        let ghost before = s@;
        s.append("; Domain=");
        s.append(d.as_str());
        assert(s@ =~= before + ("; Domain="@ + d@));
    }
    s.append("; Max-Age=");
    s.append(decimal_i64(c.max_age_secs).as_str());
    s.append("; SameSite=");
    s.append(c.samesite.as_str());
    if c.secure || same_ignoring_case(c.samesite.as_str(), "None") {
        s.append("; Secure");
    }
    if c.http_only {
        s.append("; HttpOnly");
    }
    assert(s@ =~= set_cookie_text(value@, *c));
    s
}

// ------------------------------------------------------------ request body

/// One buffer of a request body.
pub enum Segment {
    /// Bytes that were kept in memory.
    Memory(Vec<u8>),
    /// Bytes that were spilled to a temporary file and read back; `None` where
    /// they could not be read.
    File(Option<Vec<u8>>),
}

/// The bytes of a list of buffers, in order; `None` where one cannot be read.
pub open spec fn body_bytes(segments: Seq<Segment>) -> Option<Seq<u8>>
    decreases segments.len(),
{
    if segments.len() == 0 {
        Some(Seq::empty())
    } else {
        match (body_bytes(segments.drop_last()), segments.last()) {
            (Some(a), Segment::Memory(b)) => Some(a + b@),
            (Some(a), Segment::File(Some(b))) => Some(a + b@),
            _ => None,
        }
    }
}

proof fn lemma_unreadable_prefix(segments: Seq<Segment>, n: int)
    requires
        0 <= n <= segments.len(),
        body_bytes(segments.take(n)) is None,
    ensures
        body_bytes(segments) is None,
    decreases segments.len() - n,
{
    if n == segments.len() {
        assert(segments.take(n) =~= segments);
    } else {
        assert(segments.take(n + 1).drop_last() =~= segments.take(n));
        lemma_unreadable_prefix(segments, n + 1);
    }
}

/// Collect the client request body, reconstructed in order from its buffers.
/// Returns `None` only if the body is absent or a temp-file segment can't be read.
pub fn request_body(segments: Option<Vec<Segment>>) -> (r: Option<Vec<u8>>)
    ensures
        match segments {
            None => r is None,
            Some(s) => match (r, body_bytes(s@)) {
                (None, None) => true,
                (Some(a), Some(b)) => a@ == b,
                _ => false,
            },
        },
{
    let list = match segments {
        Some(list) => list,
        None => return None,
    };
    let mut out: Vec<u8> = Vec::new();
    assert(out@ =~= Seq::empty());
    for i in 0..list.len()
        invariant
            segments == Some(list),
            body_bytes(list@.take(i as int)) == Some(out@),
    {
        assert(list@.take(i + 1).drop_last() =~= list@.take(i as int));
        match &list[i] {
            Segment::Memory(b) => append_bytes(&mut out, b.as_slice()),
            Segment::File(Some(b)) => append_bytes(&mut out, b.as_slice()),
            Segment::File(None) => {
                proof {
                    lemma_unreadable_prefix(list@, i + 1);
                }
                return None;  // unreadable temp file: treat as bad request
            },
        }
    }
    assert(list@.take(list@.len() as int) =~= list@);
    Some(out)
}

/// How many bytes of the temporary file belong to a buffer that covers
/// `start..end` of it.
pub fn file_span(start: i64, end: i64) -> (n: u64)
    ensures
        n == (if end > start {
            end - start
        } else {
            0
        }),
{
    if end > start {
        (end as i128 - start as i128) as u64
    } else {
        0
    }
}

/// A positional read of `len` bytes from `offset` on, of which `filled` are there.
pub struct RangeRead {
    pub filled: usize,
    pub len: usize,
    pub offset: i64,
}

/// What is to be done next about a [`RangeRead`].
#[derive(Debug, Clone, Copy, PartialEq, Eq, Structural)]
pub enum ReadStep {
    /// All bytes are there.
    Done,
    /// End of file or an error: the bytes cannot be had.
    Failed,
    /// Read up to `len` bytes at `offset` into the buffer from `filled` on.
    More { filled: usize, len: usize, offset: i64 },
}

impl RangeRead {
    /// No more bytes than asked for, and every offset within the range of `i64`.
    pub open spec fn valid(self) -> bool {
        self.filled <= self.len && 0 <= self.offset && self.offset + self.len <= i64::MAX
    }

    /// The step that is due.
    pub open spec fn due(self) -> ReadStep {
        if self.filled == self.len {
            ReadStep::Done
        } else {
            ReadStep::More {
                filled: self.filled,
                len: (self.len - self.filled) as usize,
                offset: (self.offset + self.filled) as i64,
            }
        }
    }

    /// Start reading `len` bytes at `offset`.
    pub fn start(len: usize, offset: i64) -> (r: RangeRead)
        requires
            0 <= offset,
            offset + len <= i64::MAX,
        ensures
            r.valid(),
            r == (RangeRead { filled: 0, len, offset }),
    {
        RangeRead { filled: 0, len, offset }
    }

    /// What is to be done now.
    pub fn step(&self) -> (s: ReadStep)
        requires
            self.valid(),
        ensures
            s == self.due(),
    {
        if self.filled == self.len {
            ReadStep::Done
        } else {
            ReadStep::More {
                filled: self.filled,
                len: self.len - self.filled,
                offset: self.offset + self.filled as i64,
            }
        }
    }

    /// Take note that the last read returned `n`: so many bytes, the end of the
    /// file, or an error. A read returns no more bytes than it was asked for.
    pub fn advance(&mut self, n: i64) -> (s: ReadStep)
        requires
            old(self).valid(),
            old(self).filled + n <= old(self).len,
        ensures
            final(self).valid(),
            final(self).len == old(self).len,
            final(self).offset == old(self).offset,
            n <= 0 ==> s == ReadStep::Failed && *final(self) == *old(self),
            n > 0 ==> final(self).filled == old(self).filled + n && s == final(self).due(),
    {
        if n <= 0 {
            return ReadStep::Failed;
        }
        self.filled = self.filled + n as usize;
        self.step()
    }
}

// -------------------------------------------------------------------- laws

/// What a client sends back for a cookie is read as the value that was set: a
/// `Cookie` field of one `name=value` pair, in which the name holds neither `=` nor
/// `;`, the value no `;`, and which neither starts nor ends with white space.
pub proof fn cookies_are_read_back(name: Seq<char>, value: Seq<char>)
    requires
        !name.contains('='),
        !name.contains(';'),
        !value.contains(';'),
        trim(name.push('=') + value) == name.push('=') + value,
    ensures
        cookie_value(seq![("Cookie"@, name.push('=') + value)], name) == Some(value),
{
    let pair = name.push('=') + value;
    let headers = seq![("Cookie"@, pair)];
    reveal_strlit("Cookie");
    reveal_strlit("cookie");
    assert(lower("Cookie"@) =~= lower("cookie"@));
    assert(!pair.contains(';')) by {
        if pair.contains(';') {
            let i = choose|i: int| 0 <= i < pair.len() && pair[i] == ';';
            if i < name.len() {
                assert(name[i] == ';');
            } else if i > name.len() {
                assert(value[i - name.len() - 1] == ';');
            }
        }
    }
    assert(split(pair, ';') =~= seq![pair]);
    assert(cookie_pairs(pair) =~= seq![pair]);
    lemma_split_once_joined(name, '=', value);
    assert(pair_value(cookie_pairs(pair), name) == Some(value));
}

/// `SameSite=None` forces `Secure`: the field is the same as if it had been asked
/// for.
pub proof fn samesite_none_is_secure(value: Seq<char>, c: CookieConfig)
    requires
        lower(c.samesite@) == lower("None"@),
    ensures
        set_cookie_text(value, c) == set_cookie_text(value, CookieConfig { secure: true, ..c }),
{
}

/// A `Set-Cookie` field starts with the pair that it sets.
pub proof fn set_cookie_starts_with_the_pair(value: Seq<char>, c: CookieConfig)
    requires
        !c.name@.contains(';'),
        !value.contains(';'),
    ensures
        split(set_cookie_text(value, c), ';')[0] == c.name@.push('=') + value,
{
    let pair = c.name@.push('=') + value;
    let s = set_cookie_text(value, c);
    reveal_strlit("=");
    reveal_strlit("; Path=");
    assert(!pair.contains(';')) by {
        if pair.contains(';') {
            let i = choose|i: int| 0 <= i < pair.len() && pair[i] == ';';
            if i < c.name@.len() {
                assert(c.name@[i] == ';');
            } else if i > c.name@.len() {
                assert(value[i - c.name@.len() - 1] == ';');
            }
        }
    }
    let n = pair.len() as int;
    let rest = s.skip(n + 1);
    assert(s.take(n) =~= pair);
    assert(s[n] == ';') by {
        assert("; Path="@[0] == ';');
    }
    assert(s =~= pair.push(';') + rest);
    lemma_split_once_joined(pair, ';', rest);
}

/// A header field is found by its name in any case, wherever it stands, and the first
/// of that name counts.
pub proof fn the_first_field_of_a_name_counts(
    before: Seq<(Seq<char>, Seq<char>)>,
    field: (Seq<char>, Seq<char>),
    after: Seq<(Seq<char>, Seq<char>)>,
    name: Seq<char>,
)
    requires
        lower(field.0) == lower(name),
        forall|i: int| 0 <= i < before.len() ==> lower((#[trigger] before[i]).0) != lower(name),
    ensures
        header_value(before.push(field) + after, name) == Some(field.1),
        header_value(before, name) is None,
    decreases before.len(),
{
    let all = before.push(field) + after;
    if before.len() == 0 {
        assert(all[0] == field);
    } else {
        let rest = before.drop_first();
        assert(all[0] == before[0]);
        assert(all.drop_first() =~= rest.push(field) + after);
        assert forall|i: int| 0 <= i < rest.len() implies lower((#[trigger] rest[i]).0) != lower(
            name,
        ) by {
            assert(rest[i] == before[i + 1]);
        }
        the_first_field_of_a_name_counts(rest, field, after, name);
    }
}

/// Of the pairs of a list the first of a name counts, and its value is all that
/// stands behind its first `=`.
pub proof fn the_first_pair_of_a_name_counts(
    before: Seq<Seq<char>>,
    name: Seq<char>,
    value: Seq<char>,
    after: Seq<Seq<char>>,
)
    requires
        !name.contains('='),
        forall|i: int|
            0 <= i < before.len() ==> !crate::text::starts_with(
                #[trigger] before[i],
                name.push('='),
            ),
    ensures
        pair_value(before.push(name.push('=') + value) + after, name) == Some(value),
        pair_value(before, name) is None,
    decreases before.len(),
{
    let pair = name.push('=') + value;
    let all = before.push(pair) + after;
    lemma_split_once_joined(name, '=', value);
    if before.len() == 0 {
        assert(all[0] == pair);
    } else {
        let first = before[0];
        let rest = before.drop_first();
        assert(all[0] == first);
        assert(all.drop_first() =~= rest.push(pair) + after);
        assert(!crate::text::starts_with(first, name.push('=')));
        crate::text::lemma_split_once_shorter(first, '=');
        if let Some((n, v)) = split_once(first, '=') {
            if n == name {
                assert(first.take(name.push('=').len() as int) =~= name.push('='));
            }
        }
        assert forall|i: int| 0 <= i < rest.len() implies !crate::text::starts_with(
            #[trigger] rest[i],
            name.push('='),
        ) by {
            assert(rest[i] == before[i + 1]);
        }
        the_first_pair_of_a_name_counts(rest, name, value, after);
    }
}

/// The pairs of a `Cookie` field stand between semicolons, white space around them
/// left out.
pub proof fn cookies_stand_between_semicolons(first: Seq<char>, rest: Seq<char>)
    requires
        !first.contains(';'),
    ensures
        cookie_pairs(first) == seq![trim(first)],
        cookie_pairs(first + ";"@ + rest) == seq![trim(first)] + cookie_pairs(rest),
{
    reveal_strlit(";");
    let s = first + ";"@ + rest;
    assert(s =~= first.push(';') + rest);
    lemma_split_once_joined(first, ';', rest);
    assert(split(s, ';') == seq![first] + split(rest, ';'));
    assert(cookie_pairs(s) =~= seq![trim(first)] + cookie_pairs(rest));
    assert(split(first, ';') == seq![first]);
    assert(cookie_pairs(first) =~= seq![trim(first)]);
}

/// A cookie is found in the first `Cookie` field that has it, whatever the case of
/// the field's name and whatever other fields there are.
pub proof fn cookies_are_found_in_any_field(
    before: Seq<(Seq<char>, Seq<char>)>,
    field: (Seq<char>, Seq<char>),
    after: Seq<(Seq<char>, Seq<char>)>,
    name: Seq<char>,
    value: Seq<char>,
)
    requires
        lower(field.0) == "cookie"@,
        pair_value(cookie_pairs(field.1), name) == Some(value),
        forall|i: int|
            0 <= i < before.len() ==> lower((#[trigger] before[i]).0) != "cookie"@ || pair_value(
                cookie_pairs(before[i].1),
                name,
            ) is None,
    ensures
        cookie_value(before.push(field) + after, name) == Some(value),
        cookie_value(before, name) is None,
    decreases before.len(),
{
    reveal_strlit("cookie");
    assert(lower("cookie"@) =~= "cookie"@);
    let all = before.push(field) + after;
    if before.len() == 0 {
        assert(all[0] == field);
    } else {
        let rest = before.drop_first();
        assert(all[0] == before[0]);
        assert(all.drop_first() =~= rest.push(field) + after);
        assert forall|i: int| 0 <= i < rest.len() implies lower((#[trigger] rest[i]).0)
            != "cookie"@ || pair_value(cookie_pairs(rest[i].1), name) is None by {
            assert(rest[i] == before[i + 1]);
        }
        cookies_are_found_in_any_field(rest, field, after, name, value);
    }
}

/// A `Set-Cookie` field holds the pair, the path, the domain where there is one, the
/// lifetime in seconds, `SameSite`, and the two flags: `Secure` where it is asked for
/// or `SameSite` is `None`, `HttpOnly` where it is asked for.
pub proof fn set_cookie_holds_every_attribute(value: Seq<char>, c: CookieConfig)
    ensures
        ({
            let s = set_cookie_text(value, c);
            let head = c.name@ + "="@ + value + "; Path="@ + c.path@;
            let life = "; Max-Age="@ + decimal(c.max_age_secs as int) + "; SameSite="@
                + c.samesite@;
            let domain = match c.domain {
                Some(d) => "; Domain="@ + d@,
                None => Seq::empty(),
            };
            let secure = c.secure || lower(c.samesite@) == "none"@;
            &&& secure && c.http_only ==> s == head + domain + life + "; Secure"@ + "; HttpOnly"@
            &&& secure && !c.http_only ==> s == head + domain + life + "; Secure"@
            &&& !secure && c.http_only ==> s == head + domain + life + "; HttpOnly"@
            &&& !secure && !c.http_only ==> s == head + domain + life
        }),
{
    reveal_strlit("None");
    reveal_strlit("none");
    assert(lower("None"@) =~= "none"@);
    let s = set_cookie_text(value, c);
    let head = c.name@ + "="@ + value + "; Path="@ + c.path@;
    let life = "; Max-Age="@ + decimal(c.max_age_secs as int) + "; SameSite="@ + c.samesite@;
    let domain = match c.domain {
        Some(d) => "; Domain="@ + d@,
        None => Seq::empty(),
    };
    let secure = c.secure || lower(c.samesite@) == "none"@;
    if secure && c.http_only {
        assert(s =~= head + domain + life + "; Secure"@ + "; HttpOnly"@);
    } else if secure {
        assert(s =~= head + domain + life + "; Secure"@);
    } else if c.http_only {
        assert(s =~= head + domain + life + "; HttpOnly"@);
    } else {
        assert(s =~= head + domain + life);
    }
}

/// An IPv4 client is known by the four octets of its socket address, the first the
/// most significant.
pub proof fn octets_make_the_address(sa: Seq<u8>)
    requires
        sa.len() >= 8,
    ensures
        socket_address(2, sa) == Some(
            IpAddr::V4(
                (sa[4] as u32 * 0x100_0000 + sa[5] as u32 * 0x1_0000 + sa[6] as u32 * 0x100
                    + sa[7] as u32) as u32,
            ),
        ),
{
    let b = sa.subrange(4, 8);
    assert(b.drop_last().drop_last().drop_last().drop_last() =~= Seq::<u8>::empty());
    reveal_with_fuel(be_value, 5);
}

/// Any client of IPv6 is known by the sixteen octets of its socket address, in the same
/// way; one of another family has no address.
pub proof fn other_families_are_known(sa: Seq<u8>, family: u16)
    requires
        sa.len() >= 24,
    ensures
        socket_address(10, sa) matches Some(IpAddr::V6(a)) && a == be_value(sa.subrange(8, 24)),
        family != 2 && family != 10 ==> socket_address(family, sa) is None,
{
    lemma_be_bound(sa.subrange(8, 24));
    lemma_pow2_at_most_128(128);
}

/// A body is its buffers one after the other, wherever they were kept, and it cannot
/// be had where one of them cannot.
pub proof fn bodies_are_their_buffers_in_order(a: Seq<Segment>, b: Seq<Segment>, bytes: Vec<u8>)
    ensures
        body_bytes(a + b) == match (body_bytes(a), body_bytes(b)) {
            (Some(x), Some(y)) => Some(x + y),
            _ => None,
        },
        body_bytes(seq![Segment::Memory(bytes)]) == Some(bytes@),
        body_bytes(seq![Segment::File(Some(bytes))]) == Some(bytes@),
        body_bytes(seq![Segment::File(None)]) is None,
        body_bytes(Seq::empty()) == Some(Seq::<u8>::empty()),
    decreases b.len(),
{
    assert(seq![Segment::Memory(bytes)].drop_last() =~= Seq::<Segment>::empty());
    assert(seq![Segment::File(Some(bytes))].drop_last() =~= Seq::<Segment>::empty());
    assert(seq![Segment::File(None)].drop_last() =~= Seq::<Segment>::empty());
    assert(Seq::<u8>::empty() + bytes@ =~= bytes@);
    if b.len() == 0 {
        assert(a + b =~= a);
        if body_bytes(a) is Some {
            assert(body_bytes(a)->0 + Seq::<u8>::empty() =~= body_bytes(a)->0);
        }
    } else {
        bodies_are_their_buffers_in_order(a, b.drop_last(), bytes);
        assert((a + b).drop_last() =~= a + b.drop_last());
        assert((a + b).last() == b.last());
        if body_bytes(a) is Some && body_bytes(b) is Some {
            let x = body_bytes(a)->0;
            let y = body_bytes(b.drop_last())->0;
            match b.last() {
                Segment::Memory(z) => {
                    assert(x + y + z@ =~= x + (y + z@));
                },
                Segment::File(Some(z)) => {
                    assert(x + y + z@ =~= x + (y + z@));
                },
                Segment::File(None) => {},
            }
        }
    }
}

/// A read goes on where it stopped, for as many bytes as are missing, and is done
/// when none is.
pub proof fn reads_go_on_where_they_stopped(r: RangeRead)
    requires
        r.valid(),
    ensures
        r.filled == r.len <==> r.due() is Done,
        r.due() matches ReadStep::More { filled, len, offset } ==> filled == r.filled && filled + len
            == r.len && offset == r.offset + filled && len > 0,
        !(r.due() is Failed),
{
}

/// The time is the seconds since the epoch as they are, for as long as they fit, and
/// zero for a clock that stands before it.
pub proof fn the_clock_is_read_as_it_stands(s: u64)
    ensures
        s <= i64::MAX ==> clock_seconds(Some(s)) == s,
        clock_seconds(None) == 0,
{
}

/// An expiry is in range where it is a time of 64 bits.
pub proof fn expiries_are_times(cfg: Cfg, now: i64)
    ensures
        expiry_fits(cfg, now) <==> -0x8000_0000_0000_0000 <= now + cfg.clearance_ttl
            <= 0x7fff_ffff_ffff_ffff,
{
}

/// A clock beyond the range of times wraps around.
pub proof fn late_clocks_wrap(s: u64)
    requires
        s > i64::MAX,
    ensures
        clock_seconds(Some(s)) == s - 0x1_0000_0000_0000_0000,
{
}

/// A reading is what the look at the clock returned, and no other value.
proof fn readings_come_from_the_clock(reading: Option<u64>)
    ensures
        readable(reading) <==> call_ensures(since_epoch, (), reading),
{
}

} // verus!
