//! The captured request a challenge page carries, so a `POST` that runs into an
//! expired clearance is not lost.
//!
//! ## Why the client keeps it
//!
//! When a form submit is challenged, the module answers the `POST` with the
//! challenge page, and the body is gone. Reloading after the solve re-issues a
//! `GET` (the fields are lost) or makes the browser ask the user to confirm a
//! resubmission. Buffering the request *server*-side instead would mean shared
//! state with a TTL, a size budget and an eviction policy, for data the client
//! itself still has.
//!
//! So the client keeps it: the module embeds the captured request into the
//! challenge page it is already sending back to that same client,
//!
//! ```html
//! <script id="pow-replay" type="application/json">
//! {"method":"POST","url":"/order","type":"application/x-www-form-urlencoded","body":"<base64url>"}
//! </script>
//! ```
//!
//! and `solver.js` re-issues the request once the clearance cookie is set.
//!
//! ## Why it needs no signature
//!
//! Unlike the clearance and no-JS tokens, this payload is not authenticated and
//! does not need to be. It travels only back to the client that sent it, and a
//! client that tampers with it merely sends a different request of its own. What
//! *does* matter is that the payload cannot break out of the page: the URL is
//! held to [`crate::uri::same_site_path`] and every `<`/`>`/`&` in the JSON is
//! escaped, so it can never close the `<script>` block it lives in.
//!
//! The one thing the operator must bound is size: the body is read into memory
//! before the client has proven anything.

use crate::address::hex_number;
use crate::bytes::{append_bytes, is_last_match, last_match, matches_at, rfind_ci};
use crate::codec::{b64url, b64url_bytes, b64url_text, lemma_b64url_printable};
use crate::json::{
    field_texts, json_char, json_chars, json_string, member, object, printable, write_object, Field,
};
use crate::text::{chars, lower, same_ignoring_case, string};
use crate::uri::{path_char, safe_path, same_site_path};
use vstd::prelude::*;
use vstd::slice::slice_subrange;
use vstd::string::StringExecFns;
use vstd::utf8::encode_utf8;

verus! {

/// `id` of the injected `<script>` block: the contract with `solver.js`.
pub const SCRIPT_ID: &'static str = "pow-replay";

/// Longest `Content-Type` echoed back into the page. Real ones are far shorter
/// (`multipart/form-data; boundary=...` is the long case); the bound just keeps an
/// oversized header out of the payload.
pub const MAX_CONTENT_TYPE: usize = 200;

// ----------------------------------------------------------------- methods

/// `c` is an ASCII letter.
pub open spec fn is_alphabetic(c: char) -> bool {
    'a' <= c <= 'z' || 'A' <= c <= 'Z'
}

/// The only methods never replayed, in any case: `GET`/`HEAD` carry nothing to
/// preserve (the reload re-issues them), `TRACE` must not carry a body at all, and
/// `CONNECT` is a tunnel, not a request-response exchange.
///
/// Everything else is replayable, deliberately: capture already requires a
/// declared body, so the *request* decides whether there is data to keep, not a
/// hard-coded verb table.
pub open spec fn never_replayed(method: Seq<char>) -> bool {
    ||| lower(method) == lower("GET"@)
    ||| lower(method) == lower("HEAD"@)
    ||| lower(method) == lower("TRACE"@)
    ||| lower(method) == lower("CONNECT"@)
}

/// A method that the challenge page tries to replay.
pub open spec fn replayable(method: Seq<char>) -> bool {
    &&& method.len() > 0
    &&& forall|i: int| 0 <= i < method.len() ==> is_alphabetic(#[trigger] method[i])
    &&& !never_replayed(method)
}

/// Is this a method the challenge page should try to replay? Anything that can
/// carry data, i.e. everything but [`never_replayed`], held to a plain alphabetic
/// token so nothing exotic reaches the page or `fetch()`.
pub fn method_replayable(method: &str) -> (r: bool)
    ensures
        r == replayable(method@),
{
    let m = chars(method);
    if m.len() == 0 {
        return false;
    }
    for i in 0..m.len()
        invariant
            m@ == method@,
            forall|j: int| 0 <= j < i ==> is_alphabetic(#[trigger] method@[j]),
    {
        let c = m[i];
        if !(('a' <= c && c <= 'z') || ('A' <= c && c <= 'Z')) {
            assert(!is_alphabetic(method@[i as int]));
            return false;
        }
    }
    !(same_ignoring_case(method, "GET") || same_ignoring_case(method, "HEAD")
        || same_ignoring_case(method, "TRACE") || same_ignoring_case(method, "CONNECT"))
}

// ----------------------------------------------------------- content types

/// The printable characters of `s`.
pub open spec fn printable_part(s: Seq<char>) -> Seq<char> {
    s.filter(|c: char| ' ' <= c <= '~')
}

/// A `Content-Type` as it is echoed: printable, and bounded.
pub open spec fn clean_type(ct: Seq<char>) -> Seq<char> {
    let p = printable_part(ct);
    if p.len() > MAX_CONTENT_TYPE {
        p.take(MAX_CONTENT_TYPE as int)
    } else {
        p
    }
}

/// Keep the `Content-Type` printable and bounded: it is echoed straight back into
/// the page, and `fetch` would reject a header value with controls anyway.
pub fn sanitize_content_type(ct: &str) -> (r: String)
    ensures
        r@ == clean_type(ct@),
        printable(r@),
        r@.len() <= MAX_CONTENT_TYPE,
{
    let all = chars(ct);
    let mut kept: Vec<char> = Vec::new();
    assert(all@.take(0) =~= Seq::empty());
    reveal(Seq::filter);
    for i in 0..all.len()
        invariant
            all@ == ct@,
            kept@ == printable_part(all@.take(i as int)),
            printable(kept@),
    {
        reveal(Seq::filter);
        assert(all@.take(i + 1).drop_last() =~= all@.take(i as int));
        let c = all[i];
        if ' ' <= c && c <= '~' {
            kept.push(c);
        }
    }
    assert(all@.take(all@.len() as int) =~= all@);
    kept.truncate(MAX_CONTENT_TYPE);
    assert(kept@ =~= clean_type(ct@));
    string(kept.as_slice())
}

// ---------------------------------------------------------------- escaping

/// A character of a JSON document as it stands in the page.
pub open spec fn markup_char(c: char) -> Seq<char> {
    if c == '<' {
        "\\u003c"@
    } else if c == '>' {
        "\\u003e"@
    } else if c == '&' {
        "\\u0026"@
    } else {
        seq![c]
    }
}

/// A JSON document as it stands in the page.
pub open spec fn markup(s: Seq<char>) -> Seq<char>
    decreases s.len(),
{
    if s.len() == 0 {
        Seq::empty()
    } else {
        markup(s.drop_last()) + markup_char(s.last())
    }
}

/// Escape the three characters that could end the surrounding `<script>` block
/// (or open an HTML comment) as JSON `\uXXXX` escapes. Safe to do on the
/// serialized document: outside string literals JSON contains none of them.
pub fn escape_markup(json: &str) -> (r: String)
    ensures
        r@ == markup(json@),
{
    let all = chars(json);
    let mut out = String::new();
    assert(all@.take(0) =~= Seq::empty());
    for i in 0..all.len()
        invariant
            out@ == markup(all@.take(i as int)),
    {
        assert(all@.take(i + 1).drop_last() =~= all@.take(i as int));
        let c = all[i];
        let ghost before = out@;
        if c == '<' {
            out.append("\\u003c");
        } else if c == '>' {
            out.append("\\u003e");
        } else if c == '&' {
            out.append("\\u0026");
        } else {
            out.push(c);
        }
        assert(out@ =~= before + markup_char(c));
    }
    assert(all@.take(all@.len() as int) =~= all@);
    out
}

// ---------------------------------------------------------------- requests

/// A captured request, ready to be handed to the challenge page.
pub struct Captured<'a> {
    method: &'a str,
    url: &'a str,
    content_type: String,
    body: &'a [u8],
}

/// What a [`Captured`] holds.
pub struct CapturedView {
    pub method: Seq<char>,
    pub url: Seq<char>,
    pub content_type: Seq<char>,
    pub body: Seq<u8>,
}

impl<'a> View for Captured<'a> {
    type V = CapturedView;

    closed spec fn view(&self) -> CapturedView {
        CapturedView {
            method: self.method@,
            url: self.url@,
            content_type: self.content_type@,
            body: self.body@,
        }
    }
}

/// The JSON document of a captured request.
pub open spec fn document(c: CapturedView) -> Seq<char> {
    object(
        seq![
            member("method"@, json_string(c.method)),
            member("url"@, json_string(c.url)),
            member("type"@, json_string(c.content_type)),
            member("body"@, json_string(b64url_text(c.body))),
        ],
    )
}

/// The block that is injected for a captured request.
pub open spec fn script_block(c: CapturedView) -> Seq<char> {
    "<script id=\""@ + SCRIPT_ID@ + "\" type=\"application/json\">"@ + markup(document(c))
        + "</script>\n"@
}

/// What every captured request satisfies.
pub open spec fn capturable(c: CapturedView) -> bool {
    &&& replayable(c.method)
    &&& safe_path(c.url)
    &&& printable(c.content_type)
    &&& c.content_type.len() <= MAX_CONTENT_TYPE
}

impl<'a> Captured<'a> {
    #[verifier::type_invariant]
    closed spec fn valid(self) -> bool {
        capturable(self@)
    }

    /// Validate and capture. `None` (serve the plain challenge page) when the
    /// method is not replayable or the URL is not a safe same-site path (an
    /// absolute-form request target, say). The caller owns the size limit.
    pub fn new(method: &'a str, url: &'a str, content_type: &str, body: &'a [u8]) -> (r: Option<
        Self,
    >)
        ensures
            r is Some == (replayable(method@) && safe_path(url@)),
            r matches Some(c) ==> c@ == (CapturedView {
                method: method@,
                url: url@,
                content_type: clean_type(content_type@),
                body: body@,
            }) && capturable(c@),
    {
        if !method_replayable(method) || !same_site_path(url) {
            return None;
        }
        Some(Captured { method, url, content_type: sanitize_content_type(content_type), body })
    }

    /// The JSON payload: `{"method","url","type","body"}`, body base64url. The
    /// method is verbatim: HTTP methods are case-sensitive, so it is not
    /// "normalized".
    pub fn payload(&self) -> (s: String)
        ensures
            s@ == markup(document(self@)),
            safe_in_script(s@),
            b64url_bytes(b64url_text(self@.body)) == Some(self@.body),
    {
        proof {
            use_type_invariant(self);
            reveal_strlit("method");
            reveal_strlit("url");
            reveal_strlit("type");
            reveal_strlit("body");
            assert("type"@[0] != "body"@[0]);
            assert("method"@.len() == 6 && "url"@.len() == 3);
            assert forall|i: int| 0 <= i < self.method@.len() implies ' '
                <= #[trigger] self.method@[i] <= '~' by {
                assert(is_alphabetic(self.method@[i]));
            }
            assert forall|i: int| 0 <= i < self.url@.len() implies ' '
                <= #[trigger] self.url@[i] <= '~' by {
                assert(path_char(self.url@[i]));
            }
        }
        let body = b64url(self.body);
        proof {
            lemma_b64url_printable(body@);
        }
        let members = [
            Field::Text("method", self.method),
            Field::Text("url", self.url),
            Field::Text("type", self.content_type.as_str()),
            Field::Text("body", body.as_str()),
        ];
        let json = write_object(&members);
        proof {
            assert(field_texts(members@) =~= seq![
                members@[0].text(),
                members@[1].text(),
                members@[2].text(),
                members@[3].text(),
            ]);
            markup_cannot_close_a_block(json@);
        }
        escape_markup(json.as_str())
    }

    /// The full `<script>` block to inject, terminated by a newline.
    pub fn script_tag(&self) -> (s: String)
        ensures
            s@ == script_block(self@),
    {
        let mut s = "<script id=\"".to_owned();
        s.append(SCRIPT_ID);
        s.append("\" type=\"application/json\">");
        s.append(self.payload().as_str());
        s.append("</script>\n");
        s
    }
}

// --------------------------------------------------------------- injection

/// Where a block goes in `page`: before the last `</body>`, in any case, or at the
/// end.
pub open spec fn insertion_point(page: Seq<u8>) -> int {
    match last_match(page, encode_utf8("</body>"@)) {
        Some(i) => i,
        None => page.len() as int,
    }
}

/// `page` with the bytes of `tag` inserted.
pub open spec fn injected(page: Seq<u8>, tag: Seq<char>) -> Seq<u8> {
    page.take(insertion_point(page)) + encode_utf8(tag) + page.skip(insertion_point(page))
}

/// Insert `tag` into `page` just before the last `</body>` (case-insensitive), or
/// append it when the page has no body element. Deliberately additive: the
/// challenge page is operator-overridable, so a custom page keeps working without
/// carrying a placeholder for this.
pub fn inject(page: &[u8], tag: &str) -> (out: Vec<u8>)
    ensures
        out@ == injected(page@, tag@),
{
    let at: usize = match rfind_ci(page, "</body>".as_bytes()) {
        Some(i) => i,
        None => page.len(),
    };
    let mut out: Vec<u8> = Vec::new();
    append_bytes(&mut out, slice_subrange(page, 0, at));
    append_bytes(&mut out, tag.as_bytes());
    append_bytes(&mut out, slice_subrange(page, at, page.len()));
    assert(page@.subrange(0, at as int) =~= page@.take(at as int));
    assert(page@.subrange(at as int, page@.len() as int) =~= page@.skip(at as int));
    assert(out@ =~= injected(page@, tag@));
    out
}

// -------------------------------------------------------------------- laws

/// Free of the characters that could end a `<script>` block or open a comment.
pub open spec fn safe_in_script(s: Seq<char>) -> bool {
    !s.contains('<') && !s.contains('>') && !s.contains('&')
}

/// Whatever the document holds, it cannot close the block that it stands in.
pub proof fn markup_cannot_close_a_block(s: Seq<char>)
    ensures
        safe_in_script(markup(s)),
    decreases s.len(),
{
    if s.len() > 0 {
        markup_cannot_close_a_block(s.drop_last());
        reveal_strlit("\\u003c");
        reveal_strlit("\\u003e");
        reveal_strlit("\\u0026");
        let a = markup(s.drop_last());
        let b = markup_char(s.last());
        assert forall|i: int| 0 <= i < (a + b).len() implies (a + b)[i] != '<' && (a + b)[i] != '>'
            && (a + b)[i] != '&' by {
            if i < a.len() {
                assert(a.contains(a[i]));
            }
        }
    }
}

/// The text that the inside of a JSON string denotes: `\"` and `\\` stand for the
/// second character, `\u` and four hexadecimal digits for the character of that
/// number, and every other character for itself.
pub open spec fn string_value(s: Seq<char>) -> Seq<char>
    decreases s.len(),
{
    if s.len() == 0 {
        Seq::empty()
    } else if s[0] != '\\' {
        seq![s[0]] + string_value(s.skip(1))
    } else if s.len() >= 6 && s[1] == 'u' {
        seq![hex_number(s.subrange(2, 6)) as char] + string_value(s.skip(6))
    } else if s.len() >= 2 {
        seq![s[1]] + string_value(s.skip(2))
    } else {
        Seq::empty()
    }
}

/// The page hands back what was captured: a printable text, written as a JSON
/// string and escaped for the page, denotes itself.
pub proof fn escaped_strings_keep_their_value(s: Seq<char>)
    requires
        printable(s),
    ensures
        string_value(markup(json_chars(s))) == s,
    decreases s.len(),
{
    if s.len() > 0 {
        let rest = s.drop_first();
        escaped_strings_keep_their_value(rest);
        assert(seq![s[0]] + rest =~= s);
        lemma_json_chars_concat(seq![s[0]], rest);
        assert(json_chars(seq![s[0]]) =~= json_char(s[0])) by {
            assert(json_chars(Seq::<char>::empty()) =~= Seq::<char>::empty());
            assert(seq![s[0]].drop_last() =~= Seq::<char>::empty());
            assert(seq![s[0]].last() == s[0]);
        }
        lemma_markup_concat(json_char(s[0]), json_chars(rest));
        lemma_first_value(s[0], markup(json_chars(rest)));
        assert(seq![s[0]] + rest =~= s);
    }
}

proof fn lemma_first_value(c: char, rest: Seq<char>)
    requires
        ' ' <= c <= '~',
    ensures
        string_value(markup(json_char(c)) + rest) == seq![c] + string_value(rest),
{
    let t = markup(json_char(c));
    let all = t + rest;
    if c == '"' || c == '\\' {
        let e = json_char(c);
        assert(e.drop_last() =~= seq!['\\']);
        assert(seq!['\\'].drop_last() =~= Seq::<char>::empty());
        assert(markup(Seq::<char>::empty()) =~= Seq::<char>::empty());
        assert(markup(seq!['\\']) =~= seq!['\\']);
        assert(t =~= seq!['\\', c]);
        assert(all.skip(2) =~= rest);
    } else {
        let e = seq![c];
        assert(e.drop_last() =~= Seq::<char>::empty());
        assert(markup(Seq::<char>::empty()) =~= Seq::<char>::empty());
        assert(t =~= markup_char(c));
        reveal_strlit("\\u003c");
        reveal_strlit("\\u003e");
        reveal_strlit("\\u0026");
        if c == '<' || c == '>' || c == '&' {
            assert(t.len() == 6 && t[0] == '\\' && t[1] == 'u');
            assert(all.subrange(2, 6) =~= t.subrange(2, 6));
            assert(all.skip(6) =~= rest);
            let h = t.subrange(2, 6);
            reveal_with_fuel(hex_number, 5);
            assert(h.drop_last().drop_last().drop_last().drop_last() =~= Seq::<char>::empty());
            assert(hex_number(h) == c as nat);
        } else {
            assert(all[0] == c);
            assert(all.skip(1) =~= rest);
        }
    }
}

proof fn lemma_json_chars_concat(a: Seq<char>, b: Seq<char>)
    ensures
        json_chars(a + b) == json_chars(a) + json_chars(b),
    decreases b.len(),
{
    if b.len() == 0 {
        assert(a + b =~= a);
        assert(json_chars(a) + json_chars(b) =~= json_chars(a));
    } else {
        lemma_json_chars_concat(a, b.drop_last());
        assert((a + b).drop_last() =~= a + b.drop_last());
        assert((a + b).last() == b.last());
        assert(json_chars(a + b) =~= json_chars(a) + json_chars(b));
    }
}

proof fn lemma_markup_concat(a: Seq<char>, b: Seq<char>)
    ensures
        markup(a + b) == markup(a) + markup(b),
    decreases b.len(),
{
    if b.len() == 0 {
        assert(a + b =~= a);
        assert(markup(a) + markup(b) =~= markup(a));
    } else {
        lemma_markup_concat(a, b.drop_last());
        assert((a + b).drop_last() =~= a + b.drop_last());
        assert((a + b).last() == b.last());
        assert(markup(a + b) =~= markup(a) + markup(b));
    }
}

/// A JSON string as it stands in the page.
pub open spec fn page_string(s: Seq<char>) -> Seq<char> {
    seq!['"'] + markup(json_chars(s)) + seq!['"']
}

/// Escaping for the page leaves the structure of the document alone: it is the same
/// object, with each string escaped.
pub proof fn markup_escapes_the_strings_alone(c: CapturedView)
    ensures
        markup(document(c)) == object(
            seq![
                member("method"@, page_string(c.method)),
                member("url"@, page_string(c.url)),
                member("type"@, page_string(c.content_type)),
                member("body"@, page_string(b64url_text(c.body))),
            ],
        ),
{
    reveal_strlit("method");
    reveal_strlit("url");
    reveal_strlit("type");
    reveal_strlit("body");
    let a = member("method"@, json_string(c.method));
    let b = member("url"@, json_string(c.url));
    let d = member("type"@, json_string(c.content_type));
    let e = member("body"@, json_string(b64url_text(c.body)));
    lemma_markup_member("method"@, c.method);
    lemma_markup_member("url"@, c.url);
    lemma_markup_member("type"@, c.content_type);
    lemma_markup_member("body"@, b64url_text(c.body));
    lemma_object_of_four(a, b, d, e);
    lemma_object_of_four(markup(a), markup(b), markup(d), markup(e));
    lemma_markup_plain(seq!['{']);
    lemma_markup_plain(seq![',']);
    lemma_markup_plain(seq!['}']);
    let comma = seq![','];
    lemma_markup_concat(seq!['{'], a);
    lemma_markup_concat(seq!['{'] + a, comma);
    lemma_markup_concat(seq!['{'] + a + comma, b);
    lemma_markup_concat(seq!['{'] + a + comma + b, comma);
    lemma_markup_concat(seq!['{'] + a + comma + b + comma, d);
    lemma_markup_concat(seq!['{'] + a + comma + b + comma + d, comma);
    lemma_markup_concat(seq!['{'] + a + comma + b + comma + d + comma, e);
    lemma_markup_concat(seq!['{'] + a + comma + b + comma + d + comma + e, seq!['}']);
}

proof fn lemma_object_of_four(a: Seq<char>, b: Seq<char>, c: Seq<char>, d: Seq<char>)
    ensures
        object(seq![a, b, c, d]) == seq!['{'] + a + seq![','] + b + seq![','] + c + seq![','] + d
            + seq!['}'],
{
    let list = seq![a, b, c, d];
    assert(list.drop_last() =~= seq![a, b, c]);
    assert(list.drop_last().drop_last() =~= seq![a, b]);
    assert(list.drop_last().drop_last().drop_last() =~= seq![a]);
    reveal_with_fuel(crate::json::comma_list, 4);
    assert(object(list) =~= seq!['{'] + a + seq![','] + b + seq![','] + c + seq![','] + d
        + seq!['}']);
}

proof fn lemma_markup_plain(s: Seq<char>)
    requires
        safe_in_script(s),
    ensures
        markup(s) == s,
    decreases s.len(),
{
    if s.len() > 0 {
        let init = s.drop_last();
        assert(s[s.len() - 1] == s.last());
        assert(safe_in_script(init)) by {
            assert forall|i: int| 0 <= i < init.len() implies init[i] != '<' && init[i] != '>'
                && init[i] != '&' by {
                assert(s[i] == init[i]);
            }
        }
        lemma_markup_plain(init);
        assert(markup(s) =~= s);
    } else {
        assert(markup(s) =~= s);
    }
}

proof fn lemma_markup_member(name: Seq<char>, value: Seq<char>)
    requires
        forall|i: int| 0 <= i < name.len() ==> is_alphabetic(#[trigger] name[i]),
    ensures
        markup(member(name, json_string(value))) == member(name, page_string(value)),
{
    let n = json_string(name);
    lemma_json_chars_plain(name);
    let head = n + seq![':'];
    assert(safe_in_script(head)) by {
        assert forall|i: int| 0 <= i < head.len() implies head[i] != '<' && head[i] != '>'
            && head[i] != '&' by {
            if 1 <= i <= name.len() {
                assert(is_alphabetic(name[i - 1]));
            }
        }
    }
    lemma_markup_plain(head);
    let v = json_string(value);
    lemma_markup_concat(head, v);
    lemma_markup_plain(seq!['"']);
    lemma_markup_concat(seq!['"'], json_chars(value));
    lemma_markup_concat(seq!['"'] + json_chars(value), seq!['"']);
    assert(markup(v) =~= page_string(value));
}

proof fn lemma_json_chars_plain(s: Seq<char>)
    requires
        forall|i: int| 0 <= i < s.len() ==> is_alphabetic(#[trigger] s[i]),
    ensures
        json_chars(s) == s,
    decreases s.len(),
{
    if s.len() > 0 {
        assert(is_alphabetic(s[s.len() - 1]));
        lemma_json_chars_plain(s.drop_last());
        assert(json_chars(s) =~= s);
    } else {
        assert(json_chars(s) =~= s);
    }
}

/// Injection only adds: taking the block out again leaves the page as it was, and
/// where the page had a closing body tag, one follows the block.
pub proof fn injection_is_additive(page: Seq<u8>, tag: Seq<char>)
    ensures
        ({
            let at = insertion_point(page);
            let out = injected(page, tag);
            let n = encode_utf8(tag).len();
            &&& 0 <= at <= page.len()
            &&& out.len() == page.len() + n
            &&& out.subrange(at, at + n) == encode_utf8(tag)
            &&& out.take(at) + out.skip(at + n) == page
            &&& last_match(page, encode_utf8("</body>"@)) is Some ==> crate::bytes::matches_at(
                out.skip(at + n),
                encode_utf8("</body>"@),
                0,
            )
        }),
{
    let at = insertion_point(page);
    let out = injected(page, tag);
    let n = encode_utf8(tag).len();
    let needle = encode_utf8("</body>"@);
    assert(out.subrange(at, at + n) =~= encode_utf8(tag));
    assert(out.take(at) =~= page.take(at));
    assert(out.skip(at + n) =~= page.skip(at));
    assert(page.take(at) + page.skip(at) =~= page);
    if last_match(page, needle) is Some {
        assert(crate::bytes::matches_at(page, needle, at));
        assert forall|k: int| 0 <= k < needle.len() implies crate::bytes::lower_byte(
            #[trigger] page.skip(at)[0 + k],
        ) == crate::bytes::lower_byte(needle[k]) by {
            assert(page.skip(at)[0 + k] == page[at + k]);
        }
    }
}

/// A `Content-Type` that is printable and has no more than two hundred characters is
/// kept as it is, and of a longer one the first two hundred.
pub proof fn short_types_are_kept(ct: Seq<char>)
    requires
        printable(ct),
    ensures
        ct.len() <= 200 ==> clean_type(ct) == ct,
        ct.len() > 200 ==> clean_type(ct) == ct.take(200),
{
    lemma_printable_part_all(ct);
}

proof fn lemma_printable_part_all(s: Seq<char>)
    requires
        printable(s),
    ensures
        printable_part(s) == s,
    decreases s.len(),
{
    reveal(Seq::filter);
    if s.len() > 0 {
        let init = s.drop_last();
        assert forall|i: int| 0 <= i < init.len() implies ' ' <= #[trigger] init[i] <= '~' by {
            assert(s[i] == init[i]);
        }
        lemma_printable_part_all(init);
        assert(' ' <= s[s.len() - 1] <= '~');
        assert(printable_part(s) =~= s);
    } else {
        assert(printable_part(s) =~= s);
    }
}

/// A character that is not printable is left out of a `Content-Type`, wherever it
/// stands, and changes nothing else.
pub proof fn unprintable_characters_are_left_out(a: Seq<char>, c: char, b: Seq<char>)
    requires
        !(' ' <= c <= '~'),
    ensures
        clean_type(a.push(c) + b) == clean_type(a + b),
{
    lemma_printable_part_without(a, c, b);
}

proof fn lemma_printable_part_without(a: Seq<char>, c: char, b: Seq<char>)
    requires
        !(' ' <= c <= '~'),
    ensures
        printable_part(a.push(c) + b) == printable_part(a + b),
    decreases b.len(),
{
    reveal(Seq::filter);
    if b.len() == 0 {
        assert(a.push(c) + b =~= a.push(c));
        assert(a + b =~= a);
        assert(a.push(c).drop_last() =~= a);
    } else {
        lemma_printable_part_without(a, c, b.drop_last());
        assert((a.push(c) + b).drop_last() =~= a.push(c) + b.drop_last());
        assert((a + b).drop_last() =~= a + b.drop_last());
    }
}

/// Which methods are replayed: every plain word but four, whatever their case.
pub proof fn all_but_four_methods_are_replayed(method: Seq<char>)
    requires
        method.len() > 0,
        forall|i: int|
            0 <= i < method.len() ==> ('a' <= #[trigger] method[i] <= 'z' || 'A' <= method[i]
                <= 'Z'),
    ensures
        replayable(method) <==> lower(method) != "get"@ && lower(method) != "head"@ && lower(method)
            != "trace"@ && lower(method) != "connect"@,
{
    reveal_strlit("GET");
    reveal_strlit("HEAD");
    reveal_strlit("TRACE");
    reveal_strlit("CONNECT");
    reveal_strlit("get");
    reveal_strlit("head");
    reveal_strlit("trace");
    reveal_strlit("connect");
    assert(lower("GET"@) =~= "get"@);
    assert(lower("HEAD"@) =~= "head"@);
    assert(lower("TRACE"@) =~= "trace"@);
    assert(lower("CONNECT"@) =~= "connect"@);
    assert forall|i: int| 0 <= i < method.len() implies is_alphabetic(#[trigger] method[i]) by {}
}

/// Nothing else is replayed: not the empty method, and none with a character that is
/// no letter.
pub proof fn other_methods_are_not_replayed(method: Seq<char>, i: int)
    requires
        method.len() == 0 || 0 <= i < method.len() && !('a' <= method[i] <= 'z') && !('A'
            <= method[i] <= 'Z'),
    ensures
        !replayable(method),
{
    if method.len() > 0 {
        assert(!is_alphabetic(method[i]));
    }
}

/// The block stands just before the last closing body tag, in whatever case that is
/// written, and at the end of a page that has none.
pub proof fn blocks_stand_before_the_last_body_end(
    before: Seq<u8>,
    rest: Seq<u8>,
    tag: Seq<char>,
)
    ensures
        matches_at(rest, encode_utf8("</body>"@), 0) && (forall|j: int|
            j > 0 ==> !matches_at(rest, encode_utf8("</body>"@), j)) ==> injected(
            before + rest,
            tag,
        ) == before + encode_utf8(tag) + rest,
        (forall|j: int| !matches_at(before, encode_utf8("</body>"@), j)) ==> injected(before, tag)
            == before + encode_utf8(tag),
{
    let needle = encode_utf8("</body>"@);
    let page = before + rest;
    let at = before.len() as int;
    if matches_at(rest, needle, 0) && (forall|j: int| j > 0 ==> !matches_at(rest, needle, j)) {
        lemma_needle_nonempty();
        assert(matches_at(page, needle, at)) by {
            assert forall|k: int| 0 <= k < needle.len() implies crate::bytes::lower_byte(
                #[trigger] page[at + k],
            ) == crate::bytes::lower_byte(needle[k]) by {
                assert(page[at + k] == rest[0 + k]);
            }
        }
        assert forall|j: int| at < j implies !matches_at(page, needle, j) by {
            if matches_at(page, needle, j) {
                assert forall|k: int| 0 <= k < needle.len() implies crate::bytes::lower_byte(
                    #[trigger] rest[(j - at) + k],
                ) == crate::bytes::lower_byte(needle[k]) by {
                    assert(rest[(j - at) + k] == page[j + k]);
                }
                assert(matches_at(rest, needle, j - at));
            }
        }
        assert(is_last_match(page, needle, at));
        let i = choose|i: int| is_last_match(page, needle, i);
        assert(i == at) by {
            if i < at {
                assert(matches_at(page, needle, at));
            } else if i > at {
                assert(matches_at(page, needle, i));
            }
        }
        assert(page.take(at) =~= before);
        assert(page.skip(at) =~= rest);
    }
    if forall|j: int| !matches_at(before, needle, j) {
        assert(!exists|i: int| is_last_match(before, needle, i)) by {
            if exists|i: int| is_last_match(before, needle, i) {
                let i = choose|i: int| is_last_match(before, needle, i);
                assert(matches_at(before, needle, i));
            }
        }
        assert(before.take(before.len() as int) =~= before);
        assert(injected(before, tag) =~= before + encode_utf8(tag));
    }
}

proof fn lemma_needle_nonempty()
    ensures
        encode_utf8("</body>"@).len() > 0,
{
    reveal_strlit("</body>");
    if encode_utf8("</body>"@).len() == 0 {
        assert(encode_utf8(Seq::<char>::empty()) =~= Seq::<u8>::empty());
        assert(encode_utf8("</body>"@) =~= encode_utf8(Seq::<char>::empty()));
        crate::text::lemma_utf8_injective("</body>"@, Seq::empty());
    }
}

/// The block is a script of the id that the solver looks for, which holds the request
/// as JSON: the method, the target, the type and the body in base64url.
pub proof fn blocks_hold_the_request(c: CapturedView)
    ensures
        script_block(c) == "<script id=\"pow-replay\" type=\"application/json\">"@ + markup(
            object(
                seq![
                    member("method"@, json_string(c.method)),
                    member("url"@, json_string(c.url)),
                    member("type"@, json_string(c.content_type)),
                    member("body"@, json_string(b64url_text(c.body))),
                ],
            ),
        ) + "</script>\n"@,
{
    reveal_strlit("<script id=\"");
    reveal_strlit("\" type=\"application/json\">");
    reveal_strlit("<script id=\"pow-replay\" type=\"application/json\">");
    reveal_strlit("pow-replay");
    assert("<script id=\""@ + "pow-replay"@ + "\" type=\"application/json\">"@
        =~= "<script id=\"pow-replay\" type=\"application/json\">"@);
}

} // verus!
