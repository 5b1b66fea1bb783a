//! The JSON documents of the wire format, written and read with `serde_json`.
//!
//! The engine writes flat objects of printable text and integers, so what it
//! writes can be said exactly. What it reads comes from elsewhere: there
//! `serde_json` says what is a JSON value, where it ends and what it denotes; how
//! values make up a record is said here.
//!
//! A record of named fields is read from an object, each field by its name, or from
//! an array, each field by its position. A field may be given once; what stands
//! under other names is skipped, whatever it is.

use crate::bytes::copy;
use crate::number::decimal;
use crate::text::{chars, same};
use serde::de::IgnoredAny;
use serde_json::{Deserializer, Map as JsonMap, Value};
use vstd::prelude::*;
use vstd::slice::slice_subrange;
use vstd::utf8::encode_utf8;

verus! {

// ----------------------------------------------------------------- writing

/// Every character of `s` is printable ASCII.
pub open spec fn printable(s: Seq<char>) -> bool {
    forall|i: int| 0 <= i < s.len() ==> ' ' <= #[trigger] s[i] <= '~'
}

/// Is every character of `s` printable ASCII?
pub fn is_printable(s: &str) -> (r: bool)
    ensures
        r == printable(s@),
{
    let all = chars(s);
    for i in 0..all.len()
        invariant
            all@ == s@,
            forall|j: int| 0 <= j < i ==> ' ' <= #[trigger] s@[j] <= '~',
    {
        if all[i] < ' ' || all[i] > '~' {
            assert(!(' ' <= s@[i as int] <= '~'));
            return false;
        }
    }
    true
}

/// A printable character inside a JSON string: a quote and a backslash have a
/// backslash in front.
pub open spec fn json_char(c: char) -> Seq<char> {
    if c == '"' || c == '\\' {
        seq!['\\', c]
    } else {
        seq![c]
    }
}

/// The inside of the JSON string for a printable text.
pub open spec fn json_chars(s: Seq<char>) -> Seq<char>
    decreases s.len(),
{
    if s.len() == 0 {
        Seq::empty()
    } else {
        json_chars(s.drop_last()) + json_char(s.last())
    }
}

/// The JSON string for a printable text.
pub open spec fn json_string(s: Seq<char>) -> Seq<char> {
    seq!['"'] + json_chars(s) + seq!['"']
}

/// One member of an object: the name, a colon, the value.
pub open spec fn member(name: Seq<char>, value: Seq<char>) -> Seq<char> {
    json_string(name) + seq![':'] + value
}

/// The texts of `list` with commas between them.
pub open spec fn comma_list(list: Seq<Seq<char>>) -> Seq<char>
    decreases list.len(),
{
    if list.len() == 0 {
        Seq::empty()
    } else if list.len() == 1 {
        list[0]
    } else {
        comma_list(list.drop_last()) + seq![','] + list.last()
    }
}

/// An object of the given members, without spaces.
pub open spec fn object(members: Seq<Seq<char>>) -> Seq<char> {
    seq!['{'] + comma_list(members) + seq!['}']
}

/// A member that is to be written: its name and its value.
pub enum Field<'a> {
    Text(&'a str, &'a str),
    Int(&'a str, i64),
    Uint(&'a str, u64),
}

impl<'a> Field<'a> {
    /// The name of the member.
    pub open spec fn name(self) -> Seq<char> {
        match self {
            Field::Text(name, _) => name@,
            Field::Int(name, _) => name@,
            Field::Uint(name, _) => name@,
        }
    }

    /// The member as it is written.
    pub open spec fn text(self) -> Seq<char> {
        match self {
            Field::Text(name, value) => member(name@, json_string(value@)),
            Field::Int(name, value) => member(name@, decimal(value as int)),
            Field::Uint(name, value) => member(name@, decimal(value as int)),
        }
    }

    /// All text of the member is printable.
    pub open spec fn is_printable(self) -> bool {
        match self {
            Field::Text(name, value) => printable(name@) && printable(value@),
            Field::Int(name, _) => printable(name@),
            Field::Uint(name, _) => printable(name@),
        }
    }

    /// The value is what the document `part` denotes.
    pub open spec fn is_read_from(self, part: Seq<u8>) -> bool {
        match self {
            Field::Text(_, value) => json_text(part) == Some(value@),
            Field::Int(_, value) => json_int(part) == Some(value),
            Field::Uint(_, value) => json_uint(part) == Some(value),
        }
    }

    /// The value is what the record `r` holds under the name.
    pub open spec fn is_found_in(self, r: RecordView, at: nat) -> bool {
        match self {
            Field::Text(name, value) => r.text(name@, at) == Some(value@),
            Field::Int(name, value) => r.signed(name@, at) == Some(value),
            Field::Uint(name, value) => r.unsigned(name@, at) == Some(value),
        }
    }
}

/// The members of a list as they are written.
pub open spec fn field_texts(list: Seq<Field>) -> Seq<Seq<char>> {
    Seq::new(list.len(), |i: int| list[i].text())
}

/// No two members of a list have one name.
pub open spec fn distinct(list: Seq<Field>) -> bool {
    forall|i: int, j: int|
        0 <= i < j < list.len() ==> (#[trigger] list[i]).name() != (#[trigger] list[j]).name()
}

/// `doc` is an object of the members of `list`, in order.
pub open spec fn is_object_of(doc: Seq<u8>, list: Seq<Field>) -> bool {
    &&& json_elements(doc) is None
    &&& json_members(doc) matches Some(m) && m.len() == list.len() && forall|i: int|
        0 <= i < m.len() ==> (#[trigger] m[i]).0 == list[i].name() && list[i].is_read_from(m[i].1)
}

/// An object, through `Map::insert` and the `Display` of `serde_json`'s `Value`:
/// compact, the members in the order of insertion, and of the characters in a
/// printable text only the quote and the backslash escaped. Reading the document
/// gives the members back, one by one.
#[verifier::external_body]
pub(crate) fn write_object(list: &[Field]) -> (doc: String)
    requires
        forall|i: int| 0 <= i < list@.len() ==> (#[trigger] list@[i]).is_printable(),
        distinct(list@),
    ensures
        doc@ == object(field_texts(list@)),
        is_object_of(encode_utf8(doc@), list@),
{
    let mut m = JsonMap::new();
    for field in list {
        match field {
            Field::Text(name, value) => m.insert(name.to_string(), Value::from(*value)),
            Field::Int(name, value) => m.insert(name.to_string(), Value::from(*value)),
            Field::Uint(name, value) => m.insert(name.to_string(), Value::from(*value)),
        };
    }
    Value::Object(m).to_string()
}

// ------------------------------------------------------------------ values

/// How many bytes of `s` the JSON value takes up that `s` starts with, white space
/// before it counted: `None` if `s` starts with none.
pub uninterp spec fn json_value_end(s: Seq<u8>) -> Option<usize>;

/// The JSON string that `s` starts with, and how many bytes it takes up, white space
/// before it counted: `None` if `s` starts with none.
pub uninterp spec fn json_leading_text(s: Seq<u8>) -> Option<(Seq<char>, usize)>;

/// The text that `doc` is, if it is a JSON string.
pub uninterp spec fn json_text(doc: Seq<u8>) -> Option<Seq<char>>;

/// The number that `doc` is, if it is an integer in the range of `i64`.
pub uninterp spec fn json_int(doc: Seq<u8>) -> Option<i64>;

/// The number that `doc` is, if it is an integer in the range of `u64`.
pub uninterp spec fn json_uint(doc: Seq<u8>) -> Option<u64>;

/// Whether `doc` is the JSON `null`.
pub uninterp spec fn json_is_null(doc: Seq<u8>) -> bool;

/// The stream `Deserializer::into_iter` of `serde_json` over `IgnoredAny`, which
/// skips a value without reading it: the first value, and the `byte_offset` behind
/// it. A function of the bytes; a value has at least one byte.
#[verifier::external_body]
fn value_end(s: &[u8]) -> (r: Option<usize>)
    ensures
        r == json_value_end(s@),
        r matches Some(n) ==> 0 < n <= s@.len(),
{
    let mut stream = Deserializer::from_slice(s).into_iter::<IgnoredAny>();
    stream.next()?.ok()?;
    Some(stream.byte_offset())
}

/// The stream `Deserializer::into_iter` of `serde_json` over `String`: the first
/// text, and the `byte_offset` behind it. A function of the bytes; a text has at
/// least its quotes.
#[verifier::external_body]
fn leading_text(s: &[u8]) -> (r: Option<(String, usize)>)
    ensures
        match (r, json_leading_text(s@)) {
            (None, None) => true,
            (Some(a), Some(b)) => a.0@ == b.0 && a.1 == b.1,
            _ => false,
        },
        r matches Some(a) ==> 0 < a.1 <= s@.len(),
{
    let mut stream = Deserializer::from_slice(s).into_iter::<String>();
    let text = stream.next()?.ok()?;
    Some((text, stream.byte_offset()))
}

/// `serde_json::from_slice` into a `String`: a function of the document.
#[verifier::external_body]
fn read_text(doc: &[u8]) -> (r: Option<String>)
    ensures
        match (r, json_text(doc@)) {
            (None, None) => true,
            (Some(a), Some(b)) => a@ == b,
            _ => false,
        },
{
    serde_json::from_slice(doc).ok()
}

/// `serde_json::from_slice` into an `i64`: a function of the document.
#[verifier::external_body]
fn read_int(doc: &[u8]) -> (r: Option<i64>)
    ensures
        r == json_int(doc@),
{
    serde_json::from_slice(doc).ok()
}

/// `serde_json::from_slice` into a `u64`: a function of the document.
#[verifier::external_body]
fn read_uint(doc: &[u8]) -> (r: Option<u64>)
    ensures
        r == json_uint(doc@),
{
    serde_json::from_slice(doc).ok()
}

/// `serde_json::from_slice` into the unit type, which takes `null` alone: a
/// function of the document.
#[verifier::external_body]
fn is_null(doc: &[u8]) -> (r: bool)
    ensures
        r == json_is_null(doc@),
{
    serde_json::from_slice::<()>(doc).is_ok()
}

// -------------------------------------------------------- objects and arrays

/// White space between the tokens of a document.
pub open spec fn is_blank(b: u8) -> bool {
    b == 0x20 || b == 0x09 || b == 0x0a || b == 0x0d
}

/// `s` from its first byte on that is no white space.
pub open spec fn unblanked(s: Seq<u8>) -> Seq<u8>
    decreases s.len(),
{
    if s.len() > 0 && is_blank(s[0]) {
        unblanked(s.skip(1))
    } else {
        s
    }
}

/// What follows `mark` in `s`, white space on both sides of it left out: `None` if
/// `s` does not start with it.
pub open spec fn after_mark(s: Seq<u8>, mark: u8) -> Option<Seq<u8>> {
    let t = unblanked(s);
    if t.len() > 0 && t[0] == mark {
        Some(unblanked(t.skip(1)))
    } else {
        None
    }
}

/// `s` is `mark`, with white space on both sides.
pub open spec fn closes(s: Seq<u8>, mark: u8) -> bool {
    after_mark(s, mark) == Some(Seq::<u8>::empty())
}

/// `doc` is one JSON value, with white space on both sides.
pub open spec fn is_json(doc: Seq<u8>) -> bool {
    json_value_end(doc) matches Some(n) && unblanked(doc.skip(n as int)).len() == 0
}

/// The values that make up the rest of an array, commas between them.
pub open spec fn elements_in(s: Seq<u8>) -> Option<Seq<Seq<u8>>>
    decreases s.len(),
{
    match json_value_end(s) {
        Some(n) if 0 < n <= s.len() => {
            let part = s.take(n as int);
            let rest = s.skip(n as int);
            match after_mark(rest, ',' as u8) {
                Some(more) if more.len() < s.len() => match elements_in(more) {
                    Some(list) => Some(seq![part] + list),
                    None => None,
                },
                _ => if closes(rest, ']' as u8) {
                    Some(seq![part])
                } else {
                    None
                },
            }
        },
        _ => None,
    }
}

/// The elements of the array that `doc` is, each as a document of its own: `None` if
/// it is no JSON array.
pub open spec fn json_elements(doc: Seq<u8>) -> Option<Seq<Seq<u8>>> {
    match after_mark(doc, '[' as u8) {
        Some(s) if is_json(doc) => if closes(s, ']' as u8) {
            Some(Seq::empty())
        } else {
            elements_in(s)
        },
        _ => None,
    }
}

/// The member that `s` starts with, a name, a colon and a value, and what follows it.
pub open spec fn leading_member(s: Seq<u8>) -> Option<((Seq<char>, Seq<u8>), Seq<u8>)> {
    match json_leading_text(s) {
        Some((name, n)) if 0 < n <= s.len() => match after_mark(s.skip(n as int), ':' as u8) {
            Some(t) => match json_value_end(t) {
                Some(k) if 0 < k <= t.len() => Some(
                    ((name, t.take(k as int)), t.skip(k as int)),
                ),
                _ => None,
            },
            None => None,
        },
        _ => None,
    }
}

/// The members that make up the rest of an object, commas between them.
pub open spec fn members_in(s: Seq<u8>) -> Option<Seq<(Seq<char>, Seq<u8>)>>
    decreases s.len(),
{
    match leading_member(s) {
        Some((member, rest)) => match after_mark(rest, ',' as u8) {
            Some(more) if more.len() < s.len() => match members_in(more) {
                Some(list) => Some(seq![member] + list),
                None => None,
            },
            _ => if closes(rest, '}' as u8) {
                Some(seq![member])
            } else {
                None
            },
        },
        None => None,
    }
}

/// The members of the object that `doc` is, in order, each a name and a document:
/// `None` if it is no JSON object.
pub open spec fn json_members(doc: Seq<u8>) -> Option<Seq<(Seq<char>, Seq<u8>)>> {
    match after_mark(doc, '{' as u8) {
        Some(s) if is_json(doc) => if closes(s, '}' as u8) {
            Some(Seq::empty())
        } else {
            members_in(s)
        },
        _ => None,
    }
}

proof fn lemma_unblanked_shorter(s: Seq<u8>)
    ensures
        unblanked(s).len() <= s.len(),
    decreases s.len(),
{
    if s.len() > 0 && is_blank(s[0]) {
        lemma_unblanked_shorter(s.skip(1));
    }
}

proof fn lemma_after_mark_shorter(s: Seq<u8>, mark: u8)
    ensures
        after_mark(s, mark) matches Some(t) ==> t.len() < s.len(),
{
    lemma_unblanked_shorter(s);
    let t = unblanked(s);
    if t.len() > 0 {
        lemma_unblanked_shorter(t.skip(1));
    }
}

/// The bytes of a sequence of documents.
pub open spec fn documents(v: Seq<Vec<u8>>) -> Seq<Seq<u8>> {
    Seq::new(v.len(), |i: int| v[i]@)
}

/// The names and the bytes of a sequence of members.
pub open spec fn members(v: Seq<(String, Vec<u8>)>) -> Seq<(Seq<char>, Seq<u8>)> {
    Seq::new(v.len(), |i: int| (v[i].0@, v[i].1@))
}

/// `s` without the white space that it starts with.
fn unblank(s: &[u8]) -> (r: &[u8])
    ensures
        r@ == unblanked(s@),
{
    let mut i: usize = 0;
    assert(s@.skip(0) =~= s@);
    while i < s.len() && (s[i] == 0x20 || s[i] == 0x09 || s[i] == 0x0a || s[i] == 0x0d)
        invariant
            i <= s@.len(),
            unblanked(s@.skip(i as int)) == unblanked(s@),
        decreases s@.len() - i,
    {
        assert(s@.skip(i as int).skip(1) =~= s@.skip(i + 1));
        i = i + 1;
    }
    slice_subrange(s, i, s.len())
}

/// What follows `mark` in `s`.
fn eat_mark(s: &[u8], mark: u8) -> (r: Option<&[u8]>)
    ensures
        match (r, after_mark(s@, mark)) {
            (None, None) => true,
            (Some(a), Some(b)) => a@ == b && b.len() < s@.len(),
            _ => false,
        },
{
    let t = unblank(s);
    proof {
        lemma_after_mark_shorter(s@, mark);
    }
    if t.len() > 0 && t[0] == mark {
        Some(unblank(slice_subrange(t, 1, t.len())))
    } else {
        None
    }
}

/// Is `s` just `mark`, with white space on both sides?
fn is_closed(s: &[u8], mark: u8) -> (r: bool)
    ensures
        r == closes(s@, mark),
{
    match eat_mark(s, mark) {
        Some(t) => {
            assert(t@.len() == 0 ==> t@ =~= Seq::<u8>::empty());
            t.len() == 0
        },
        None => false,
    }
}

/// Is `doc` one JSON value?
pub fn is_document(doc: &[u8]) -> (r: bool)
    ensures
        r == is_json(doc@),
{
    match value_end(doc) {
        Some(n) => unblank(slice_subrange(doc, n, doc.len())).len() == 0,
        None => false,
    }
}

/// The elements of the array that `doc` is.
pub fn read_elements(doc: &[u8]) -> (r: Option<Vec<Vec<u8>>>)
    ensures
        match (r, json_elements(doc@)) {
            (None, None) => true,
            (Some(a), Some(b)) => documents(a@) == b,
            _ => false,
        },
{
    if !is_document(doc) {
        return None;
    }
    let start = match eat_mark(doc, '[' as u8) {
        Some(s) => s,
        None => return None,
    };
    let mut list: Vec<Vec<u8>> = Vec::new();
    assert(documents(list@) =~= Seq::empty());
    if is_closed(start, ']' as u8) {
        return Some(list);
    }
    let mut s = start;
    loop
        invariant
            json_elements(doc@) == (match elements_in(s@) {
                Some(more) => Some(documents(list@) + more),
                None => None,
            }),
        decreases s@.len(),
    {
        let n: usize = match value_end(s) {
            Some(n) => n,
            None => return None,
        };
        let rest = slice_subrange(s, n, s.len());
        let ghost before = documents(list@);
        let part = copy(slice_subrange(s, 0, n));
        list.push(part);
        assert(documents(list@) =~= before.push(part@));
        match eat_mark(rest, ',' as u8) {
            Some(more) => {
                proof {
                    if elements_in(more@) is Some {
                        let tail = elements_in(more@)->0;
                        assert(before + (seq![part@] + tail) =~= before.push(part@) + tail);
                    }
                }
                s = more;
            },
            None => {
                if is_closed(rest, ']' as u8) {
                    assert(before + seq![part@] =~= before.push(part@));
                    return Some(list);
                }
                return None;
            },
        }
    }
}

/// The member that `s` starts with, and what follows it.
fn read_member(s: &[u8]) -> (r: Option<((String, Vec<u8>), &[u8])>)
    ensures
        match (r, leading_member(s@)) {
            (None, None) => true,
            (Some(a), Some(b)) => {
                &&& a.0.0@ == b.0.0
                &&& a.0.1@ == b.0.1
                &&& a.1@ == b.1
                &&& b.1.len() < s@.len()
            },
            _ => false,
        },
{
    let (name, n) = match leading_text(s) {
        Some(t) => t,
        None => return None,
    };
    let value = match eat_mark(slice_subrange(s, n, s.len()), ':' as u8) {
        Some(t) => t,
        None => return None,
    };
    let k: usize = match value_end(value) {
        Some(k) => k,
        None => return None,
    };
    let part = copy(slice_subrange(value, 0, k));
    Some(((name, part), slice_subrange(value, k, value.len())))
}

/// The members of the object that `doc` is.
pub fn read_members(doc: &[u8]) -> (r: Option<Vec<(String, Vec<u8>)>>)
    ensures
        match (r, json_members(doc@)) {
            (None, None) => true,
            (Some(a), Some(b)) => members(a@) == b,
            _ => false,
        },
{
    if !is_document(doc) {
        return None;
    }
    let start = match eat_mark(doc, '{' as u8) {
        Some(s) => s,
        None => return None,
    };
    let mut list: Vec<(String, Vec<u8>)> = Vec::new();
    assert(members(list@) =~= Seq::empty());
    if is_closed(start, '}' as u8) {
        return Some(list);
    }
    let mut s = start;
    proof {
        if members_in(s@) is Some {
            assert(members(list@) + members_in(s@)->0 =~= members_in(s@)->0);
        }
    }
    loop
        invariant
            json_members(doc@) == (match members_in(s@) {
                Some(more) => Some(members(list@) + more),
                None => None,
            }),
        decreases s@.len(),
    {
        let (member, rest) = match read_member(s) {
            Some(t) => t,
            None => return None,
        };
        let ghost before = members(list@);
        let ghost last = (member.0@, member.1@);
        list.push(member);
        assert(members(list@) =~= before.push(last));
        match eat_mark(rest, ',' as u8) {
            Some(more) => {
                proof {
                    if members_in(more@) is Some {
                        let tail = members_in(more@)->0;
                        assert(before + (seq![last] + tail) =~= before.push(last) + tail);
                    }
                }
                s = more;
            },
            None => {
                if is_closed(rest, '}' as u8) {
                    assert(before + seq![last] =~= before.push(last));
                    return Some(list);
                }
                return None;
            },
        }
    }
}

// ----------------------------------------------------------------- records

/// The values that a list of members gives under `name`, in order.
pub open spec fn under(list: Seq<(Seq<char>, Seq<u8>)>, name: Seq<char>) -> Seq<Seq<u8>>
    decreases list.len(),
{
    if list.len() == 0 {
        Seq::empty()
    } else if list.last().0 == name {
        under(list.drop_last(), name).push(list.last().1)
    } else {
        under(list.drop_last(), name)
    }
}

/// The parts of a record.
#[derive(Debug)]
pub enum Record {
    /// Of an object: names and values.
    Named(Vec<(String, Vec<u8>)>),
    /// Of an array: values by position.
    Listed(Vec<Vec<u8>>),
}

/// What a [`Record`] says.
pub enum RecordView {
    Named(Seq<(Seq<char>, Seq<u8>)>),
    Listed(Seq<Seq<u8>>),
}

impl View for Record {
    type V = RecordView;

    open spec fn view(&self) -> RecordView {
        match self {
            Record::Named(list) => RecordView::Named(members(list@)),
            Record::Listed(list) => RecordView::Listed(documents(list@)),
        }
    }
}

impl RecordView {
    /// The values that are given for the field `name`, which is the one at position
    /// `at`.
    pub open spec fn values(self, name: Seq<char>, at: nat) -> Seq<Seq<u8>> {
        match self {
            RecordView::Named(list) => under(list, name),
            RecordView::Listed(list) => if at < list.len() {
                seq![list[at as int]]
            } else {
                Seq::empty()
            },
        }
    }

    /// The text that is given for a field; `None` if it is not given once, or is no
    /// text.
    pub open spec fn text(self, name: Seq<char>, at: nat) -> Option<Seq<char>> {
        let v = self.values(name, at);
        if v.len() == 1 {
            json_text(v[0])
        } else {
            None
        }
    }

    /// The `i64` that is given for a field.
    pub open spec fn signed(self, name: Seq<char>, at: nat) -> Option<i64> {
        let v = self.values(name, at);
        if v.len() == 1 {
            json_int(v[0])
        } else {
            None
        }
    }

    /// The `u64` that is given for a field.
    pub open spec fn unsigned(self, name: Seq<char>, at: nat) -> Option<u64> {
        let v = self.values(name, at);
        if v.len() == 1 {
            json_uint(v[0])
        } else {
            None
        }
    }

    /// Nothing is given for a field, or `null`, once.
    pub open spec fn unset(self, name: Seq<char>, at: nat) -> bool {
        let v = self.values(name, at);
        v.len() == 0 || v.len() == 1 && json_is_null(v[0])
    }
}

/// The record of up to `n` fields that `doc` holds: the members of an object, or the
/// elements of an array that has no more than `n`.
pub open spec fn record_of(doc: Seq<u8>, n: nat) -> Option<RecordView> {
    match json_members(doc) {
        Some(list) => Some(RecordView::Named(list)),
        None => match json_elements(doc) {
            Some(list) if list.len() <= n => Some(RecordView::Listed(list)),
            _ => None,
        },
    }
}

/// The bytes of a sequence of slices.
pub open spec fn slices(v: Seq<&[u8]>) -> Seq<Seq<u8>> {
    Seq::new(v.len(), |i: int| v[i]@)
}

impl Record {
    /// The record of up to `n` fields that `doc` holds.
    pub fn read(doc: &[u8], n: usize) -> (r: Option<Record>)
        ensures
            match (r, record_of(doc@, n as nat)) {
                (None, None) => true,
                (Some(a), Some(b)) => a@ == b,
                _ => false,
            },
    {
        match read_members(doc) {
            Some(list) => Some(Record::Named(list)),
            None => match read_elements(doc) {
                Some(list) => if list.len() <= n {
                    Some(Record::Listed(list))
                } else {
                    None
                },
                None => None,
            },
        }
    }

    /// The values that are given for a field.
    pub fn values(&self, name: &str, at: usize) -> (r: Vec<&[u8]>)
        ensures
            slices(r@) == self@.values(name@, at as nat),
    {
        let mut r: Vec<&[u8]> = Vec::new();
        assert(slices(r@) =~= Seq::empty());
        match self {
            Record::Named(list) => {
                let ghost all = members(list@);
                for i in 0..list.len()
                    invariant
                        all == members(list@),
                        slices(r@) == under(all.take(i as int), name@),
                {
                    assert(all.take(i + 1).drop_last() =~= all.take(i as int));
                    assert(all.take(i + 1).last() == (list@[i as int].0@, list@[i as int].1@));
                    let ghost before = slices(r@);
                    if same(list[i].0.as_str(), name) {
                        r.push(list[i].1.as_slice());
                        assert(slices(r@) =~= before.push(list@[i as int].1@));
                    }
                }
                assert(all.take(all.len() as int) =~= all);
            },
            Record::Listed(list) => {
                if at < list.len() {
                    r.push(list[at].as_slice());
                    assert(slices(r@) =~= seq![list@[at as int]@]);
                }
            },
        }
        r
    }

    /// The value that is given for a field; `None` if it is not given once.
    pub fn value(&self, name: &str, at: usize) -> (r: Option<&[u8]>)
        ensures
            match r {
                Some(v) => self@.values(name@, at as nat) == seq![v@],
                None => self@.values(name@, at as nat).len() != 1,
            },
    {
        let v = self.values(name, at);
        if v.len() == 1 {
            assert(slices(v@) =~= seq![v@[0]@]);
            Some(v[0])
        } else {
            None
        }
    }

    /// The text that is given for a field.
    pub fn text(&self, name: &str, at: usize) -> (r: Option<String>)
        ensures
            match (r, self@.text(name@, at as nat)) {
                (None, None) => true,
                (Some(a), Some(b)) => a@ == b,
                _ => false,
            },
    {
        match self.value(name, at) {
            Some(v) => read_text(v),
            None => None,
        }
    }

    /// The `i64` that is given for a field.
    pub fn signed(&self, name: &str, at: usize) -> (r: Option<i64>)
        ensures
            r == self@.signed(name@, at as nat),
    {
        match self.value(name, at) {
            Some(v) => read_int(v),
            None => None,
        }
    }

    /// The `u64` that is given for a field.
    pub fn unsigned(&self, name: &str, at: usize) -> (r: Option<u64>)
        ensures
            r == self@.unsigned(name@, at as nat),
    {
        match self.value(name, at) {
            Some(v) => read_uint(v),
            None => None,
        }
    }

    /// Is nothing given for a field, or `null`, once?
    pub fn unset(&self, name: &str, at: usize) -> (r: bool)
        ensures
            r == self@.unset(name@, at as nat),
    {
        let v = self.values(name, at);
        assert(slices(v@).len() == v@.len());
        if v.len() == 1 {
            assert(slices(v@)[0] == v@[0]@);
            is_null(v[0])
        } else {
            v.len() == 0
        }
    }
}

// -------------------------------------------------------------------- laws

/// What was written is read back: a document that is an object of some members holds
/// a record of any number of fields, in which each member is found under its name.
pub proof fn written_members_are_read_back(doc: Seq<u8>, list: Seq<Field>, n: nat, i: int, at: nat)
    requires
        distinct(list),
        is_object_of(doc, list),
        0 <= i < list.len(),
    ensures
        record_of(doc, n) matches Some(r) && list[i].is_found_in(r, at),
{
    let m = json_members(doc)->0;
    let r = record_of(doc, n)->0;
    assert(m[i].0 == list[i].name());
    assert forall|j: int| 0 <= j < m.len() && j != i implies (#[trigger] m[j]).0 != m[i].0 by {
        assert(m[j].0 == list[j].name());
        if j < i {
            assert(list[j].name() != list[i].name());
        } else {
            assert(list[i].name() != list[j].name());
        }
    }
    lemma_under_once(m, i);
    assert(r.values(list[i].name(), at) == seq![m[i].1]);
}

/// What was not written is absent: in the record that an object of some members
/// holds, nothing is given under any other name.
pub proof fn other_members_are_absent(
    doc: Seq<u8>,
    list: Seq<Field>,
    n: nat,
    name: Seq<char>,
    at: nat,
)
    requires
        is_object_of(doc, list),
        forall|i: int| 0 <= i < list.len() ==> (#[trigger] list[i]).name() != name,
    ensures
        record_of(doc, n) matches Some(r) && r.values(name, at).len() == 0,
{
    let m = json_members(doc)->0;
    assert forall|j: int| 0 <= j < m.len() implies (#[trigger] m[j]).0 != name by {
        assert(m[j].0 == list[j].name());
    }
    lemma_under_none(m, name);
}

proof fn lemma_under_none(m: Seq<(Seq<char>, Seq<u8>)>, name: Seq<char>)
    requires
        forall|j: int| 0 <= j < m.len() ==> (#[trigger] m[j]).0 != name,
    ensures
        under(m, name) == Seq::<Seq<u8>>::empty(),
    decreases m.len(),
{
    if m.len() > 0 {
        assert(m[m.len() - 1].0 != name);
        assert forall|j: int| 0 <= j < m.len() - 1 implies (#[trigger] m.drop_last()[j]).0
            != name by {
            assert(m[j].0 != name);
        }
        lemma_under_none(m.drop_last(), name);
    }
}

proof fn lemma_under_once(m: Seq<(Seq<char>, Seq<u8>)>, i: int)
    requires
        0 <= i < m.len(),
        forall|j: int| 0 <= j < m.len() && j != i ==> (#[trigger] m[j]).0 != m[i].0,
    ensures
        under(m, m[i].0) == seq![m[i].1],
    decreases m.len(),
{
    let front = m.drop_last();
    if i == m.len() - 1 {
        assert forall|j: int| 0 <= j < front.len() implies (#[trigger] front[j]).0 != m[i].0 by {
            assert(m[j].0 != m[i].0);
        }
        lemma_under_none(front, m[i].0);
        assert(Seq::<Seq<u8>>::empty().push(m[i].1) =~= seq![m[i].1]);
    } else {
        assert(m[m.len() - 1].0 != m[i].0);
        assert(front[i] == m[i]);
        assert forall|j: int| 0 <= j < front.len() && j != i implies (#[trigger] front[j]).0
            != front[i].0 by {
            assert(m[j].0 != m[i].0);
        }
        lemma_under_once(front, i);
    }
}

/// A member that stands under another name makes no difference to a field, wherever
/// it stands.
pub proof fn other_names_are_skipped(
    before: Seq<(Seq<char>, Seq<u8>)>,
    other: (Seq<char>, Seq<u8>),
    after: Seq<(Seq<char>, Seq<u8>)>,
    name: Seq<char>,
)
    requires
        other.0 != name,
    ensures
        under(before.push(other) + after, name) == under(before + after, name),
    decreases after.len(),
{
    if after.len() == 0 {
        assert(before.push(other) + after =~= before.push(other));
        assert(before + after =~= before);
        assert(before.push(other).drop_last() =~= before);
    } else {
        other_names_are_skipped(before, other, after.drop_last(), name);
        assert((before.push(other) + after).drop_last() =~= before.push(other) + after.drop_last());
        assert((before + after).drop_last() =~= before + after.drop_last());
    }
}

/// What is no JSON holds no record.
pub proof fn only_json_holds_records(doc: Seq<u8>, n: nat)
    requires
        !is_json(doc),
    ensures
        record_of(doc, n) is None,
{
}

/// White space between tokens is skipped: blanks, tabs and line ends, as much as there
/// is, and nothing else.
pub proof fn blanks_are_skipped(b: u8, s: Seq<u8>)
    ensures
        b == 0x20 || b == 0x09 || b == 0x0a || b == 0x0d ==> unblanked(seq![b] + s) == unblanked(s),
        b != 0x20 && b != 0x09 && b != 0x0a && b != 0x0d ==> unblanked(seq![b] + s) == seq![b] + s,
        unblanked(Seq::empty()) == Seq::<u8>::empty(),
        after_mark(seq![b] + s, b) == (if b == 0x20 || b == 0x09 || b == 0x0a || b == 0x0d {
            after_mark(s, b)
        } else {
            Some(unblanked(s))
        }),
{
    assert((seq![b] + s).skip(1) =~= s);
}

/// An array is read element by element, however many there are: a value, then a comma
/// and more, or the bracket that ends it.
pub proof fn arrays_are_read_element_by_element(s: Seq<u8>, n: usize)
    requires
        json_value_end(s) == Some(n),
        0 < n <= s.len(),
    ensures
        ({
            let part = s.take(n as int);
            let rest = s.skip(n as int);
            &&& after_mark(rest, 0x2c) matches Some(more) ==> elements_in(s) == (
            match elements_in(more) {
                Some(list) => Some(seq![part] + list),
                None => None,
            })
            &&& after_mark(rest, 0x2c) is None && after_mark(rest, 0x5d) == Some(
                Seq::<u8>::empty(),
            ) ==> elements_in(s) == Some(seq![part])
        }),
{
    lemma_after_mark_shorter(s.skip(n as int), 0x2c);
}

/// An object is read member by member, however many there are: a name, a colon and a
/// value, then a comma and more, or the brace that ends it.
pub proof fn objects_are_read_member_by_member(s: Seq<u8>, name: Seq<char>, n: usize, k: usize)
    requires
        json_leading_text(s) == Some((name, n)),
        0 < n <= s.len(),
        after_mark(s.skip(n as int), 0x3a) matches Some(t) && json_value_end(t) == Some(k) && 0 < k
            <= t.len(),
    ensures
        ({
            let t = after_mark(s.skip(n as int), 0x3a)->0;
            let part = t.take(k as int);
            let rest = t.skip(k as int);
            &&& after_mark(rest, 0x2c) matches Some(more) ==> members_in(s) == (
            match members_in(more) {
                Some(list) => Some(seq![(name, part)] + list),
                None => None,
            })
            &&& after_mark(rest, 0x2c) is None && after_mark(rest, 0x7d) == Some(
                Seq::<u8>::empty(),
            ) ==> members_in(s) == Some(seq![(name, part)])
        }),
{
    let t = after_mark(s.skip(n as int), 0x3a)->0;
    lemma_after_mark_shorter(s.skip(n as int), 0x3a);
    lemma_after_mark_shorter(t.skip(k as int), 0x2c);
}

/// A document is an array or an object by the bracket that it starts with, and holds
/// what stands behind that bracket; empty ones hold nothing.
pub proof fn documents_are_known_by_their_bracket(doc: Seq<u8>)
    requires
        is_json(doc),
    ensures
        after_mark(doc, 0x5b) matches Some(s) ==> json_elements(doc) == (if after_mark(s, 0x5d)
            == Some(Seq::<u8>::empty()) {
            Some(Seq::empty())
        } else {
            elements_in(s)
        }) && json_members(doc) is None,
        after_mark(doc, 0x7b) matches Some(s) ==> json_members(doc) == (if after_mark(s, 0x7d)
            == Some(Seq::<u8>::empty()) {
            Some(Seq::empty())
        } else {
            members_in(s)
        }) && json_elements(doc) is None,
{
}

/// The fields of a record: by name in an object, where a field counts only if it is
/// given once, and by position in an array, which may be shorter than the record but
/// not longer.
pub proof fn fields_are_found_by_name_or_position(
    doc: Seq<u8>,
    n: nat,
    name: Seq<char>,
    at: nat,
    before: Seq<(Seq<char>, Seq<u8>)>,
    part: Seq<u8>,
)
    ensures
        json_members(doc) matches Some(list) ==> record_of(doc, n) == Some(RecordView::Named(list)),
        json_members(doc) is None ==> (json_elements(doc) matches Some(list) ==> record_of(doc, n)
            == (if list.len() <= n {
            Some(RecordView::Listed(list))
        } else {
            None
        })),
        under(before.push((name, part)), name) == under(before, name).push(part),
        under(Seq::empty(), name) == Seq::<Seq<u8>>::empty(),
        json_elements(doc) matches Some(list) ==> RecordView::Listed(list).values(name, at) == (
        if at < list.len() {
            seq![list[at as int]]
        } else {
            Seq::empty()
        }),
{
    assert(before.push((name, part)).drop_last() =~= before);
}

/// A field has the value that the one document given for it denotes, of its kind; a
/// field that is given twice has none, and is not unset either.
pub proof fn fields_have_the_value_they_denote(r: RecordView, name: Seq<char>, at: nat)
    ensures
        ({
            let v = r.values(name, at);
            &&& v.len() == 1 ==> r.text(name, at) == json_text(v[0]) && r.signed(name, at)
                == json_int(v[0]) && r.unsigned(name, at) == json_uint(v[0]) && r.unset(name, at)
                == json_is_null(v[0])
            &&& v.len() != 1 ==> r.text(name, at) is None && r.signed(name, at) is None
                && r.unsigned(name, at) is None
            &&& v.len() == 0 ==> r.unset(name, at)
            &&& v.len() > 1 ==> !r.unset(name, at)
        }),
{
}

/// An object is written member by member, with commas between them and braces around.
pub proof fn objects_are_written_member_by_member(list: Seq<Seq<char>>, more: Seq<char>)
    ensures
        object(Seq::empty()) == seq!['{', '}'],
        object(seq![more]) == seq!['{'] + more + seq!['}'],
        list.len() > 0 ==> object(list.push(more)) == object(list).drop_last() + seq![','] + more
            + seq!['}'],
        member(more, more) == json_string(more) + seq![':'] + more,
{
    assert(object(Seq::empty()) =~= seq!['{', '}']);
    assert(list.push(more).drop_last() =~= list);
    if list.len() > 0 {
        assert(object(list).drop_last() =~= seq!['{'] + comma_list(list));
        assert(object(list.push(more)) =~= object(list).drop_last() + seq![','] + more + seq!['}']);
    }
}

/// A text is written between quotes, character by character: a backslash stands before
/// a quote and before a backslash, and before nothing else.
pub proof fn texts_are_written_between_quotes(s: Seq<char>, c: char)
    ensures
        json_string(s) == seq!['"'] + json_chars(s) + seq!['"'],
        json_chars(Seq::empty()) == Seq::<char>::empty(),
        c == '"' || c == '\\' ==> json_chars(s.push(c)) == json_chars(s) + seq!['\\', c],
        c != '"' && c != '\\' ==> json_chars(s.push(c)) == json_chars(s).push(c),
{
    assert(s.push(c).drop_last() =~= s);
    assert(json_chars(s) + seq![c] =~= json_chars(s).push(c));
}

} // verus!
