//! A complete response: status, `Content-Type`, further header fields, body.

use vstd::prelude::*;

verus! {

pub const SUCCESS: u16 = 200;

pub const NO_CONTENT: u16 = 204;

pub const MOVED_TEMPORARILY: u16 = 302;

pub const BAD_REQUEST: u16 = 400;

pub const INTERNAL_SERVER_ERROR: u16 = 500;

pub const SERVICE_UNAVAILABLE: u16 = 503;

/// A complete response.
#[derive(Debug)]
pub struct Response {
    pub status: u16,
    pub content_type: String,
    /// Header fields besides `Content-Type`, in order.
    pub headers: Vec<(String, String)>,
    pub body: Vec<u8>,
}

/// What a [`Response`] says.
#[verifier::ext_equal]
pub struct ResponseView {
    pub status: u16,
    pub content_type: Seq<char>,
    pub headers: Seq<(Seq<char>, Seq<char>)>,
    pub body: Seq<u8>,
}

/// The texts of a list of header fields.
pub open spec fn fields(v: Seq<(String, String)>) -> Seq<(Seq<char>, Seq<char>)> {
    Seq::new(v.len(), |i: int| (v[i].0@, v[i].1@))
}

impl View for Response {
    type V = ResponseView;

    open spec fn view(&self) -> ResponseView {
        ResponseView {
            status: self.status,
            content_type: self.content_type@,
            headers: fields(self.headers@),
            body: self.body@,
        }
    }
}

/// A response without further header fields.
pub open spec fn plain(status: u16, content_type: Seq<char>, body: Seq<u8>) -> ResponseView {
    ResponseView { status, content_type, headers: Seq::empty(), body }
}

impl ResponseView {
    /// The response with one header field more.
    pub open spec fn with(self, name: Seq<char>, value: Seq<char>) -> ResponseView {
        ResponseView { headers: self.headers.push((name, value)), ..self }
    }
}

impl Response {
    /// A response without further header fields.
    pub fn new(status: u16, content_type: &str, body: Vec<u8>) -> (r: Response)
        ensures
            r@ == plain(status, content_type@, body@),
    {
        let r = Response { status, content_type: content_type.to_owned(), headers: Vec::new(), body };
        assert(r@ =~= plain(status, content_type@, body@));
        r
    }

    /// The response with one header field more.
    pub fn with_header(self, name: &str, value: &str) -> (r: Response)
        ensures
            r@ == self@.with(name@, value@),
    {
        let ghost before = self@;
        let mut headers = self.headers;
        headers.push((name.to_owned(), value.to_owned()));
        let r = Response {
            status: self.status,
            content_type: self.content_type,
            headers,
            body: self.body,
        };
        assert(r@ =~= before.with(name@, value@));
        r
    }
}

// -------------------------------------------------------------------- laws

/// A header field is added behind those that are there, and nothing else changes.
pub proof fn header_fields_are_added_in_order(r: ResponseView, name: Seq<char>, value: Seq<char>)
    ensures
        r.with(name, value).headers == r.headers.push((name, value)),
        r.with(name, value).status == r.status,
        r.with(name, value).content_type == r.content_type,
        r.with(name, value).body == r.body,
{
}

/// The statuses are those of HTTP.
pub proof fn statuses_are_those_of_http()
    ensures
        SUCCESS == 200 && NO_CONTENT == 204 && MOVED_TEMPORARILY == 302,
        BAD_REQUEST == 400 && INTERNAL_SERVER_ERROR == 500 && SERVICE_UNAVAILABLE == 503,
{
}

} // verus!
