//! Capture a challenged non-GET request so it survives the challenge.
//!
//! Without this, a `POST` that runs into an expired clearance is simply lost: it
//! is answered with the challenge page, and the reload after the solve is a `GET`
//! (or a browser prompt to resubmit). Here the body is read first and the whole
//! request is handed back to the client inside the challenge page, where the
//! solver re-issues it once the clearance cookie is set. See [`crate::replay`].

use crate::bytes::copy;
use crate::json::printable;
use crate::replay::{
    clean_type, inject, injected, short_types_are_kept, method_replayable, replayable, script_block, Captured,
    CapturedView,
};
use crate::server::challenge::unstored_page;
use crate::server::response::{fields, Response, SUCCESS};
use crate::server::runtime::{header, header_value, Cfg, Request};
use crate::text::{lower, same_ignoring_case};
use crate::uri::safe_path;
use vstd::prelude::*;

verus! {

/// The lowest status with which the server refuses to read a request body.
pub const SPECIAL_RESPONSE: i64 = 300;

/// A `Sec-Fetch-Dest` value that renders an HTML document, i.e. that of a request
/// that can actually run the solver and replay anything.
pub open spec fn renders_html(dest: Seq<char>) -> bool {
    ||| lower(dest) == lower("document"@)
    ||| lower(dest) == lower("iframe"@)
    ||| lower(dest) == lower("frame"@)
}

/// The challenged request is to be captured.
pub open spec fn to_capture(req: Request, cfg: Cfg) -> bool {
    &&& cfg.replay
    &&& req.content_length matches Some(n) && n <= cfg.replay_max_body
    &&& match header_value(fields(req.headers@), "sec-fetch-dest"@) {
        Some(dest) => renders_html(dest),
        None => true,
    }
    &&& replayable(req.method@)
}

/// Should this challenged request be captured instead of answered right away?
///
/// Yes only for a data-carrying method with a *known* length within
/// `pow_gate_replay_max_body`: a chunked body has no declared length, so it is
/// left alone rather than read blind. A request the browser marks as one that will
/// not render the page is skipped too: it can never replay. A client that sends no
/// `Sec-Fetch-*` metadata at all is captured: it may well be a browser too old to
/// send it.
pub fn should_capture(req: &Request, cfg: &Cfg) -> (r: bool)
    ensures
        r == to_capture(*req, *cfg),
{
    if !cfg.replay {
        return false;
    }
    match req.content_length {
        Some(n) => if n > cfg.replay_max_body {
            return false;
        },
        None => return false,
    }
    if let Some(dest) = header(req.headers.as_slice(), "sec-fetch-dest") {
        if !(same_ignoring_case(dest.as_str(), "document") || same_ignoring_case(
            dest.as_str(),
            "iframe",
        ) || same_ignoring_case(dest.as_str(), "frame")) {
            return false;
        }
    }
    method_replayable(req.method.as_str())
}

/// Was the body read refused outright? The client then still gets its challenge
/// instead of an error for something it has no way to fix.
pub fn body_read_refused(rc: i64) -> (r: bool)
    ensures
        r == (rc >= SPECIAL_RESPONSE),
{
    rc >= SPECIAL_RESPONSE
}

/// The content type of a request; empty where it has none.
pub open spec fn content_type(req: Request) -> Seq<char> {
    match header_value(fields(req.headers@), "content-type"@) {
        Some(ct) => ct,
        None => Seq::empty(),
    }
}

/// The challenge page that carries the request, where it can be carried.
pub open spec fn carrying_page(req: Request, cfg: Cfg, page: Seq<u8>, body: Seq<u8>) -> Seq<u8> {
    if replayable(req.method@) && safe_path(req.unparsed_uri@) && body.len()
        <= cfg.replay_max_body {
        injected(
            page,
            script_block(
                CapturedView {
                    method: req.method@,
                    url: req.unparsed_uri@,
                    content_type: clean_type(content_type(req)),
                    body,
                },
            ),
        )
    } else {
        page
    }
}

/// Once the body is there: build the payload, inject it into the challenge page.
/// Any reason the request cannot be captured (unreadable body, unsafe target)
/// degrades to the plain page: the client is still challenged. The URL is the raw
/// target that the client sent, so the replayed request goes exactly where the
/// original one did. Not stored: the page carries the client's own request.
pub fn body_ready(req: &Request, cfg: &Cfg, page: &[u8], body: Option<Vec<u8>>) -> (r: Response)
    ensures
        r@ == unstored_page(
            carrying_page(
                *req,
                *cfg,
                page@,
                match body {
                    Some(b) => b@,
                    None => Seq::empty(),
                },
            ),
        ),
{
    let bytes = match body {
        Some(b) => b,
        None => {
            let none: Vec<u8> = Vec::new();
            assert(none@ =~= Seq::empty());
            none
        },
    };
    let ct = match header(req.headers.as_slice(), "content-type") {
        Some(ct) => ct,
        None => String::new(),
    };
    assert(ct@ =~= content_type(*req));
    let rendered = match Captured::new(
        req.method.as_str(),
        req.unparsed_uri.as_str(),
        ct.as_str(),
        bytes.as_slice(),
    ) {
        Some(c) => if bytes.len() <= cfg.replay_max_body {
            inject(page, c.script_tag().as_str())
        } else {
            copy(page)
        },
        None => copy(page),
    };
    Response::new(SUCCESS, "text/html; charset=utf-8", rendered).with_header(
        "Cache-Control",
        "no-store",
    )
}

// -------------------------------------------------------------------- laws

/// A request is handed back as it came: the page carries its own method, its own
/// target, its `Content-Type` in full with every parameter, and its body, wherever
/// these can be carried.
pub proof fn captured_requests_are_handed_back_as_they_came(
    req: Request,
    cfg: Cfg,
    page: Seq<u8>,
    body: Seq<u8>,
    ct: Seq<char>,
)
    requires
        header_value(fields(req.headers@), "content-type"@) == Some(ct),
        printable(ct),
        ct.len() <= 200,
        replayable(req.method@),
        safe_path(req.unparsed_uri@),
        body.len() <= cfg.replay_max_body,
    ensures
        carrying_page(req, cfg, page, body) == injected(
            page,
            script_block(
                CapturedView {
                    method: req.method@,
                    url: req.unparsed_uri@,
                    content_type: ct,
                    body,
                },
            ),
        ),
{
    short_types_are_kept(ct);
}

/// A request without a `Content-Type` is handed back without one.
pub proof fn requests_without_a_type_are_handed_back_without_one(
    req: Request,
    cfg: Cfg,
    page: Seq<u8>,
    body: Seq<u8>,
)
    requires
        header_value(fields(req.headers@), "content-type"@) is None,
        replayable(req.method@),
        safe_path(req.unparsed_uri@),
        body.len() <= cfg.replay_max_body,
    ensures
        carrying_page(req, cfg, page, body) == injected(
            page,
            script_block(
                CapturedView {
                    method: req.method@,
                    url: req.unparsed_uri@,
                    content_type: Seq::empty(),
                    body,
                },
            ),
        ),
{
    short_types_are_kept(Seq::empty());
}

/// A longer or less clean `Content-Type` is handed back as far as it can be, and
/// nothing else of the request is changed by it.
pub proof fn types_are_cleaned_alone(req: Request, cfg: Cfg, page: Seq<u8>, body: Seq<u8>, ct: Seq<char>)
    requires
        header_value(fields(req.headers@), "content-type"@) == Some(ct),
        replayable(req.method@),
        safe_path(req.unparsed_uri@),
        body.len() <= cfg.replay_max_body,
    ensures
        carrying_page(req, cfg, page, body) == injected(
            page,
            script_block(
                CapturedView {
                    method: req.method@,
                    url: req.unparsed_uri@,
                    content_type: clean_type(ct),
                    body,
                },
            ),
        ),
{
}

/// What cannot be handed back leaves the page as it is: a method that is not
/// replayed, an unsafe target, a body beyond the limit.
pub proof fn other_requests_leave_the_page_alone(
    req: Request,
    cfg: Cfg,
    page: Seq<u8>,
    body: Seq<u8>,
)
    requires
        !replayable(req.method@) || !safe_path(req.unparsed_uri@) || body.len()
            > cfg.replay_max_body,
    ensures
        carrying_page(req, cfg, page, body) == page,
{
}

/// Which challenged requests are captured: where replay is on, those with a declared
/// length within the limit and a method that is replayed, unless the browser says
/// that they render no document, frame or iframe.
pub proof fn bodies_within_the_limit_are_captured(req: Request, cfg: Cfg)
    ensures
        to_capture(req, cfg) <==> (cfg.replay && replayable(req.method@) && (
        req.content_length matches Some(n) && n <= cfg.replay_max_body) && match header_value(
            fields(req.headers@),
            "sec-fetch-dest"@,
        ) {
            None => true,
            Some(dest) => lower(dest) == "document"@ || lower(dest) == "iframe"@ || lower(dest)
                == "frame"@,
        }),
{
    reveal_strlit("document");
    reveal_strlit("iframe");
    reveal_strlit("frame");
    assert(lower("document"@) =~= "document"@);
    assert(lower("iframe"@) =~= "iframe"@);
    assert(lower("frame"@) =~= "frame"@);
}

/// The server refuses to read a body with a status of three hundred or more.
pub proof fn refusals_are_statuses()
    ensures
        SPECIAL_RESPONSE == 300,
{
}

} // verus!
