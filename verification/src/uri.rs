//! URI predicates shared by the parts of the engine that hand a client-supplied
//! path back to the client: the no-JS return path ([`crate::nojs`]) and the
//! captured request a challenge page replays ([`crate::replay`]).

use crate::text::chars;
use vstd::prelude::*;

verus! {

/// A character that may stand in a path handed back to the client: visible
/// ASCII, and none of the four that could end an attribute or a header.
pub open spec fn path_char(c: char) -> bool {
    '!' <= c <= '~' && c != '"' && c != '<' && c != '>' && c != '\\'
}

/// A safe same-site target: absolute-path form, not protocol-relative, and made
/// of [`path_char`]s alone.
pub open spec fn safe_path(path: Seq<char>) -> bool {
    &&& path.len() > 0
    &&& path[0] == '/'
    &&& !(path.len() > 1 && path[1] == '/')
    &&& forall|i: int| 0 <= i < path.len() ==> path_char(#[trigger] path[i])
}

/// A safe same-site target: absolute-path form, not protocol-relative, and free
/// of anything that could smuggle bytes into a `Location` header or an HTML
/// attribute (controls, whitespace, quotes, angle brackets).
///
/// Non-ASCII is rejected as well: browsers percent-encode the request target,
/// so a raw high byte here is never something we need to hand back verbatim.
pub fn same_site_path(path: &str) -> (r: bool)
    ensures
        r == safe_path(path@),
{
    let p = chars(path);
    if p.len() == 0 || p[0] != '/' {
        return false;
    }
    if p.len() > 1 && p[1] == '/' {
        return false;
    }
    for i in 0..p.len()
        invariant
            p@ == path@,
            forall|j: int| 0 <= j < i ==> path_char(#[trigger] path@[j]),
    {
        let c = p[i];
        if c < '!' || c > '~' || c == '"' || c == '<' || c == '>' || c == '\\' {
            assert(!path_char(path@[i as int]));
            return false;
        }
    }
    true
}

/// Which targets are safe: a slash, no second slash behind it, and from then on any
/// visible ASCII character but the quote, the angle brackets and the backslash.
pub proof fn safe_targets_are_known_by_their_characters(rest: Seq<char>)
    ensures
        safe_path(seq!['/'] + rest) <==> ((rest.len() > 0 ==> rest[0] != '/') && forall|i: int|
            0 <= i < rest.len() ==> {
                let c = #[trigger] rest[i];
                c == '!' || '#' <= c <= ';' || c == '=' || '?' <= c <= '[' || ']' <= c <= '~'
            }),
        forall|path: Seq<char>| #[trigger]
            safe_path(path) ==> path.len() > 0 && path == seq!['/'] + path.skip(1),
{
    let path = seq!['/'] + rest;
    assert(path[0] == '/');
    if safe_path(path) {
        assert forall|i: int| 0 <= i < rest.len() implies {
            let c = #[trigger] rest[i];
            c == '!' || '#' <= c <= ';' || c == '=' || '?' <= c <= '[' || ']' <= c <= '~'
        } by {
            assert(path[i + 1] == rest[i]);
            assert(path_char(path[i + 1]));
        }
        if rest.len() > 0 {
            assert(path[1] == rest[0]);
        }
    } else {
        if (rest.len() > 0 ==> rest[0] != '/') && forall|i: int|
            0 <= i < rest.len() ==> {
                let c = #[trigger] rest[i];
                c == '!' || '#' <= c <= ';' || c == '=' || '?' <= c <= '[' || ']' <= c <= '~'
            } {
            assert forall|i: int| 0 <= i < path.len() implies path_char(#[trigger] path[i]) by {
                if i > 0 {
                    assert(path[i] == rest[i - 1]);
                }
            }
            assert(safe_path(path));
        }
    }
    assert forall|path: Seq<char>| #[trigger] safe_path(path) implies path.len() > 0 && path
        == seq!['/'] + path.skip(1) by {
        assert(path =~= seq!['/'] + path.skip(1));
    }
}

/// A safe target stays safe when safe characters follow it, so that a query of any
/// length can be kept.
pub proof fn safe_targets_can_be_longer(path: Seq<char>, more: Seq<char>)
    requires
        safe_path(path),
        forall|i: int| 0 <= i < more.len() ==> path_char(#[trigger] more[i]),
        path.len() >= 2 || more.len() == 0 || more[0] != '/',
    ensures
        safe_path(path + more),
{
    let all = path + more;
    assert forall|i: int| 0 <= i < all.len() implies path_char(#[trigger] all[i]) by {
        if i < path.len() {
            assert(path_char(path[i]));
        } else {
            assert(path_char(more[i - path.len()]));
        }
    }
}

} // verus!
