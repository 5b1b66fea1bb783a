//! Small encoding helpers shared across the engine: base64url (no padding) and
//! lowercase hex. Kept in one place so the wire format is defined once.

use crate::address::hex_number;
use crate::json::printable;
use base64::engine::general_purpose::URL_SAFE_NO_PAD;
use base64::Engine;
use vstd::prelude::*;

verus! {

/// What `base64`'s `URL_SAFE_NO_PAD.encode` writes for `bytes`.
pub uninterp spec fn b64url_text(bytes: Seq<u8>) -> Seq<char>;

/// What `base64`'s `URL_SAFE_NO_PAD.decode` reads from `text`, if it accepts it.
pub uninterp spec fn b64url_bytes(text: Seq<char>) -> Option<Seq<u8>>;

/// The base64url alphabet: letters, digits, `-` and `_`.
pub open spec fn is_b64url(c: char) -> bool {
    ||| 'A' <= c <= 'Z'
    ||| 'a' <= c <= 'z'
    ||| '0' <= c <= '9'
    ||| c == '-'
    ||| c == '_'
}

/// Every character of `s` is one of the base64url alphabet.
pub open spec fn all_b64url(s: Seq<char>) -> bool {
    forall|i: int| 0 <= i < s.len() ==> is_b64url(#[trigger] s[i])
}

/// Text of the base64url alphabet is printable.
pub proof fn lemma_b64url_printable(s: Seq<char>)
    requires
        all_b64url(s),
    ensures
        printable(s),
{
    assert forall|i: int| 0 <= i < s.len() implies ' ' <= #[trigger] s[i] <= '~' by {
        assert(is_b64url(s[i]));
    }
}

/// Text of the base64url alphabet holds no other character.
pub proof fn lemma_b64url_lacks(s: Seq<char>, c: char)
    requires
        all_b64url(s),
        !is_b64url(c),
    ensures
        !s.contains(c),
{
    if s.contains(c) {
        let i = choose|i: int| 0 <= i < s.len() && s[i] == c;
        assert(is_b64url(s[i]));
    }
}

/// base64url, no padding: `Engine::encode` of `base64`'s `URL_SAFE_NO_PAD`.
///
/// The text is a function of the bytes; it is made of the base64url alphabet
/// alone, four characters for every three bytes, rounded up; and decoding it
/// gives the bytes back.
#[verifier::external_body]
pub fn b64url(bytes: &[u8]) -> (s: String)
    ensures
        s@ == b64url_text(bytes@),
        all_b64url(s@),
        s@.len() == (bytes@.len() * 4 + 2) / 3,
        b64url_bytes(s@) == Some(bytes@),
{
    URL_SAFE_NO_PAD.encode(bytes)
}

/// Decode base64url (no padding): `Engine::decode` of `base64`'s
/// `URL_SAFE_NO_PAD`. `None` on malformed input.
///
/// What is accepted is a function of the text; it is made of the base64url
/// alphabet alone; and it is the very text that encoding the bytes writes, since
/// the engine accepts neither padding nor stray trailing bits.
#[verifier::external_body]
pub fn unb64url(s: &str) -> (r: Option<Vec<u8>>)
    ensures
        match (r, b64url_bytes(s@)) {
            (None, None) => true,
            (Some(v), Some(b)) => v@ == b,
            _ => false,
        },
        r is Some ==> all_b64url(s@),
        r matches Some(v) ==> b64url_text(v@) == s@,
{
    URL_SAFE_NO_PAD.decode(s).ok()
}

/// The lowercase hexadecimal digit for `d`, where `d < 16`.
pub open spec fn hex_digit(d: u8) -> char {
    if d < 10 {
        ('0' as u32 + d) as char
    } else {
        ('a' as u32 + (d - 10)) as char
    }
}

/// Two hexadecimal digits for each byte, the high half first.
pub open spec fn hex_text(bytes: Seq<u8>) -> Seq<char> {
    Seq::new(
        2 * bytes.len(),
        |i: int|
            hex_digit(
                if i % 2 == 0 {
                    bytes[i / 2] / 16
                } else {
                    bytes[i / 2] % 16
                },
            ),
    )
}

fn hex_digit_of(d: u8) -> (c: char)
    requires
        d < 16,
    ensures
        c == hex_digit(d),
{
    if d < 10 {
        (48 + d) as char
    } else {
        (87 + d) as char
    }
}

/// Lowercase hex.
pub fn hex(bytes: &[u8]) -> (s: String)
    ensures
        s@ == hex_text(bytes@),
{
    let mut s = String::new();
    for i in 0..bytes.len()
        invariant
            s@ == hex_text(bytes@.take(i as int)),
    {
        let b = bytes[i];
        s.push(hex_digit_of(b / 16));
        s.push(hex_digit_of(b % 16));
        assert(s@ =~= hex_text(bytes@.take(i + 1)));
    }
    assert(bytes@.take(bytes@.len() as int) =~= bytes@);
    s
}

/// The hex text of some bytes is lowercase hex digits, two for each byte, and
/// no two byte strings share one.
pub proof fn hex_is_faithful(a: Seq<u8>, b: Seq<u8>)
    ensures
        hex_text(a).len() == 2 * a.len(),
        forall|i: int|
            0 <= i < hex_text(a).len() ==> ('0' <= #[trigger] hex_text(a)[i] <= '9' || 'a' <= hex_text(
                a,
            )[i] <= 'f'),
        hex_text(a) == hex_text(b) ==> a == b,
{
    if hex_text(a) == hex_text(b) {
        assert(hex_text(a).len() == 2 * a.len());
        assert(hex_text(b).len() == 2 * b.len());
        assert forall|k: int| 0 <= k < a.len() implies a[k] == b[k] by {
            let x = hex_text(a);
            let y = hex_text(b);
            assert(x[2 * k] == y[2 * k]);
            assert(x[2 * k + 1] == y[2 * k + 1]);
            assert((2 * k) / 2 == k && (2 * k) % 2 == 0);
            assert((2 * k + 1) / 2 == k && (2 * k + 1) % 2 == 1);
            lemma_hex_digit_injective(a[k] / 16, b[k] / 16);
            lemma_hex_digit_injective(a[k] % 16, b[k] % 16);
        }
        assert(a =~= b);
    }
}

proof fn lemma_hex_digit_injective(d: u8, e: u8)
    requires
        d < 16,
        e < 16,
        hex_digit(d) == hex_digit(e),
    ensures
        d == e,
{
}

/// Each byte is read back from its two digits.
pub proof fn hex_is_read_back(bytes: Seq<u8>, k: int)
    requires
        0 <= k < bytes.len(),
    ensures
        hex_number(seq![hex_text(bytes)[2 * k], hex_text(bytes)[2 * k + 1]]) == bytes[k],
{
    let x = hex_text(bytes);
    assert((2 * k) / 2 == k && (2 * k) % 2 == 0);
    assert((2 * k + 1) / 2 == k && (2 * k + 1) % 2 == 1);
    let s = seq![x[2 * k], x[2 * k + 1]];
    reveal_with_fuel(hex_number, 3);
    assert(s.drop_last() =~= seq![x[2 * k]]);
    assert(s.drop_last().drop_last() =~= Seq::<char>::empty());
    let hi = bytes[k] / 16;
    let lo = bytes[k] % 16;
    assert(hi < 16 && lo < 16);
    assert(crate::address::hex_value(hex_digit(hi)) == hi);
    assert(crate::address::hex_value(hex_digit(lo)) == lo);
}

} // verus!
