//! Trusted boundary to the base64 crate, used by the propagation codec to
//! carry the JSON trace context inside a single header clause.

use vstd::prelude::*;

verus! {

/// Characters that base64's standard padded alphabet can produce. The clause
/// separators of the propagation header (`,` and `;`) are not among them.
pub open spec fn is_base64_char(c: char) -> bool {
    ('A' <= c && c <= 'Z') || ('a' <= c && c <= 'z') || ('0' <= c && c <= '9') || c == '+' || c
        == '/' || c == '='
}

/// The base64 text of a byte string (standard alphabet, padded).
pub uninterp spec fn base64_of(b: Seq<u8>) -> Seq<char>;

/// The bytes base64 decoding recovers from a text; `None` when the text is
/// not valid base64.
pub uninterp spec fn base64_parsed(s: Seq<char>) -> Option<Seq<u8>>;

/// Relies on base64::encode (the standard, padded configuration): the output
/// is a function of the bytes alone, uses only alphabet and padding
/// characters, and base64::decode recovers the input from it.
#[verifier::external_body]
pub(crate) fn base64_encode(b: &[u8]) -> (r: String)
    ensures
        r@ == base64_of(b@),
        base64_parsed(r@) == Some(b@),
        forall|i: int| 0 <= i < r@.len() ==> is_base64_char(#[trigger] r@[i]),
{
    base64::encode(b)
}

/// Relies on base64::decode: whether a text decodes, and to what bytes, is a
/// function of the text alone.
#[verifier::external_body]
pub(crate) fn base64_decode(s: &str) -> (r: Option<Vec<u8>>)
    ensures
        match r {
            Some(v) => base64_parsed(s@) == Some(v@),
            None => base64_parsed(s@) is None,
        },
{
    base64::decode(s).ok()
}

} // verus!
