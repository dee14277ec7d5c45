//! Identifier generation for traces and spans, through the uuid crate.

use vstd::prelude::*;

verus! {

/// Characters of a hyphenated, lower-case UUID. None of them is a separator
/// of the propagation header (`;`, `,` or `=`).
pub open spec fn is_uuid_char(c: char) -> bool {
    c == '-' || ('0' <= c && c <= '9') || ('a' <= c && c <= 'f')
}

/// Relies on uuid::Uuid::new_v4 and its `Display` form: a fresh identifier is
/// 36 characters of lower-case hex and hyphens. The value itself is random,
/// so nothing more is promised of it.
#[verifier::external_body]
pub(crate) fn generate_id() -> (r: String)
    ensures
        r@.len() == 36,
        forall|i: int| 0 <= i < r@.len() ==> is_uuid_char(#[trigger] r@[i]),
{
    uuid::Uuid::new_v4().to_string()
}

} // verus!
