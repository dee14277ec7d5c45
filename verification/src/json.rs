//! Trusted boundary to serde_json. The core carries JSON field values
//! opaquely as `serde_json::Value` and calls serde_json to serialize, parse
//! and build them; every call goes through one of the wrappers below.

use vstd::prelude::*;

use crate::numfmt::is_decimal_text;

verus! {

#[verifier::external_type_specification]
#[verifier::external_body]
pub struct ExValue(serde_json::Value);

/// The compact JSON text of a value, in bytes, as serde_json writes it.
pub uninterp spec fn json_bytes_of(v: serde_json::Value) -> Seq<u8>;

/// The value serde_json parses from a byte string; `None` when the bytes are
/// not valid JSON.
pub uninterp spec fn json_parsed(b: Seq<u8>) -> Option<serde_json::Value>;

/// The key/value entries of a JSON object value; `None` when the value is not
/// an object.
pub uninterp spec fn json_object_entries_of(v: serde_json::Value) -> Option<
    Seq<(Seq<char>, serde_json::Value)>,
>;

/// The JSON object value holding exactly the given entries.
pub uninterp spec fn json_object_of(m: Map<Seq<char>, serde_json::Value>) -> serde_json::Value;

/// The JSON number value of an unsigned integer.
pub uninterp spec fn json_of_u64(n: u64) -> serde_json::Value;

/// The JSON string value with the given characters.
pub uninterp spec fn json_of_str(s: Seq<char>) -> serde_json::Value;

/// The JSON boolean value.
pub uninterp spec fn json_of_bool(b: bool) -> serde_json::Value;

/// The JSON number value written by the given decimal numeral.
pub uninterp spec fn json_of_decimal(s: Seq<char>) -> serde_json::Value;

/// The key part of an entry pair, as a sequence of characters.
pub open spec fn entries_view(es: Seq<(String, serde_json::Value)>) -> Seq<
    (Seq<char>, serde_json::Value),
> {
    es.map(|i: int, p: (String, serde_json::Value)| (p.0@, p.1))
}

/// Relies on serde_json's derived `Clone` for `Value`: the clone equals the
/// original.
pub assume_specification[ <serde_json::Value as Clone>::clone ](
    v: &serde_json::Value,
) -> (r: serde_json::Value)
    ensures
        r == v,
;

/// Relies on serde_json::to_vec: the compact serialization of a `Value` is a
/// function of the value alone and never fails for a `Value`. When
/// serde_json::from_slice parses the text back at all, it yields an equal
/// value; it need not (serialization has no depth limit, while parsing stops
/// at its recursion limit), so only that implication is promised.
#[verifier::external_body]
pub(crate) fn json_bytes(v: &serde_json::Value) -> (r: Vec<u8>)
    ensures
        r@ == json_bytes_of(*v),
        json_parsed(r@) matches Some(w) ==> w == *v,
{
    serde_json::to_vec(v).unwrap_or_default()
}

/// Relies on serde_json::from_slice::<Value>: whether a byte string parses,
/// and to what value, is a function of the bytes alone.
#[verifier::external_body]
pub(crate) fn json_parse(b: &[u8]) -> (r: Option<serde_json::Value>)
    ensures
        r == json_parsed(b@),
{
    serde_json::from_slice(b).ok()
}

/// Relies on serde_json::Value::as_object and Map iteration: the entries of
/// an object value, with their keys, are a function of the value alone, and a
/// non-object value has none.
#[verifier::external_body]
pub(crate) fn json_object_entries(v: &serde_json::Value) -> (r: Option<
    Vec<(String, serde_json::Value)>,
>)
    ensures
        match r {
            Some(es) => json_object_entries_of(*v) == Some(entries_view(es@)),
            None => json_object_entries_of(*v) is None,
        },
{
    v.as_object().map(|m| m.iter().map(|(k, val)| (k.clone(), val.clone())).collect())
}

/// Relies on serde_json::Value::from for u64: the JSON number for an integer.
#[verifier::external_body]
pub(crate) fn json_u64(n: u64) -> (r: serde_json::Value)
    ensures
        r == json_of_u64(n),
{
    serde_json::Value::from(n)
}

/// Relies on serde_json::Value::String: the JSON string for the given text.
#[verifier::external_body]
pub(crate) fn json_str(s: &str) -> (r: serde_json::Value)
    ensures
        r == json_of_str(s@),
{
    serde_json::Value::String(s.to_string())
}

/// Relies on serde_json::Value::Bool.
#[verifier::external_body]
pub(crate) fn json_bool(b: bool) -> (r: serde_json::Value)
    ensures
        r == json_of_bool(b),
{
    serde_json::Value::Bool(b)
}

/// Relies on serde_json::from_str::<Value>: a decimal numeral parses to the
/// JSON number it writes; the result is a function of the text alone. The
/// fallback arm is taken only for numerals JSON refuses, such as ones with
/// redundant leading zeros, which this crate never writes.
#[verifier::external_body]
pub(crate) fn json_decimal(s: &str) -> (r: serde_json::Value)
    requires
        is_decimal_text(s@),
    ensures
        r == json_of_decimal(s@),
{
    serde_json::from_str(s).unwrap_or(serde_json::Value::Null)
}

} // verus!
