//! Error values returned by the tracing core.

use vstd::prelude::*;

verus! {

/// The ways decoding a trace-continuation header can fail. Every failure is
/// recoverable: the caller falls back to starting a fresh, unrelated trace.
#[derive(Clone, Copy, Debug, PartialEq, Eq, Structural)]
pub enum BeelineError {
    /// The header's version prefix is not the one understood version, `1`.
    UnsupportedVersion,
    /// The header carries a parent span id but no trace id, an invalid
    /// continuation state.
    MissingTraceId,
    /// The `context` clause's value is not valid base64.
    InvalidBase64,
    /// The decoded `context` bytes are not valid JSON. A header without a
    /// `context` clause ends here too: its empty value decodes to zero
    /// bytes, which are valid base64 but not a JSON document.
    InvalidJson,
}

impl BeelineError {
    /// A short description of the error, for reporting outside the core.
    pub fn describe(&self) -> (r: &'static str)
        ensures
            r@.len() > 0,
    {
        proof {
            reveal_strlit("unsupported propagation version");
            reveal_strlit("trace_id is empty but parent_id is set");
            reveal_strlit("context is not valid base64");
            reveal_strlit("context is not valid JSON");
        }
        match self {
            BeelineError::UnsupportedVersion => "unsupported propagation version",
            BeelineError::MissingTraceId => "trace_id is empty but parent_id is set",
            BeelineError::InvalidBase64 => "context is not valid base64",
            BeelineError::InvalidJson => "context is not valid JSON",
        }
    }
}

} // verus!
