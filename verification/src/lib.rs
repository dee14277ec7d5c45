//! In-process distributed-tracing core: a tree of timed spans rooted at a
//! trace, trace-wide field and rollup accumulation, an idempotent send
//! protocol with sampling and presend hooks, and a wire codec for the
//! trace-continuation header.

pub mod b64;
pub mod client;
pub mod clock;
pub mod emitter;
pub mod errors;
pub mod fields;
pub mod hooks;
pub mod ids;
pub mod json;
pub mod laws;
pub mod numfmt;
pub mod propagation;
pub mod strutil;
pub mod trace;

pub use client::{Client, Registry};
pub use errors::BeelineError;
pub use propagation::Propagation;
pub use trace::{Span, Trace};
