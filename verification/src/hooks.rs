//! The sampling and presend capabilities the send protocol consumes. Each is
//! an injected interface with one method, mirrored by a spec function so that
//! the send protocol's contract can speak about the decision taken.

use vstd::prelude::*;

use crate::fields::FieldMap;

verus! {

/// Decides whether a finished span is transmitted and at what sample rate.
pub trait Sampler: Sized {
    /// The decision taken on a field set: keep, and the rate (at least 1).
    spec fn decision(&self, fields: Map<Seq<char>, serde_json::Value>) -> (bool, u64);

    /// Run the hook on an assembled field set.
    fn sample(&self, fields: &FieldMap) -> (r: (bool, u64))
        requires
            fields.wf(),
        ensures
            r == self.decision(fields@),
            r.1 >= 1,
    ;
}

/// The default sampler: keep everything, rate 1.
pub struct DefaultSampler;

impl Sampler for DefaultSampler {
    open spec fn decision(&self, fields: Map<Seq<char>, serde_json::Value>) -> (bool, u64) {
        (true, 1u64)
    }

    fn sample(&self, fields: &FieldMap) -> (r: (bool, u64)) {
        (true, 1)
    }
}

/// A sampler that takes one fixed decision, whatever the fields. A configured
/// rate below 1 is read as 1.
pub struct ConstantSampler {
    pub keep: bool,
    pub rate: u64,
}

impl Sampler for ConstantSampler {
    open spec fn decision(&self, fields: Map<Seq<char>, serde_json::Value>) -> (bool, u64) {
        (
            self.keep,
            if self.rate >= 1 {
                self.rate
            } else {
                1u64
            },
        )
    }

    fn sample(&self, fields: &FieldMap) -> (r: (bool, u64)) {
        (
            self.keep,
            if self.rate >= 1 {
                self.rate
            } else {
                1
            },
        )
    }
}

/// May rewrite a kept span's fields just before transmission.
pub trait Presend: Sized {
    /// What the hook turns a field set into.
    spec fn transform(&self, fields: Map<Seq<char>, serde_json::Value>) -> Map<
        Seq<char>,
        serde_json::Value,
    >;

    /// Run the hook on the fields about to be transmitted.
    fn apply(&self, fields: &mut FieldMap)
        requires
            old(fields).wf(),
        ensures
            final(fields)@ == self.transform(old(fields)@),
            final(fields).wf(),
    ;
}

/// The default presend hook: leave the fields as they are.
pub struct DefaultPresend;

impl Presend for DefaultPresend {
    open spec fn transform(&self, fields: Map<Seq<char>, serde_json::Value>) -> Map<
        Seq<char>,
        serde_json::Value,
    > {
        fields
    }

    fn apply(&self, fields: &mut FieldMap) {
    }
}

/// A redacting presend hook: drop every field.
pub struct ClearPresend;

impl Presend for ClearPresend {
    open spec fn transform(&self, fields: Map<Seq<char>, serde_json::Value>) -> Map<
        Seq<char>,
        serde_json::Value,
    > {
        Map::empty()
    }

    fn apply(&self, fields: &mut FieldMap) {
        fields.clear();
    }
}

} // verus!
