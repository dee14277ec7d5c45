//! The trace/span tree and its send protocol.
//!
//! A trace owns every span created under it, in an append-only arena; spans
//! name each other by arena index, and name their trace by identifier, so the
//! tree carries no ownership cycle. Sending a span finalizes and transmits
//! the synchronous subtree below it, children before parents, each span
//! exactly once.

use vstd::prelude::*;
use vstd::string::*;

use crate::clock::Timer;
use crate::emitter::{Emitter, Event, EventView};
use crate::fields::{
    context_value, rendered_rollups, rendered_rollups_prefixed, FieldMap, RollupMap,
};
use crate::hooks::{Presend, Sampler};
use crate::ids::generate_id;
use crate::json::{
    json_bool, json_object_of, json_of_bool, json_of_str, json_of_u64, json_str, json_u64,
};
use crate::propagation::{encoded_header, Propagation};
use crate::strutil::str_eq;

verus! {

/// One span, as contracts see it.
pub ghost struct SpanView {
    pub span_id: Seq<char>,
    pub parent_id: Seq<char>,
    pub trace_id: Seq<char>,
    pub is_root: bool,
    pub is_async: bool,
    pub is_sent: bool,
    pub fields: Map<Seq<char>, serde_json::Value>,
    pub rollups: Map<Seq<char>, i64>,
    pub children: Seq<int>,
}

/// One measured unit of work: identity, role, timing, fields, its own rollup
/// accumulator, and the arena indices of its children.
pub struct Span {
    span_id: String,
    parent_id: String,
    trace_id: String,
    is_root: bool,
    is_async: bool,
    is_sent: bool,
    fields: FieldMap,
    rollup_fields: RollupMap,
    children: Vec<usize>,
    timer: Timer,
}

/// The arena indices of a span's children, as ghost integers.
pub open spec fn to_ints(s: Seq<usize>) -> Seq<int> {
    s.map(|i: int, c: usize| c as int)
}

impl View for Span {
    type V = SpanView;

    closed spec fn view(&self) -> SpanView {
        SpanView {
            span_id: self.span_id@,
            parent_id: self.parent_id@,
            trace_id: self.trace_id@,
            is_root: self.is_root,
            is_async: self.is_async,
            is_sent: self.is_sent,
            fields: self.fields@,
            rollups: self.rollup_fields@,
            children: to_ints(self.children@),
        }
    }
}

impl Span {
    /// The representation keeps its field and rollup maps well formed.
    pub closed spec fn wf(&self) -> bool {
        self.fields.wf() && self.rollup_fields.wf()
    }

    /// A fresh span: new identifier, empty fields, no children, unsent.
    fn fresh(
        trace_id: String,
        parent_id: String,
        is_root: bool,
        is_async: bool,
        base_fields: FieldMap,
    ) -> (r: Span)
        ensures
            r@ == (SpanView {
                span_id: r@.span_id,
                parent_id: parent_id@,
                trace_id: trace_id@,
                is_root,
                is_async,
                is_sent: false,
                fields: base_fields@,
                rollups: Map::<Seq<char>, i64>::empty(),
                children: Seq::<int>::empty(),
            }),
            r@.span_id.len() == 36,
            base_fields.wf() ==> r.wf(),
    {
        let r = Span {
            span_id: generate_id(),
            parent_id,
            trace_id,
            is_root: is_root,
            is_async: is_async,
            is_sent: false,
            fields: base_fields,
            rollup_fields: RollupMap::new(),
            children: Vec::new(),
            timer: Timer::start(),
        };
        proof {
            assert(to_ints(r.children@) =~= Seq::<int>::empty());
        }
        r
    }

    /// A fresh, standalone span with a new identifier and nothing else set.
    pub fn new() -> (r: Span)
        ensures
            r@.span_id.len() == 36,
            r@.parent_id.len() == 0,
            r@.trace_id.len() == 0,
            !r@.is_root,
            !r@.is_async,
            !r@.is_sent,
            r@.fields == Map::<Seq<char>, serde_json::Value>::empty(),
            r@.rollups == Map::<Seq<char>, i64>::empty(),
            r@.children == Seq::<int>::empty(),
            r.wf(),
    {
        Span::fresh(String::new(), String::new(), false, false, FieldMap::new())
    }

    /// The span's identifier.
    pub fn span_id(&self) -> (r: &String)
        ensures
            r@ == self@.span_id,
    {
        &self.span_id
    }

    /// The identifier of the span that created it; empty at a trace origin.
    pub fn parent_id(&self) -> (r: &String)
        ensures
            r@ == self@.parent_id,
    {
        &self.parent_id
    }

    /// The identifier of the owning trace.
    pub fn trace_id(&self) -> (r: &String)
        ensures
            r@ == self@.trace_id,
    {
        &self.trace_id
    }

    pub fn is_root(&self) -> (r: bool)
        ensures
            r == self@.is_root,
    {
        self.is_root
    }

    pub fn is_async(&self) -> (r: bool)
        ensures
            r == self@.is_async,
    {
        self.is_async
    }

    pub fn is_sent(&self) -> (r: bool)
        ensures
            r == self@.is_sent,
    {
        self.is_sent
    }

    /// One of the span's own fields.
    pub fn field(&self, key: &str) -> (r: Option<&serde_json::Value>)
        requires
            self.wf(),
        ensures
            match r {
                Some(v) => self@.fields.dom().contains(key@) && *v == self@.fields[key@],
                None => !self@.fields.dom().contains(key@),
            },
    {
        self.fields.get(key)
    }

    /// One of the span's own rollup sums, in micro-units.
    pub fn rollup_micros(&self, key: &str) -> (r: Option<i64>)
        requires
            self.wf(),
        ensures
            match r {
                Some(v) => self@.rollups.dom().contains(key@) && v == self@.rollups[key@],
                None => !self@.rollups.dom().contains(key@),
            },
    {
        self.rollup_fields.get_micros(key)
    }

    /// The arena indices of all children, synchronous and asynchronous.
    pub fn get_children(&self) -> (r: &Vec<usize>)
        ensures
            to_ints(r@) == self@.children,
    {
        &self.children
    }

    /// Add or overwrite one field on this span. A sent span is frozen.
    pub fn add_field(&mut self, key: &str, value: serde_json::Value)
        requires
            old(self).wf(),
            !old(self)@.is_sent,
        ensures
            final(self).wf(),
            final(self)@ == (SpanView {
                fields: old(self)@.fields.insert(key@, value),
                ..old(self)@
            }),
    {
        self.fields.insert(key, value);
    }

    /// Add a contribution to this span's own rollup accumulator, in
    /// micro-units. A sent span is frozen.
    pub fn add_rollup_field(&mut self, key: &str, delta_micros: i64)
        requires
            old(self).wf(),
            !old(self)@.is_sent,
        ensures
            final(self).wf(),
            final(self)@ == (SpanView {
                rollups: old(self)@.rollups.insert(
                    key@,
                    crate::fields::sat_add_i64(
                        if old(self)@.rollups.dom().contains(key@) {
                            old(self)@.rollups[key@] as int
                        } else {
                            0
                        },
                        delta_micros as int,
                    ),
                ),
                ..old(self)@
            }),
    {
        self.rollup_fields.add_micros(key, delta_micros);
    }
}

/// One trace, as contracts see it.
pub ghost struct TraceView {
    pub trace_id: Seq<char>,
    pub parent_id: Seq<char>,
    pub dataset: Seq<char>,
    pub fields: Map<Seq<char>, serde_json::Value>,
    pub rollups: Map<Seq<char>, i64>,
    pub base_fields: Map<Seq<char>, serde_json::Value>,
    pub spans: Seq<SpanView>,
    pub child_index: Set<Seq<char>>,
}

/// Trace-scoped state: identity and continuation metadata, trace-wide fields
/// and rollups, the span arena (the root span at index 0), and the identifiers
/// of spans created and not yet finished sending.
pub struct Trace {
    trace_id: String,
    parent_id: String,
    dataset: String,
    trace_fields: FieldMap,
    rollup_fields: RollupMap,
    base_fields: FieldMap,
    spans: Vec<Span>,
    child_index: Vec<String>,
}

/// The ghost views of the spans in the arena.
pub open spec fn spans_view(v: Seq<Span>) -> Seq<SpanView> {
    v.map(|i: int, s: Span| s@)
}

/// The identifiers in the child index, as a set.
pub open spec fn ids_set(v: Seq<String>) -> Set<Seq<char>> {
    Set::new(|sid: Seq<char>| exists|i: int| 0 <= i < v.len() && (#[trigger] v[i])@ == sid)
}

impl View for Trace {
    type V = TraceView;

    closed spec fn view(&self) -> TraceView {
        TraceView {
            trace_id: self.trace_id@,
            parent_id: self.parent_id@,
            dataset: self.dataset@,
            fields: self.trace_fields@,
            rollups: self.rollup_fields@,
            base_fields: self.base_fields@,
            spans: spans_view(self.spans@),
            child_index: ids_set(self.child_index@),
        }
    }
}

/// Every child index points further into the arena than its parent: the tree
/// is acyclic and recursion over it terminates.
pub open spec fn wf_children(spans: Seq<SpanView>) -> bool {
    forall|i: int, k: int|
        0 <= i < spans.len() && 0 <= k < spans[i].children.len() ==> i < #[trigger] spans[i].children[k]
            < spans.len()
}

/// The structure every well-formed trace keeps: a non-empty identifier, the
/// root span alone at index 0, every span owned by this trace, and an
/// acyclic child graph.
pub open spec fn wf_trace_view(t: TraceView) -> bool {
    &&& t.trace_id.len() > 0
    &&& t.spans.len() >= 1
    &&& t.spans[0].is_root
    &&& forall|i: int| 1 <= i < t.spans.len() ==> !(#[trigger] t.spans[i]).is_root
    &&& forall|i: int| 0 <= i < t.spans.len() ==> (#[trigger] t.spans[i]).trace_id == t.trace_id
    &&& wf_children(t.spans)
}

impl Trace {
    /// Well-formedness: the view structure above, plus well-formed maps in
    /// every component and no duplicate identifier in the child index.
    pub closed spec fn wf(&self) -> bool {
        &&& self.trace_fields.wf()
        &&& self.rollup_fields.wf()
        &&& self.base_fields.wf()
        &&& forall|i: int| 0 <= i < self.spans@.len() ==> (#[trigger] self.spans@[i]).wf()
        &&& forall|i: int, j: int|
            0 <= i < j < self.child_index@.len() ==> (#[trigger] self.child_index@[i])@ != (
            #[trigger] self.child_index@[j])@
        &&& wf_trace_view(self@)
    }

    /// A well-formed trace has a well-formed view.
    pub proof fn lemma_wf_view(&self)
        requires
            self.wf(),
        ensures
            wf_trace_view(self@),
    {
    }

    /// Build a trace from its seed values and register nothing: the caller
    /// (the client) owns registration. The root span is created at index 0,
    /// marked `is_root`, with the trace's inherited parent id.
    pub(crate) fn make(
        trace_id: String,
        parent_id: String,
        dataset: String,
        trace_fields: FieldMap,
        base_fields: FieldMap,
    ) -> (r: Trace)
        requires
            trace_id@.len() > 0,
            trace_fields.wf(),
            base_fields.wf(),
        ensures
            r.wf(),
            r@.trace_id == trace_id@,
            r@.parent_id == parent_id@,
            r@.dataset == dataset@,
            r@.fields == trace_fields@,
            r@.rollups == Map::<Seq<char>, i64>::empty(),
            r@.base_fields == base_fields@,
            r@.spans.len() == 1,
            r@.spans[0].is_root,
            !r@.spans[0].is_sent,
            !r@.spans[0].is_async,
            r@.spans[0].parent_id == parent_id@,
            r@.spans[0].trace_id == trace_id@,
            r@.spans[0].fields == base_fields@,
            r@.spans[0].rollups == Map::<Seq<char>, i64>::empty(),
            r@.spans[0].children == Seq::<int>::empty(),
            r@.spans[0].span_id.len() == 36,
            r@.child_index == Set::<Seq<char>>::empty(),
    {
        let root_parent = parent_id.clone();
        let root_trace = trace_id.clone();
        let root_base = base_fields.duplicate();
        let root = Span::fresh(root_trace, root_parent, true, false, root_base);
        let mut spans: Vec<Span> = Vec::new();
        spans.push(root);
        let r = Trace {
            trace_id,
            parent_id,
            dataset,
            trace_fields,
            rollup_fields: RollupMap::new(),
            base_fields,
            spans,
            child_index: Vec::new(),
        };
        proof {
            assert(r@.spans =~= seq![r.spans@[0]@]);
            assert(r@.child_index =~= Set::<Seq<char>>::empty());
        }
        r
    }

    /// The trace's identifier.
    pub fn trace_id(&self) -> (r: &String)
        ensures
            r@ == self@.trace_id,
    {
        &self.trace_id
    }

    /// The upstream span this trace continues from; empty at an origin.
    pub fn parent_id(&self) -> (r: &String)
        ensures
            r@ == self@.parent_id,
    {
        &self.parent_id
    }

    /// The destination-routing dataset; empty means the default.
    pub fn dataset(&self) -> (r: &String)
        ensures
            r@ == self@.dataset,
    {
        &self.dataset
    }

    /// The handle of the root span: always index 0 of the arena.
    pub fn get_root_span(&self) -> (r: usize)
        ensures
            r == 0,
    {
        0
    }

    /// How many spans the arena holds.
    pub fn span_count(&self) -> (r: usize)
        ensures
            r == self@.spans.len(),
    {
        self.spans.len()
    }

    /// A borrowed span, for inspection.
    pub fn get_span(&self, i: usize) -> (r: &Span)
        requires
            i < self@.spans.len(),
        ensures
            r@ == self@.spans[i as int],
    {
        &self.spans[i]
    }

    /// One trace-level field.
    pub fn field(&self, key: &str) -> (r: Option<&serde_json::Value>)
        requires
            self.wf(),
        ensures
            match r {
                Some(v) => self@.fields.dom().contains(key@) && *v == self@.fields[key@],
                None => !self@.fields.dom().contains(key@),
            },
    {
        self.trace_fields.get(key)
    }

    /// How many trace-level fields there are.
    pub fn field_count(&self) -> (r: usize)
        requires
            self.wf(),
        ensures
            r == self@.fields.len(),
    {
        self.trace_fields.len()
    }

    /// One trace-level rollup sum, in micro-units.
    pub fn rollup_micros(&self, key: &str) -> (r: Option<i64>)
        requires
            self.wf(),
        ensures
            match r {
                Some(v) => self@.rollups.dom().contains(key@) && v == self@.rollups[key@],
                None => !self@.rollups.dom().contains(key@),
            },
    {
        self.rollup_fields.get_micros(key)
    }

    /// Whether any rollup contribution was made yet.
    pub fn rollups_empty(&self) -> (r: bool)
        requires
            self.wf(),
        ensures
            r == self@.rollups.is_empty(),
    {
        self.rollup_fields.is_empty()
    }

    /// Add or overwrite a trace-level field. Every span of the trace not yet
    /// sent will carry it: the merge happens at send time.
    pub fn add_field(&mut self, key: &str, value: serde_json::Value)
        requires
            old(self).wf(),
        ensures
            final(self).wf(),
            final(self)@ == (TraceView { fields: old(self)@.fields.insert(key@, value), ..old(
                self,
            )@ }),
    {
        self.trace_fields.insert(key, value);
    }

    /// Add a numeric contribution, in micro-units, to a trace-level rollup
    /// sum; a missing key starts at zero, and the sum saturates at the i64
    /// bounds. Only the root span emits these, prefixed, when it is sent.
    pub fn add_rollup_field(&mut self, key: &str, delta_micros: i64)
        requires
            old(self).wf(),
        ensures
            final(self).wf(),
            final(self)@ == (TraceView {
                rollups: old(self)@.rollups.insert(
                    key@,
                    crate::fields::sat_add_i64(
                        if old(self)@.rollups.dom().contains(key@) {
                            old(self)@.rollups[key@] as int
                        } else {
                            0
                        },
                        delta_micros as int,
                    ),
                ),
                ..old(self)@
            }),
    {
        self.rollup_fields.add_micros(key, delta_micros);
    }

    /// Serialize this trace's continuation for an outbound call: the trace
    /// id, the given span id as the new parent, the dataset, and the current
    /// trace-level fields as the context.
    pub fn serialize_headers(&self, span_id: &str) -> (r: String)
        requires
            self.wf(),
        ensures
            r@ == encoded_header(self@.trace_id, span_id@, self@.dataset, json_object_of(
                self@.fields,
            )),
    {
        let p = Propagation {
            trace_id: self.trace_id.clone(),
            parent_id: span_id.to_owned(),
            dataset: self.dataset.clone(),
            trace_context: context_value(&self.trace_fields),
        };
        p.marshal_trace_context()
    }

    /// Drop a span's bookkeeping entry; called once it finished sending.
    pub(crate) fn remove_child_span(&mut self, span_id: &str)
        requires
            old(self).wf(),
        ensures
            final(self).wf(),
            final(self)@ == (TraceView {
                child_index: old(self)@.child_index.remove(span_id@),
                ..old(self)@
            }),
    {
        let n: usize = self.child_index.len();
        let mut i: usize = 0;
        while i < n
            invariant
                old(self).wf(),
                n == self.child_index.len(),
                i <= n,
                *self == *old(self),
                forall|j: int| 0 <= j < i ==> (#[trigger] self.child_index@[j])@ != span_id@,
            decreases n - i,
        {
            if str_eq(self.child_index[i].as_str(), span_id) {
                self.child_index.remove(i);
                proof {
                    let pre = old(self).child_index@;
                    let post = self.child_index@;
                    assert(pre[i as int]@ == span_id@);
                    assert(post =~= pre.subrange(0, i as int) + pre.subrange(
                        i + 1,
                        pre.len() as int,
                    ));
                    assert forall|sid: Seq<char>| ids_set(post).contains(sid) implies old(
                        self,
                    )@.child_index.remove(span_id@).contains(sid) by {
                        let j = choose|j: int| 0 <= j < post.len() && (#[trigger] post[j])@ == sid;
                        if j < i {
                            assert(pre[j]@ == sid);
                            assert(pre[j]@ != pre[i as int]@);
                        } else {
                            assert(pre[j + 1]@ == sid);
                            assert(pre[i as int]@ != pre[j + 1]@);
                        }
                    }
                    assert forall|i2: int, j2: int|
                        0 <= i2 < j2 < post.len() implies (#[trigger] post[i2])@ != (
                    #[trigger] post[j2])@ by {
                        let pi = if i2 < i { i2 } else { i2 + 1 };
                        let pj = if j2 < i { j2 } else { j2 + 1 };
                        assert(post[i2] == pre[pi]);
                        assert(post[j2] == pre[pj]);
                        assert(pre[pi]@ != pre[pj]@);
                    }
                    assert forall|sid: Seq<char>| old(self)@.child_index.remove(
                        span_id@,
                    ).contains(sid) implies ids_set(post).contains(sid) by {
                        let j = choose|j: int| 0 <= j < pre.len() && (#[trigger] pre[j])@ == sid;
                        if j < i {
                            assert(post[j]@ == sid);
                        } else {
                            assert(j != i);
                            assert(post[j - 1]@ == sid);
                        }
                    }
                    assert(self@.child_index =~= old(self)@.child_index.remove(span_id@));
                }
                return ;
            }
            i = i + 1;
        }
        proof {
            assert forall|sid: Seq<char>|
                old(self)@.child_index.contains(sid) implies old(self)@.child_index.remove(
                span_id@,
            ).contains(sid) by {
                let j = choose|j: int|
                    0 <= j < self.child_index@.len() && (#[trigger] self.child_index@[j])@ == sid;
                assert(self.child_index@[j]@ != span_id@);
            }
            assert(self@.child_index =~= old(self)@.child_index.remove(span_id@));
        }
    }

    /// Create a child span under `parent`: a fresh identifier, the parent's
    /// trace, the asked synchrony, the client's base fields, registered in
    /// the parent's child list and in the trace's child index. Returns the
    /// new span's handle.
    pub(crate) fn create_child_span(&mut self, parent: usize, is_async: bool) -> (r: usize)
        requires
            old(self).wf(),
            parent < old(self)@.spans.len(),
        ensures
            final(self).wf(),
            r == old(self)@.spans.len(),
            child_created(old(self)@, final(self)@, parent as int, r as int, is_async),
    {
        let idx: usize = self.spans.len();
        let child = Span::fresh(
            self.trace_id.clone(),
            self.spans[parent].span_id.clone(),
            false,
            is_async,
            self.base_fields.duplicate(),
        );
        let sid = child.span_id.clone();
        self.spans.push(child);
        let p = &mut self.spans[parent];
        p.children.push(idx);
        self.register_child_id(sid);
        proof {
            assert(to_ints(self.spans@[parent as int].children@) =~= old(
                self,
            )@.spans[parent as int].children.push(idx as int));
            assert(self@.spans[parent as int] == (SpanView {
                children: old(self)@.spans[parent as int].children.push(idx as int),
                ..old(self)@.spans[parent as int]
            }));
            assert(self@.spans.len() == old(self)@.spans.len() + 1);
            assert forall|m: int|
                0 <= m < old(self)@.spans.len() && m != parent implies self@.spans[m]
                == old(self)@.spans[m] by {
                assert(self.spans@[m] == old(self).spans@[m]);
            }
            assert(wf_trace_view(self@)) by {
                let t1 = self@;
                let t0 = old(self)@;
                assert forall|i: int, k: int|
                    0 <= i < t1.spans.len() && 0 <= k < t1.spans[i].children.len() implies i < (
                #[trigger] t1.spans[i].children[k]) < t1.spans.len() by {
                    if i == parent as int && k == t1.spans[i].children.len() - 1 {
                    } else if i < t0.spans.len() {
                        assert(t0.spans[i].children[k] == t1.spans[i].children[k]);
                    }
                }
            }
        }
        idx
    }

    /// Record a freshly created span id in the child index.
    fn register_child_id(&mut self, sid: String)
        requires
            forall|i: int, j: int|
                0 <= i < j < old(self).child_index@.len() ==> (
                #[trigger] old(self).child_index@[i])@ != (#[trigger] old(self).child_index@[j])@,
        ensures
            *final(self) == (Trace {
                child_index: final(self).child_index,
                ..*old(self)
            }),
            ids_set(final(self).child_index@) == ids_set(old(self).child_index@).insert(sid@),
            forall|i: int, j: int|
                0 <= i < j < final(self).child_index@.len() ==> (
                #[trigger] final(self).child_index@[i])@ != (
                #[trigger] final(self).child_index@[j])@,
    {
        let n: usize = self.child_index.len();
        let mut i: usize = 0;
        while i < n
            invariant
                n == self.child_index.len(),
                i <= n,
                *self == *old(self),
                forall|i2: int, j2: int|
                    0 <= i2 < j2 < old(self).child_index@.len() ==> (
                    #[trigger] old(self).child_index@[i2])@ != (
                    #[trigger] old(self).child_index@[j2])@,
                forall|j: int| 0 <= j < i ==> (#[trigger] self.child_index@[j])@ != sid@,
            decreases n - i,
        {
            if str_eq(self.child_index[i].as_str(), sid.as_str()) {
                proof {
                    assert(self.child_index@[i as int]@ == sid@);
                    assert(ids_set(self.child_index@).contains(sid@));
                    assert(ids_set(self.child_index@) =~= ids_set(
                        old(self).child_index@,
                    ).insert(sid@));
                }
                return ;
            }
            i = i + 1;
        }
        self.child_index.push(sid);
        proof {
            let pre = old(self).child_index@;
            let post = self.child_index@;
            assert(post =~= pre.push(sid));
            assert forall|s2: Seq<char>| ids_set(post).contains(s2) implies ids_set(pre).insert(
                sid@,
            ).contains(s2) by {
                let j = choose|j: int| 0 <= j < post.len() && (#[trigger] post[j])@ == s2;
                if j < pre.len() {
                    assert(pre[j]@ == s2);
                }
            }
            assert forall|s2: Seq<char>| ids_set(pre).insert(sid@).contains(s2) implies ids_set(
                post,
            ).contains(s2) by {
                if s2 == sid@ {
                    assert(post[post.len() - 1]@ == s2);
                } else {
                    let j = choose|j: int| 0 <= j < pre.len() && (#[trigger] pre[j])@ == s2;
                    assert(post[j]@ == s2);
                }
            }
            assert(ids_set(post) =~= ids_set(pre).insert(sid@));
            assert forall|i2: int, j2: int|
                0 <= i2 < j2 < post.len() implies (#[trigger] post[i2])@ != (
            #[trigger] post[j2])@ by {
                if j2 == post.len() - 1 {
                    assert(post[i2]@ != sid@);
                }
            }
        }
    }
}

/// How creating a child span under `parent` relates the trace after, `t1`,
/// to the trace before, `t0`: one new span at handle `r`, linked both ways,
/// seeded with the client's base fields, and recorded in the child index.
pub open spec fn child_created(
    t0: TraceView,
    t1: TraceView,
    parent: int,
    r: int,
    is_async: bool,
) -> bool {
    &&& r == t0.spans.len()
    &&& t1.spans.len() == t0.spans.len() + 1
    &&& t1.trace_id == t0.trace_id
    &&& t1.parent_id == t0.parent_id
    &&& t1.dataset == t0.dataset
    &&& t1.fields == t0.fields
    &&& t1.rollups == t0.rollups
    &&& t1.base_fields == t0.base_fields
    &&& ({
        let s = t1.spans[r];
        &&& s.parent_id == t0.spans[parent].span_id
        &&& s.trace_id == t0.trace_id
        &&& !s.is_root
        &&& s.is_async == is_async
        &&& !s.is_sent
        &&& s.fields == t0.base_fields
        &&& s.rollups == Map::<Seq<char>, i64>::empty()
        &&& s.children == Seq::<int>::empty()
        &&& s.span_id.len() == 36
    })
    &&& t1.spans[parent] == (SpanView {
        children: t0.spans[parent].children.push(r),
        ..t0.spans[parent]
    })
    &&& forall|m: int| 0 <= m < t0.spans.len() && m != parent ==> t1.spans[m] == t0.spans[m]
    &&& t1.child_index == t0.child_index.insert(t1.spans[r].span_id)
}

/// Whether a child is followed by the send protocol: synchronous and unsent.
pub open spec fn keep_child(spans: Seq<SpanView>, c: int) -> bool {
    !spans[c].is_async && !spans[c].is_sent
}

/// The synchronous unsent subtree under span `i`, children before parents,
/// `i` last: the order the send protocol finalizes and transmits spans in.
pub open spec fn po(spans: Seq<SpanView>, i: int) -> Seq<int>
    decreases spans.len() - i, spans[i].children.len() + 2,
        when wf_children(spans) && 0 <= i < spans.len()
{
    po_kids(spans, i, 0) + seq![i]
}

/// The concatenated subtrees of the children of `i` from position `k` on.
pub open spec fn po_kids(spans: Seq<SpanView>, i: int, k: int) -> Seq<int>
    decreases spans.len() - i, spans[i].children.len() - k + 1,
        when wf_children(spans) && 0 <= i < spans.len() && 0 <= k <= spans[i].children.len()
{
    if k == spans[i].children.len() {
        Seq::empty()
    } else {
        let c = spans[i].children[k];
        (if keep_child(spans, c) {
            po(spans, c)
        } else {
            Seq::empty()
        }) + po_kids(spans, i, k + 1)
    }
}

pub proof fn lemma_po_bounds(spans: Seq<SpanView>, i: int)
    requires
        wf_children(spans),
        0 <= i < spans.len(),
    ensures
        forall|j: int| 0 <= j < po(spans, i).len() ==> i <= #[trigger] po(spans, i)[j]
            < spans.len(),
        po(spans, i).len() >= 1,
        po(spans, i).last() == i,
    decreases spans.len() - i, spans[i].children.len() + 2,
{
    lemma_po_kids_bounds(spans, i, 0);
    let kids = po_kids(spans, i, 0);
    assert(po(spans, i) == kids + seq![i]);
    assert forall|j: int| 0 <= j < po(spans, i).len() implies i <= #[trigger] po(spans, i)[j]
        < spans.len() by {
        if j < kids.len() {
            assert(po(spans, i)[j] == kids[j]);
        } else {
            assert(po(spans, i)[j] == i);
        }
    }
    assert(po(spans, i).last() == i);
}

pub proof fn lemma_po_kids_bounds(spans: Seq<SpanView>, i: int, k: int)
    requires
        wf_children(spans),
        0 <= i < spans.len(),
        0 <= k <= spans[i].children.len(),
    ensures
        forall|j: int| 0 <= j < po_kids(spans, i, k).len() ==> i < #[trigger] po_kids(
            spans,
            i,
            k,
        )[j] < spans.len(),
    decreases spans.len() - i, spans[i].children.len() - k + 1,
{
    if k < spans[i].children.len() {
        let c = spans[i].children[k];
        let head = if keep_child(spans, c) {
            po(spans, c)
        } else {
            Seq::<int>::empty()
        };
        if keep_child(spans, c) {
            lemma_po_bounds(spans, c);
        }
        lemma_po_kids_bounds(spans, i, k + 1);
        assert(po_kids(spans, i, k) == head + po_kids(spans, i, k + 1));
        assert forall|j: int| 0 <= j < po_kids(spans, i, k).len() implies i < #[trigger] po_kids(
            spans,
            i,
            k,
        )[j] < spans.len() by {
            if j < head.len() {
                assert(po_kids(spans, i, k)[j] == head[j]);
                assert(head[j] >= c);
            } else {
                assert(po_kids(spans, i, k)[j] == po_kids(spans, i, k + 1)[j - head.len()]);
            }
        }
    }
}

/// The `meta.span_type` value of span `i`.
pub open spec fn span_type_of(t: TraceView, i: int) -> Seq<char> {
    let s = t.spans[i];
    if s.is_root {
        if s.parent_id.len() == 0 {
            "root"@
        } else {
            "subroot"@
        }
    } else if s.is_async {
        "async"@
    } else if s.children.len() == 0 {
        "leaf"@
    } else {
        "mid"@
    }
}

/// The fields stamped on span `i` before its children are sent: its own
/// fields, the duration, its identity, its own rollup sums, and the
/// sent-by-parent mark when a parent drove the send.
pub open spec fn stamped_fields(t: TraceView, i: int, dur: u64, by_parent: bool) -> Map<
    Seq<char>,
    serde_json::Value,
> {
    let s = t.spans[i];
    let f1 = s.fields.insert("duration_ms"@, json_of_u64(dur));
    let f2 = if s.parent_id.len() > 0 {
        f1.insert("trace.parent_id"@, json_of_str(s.parent_id))
    } else {
        f1
    };
    let f3 = f2.insert("trace.trace_id"@, json_of_str(s.trace_id)).insert(
        "trace.span_id"@,
        json_of_str(s.span_id),
    );
    let f4 = f3.union_prefer_right(rendered_rollups(s.rollups));
    if by_parent {
        f4.insert("meta.sent_by_parent"@, json_of_bool(true))
    } else {
        f4
    }
}

/// The full field set of span `i` as handed to the sampler: the stamps, then
/// the trace-level fields, the span type, and, at the trace's own root, the
/// trace's rollup sums under prefixed keys.
pub open spec fn assembled_fields(t: TraceView, i: int, dur: u64, by_parent: bool) -> Map<
    Seq<char>,
    serde_json::Value,
> {
    let f5 = stamped_fields(t, i, dur, by_parent).union_prefer_right(t.fields);
    let f6 = f5.insert("meta.span_type"@, json_of_str(span_type_of(t, i)));
    if t.spans[i].is_root && t.spans[i].parent_id.len() == 0 {
        f6.union_prefer_right(rendered_rollups_prefixed(t.rollups))
    } else {
        f6
    }
}

/// What sending span `i` with duration `dur` hands the emitter: one event
/// when the sampler keeps it, nothing when it drops it.
pub open spec fn event_for<S: Sampler, P: Presend>(
    smp: S,
    prs: P,
    t: TraceView,
    i: int,
    dur: u64,
    by_parent: bool,
) -> Seq<EventView> {
    let f = assembled_fields(t, i, dur, by_parent);
    let d = smp.decision(f);
    if d.0 {
        seq![EventView { fields: prs.transform(f), sample_rate: d.1 }]
    } else {
        Seq::empty()
    }
}

/// The events a whole send emits: one chunk per span of `order`, in order,
/// with the matching duration and by-parent flag.
pub open spec fn events_for<S: Sampler, P: Presend>(
    smp: S,
    prs: P,
    t: TraceView,
    order: Seq<int>,
    durs: Seq<u64>,
    bps: Seq<bool>,
) -> Seq<EventView>
    decreases order.len(),
{
    if order.len() == 0 {
        Seq::empty()
    } else {
        event_for(smp, prs, t, order[0], durs[0], bps[0]) + events_for(
            smp,
            prs,
            t,
            order.drop_first(),
            durs.drop_first(),
            bps.drop_first(),
        )
    }
}

/// The by-parent flags of a send: every span but the last (the span the send
/// was asked for) is sent by its parent.
pub open spec fn bps_for(n: int) -> Seq<bool> {
    Seq::new(n as nat, |k: int| k != n - 1)
}

pub proof fn lemma_events_for_snoc<S: Sampler, P: Presend>(
    smp: S,
    prs: P,
    t: TraceView,
    order: Seq<int>,
    durs: Seq<u64>,
    bps: Seq<bool>,
    i: int,
    dur: u64,
    bp: bool,
)
    requires
        order.len() == durs.len(),
        order.len() == bps.len(),
    ensures
        events_for(smp, prs, t, order.push(i), durs.push(dur), bps.push(bp)) == events_for(
            smp,
            prs,
            t,
            order,
            durs,
            bps,
        ) + event_for(smp, prs, t, i, dur, bp),
    decreases order.len(),
{
    if order.len() == 0 {
        reveal_with_fuel(events_for, 3);
        assert(order.push(i)[0] == i && durs.push(dur)[0] == dur && bps.push(bp)[0] == bp);
        assert(order.push(i).drop_first() =~= Seq::<int>::empty());
        assert(durs.push(dur).drop_first() =~= Seq::<u64>::empty());
        assert(bps.push(bp).drop_first() =~= Seq::<bool>::empty());
        assert(event_for(smp, prs, t, i, dur, bp) + Seq::<EventView>::empty() =~= event_for(
            smp,
            prs,
            t,
            i,
            dur,
            bp,
        ));
        assert(Seq::<EventView>::empty() + event_for(smp, prs, t, i, dur, bp) =~= event_for(
            smp,
            prs,
            t,
            i,
            dur,
            bp,
        ));
        assert(events_for(smp, prs, t, order.push(i), durs.push(dur), bps.push(bp)) =~= events_for(
            smp,
            prs,
            t,
            order,
            durs,
            bps,
        ) + event_for(smp, prs, t, i, dur, bp));
    } else {
        assert(order.push(i).drop_first() =~= order.drop_first().push(i));
        assert(durs.push(dur).drop_first() =~= durs.drop_first().push(dur));
        assert(bps.push(bp).drop_first() =~= bps.drop_first().push(bp));
        lemma_events_for_snoc(
            smp,
            prs,
            t,
            order.drop_first(),
            durs.drop_first(),
            bps.drop_first(),
            i,
            dur,
            bp,
        );
        assert(order.push(i)[0] == order[0] && durs.push(dur)[0] == durs[0] && bps.push(bp)[0]
            == bps[0]);
        assert(events_for(smp, prs, t, order.push(i), durs.push(dur), bps.push(bp)) =~= events_for(
            smp,
            prs,
            t,
            order,
            durs,
            bps,
        ) + event_for(smp, prs, t, i, dur, bp));
    }
}

/// The span identifiers the send removes from the child index: those of the
/// spans in `done`.
pub open spec fn sent_ids(t: TraceView, done: Seq<int>) -> Set<Seq<char>> {
    Set::new(
        |sid: Seq<char>|
            exists|m: int| #[trigger]
                done.contains(m) && 0 <= m < t.spans.len() && t.spans[m].span_id == sid,
    )
}

/// A span after the protocol marked it sent; nothing else changes.
pub open spec fn span_sent_update(s: SpanView) -> SpanView {
    SpanView { is_sent: true, ..s }
}

/// How one send call relates the trace, and the emitter's log, after to
/// before: a no-op on a sent span, and otherwise exactly the synchronous
/// unsent subtree is finalized and transmitted, children first, for some
/// sequence of clock readings.
pub open spec fn send_transition<S: Sampler, P: Presend>(
    smp: S,
    prs: P,
    t0: TraceView,
    t1: TraceView,
    idx: int,
    log0: Seq<EventView>,
    log1: Seq<EventView>,
) -> bool {
    if t0.spans[idx].is_sent {
        t1 == t0 && log1 == log0
    } else {
        let order = po(t0.spans, idx);
        &&& t1.trace_id == t0.trace_id
        &&& t1.parent_id == t0.parent_id
        &&& t1.dataset == t0.dataset
        &&& t1.fields == t0.fields
        &&& t1.rollups == t0.rollups
        &&& t1.base_fields == t0.base_fields
        &&& t1.spans.len() == t0.spans.len()
        &&& forall|m: int|
            0 <= m < t0.spans.len() ==> #[trigger] t1.spans[m] == (if order.contains(m) {
                span_sent_update(t0.spans[m])
            } else {
                t0.spans[m]
            })
        &&& t1.child_index == t0.child_index.difference(sent_ids(t0, order))
        &&& exists|durs: Seq<u64>|
            durs.len() == order.len() && log1 == log0 + #[trigger] events_for(
                smp,
                prs,
                t0,
                order,
                durs,
                bps_for(order.len() as int),
            )
    }
}

/// Well-formedness of the view survives any change that keeps the structure:
/// same identifiers, roles and children, whatever happens to sent flags,
/// fields or rollups.
proof fn lemma_wf_view_structure(t0: TraceView, t1: TraceView)
    requires
        wf_trace_view(t0),
        t1.trace_id == t0.trace_id,
        t1.spans.len() == t0.spans.len(),
        forall|m: int|
            0 <= m < t0.spans.len() ==> (#[trigger] t1.spans[m]).children == t0.spans[m].children
                && t1.spans[m].is_root == t0.spans[m].is_root && t1.spans[m].trace_id
                == t0.spans[m].trace_id,
    ensures
        wf_trace_view(t1),
{
    assert forall|i: int, k: int|
        0 <= i < t1.spans.len() && 0 <= k < t1.spans[i].children.len() implies i < (
    #[trigger] t1.spans[i].children[k]) < t1.spans.len() by {
        assert(t1.spans[i].children == t0.spans[i].children);
        assert(i < t0.spans[i].children[k] < t0.spans.len());
    }
}

/// Collect the synchronous unsent subtree under `idx` in postorder.
fn collect_postorder(spans: &Vec<Span>, idx: usize, out: &mut Vec<usize>)
    requires
        wf_children(spans_view(spans@)),
        idx < spans@.len(),
    ensures
        to_ints(final(out)@) == to_ints(old(out)@) + po(spans_view(spans@), idx as int),
    decreases spans@.len() - idx,
{
    let ghost sv = spans_view(spans@);
    let nkids: usize = spans[idx].children.len();
    let mut k: usize = 0;
    let ghost mut done_kids: Seq<int> = Seq::empty();
    proof {
        assert(Seq::<int>::empty() + po_kids(sv, idx as int, 0) =~= po_kids(sv, idx as int, 0));
    }
    while k < nkids
        invariant
            wf_children(sv),
            sv == spans_view(spans@),
            idx < spans@.len(),
            nkids == sv[idx as int].children.len(),
            k <= nkids,
            to_ints(out@) == to_ints(old(out)@) + done_kids,
            done_kids + po_kids(sv, idx as int, k as int) == po_kids(sv, idx as int, 0),
        decreases nkids - k,
    {
        let c: usize = spans[idx].children[k];
        proof {
            assert(sv[idx as int].children[k as int] == c as int);
        }
        if !spans[c].is_async() && !spans[c].is_sent() {
            proof {
                assert(keep_child(sv, c as int));
            }
            collect_postorder(spans, c, out);
            proof {
                done_kids = done_kids + po(sv, c as int);
                assert(to_ints(out@) =~= to_ints(old(out)@) + done_kids);
                assert(done_kids + po_kids(sv, idx as int, k + 1) =~= po_kids(
                    sv,
                    idx as int,
                    0,
                ));
            }
        } else {
            proof {
                assert(!keep_child(sv, c as int));
                assert(po_kids(sv, idx as int, k as int) == Seq::<int>::empty() + po_kids(
                    sv,
                    idx as int,
                    k + 1,
                ));
                assert(done_kids + po_kids(sv, idx as int, k + 1) =~= po_kids(
                    sv,
                    idx as int,
                    0,
                ));
            }
        }
        k = k + 1;
    }
    let ghost prev = out@;
    out.push(idx);
    proof {
        assert(po_kids(sv, idx as int, nkids as int) == Seq::<int>::empty());
        assert(done_kids + Seq::<int>::empty() =~= done_kids);
        assert(done_kids =~= po_kids(sv, idx as int, 0));
        assert(out@ =~= prev.push(idx));
        assert(to_ints(out@) =~= to_ints(prev).push(idx as int));
        assert(po(sv, idx as int) == po_kids(sv, idx as int, 0) + seq![idx as int]);
        assert(to_ints(out@) =~= to_ints(old(out)@) + po(sv, idx as int));
    }
}

impl Trace {
    /// Add or overwrite a field on the span at `span`. Returns false, and
    /// changes nothing, when the handle is out of range or the span was
    /// already sent (a sent span is frozen).
    pub fn span_add_field(&mut self, span: usize, key: &str, value: serde_json::Value) -> (r:
        bool)
        requires
            old(self).wf(),
        ensures
            final(self).wf(),
            r == (span < old(self)@.spans.len() && !old(self)@.spans[span as int].is_sent),
            r ==> final(self)@ == (TraceView {
                spans: old(self)@.spans.update(
                    span as int,
                    SpanView {
                        fields: old(self)@.spans[span as int].fields.insert(key@, value),
                        ..old(self)@.spans[span as int]
                    },
                ),
                ..old(self)@
            }),
            !r ==> final(self)@ == old(self)@,
    {
        if span >= self.spans.len() {
            return false;
        }
        if self.spans[span].is_sent() {
            return false;
        }
        let sp = &mut self.spans[span];
        sp.add_field(key, value);
        proof {
            assert(self@.spans =~= old(self)@.spans.update(
                span as int,
                SpanView {
                    fields: old(self)@.spans[span as int].fields.insert(key@, value),
                    ..old(self)@.spans[span as int]
                },
            ));
            lemma_wf_view_structure(old(self)@, self@);
        }
        true
    }

    /// Add a rollup contribution, in micro-units, to the span's own
    /// accumulator. Returns false, and changes nothing, when the handle is
    /// out of range or the span was already sent.
    pub fn span_add_rollup_field(&mut self, span: usize, key: &str, delta_micros: i64) -> (r:
        bool)
        requires
            old(self).wf(),
        ensures
            final(self).wf(),
            r == (span < old(self)@.spans.len() && !old(self)@.spans[span as int].is_sent),
            r ==> final(self)@ == (TraceView {
                spans: old(self)@.spans.update(
                    span as int,
                    SpanView {
                        rollups: old(self)@.spans[span as int].rollups.insert(
                            key@,
                            crate::fields::sat_add_i64(
                                if old(self)@.spans[span as int].rollups.dom().contains(key@) {
                                    old(self)@.spans[span as int].rollups[key@] as int
                                } else {
                                    0
                                },
                                delta_micros as int,
                            ),
                        ),
                        ..old(self)@.spans[span as int]
                    },
                ),
                ..old(self)@
            }),
            !r ==> final(self)@ == old(self)@,
    {
        if span >= self.spans.len() {
            return false;
        }
        if self.spans[span].is_sent() {
            return false;
        }
        let sp = &mut self.spans[span];
        sp.add_rollup_field(key, delta_micros);
        proof {
            assert(self@.spans =~= old(self)@.spans.update(span as int, self@.spans[span as int]));
            lemma_wf_view_structure(old(self)@, self@);
        }
        true
    }

    /// Run the send protocol on the span at `idx`: a no-op if it was already
    /// sent, otherwise finalize and transmit its synchronous unsent subtree,
    /// children before parents, and drop each finished span from the child
    /// index. The relation between the states before and after, and the
    /// events handed to the emitter, is exactly `send_transition`.
    pub fn send_span<S: Sampler, P: Presend, E: Emitter>(
        &mut self,
        idx: usize,
        smp: &S,
        prs: &P,
        em: &mut E,
    )
        requires
            old(self).wf(),
            idx < old(self)@.spans.len(),
        ensures
            final(self).wf(),
            send_transition(*smp, *prs, old(self)@, final(self)@, idx as int, old(em).log(),
                final(em).log()),
    {
        if self.spans[idx].is_sent() {
            return ;
        }
        let mut order: Vec<usize> = Vec::new();
        collect_postorder(&self.spans, idx, &mut order);
        let ghost t0 = self@;
        let ghost gorder = po(t0.spans, idx as int);
        proof {
            lemma_po_bounds(t0.spans, idx as int);
            assert(to_ints(order@) == gorder);
            assert forall|j2: int| 0 <= j2 < order@.len() implies #[trigger] to_ints(
                order@,
            )[j2] < t0.spans.len() && to_ints(order@)[j2] == order@[j2] as int by {
                assert(to_ints(order@)[j2] == order@[j2] as int);
                assert(gorder[j2] < t0.spans.len());
            }
        }
        let n: usize = order.len();
        let ghost log0 = em.log();
        let ghost mut durs: Seq<u64> = Seq::empty();
        proof {
            assert(gorder.take(0) =~= Seq::<int>::empty());
            assert(bps_for(n as int).take(0) =~= Seq::<bool>::empty());
            assert(log0 + events_for(*smp, *prs, t0, Seq::<int>::empty(), Seq::<u64>::empty(),
                Seq::<bool>::empty()) =~= log0);
        }
        let mut k: usize = 0;
        while k < n
            invariant
                self.wf(),
                wf_trace_view(t0),
                wf_children(t0.spans),
                idx < t0.spans.len(),
                n == order@.len(),
                k <= n,
                n == gorder.len(),
                durs.len() == k,
                to_ints(order@) == gorder,
                gorder == po(t0.spans, idx as int),
                forall|j2: int| 0 <= j2 < n ==> #[trigger] to_ints(order@)[j2] < t0.spans.len(),
                forall|j2: int| 0 <= j2 < n ==> to_ints(order@)[j2] == order@[j2] as int,
                forall|j2: int| 0 <= j2 < n ==> to_ints(order@)[j2] == gorder[j2],
                self@.spans.len() == t0.spans.len(),
                self@.trace_id == t0.trace_id,
                self@.parent_id == t0.parent_id,
                self@.dataset == t0.dataset,
                self@.fields == t0.fields,
                self@.rollups == t0.rollups,
                self@.base_fields == t0.base_fields,
                forall|m: int|
                    0 <= m < t0.spans.len() ==> #[trigger] self@.spans[m] == (if gorder.take(
                        k as int,
                    ).contains(m) {
                        span_sent_update(t0.spans[m])
                    } else {
                        t0.spans[m]
                    }),
                self@.child_index == t0.child_index.difference(
                    sent_ids(t0, gorder.take(k as int)),
                ),
                em.log() == log0 + events_for(*smp, *prs, t0, gorder.take(k as int), durs,
                    bps_for(n as int).take(k as int)),
            decreases n - k,
        {
            let j: usize = order[k];
            let ghost svj = t0.spans[j as int];
            proof {
                assert(self@.spans[j as int].fields == svj.fields);
                assert(self@.spans[j as int].rollups == svj.rollups);
                assert(self@.spans[j as int].parent_id == svj.parent_id);
                assert(self.spans@[j as int].wf());
            }
            let dur: u64 = self.spans[j].timer.finish();
            let mut f = self.spans[j].fields.duplicate();
            let vdur = json_u64(dur);
            f.insert("duration_ms", vdur);
            let has_parent: bool = !self.spans[j].parent_id.as_str().is_empty();
            if has_parent {
                let vp = json_str(self.spans[j].parent_id.as_str());
                f.insert("trace.parent_id", vp);
            }
            let vt = json_str(self.spans[j].trace_id.as_str());
            f.insert("trace.trace_id", vt);
            let vs = json_str(self.spans[j].span_id.as_str());
            f.insert("trace.span_id", vs);
            f.merge_rollups(&self.spans[j].rollup_fields);
            let bp: bool = k + 1 < n;
            if bp {
                let vb = json_bool(true);
                f.insert("meta.sent_by_parent", vb);
            }
            proof {
                assert(bp == bps_for(n as int)[k as int]);
                assert(f@ == stamped_fields(t0, j as int, dur, bp));
            }
            f.merge_from(&self.trace_fields);
            let is_root_span: bool = self.spans[j].is_root();
            let kids_empty: bool = self.spans[j].children.len() == 0;
            let is_async_span: bool = self.spans[j].is_async();
            let st: &'static str = if is_root_span {
                if !has_parent {
                    "root"
                } else {
                    "subroot"
                }
            } else if is_async_span {
                "async"
            } else if kids_empty {
                "leaf"
            } else {
                "mid"
            };
            proof {
                assert(self@.spans[j as int].children == svj.children);
                assert(st@ == span_type_of(t0, j as int));
            }
            let vst = json_str(st);
            f.insert("meta.span_type", vst);
            if is_root_span && !has_parent {
                f.merge_rollups_prefixed(&self.rollup_fields);
            }
            proof {
                assert(f@ == assembled_fields(t0, j as int, dur, bp));
            }
            let ghost fa = f@;
            let dec = smp.sample(&f);
            let keep: bool = dec.0;
            let rate: u64 = dec.1;
            let ghost log_pre = em.log();
            if keep {
                prs.apply(&mut f);
                let ev = Event::make(f, rate);
                let _ok = em.transmit(ev);
                proof {
                    assert(em.log() =~= log_pre + event_for(*smp, *prs, t0, j as int, dur, bp));
                }
            } else {
                proof {
                    assert(em.log() =~= log_pre + event_for(*smp, *prs, t0, j as int, dur, bp));
                }
            }
            let sid = self.spans[j].span_id.clone();
            let ghost spans_pre = self@.spans;
            let sp = &mut self.spans[j];
            sp.is_sent = true;
            proof {
                assert(self@.spans =~= spans_pre.update(j as int, span_sent_update(
                    spans_pre[j as int],
                )));
                assert forall|m: int| 0 <= m < t0.spans.len() implies (
                #[trigger] self@.spans[m]).children == t0.spans[m].children
                    && self@.spans[m].is_root == t0.spans[m].is_root && self@.spans[m].trace_id
                    == t0.spans[m].trace_id by {
                    if m != j as int {
                        assert(self@.spans[m] == spans_pre[m]);
                    }
                }
                lemma_wf_view_structure(t0, self@);
                assert(self.wf());
            }
            let ghost cidx_pre = self@.child_index;
            self.remove_child_span(sid.as_str());
            proof {
                let done2 = gorder.take(k + 1);
                assert(done2 =~= gorder.take(k as int).push(j as int));
                assert(bps_for(n as int).take(k + 1) =~= bps_for(n as int).take(k as int).push(
                    bp,
                ));
                lemma_events_for_snoc(*smp, *prs, t0, gorder.take(k as int), durs, bps_for(
                    n as int,
                ).take(k as int), j as int, dur, bp);
                durs = durs.push(dur);
                assert(em.log() == log0 + events_for(*smp, *prs, t0, done2, durs, bps_for(
                    n as int,
                ).take(k + 1)));
                // the span flags
                assert forall|m: int| 0 <= m < t0.spans.len() implies #[trigger] self@.spans[m]
                    == (if done2.contains(m) {
                    span_sent_update(t0.spans[m])
                } else {
                    t0.spans[m]
                }) by {
                    if m == j as int {
                        assert(done2[k as int] == m);
                        assert(done2.contains(m));
                    } else {
                        if done2.contains(m) {
                            let w = choose|w: int| 0 <= w < done2.len() && done2[w] == m;
                            assert(gorder.take(k as int)[w] == m);
                            assert(gorder.take(k as int).contains(m));
                        }
                        if gorder.take(k as int).contains(m) {
                            let w = choose|w: int|
                                0 <= w < gorder.take(k as int).len() && gorder.take(
                                    k as int,
                                )[w] == m;
                            assert(done2[w] == m);
                            assert(done2.contains(m));
                        }
                    }
                }
                // the child index
                assert(svj.span_id == spans_pre[j as int].span_id);
                assert(self@.child_index =~= t0.child_index.difference(sent_ids(t0, done2)))
                    by {
                    assert(self@.child_index == cidx_pre.remove(svj.span_id));
                    assert forall|sid2: Seq<char>|
                        cidx_pre.remove(svj.span_id).contains(sid2) implies t0
                        .child_index.difference(sent_ids(t0, done2)).contains(sid2) by {
                        if sent_ids(t0, done2).contains(sid2) {
                            let m = choose|m: int| #[trigger]
                                done2.contains(m) && 0 <= m < t0.spans.len() && t0.spans[m].span_id
                                    == sid2;
                            if m == j as int {
                                assert(sid2 == svj.span_id);
                            } else {
                                let w = choose|w: int| 0 <= w < done2.len() && done2[w] == m;
                                assert(gorder.take(k as int)[w] == m);
                                assert(gorder.take(k as int).contains(m));
                                assert(sent_ids(t0, gorder.take(k as int)).contains(sid2));
                            }
                        }
                    }
                    assert forall|sid2: Seq<char>|
                        t0.child_index.difference(sent_ids(t0, done2)).contains(
                            sid2,
                        ) implies cidx_pre.remove(svj.span_id).contains(sid2) by {
                        assert(!sent_ids(t0, done2).contains(sid2));
                        assert(done2[k as int] == j as int);
                        assert(done2.contains(j as int));
                        if sid2 == svj.span_id {
                            assert(sent_ids(t0, done2).contains(sid2));
                        }
                        if sent_ids(t0, gorder.take(k as int)).contains(sid2) {
                            let m = choose|m: int| #[trigger]
                                gorder.take(k as int).contains(m) && 0 <= m < t0.spans.len()
                                    && t0.spans[m].span_id == sid2;
                            let w = choose|w: int|
                                0 <= w < gorder.take(k as int).len() && gorder.take(
                                    k as int,
                                )[w] == m;
                            assert(done2[w] == m);
                            assert(done2.contains(m));
                            assert(sent_ids(t0, done2).contains(sid2));
                        }
                    }
                }
            }
            k = k + 1;
        }
        proof {
            assert(gorder.take(n as int) =~= gorder);
            assert(bps_for(n as int).take(n as int) =~= bps_for(n as int));
            assert(em.log() == log0 + events_for(*smp, *prs, t0, gorder, durs, bps_for(
                n as int,
            )));
            assert(send_transition(*smp, *prs, t0, self@, idx as int, log0, em.log()));
        }
    }

    /// Send the trace: run the send protocol on its root span.
    pub fn send<S: Sampler, P: Presend, E: Emitter>(&mut self, smp: &S, prs: &P, em: &mut E)
        requires
            old(self).wf(),
        ensures
            final(self).wf(),
            send_transition(*smp, *prs, old(self)@, final(self)@, 0, old(em).log(),
                final(em).log()),
    {
        self.send_span(0, smp, prs, em);
    }
}

} // verus!
