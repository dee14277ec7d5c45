//! The client: the adapter-facing surface. It owns the process-wide trace
//! registry, the configured hooks, and the client-level fields every new
//! span starts from, and it resolves trace identifiers on every call so that
//! spans can reach their owning trace without holding a reference to it.

use vstd::prelude::*;
use vstd::string::*;

use crate::emitter::Emitter;
use crate::fields::{map_of_pairs, FieldMap};
use crate::hooks::{Presend, Sampler};
use crate::ids::generate_id;
use crate::json::{json_object_entries, json_object_entries_of};
use crate::propagation::{decode_spec, encoded_header, Propagation};
use crate::strutil::str_eq;
use crate::trace::{
    child_created, send_transition, wf_trace_view, Trace, TraceView,
};
use crate::json::json_object_of;

verus! {

/// The trace-level fields a decoded context value carries: the entries of
/// the JSON object, or nothing when the context is not an object.
pub open spec fn context_fields(ctx: serde_json::Value) -> Map<Seq<char>, serde_json::Value> {
    match json_object_entries_of(ctx) {
        Some(es) => map_of_pairs(es),
        None => Map::empty(),
    }
}

/// The view of an optional header argument.
pub open spec fn hdr_view(h: Option<&str>) -> Option<Seq<char>> {
    match h {
        None => None,
        Some(s) => Some(s@),
    }
}

/// What an optional continuation header seeds a new trace with: trace id,
/// parent id, dataset, and trace-level fields. No header, or one that does
/// not decode, seeds nothing: the trace starts fresh.
pub open spec fn seed_of(h: Option<Seq<char>>) -> (
    Seq<char>,
    Seq<char>,
    Seq<char>,
    Map<Seq<char>, serde_json::Value>,
) {
    match h {
        None => (Seq::empty(), Seq::empty(), Seq::empty(), Map::empty()),
        Some(hs) => match decode_spec(hs) {
            Ok(q) => (q.0, q.1, q.2, context_fields(q.3)),
            Err(_) => (Seq::empty(), Seq::empty(), Seq::empty(), Map::empty()),
        },
    }
}

/// What a freshly created and registered trace looks like at index `i`.
pub open spec fn new_trace_at(
    ts: Seq<TraceView>,
    i: int,
    rid: Seq<char>,
    seed: (Seq<char>, Seq<char>, Seq<char>, Map<Seq<char>, serde_json::Value>),
    base: Map<Seq<char>, serde_json::Value>,
) -> bool {
    let t = ts[i];
    &&& t.trace_id == rid
    &&& t.parent_id == seed.1
    &&& t.dataset == seed.2
    &&& t.fields == seed.3
    &&& t.rollups == Map::<Seq<char>, i64>::empty()
    &&& t.base_fields == base
    &&& t.spans.len() == 1
    &&& t.spans[0].is_root
    &&& !t.spans[0].is_sent
    &&& !t.spans[0].is_async
    &&& t.spans[0].parent_id == seed.1
    &&& t.spans[0].trace_id == rid
    &&& t.spans[0].fields == base
    &&& t.spans[0].rollups == Map::<Seq<char>, i64>::empty()
    &&& t.spans[0].children == Seq::<int>::empty()
    &&& t.child_index == Set::<Seq<char>>::empty()
    &&& wf_trace_view(t)
}

/// The process-wide registry: the traces alive in this process, resolvable
/// by identifier. Entries are inserted once per trace creation; nothing ever
/// removes a whole trace (only spans leave a trace's child index), so a
/// handle stays valid for the life of the client. The registry is a list
/// scanned by identifier, so a lookup is linear in the number of live
/// traces, not constant-time as a hashed index would be.
pub struct Registry {
    traces: Vec<Trace>,
}

impl Registry {
    /// The traces it holds, in insertion order.
    pub closed spec fn traces_seq(&self) -> Seq<TraceView> {
        self.traces@.map(|i: int, t: Trace| t@)
    }

    /// Every trace is well formed and no two share an identifier.
    pub closed spec fn wf(&self) -> bool {
        &&& forall|i: int| 0 <= i < self.traces@.len() ==> (#[trigger] self.traces@[i]).wf()
        &&& forall|i: int, j: int|
            0 <= i < j < self.traces_seq().len() ==> (#[trigger] self.traces_seq()[i]).trace_id
                != (#[trigger] self.traces_seq()[j]).trace_id
    }

    pub fn new() -> (r: Registry)
        ensures
            r.wf(),
            r.traces_seq() == Seq::<TraceView>::empty(),
    {
        let r = Registry { traces: Vec::new() };
        proof {
            assert(r.traces_seq() =~= Seq::<TraceView>::empty());
        }
        r
    }

    /// The index of the trace with this identifier, if it is registered.
    pub fn lookup_index(&self, trace_id: &str) -> (r: Option<usize>)
        ensures
            match r {
                Some(i) => i < self.traces_seq().len() && self.traces_seq()[i as int].trace_id
                    == trace_id@,
                None => forall|j: int|
                    0 <= j < self.traces_seq().len() ==> (#[trigger] self.traces_seq()[j]).trace_id
                        != trace_id@,
            },
    {
        let n: usize = self.traces.len();
        let mut i: usize = 0;
        while i < n
            invariant
                n == self.traces.len(),
                i <= n,
                forall|j: int|
                    0 <= j < i ==> (#[trigger] self.traces_seq()[j]).trace_id != trace_id@,
            decreases n - i,
        {
            if str_eq(self.traces[i].trace_id().as_str(), trace_id) {
                return Some(i);
            }
            i = i + 1;
        }
        None
    }

    /// A borrowed trace, for inspection.
    pub fn trace_at(&self, i: usize) -> (r: &Trace)
        requires
            i < self.traces_seq().len(),
            self.wf(),
        ensures
            r@ == self.traces_seq()[i as int],
            r.wf(),
    {
        &self.traces[i]
    }

    /// No two registered traces share an identifier.
    pub proof fn lemma_unique_ids(&self)
        requires
            self.wf(),
        ensures
            forall|i: int, j: int|
                0 <= i < j < self.traces_seq().len() ==> (#[trigger] self.traces_seq()[i]).trace_id
                    != (#[trigger] self.traces_seq()[j]).trace_id,
    {
    }

    /// Register a trace under its identifier; a trace already registered
    /// under the same identifier is replaced, as the last step of creation.
    pub fn insert(&mut self, t: Trace)
        requires
            old(self).wf(),
            t.wf(),
        ensures
            final(self).wf(),
            forall|i: int|
                0 <= i < old(self).traces_seq().len() && (#[trigger] old(
                    self,
                ).traces_seq()[i]).trace_id == t@.trace_id ==> final(self).traces_seq() == old(
                    self,
                ).traces_seq().update(i, t@),
            (forall|i: int|
                0 <= i < old(self).traces_seq().len() ==> (#[trigger] old(
                    self,
                ).traces_seq()[i]).trace_id != t@.trace_id) ==> final(self).traces_seq() == old(
                self,
            ).traces_seq().push(t@),
    {
        let n: usize = self.traces.len();
        let mut i: usize = 0;
        while i < n
            invariant
                old(self).wf(),
                t.wf(),
                n == self.traces.len(),
                i <= n,
                *self == *old(self),
                forall|j: int|
                    0 <= j < i ==> (#[trigger] self.traces_seq()[j]).trace_id != t@.trace_id,
            decreases n - i,
        {
            if str_eq(self.traces[i].trace_id().as_str(), t.trace_id().as_str()) {
                proof {
                    assert(self.traces_seq()[i as int].trace_id == t@.trace_id);
                }
                self.traces[i] = t;
                proof {
                    let post = self.traces_seq();
                    let pre = old(self).traces_seq();
                    assert(post =~= pre.update(i as int, t@));
                    assert(post[i as int] == t@);
                    assert forall|i2: int|
                        0 <= i2 < pre.len() && (#[trigger] pre[i2]).trace_id
                            == t@.trace_id implies i2 == i as int by {
                        if i2 != i as int {
                            assert(pre[i2].trace_id != pre[i as int].trace_id);
                        }
                    }
                    assert forall|a: int, b: int|
                        0 <= a < b < post.len() implies (#[trigger] post[a]).trace_id != (
                    #[trigger] post[b]).trace_id by {
                        assert(pre[a].trace_id != pre[b].trace_id);
                        if a == i as int {
                            assert(post[a].trace_id == pre[a].trace_id);
                        }
                        if b == i as int {
                            assert(post[b].trace_id == pre[b].trace_id);
                        }
                    }
                    assert forall|a: int| 0 <= a < self.traces@.len() implies (
                    #[trigger] self.traces@[a]).wf() by {
                        if a != i as int {
                            assert(self.traces@[a] == old(self).traces@[a]);
                            assert(old(self).traces@[a].wf());
                        }
                    }
                }
                return ;
            }
            i = i + 1;
        }
        self.traces.push(t);
        proof {
            let post = self.traces_seq();
            let pre = old(self).traces_seq();
            assert(post =~= pre.push(t@));
            assert(post[pre.len() as int] == t@);
            assert forall|a: int, b: int|
                0 <= a < b < post.len() implies (#[trigger] post[a]).trace_id != (
            #[trigger] post[b]).trace_id by {
                if b == post.len() - 1 {
                    assert(post[a] == pre[a]);
                    assert(pre[a].trace_id != t@.trace_id);
                } else {
                    assert(pre[a].trace_id != pre[b].trace_id);
                }
            }
            assert forall|a: int| 0 <= a < self.traces@.len() implies (
            #[trigger] self.traces@[a]).wf() by {
                if a < old(self).traces@.len() {
                    assert(self.traces@[a] == old(self).traces@[a]);
                    assert(old(self).traces@[a].wf());
                }
            }
        }
    }
}

/// The client: hooks, client-level fields, and the registry. All adapter
/// calls go through it, resolving traces by identifier.
pub struct Client<S: Sampler, P: Presend> {
    sampler: S,
    presend: P,
    global_fields: FieldMap,
    registry: Registry,
}

impl<S: Sampler, P: Presend> Client<S, P> {
    /// The registered traces.
    pub closed spec fn traces(&self) -> Seq<TraceView> {
        self.registry.traces_seq()
    }

    /// The client-level fields every new span starts from.
    pub closed spec fn globals(&self) -> Map<Seq<char>, serde_json::Value> {
        self.global_fields@
    }

    /// The configured sampler hook.
    pub closed spec fn sampler_ref(&self) -> S {
        self.sampler
    }

    /// The configured presend hook.
    pub closed spec fn presend_ref(&self) -> P {
        self.presend
    }

    pub closed spec fn wf(&self) -> bool {
        self.registry.wf() && self.global_fields.wf()
    }

    /// No two registered traces share an identifier, so a trace id resolves
    /// to at most one registry entry.
    pub proof fn lemma_unique_trace_ids(&self)
        requires
            self.wf(),
        ensures
            forall|i: int, j: int|
                0 <= i < j < self.traces().len() ==> (#[trigger] self.traces()[i]).trace_id != (
                #[trigger] self.traces()[j]).trace_id,
    {
        self.registry.lemma_unique_ids();
    }

    /// A client with the given hooks, no traces and no fields yet.
    pub fn new(sampler: S, presend: P) -> (r: Client<S, P>)
        ensures
            r.wf(),
            r.traces() == Seq::<TraceView>::empty(),
            r.globals() == Map::<Seq<char>, serde_json::Value>::empty(),
            r.sampler_ref() == sampler,
            r.presend_ref() == presend,
    {
        Client { sampler, presend, global_fields: FieldMap::new(), registry: Registry::new() }
    }

    /// Add a client-level field: every span created after this starts with
    /// it (traces snapshot these fields at creation).
    pub fn add_field(&mut self, name: &str, value: serde_json::Value)
        requires
            old(self).wf(),
        ensures
            final(self).wf(),
            final(self).globals() == old(self).globals().insert(name@, value),
            final(self).traces() == old(self).traces(),
            final(self).sampler_ref() == old(self).sampler_ref(),
            final(self).presend_ref() == old(self).presend_ref(),
    {
        self.global_fields.insert(name, value);
    }

    /// Start a new trace, optionally continuing from a serialized header,
    /// and register it; returns its identifier. A header that does not
    /// decode is dropped and the trace starts fresh, unrelated to anything
    /// upstream. A continuation without a trace id still gets a fresh one.
    #[verifier::rlimit(50)]
    pub fn new_trace(&mut self, serialized_headers: Option<&str>) -> (r: String)
        requires
            old(self).wf(),
        ensures
            final(self).wf(),
            final(self).globals() == old(self).globals(),
            final(self).sampler_ref() == old(self).sampler_ref(),
            final(self).presend_ref() == old(self).presend_ref(),
            r@.len() > 0,
            seed_of(hdr_view(serialized_headers)).0.len() > 0 ==> r@ == seed_of(
                hdr_view(serialized_headers),
            ).0,
            exists|i: int|
                0 <= i < final(self).traces().len() && #[trigger] new_trace_at(
                    final(self).traces(),
                    i,
                    r@,
                    seed_of(hdr_view(serialized_headers)),
                    old(self).globals(),
                ),
            (forall|j: int|
                0 <= j < old(self).traces().len() ==> (#[trigger] old(self).traces()[j]).trace_id
                    != r@) ==> final(self).traces() == old(self).traces().push(
                final(self).traces()[old(self).traces().len() as int],
            ) && new_trace_at(
                final(self).traces(),
                old(self).traces().len() as int,
                r@,
                seed_of(hdr_view(serialized_headers)),
                old(self).globals(),
            ),
            forall|i: int|
                0 <= i < old(self).traces().len() && (#[trigger] old(self).traces()[i]).trace_id
                    == r@ ==> final(self).traces() == old(self).traces().update(
                    i,
                    final(self).traces()[i],
                ) && new_trace_at(
                    final(self).traces(),
                    i,
                    r@,
                    seed_of(hdr_view(serialized_headers)),
                    old(self).globals(),
                ),
    {
        let ghost seed = seed_of(hdr_view(serialized_headers));
        let mut tid = String::new();
        let mut pid = String::new();
        let mut ds = String::new();
        let mut seed_fields = FieldMap::new();
        match serialized_headers {
            None => {},
            Some(h) => {
                match Propagation::unmarshal_trace_context(h) {
                    Err(_) => {},
                    Ok(p) => {
                        tid = p.trace_id;
                        pid = p.parent_id;
                        ds = p.dataset;
                        match json_object_entries(&p.trace_context) {
                            None => {},
                            Some(es) => {
                                seed_fields = FieldMap::from_entries(&es);
                            },
                        }
                    },
                }
            },
        }
        proof {
            assert(tid@ == seed.0 && pid@ == seed.1 && ds@ == seed.2 && seed_fields@ == seed.3);
            assert(seed_fields.wf());
        }
        if tid.as_str().is_empty() {
            tid = generate_id();
        }
        let rid = tid.clone();
        let t = Trace::make(tid, pid, ds, seed_fields, self.global_fields.duplicate());
        proof {
            t.lemma_wf_view();
        }
        let ghost tv = t@;
        let ghost pre = self.registry.traces_seq();
        self.registry.insert(t);
        proof {
            assert(pre == old(self).traces());
            assert(tv.trace_id == rid@);
            if exists|i: int| 0 <= i < pre.len() && (#[trigger] pre[i]).trace_id == rid@ {
                let i = choose|i: int| 0 <= i < pre.len() && (#[trigger] pre[i]).trace_id == rid@;
                assert(self.registry.traces_seq() == pre.update(i, tv));
                assert(self.traces()[i] == tv);
                assert(new_trace_at(self.traces(), i, rid@, seed, old(self).globals()));
                assert forall|i2: int|
                    0 <= i2 < pre.len() && (#[trigger] pre[i2]).trace_id == rid@ implies i2
                    == i by {
                    if i2 != i {
                        assert(pre[i2].trace_id != pre[i].trace_id);
                    }
                }
            } else {
                assert(self.registry.traces_seq() == pre.push(tv));
                assert(self.traces()[pre.len() as int] == tv);
                assert(new_trace_at(self.traces(), pre.len() as int, rid@, seed, old(
                    self,
                ).globals()));
            }
        }
        rid
    }

    /// Resolve a trace by identifier; `None` when it is not registered.
    pub fn get_trace(&self, trace_id: &str) -> (r: Option<&Trace>)
        requires
            self.wf(),
        ensures
            match r {
                Some(t) => t@.trace_id == trace_id@ && t.wf() && exists|i: int|
                    0 <= i < self.traces().len() && #[trigger] self.traces()[i] == t@,
                None => forall|j: int|
                    0 <= j < self.traces().len() ==> (#[trigger] self.traces()[j]).trace_id
                        != trace_id@,
            },
    {
        match self.registry.lookup_index(trace_id) {
            None => None,
            Some(i) => {
                let tr = self.registry.trace_at(i);
                proof {
                    assert(self.traces()[i as int] == tr@);
                }
                Some(tr)
            },
        }
    }

    /// Add or overwrite a trace-level field; false when the trace is not
    /// registered.
    pub fn trace_add_field(&mut self, trace_id: &str, key: &str, value: serde_json::Value) -> (r:
        bool)
        requires
            old(self).wf(),
        ensures
            final(self).wf(),
            final(self).globals() == old(self).globals(),
            final(self).sampler_ref() == old(self).sampler_ref(),
            final(self).presend_ref() == old(self).presend_ref(),
            r == exists|i: int|
                0 <= i < old(self).traces().len() && (#[trigger] old(self).traces()[i]).trace_id
                    == trace_id@,
            !r ==> final(self).traces() == old(self).traces(),
            r ==> exists|i: int|
                0 <= i < old(self).traces().len() && (#[trigger] old(self).traces()[i]).trace_id
                    == trace_id@ && final(self).traces() == old(self).traces().update(
                    i,
                    TraceView {
                        fields: old(self).traces()[i].fields.insert(key@, value),
                        ..old(self).traces()[i]
                    },
                ),
    {
        match self.registry.lookup_index(trace_id) {
            None => false,
            Some(i) => {
                let ghost pre = self.registry.traces_seq();
                let tr = &mut self.registry.traces[i];
                tr.add_field(key, value);
                proof {
                    assert(self.registry.traces_seq() =~= pre.update(
                        i as int,
                        self.registry.traces_seq()[i as int],
                    ));
                    assert(old(self).traces() == pre);
                    assert(old(self).traces()[i as int] == pre[i as int]);
                    assert(self.traces() =~= old(self).traces().update(
                        i as int,
                        self.traces()[i as int],
                    ));
                    assert(self.registry.wf()) by {
                        assert forall|a: int, b: int|
                            0 <= a < b < self.registry.traces_seq().len() implies (
                        #[trigger] self.registry.traces_seq()[a]).trace_id != (
                        #[trigger] self.registry.traces_seq()[b]).trace_id by {
                            assert(self.registry.traces_seq()[a].trace_id == pre[a].trace_id);
                            assert(self.registry.traces_seq()[b].trace_id == pre[b].trace_id);
                        }
                    }
                }
                true
            },
        }
    }

    /// Add a rollup contribution, in micro-units, to a trace's running sum;
    /// false when the trace is not registered.
    pub fn trace_add_rollup_field(&mut self, trace_id: &str, key: &str, delta_micros: i64) -> (r:
        bool)
        requires
            old(self).wf(),
        ensures
            final(self).wf(),
            final(self).globals() == old(self).globals(),
            final(self).sampler_ref() == old(self).sampler_ref(),
            final(self).presend_ref() == old(self).presend_ref(),
            r == exists|i: int|
                0 <= i < old(self).traces().len() && (#[trigger] old(self).traces()[i]).trace_id
                    == trace_id@,
            !r ==> final(self).traces() == old(self).traces(),
            r ==> exists|i: int|
                0 <= i < old(self).traces().len() && (#[trigger] old(self).traces()[i]).trace_id
                    == trace_id@ && final(self).traces() == old(self).traces().update(
                    i,
                    TraceView {
                        rollups: old(self).traces()[i].rollups.insert(
                            key@,
                            crate::fields::sat_add_i64(
                                if old(self).traces()[i].rollups.dom().contains(key@) {
                                    old(self).traces()[i].rollups[key@] as int
                                } else {
                                    0
                                },
                                delta_micros as int,
                            ),
                        ),
                        ..old(self).traces()[i]
                    },
                ),
    {
        match self.registry.lookup_index(trace_id) {
            None => false,
            Some(i) => {
                let ghost pre = self.registry.traces_seq();
                let tr = &mut self.registry.traces[i];
                tr.add_rollup_field(key, delta_micros);
                proof {
                    assert(self.registry.traces_seq() =~= pre.update(
                        i as int,
                        self.registry.traces_seq()[i as int],
                    ));
                    assert(old(self).traces() == pre);
                    assert(old(self).traces()[i as int] == pre[i as int]);
                    assert(self.traces() =~= old(self).traces().update(
                        i as int,
                        self.traces()[i as int],
                    ));
                    assert(self.registry.wf()) by {
                        assert forall|a: int, b: int|
                            0 <= a < b < self.registry.traces_seq().len() implies (
                        #[trigger] self.registry.traces_seq()[a]).trace_id != (
                        #[trigger] self.registry.traces_seq()[b]).trace_id by {
                            assert(self.registry.traces_seq()[a].trace_id == pre[a].trace_id);
                            assert(self.registry.traces_seq()[b].trace_id == pre[b].trace_id);
                        }
                    }
                }
                true
            },
        }
    }

    /// Create a synchronous child under `parent` in the given trace. `None`
    /// when the trace cannot be resolved or the parent handle is invalid.
    pub fn create_child(&mut self, trace_id: &str, parent: usize) -> (r: Option<usize>)
        requires
            old(self).wf(),
        ensures
            final(self).wf(),
            final(self).globals() == old(self).globals(),
            final(self).sampler_ref() == old(self).sampler_ref(),
            final(self).presend_ref() == old(self).presend_ref(),
            (r is Some) == exists|i: int|
                0 <= i < old(self).traces().len() && (#[trigger] old(self).traces()[i]).trace_id
                    == trace_id@ && parent < old(self).traces()[i].spans.len(),
            match r {
                None => final(self).traces() == old(self).traces(),
                Some(h) => exists|i: int|
                    0 <= i < old(self).traces().len() && (#[trigger] old(self).traces()[i]).trace_id == trace_id@ && parent < old(self).traces()[i].spans.len() && child_created(
                        old(self).traces()[i],
                        final(self).traces()[i],
                        parent as int,
                        h as int,
                        false,
                    ) && final(self).traces() == old(self).traces().update(
                        i,
                        final(self).traces()[i],
                    ),
            },
    {
        self.create_child_span(trace_id, parent, false)
    }

    /// Create an asynchronous child under `parent` in the given trace: it is
    /// not sent when its parent is, and must be sent on its own. `None` when
    /// the trace cannot be resolved or the parent handle is invalid.
    pub fn create_async_child(&mut self, trace_id: &str, parent: usize) -> (r: Option<usize>)
        requires
            old(self).wf(),
        ensures
            final(self).wf(),
            final(self).globals() == old(self).globals(),
            final(self).sampler_ref() == old(self).sampler_ref(),
            final(self).presend_ref() == old(self).presend_ref(),
            (r is Some) == exists|i: int|
                0 <= i < old(self).traces().len() && (#[trigger] old(self).traces()[i]).trace_id
                    == trace_id@ && parent < old(self).traces()[i].spans.len(),
            match r {
                None => final(self).traces() == old(self).traces(),
                Some(h) => exists|i: int|
                    0 <= i < old(self).traces().len() && (#[trigger] old(self).traces()[i]).trace_id == trace_id@ && parent < old(self).traces()[i].spans.len() && child_created(
                        old(self).traces()[i],
                        final(self).traces()[i],
                        parent as int,
                        h as int,
                        true,
                    ) && final(self).traces() == old(self).traces().update(
                        i,
                        final(self).traces()[i],
                    ),
            },
    {
        self.create_child_span(trace_id, parent, true)
    }

    fn create_child_span(&mut self, trace_id: &str, parent: usize, is_async: bool) -> (r: Option<
        usize,
    >)
        requires
            old(self).wf(),
        ensures
            final(self).wf(),
            final(self).globals() == old(self).globals(),
            final(self).sampler_ref() == old(self).sampler_ref(),
            final(self).presend_ref() == old(self).presend_ref(),
            (r is Some) == exists|i: int|
                0 <= i < old(self).traces().len() && (#[trigger] old(self).traces()[i]).trace_id
                    == trace_id@ && parent < old(self).traces()[i].spans.len(),
            match r {
                None => final(self).traces() == old(self).traces(),
                Some(h) => exists|i: int|
                    0 <= i < old(self).traces().len() && (#[trigger] old(self).traces()[i]).trace_id == trace_id@ && parent < old(self).traces()[i].spans.len() && child_created(
                        old(self).traces()[i],
                        final(self).traces()[i],
                        parent as int,
                        h as int,
                        is_async,
                    ) && final(self).traces() == old(self).traces().update(
                        i,
                        final(self).traces()[i],
                    ),
            },
    {
        match self.registry.lookup_index(trace_id) {
            None => None,
            Some(i) => {
                let ghost pre = self.registry.traces_seq();
                if parent >= self.registry.traces[i].span_count() {
                proof {
                    assert forall|i2: int|
                        0 <= i2 < old(self).traces().len() && (#[trigger] old(
                            self,
                        ).traces()[i2]).trace_id == trace_id@ implies i2 == i as int by {
                        if i2 != i as int {
                            assert(old(self).traces()[i2].trace_id != old(self).traces()[
                                i as int
                            ].trace_id);
                        }
                    }
                }
                    return None;
                }
                proof {
                    assert(old(self).traces()[i as int].trace_id == trace_id@);
                    assert(parent < old(self).traces()[i as int].spans.len());
                }
                let tr = &mut self.registry.traces[i];
                let h = tr.create_child_span(parent, is_async);
                proof {
                    assert(self.registry.traces_seq() =~= pre.update(
                        i as int,
                        self.registry.traces_seq()[i as int],
                    ));
                    assert(old(self).traces() == pre);
                    assert(old(self).traces()[i as int] == pre[i as int]);
                    assert(self.traces() =~= old(self).traces().update(
                        i as int,
                        self.traces()[i as int],
                    ));
                    assert(self.registry.wf()) by {
                        assert forall|a: int, b: int|
                            0 <= a < b < self.registry.traces_seq().len() implies (
                        #[trigger] self.registry.traces_seq()[a]).trace_id != (
                        #[trigger] self.registry.traces_seq()[b]).trace_id by {
                            assert(self.registry.traces_seq()[a].trace_id == pre[a].trace_id);
                            assert(self.registry.traces_seq()[b].trace_id == pre[b].trace_id);
                        }
                    }
                }
                Some(h)
            },
        }
    }

    /// Add or overwrite a field on a span; false, with nothing changed, when
    /// the trace is unknown, the handle invalid, or the span already sent.
    pub fn span_add_field(
        &mut self,
        trace_id: &str,
        span: usize,
        key: &str,
        value: serde_json::Value,
    ) -> (r: bool)
        requires
            old(self).wf(),
        ensures
            final(self).wf(),
            final(self).globals() == old(self).globals(),
            final(self).sampler_ref() == old(self).sampler_ref(),
            final(self).presend_ref() == old(self).presend_ref(),
            r == exists|i: int|
                0 <= i < old(self).traces().len() && (#[trigger] old(self).traces()[i]).trace_id
                    == trace_id@ && span < old(self).traces()[i].spans.len() && !old(
                    self,
                ).traces()[i].spans[span as int].is_sent,
            !r ==> final(self).traces() == old(self).traces(),
            r ==> exists|i: int|
                0 <= i < old(self).traces().len() && (#[trigger] old(self).traces()[i]).trace_id
                    == trace_id@ && span < old(self).traces()[i].spans.len() && !old(self).traces()[i].spans[span as int].is_sent && final(self).traces() == old(self).traces().update(
                    i,
                    TraceView {
                        spans: old(self).traces()[i].spans.update(
                            span as int,
                            crate::trace::SpanView {
                                fields: old(self).traces()[i].spans[span as int].fields.insert(
                                    key@,
                                    value,
                                ),
                                ..old(self).traces()[i].spans[span as int]
                            },
                        ),
                        ..old(self).traces()[i]
                    },
                ),
    {
        match self.registry.lookup_index(trace_id) {
            None => false,
            Some(i) => {
                let ghost pre = self.registry.traces_seq();
                proof {
                    assert forall|i2: int|
                        0 <= i2 < old(self).traces().len() && (#[trigger] old(
                            self,
                        ).traces()[i2]).trace_id == trace_id@ implies i2 == i as int by {
                        if i2 != i as int {
                            assert(old(self).traces()[i2].trace_id != old(self).traces()[
                                i as int
                            ].trace_id);
                        }
                    }
                }
                let tr = &mut self.registry.traces[i];
                let ok = tr.span_add_field(span, key, value);
                proof {
                    assert(self.registry.traces_seq() =~= pre.update(
                        i as int,
                        self.registry.traces_seq()[i as int],
                    ));
                    assert(old(self).traces() == pre);
                    assert(old(self).traces()[i as int] == pre[i as int]);
                    assert(self.traces() =~= old(self).traces().update(
                        i as int,
                        self.traces()[i as int],
                    ));
                    assert(self.registry.wf()) by {
                        assert forall|a: int, b: int|
                            0 <= a < b < self.registry.traces_seq().len() implies (
                        #[trigger] self.registry.traces_seq()[a]).trace_id != (
                        #[trigger] self.registry.traces_seq()[b]).trace_id by {
                            assert(self.registry.traces_seq()[a].trace_id == pre[a].trace_id);
                            assert(self.registry.traces_seq()[b].trace_id == pre[b].trace_id);
                        }
                    }
                    if !ok {
                        assert(self.registry.traces_seq() =~= pre);
                    }
                }
                ok
            },
        }
    }

    /// Add a rollup contribution to a span's own accumulator; false, with
    /// nothing changed, when the trace is unknown, the handle invalid, or
    /// the span already sent.
    pub fn span_add_rollup_field(
        &mut self,
        trace_id: &str,
        span: usize,
        key: &str,
        delta_micros: i64,
    ) -> (r: bool)
        requires
            old(self).wf(),
        ensures
            final(self).wf(),
            final(self).globals() == old(self).globals(),
            final(self).sampler_ref() == old(self).sampler_ref(),
            final(self).presend_ref() == old(self).presend_ref(),
            r == exists|i: int|
                0 <= i < old(self).traces().len() && (#[trigger] old(self).traces()[i]).trace_id
                    == trace_id@ && span < old(self).traces()[i].spans.len() && !old(
                    self,
                ).traces()[i].spans[span as int].is_sent,
            !r ==> final(self).traces() == old(self).traces(),
            r ==> exists|i: int|
                0 <= i < old(self).traces().len() && (#[trigger] old(self).traces()[i]).trace_id
                    == trace_id@ && span < old(self).traces()[i].spans.len() && !old(
                    self,
                ).traces()[i].spans[span as int].is_sent && final(self).traces() == old(
                    self,
                ).traces().update(
                    i,
                    TraceView {
                        spans: old(self).traces()[i].spans.update(
                            span as int,
                            crate::trace::SpanView {
                                rollups: old(self).traces()[i].spans[span as int].rollups.insert(
                                    key@,
                                    crate::fields::sat_add_i64(
                                        if old(self).traces()[i].spans[
                                            span as int
                                        ].rollups.dom().contains(key@) {
                                            old(self).traces()[i].spans[span as int].rollups[key@]
                                                as int
                                        } else {
                                            0
                                        },
                                        delta_micros as int,
                                    ),
                                ),
                                ..old(self).traces()[i].spans[span as int]
                            },
                        ),
                        ..old(self).traces()[i]
                    },
                ),
    {
        match self.registry.lookup_index(trace_id) {
            None => false,
            Some(i) => {
                let ghost pre = self.registry.traces_seq();
                proof {
                    assert forall|i2: int|
                        0 <= i2 < old(self).traces().len() && (#[trigger] old(
                            self,
                        ).traces()[i2]).trace_id == trace_id@ implies i2 == i as int by {
                        if i2 != i as int {
                            assert(old(self).traces()[i2].trace_id != old(self).traces()[
                                i as int
                            ].trace_id);
                        }
                    }
                }
                let tr = &mut self.registry.traces[i];
                let ok = tr.span_add_rollup_field(span, key, delta_micros);
                proof {
                    assert(self.registry.traces_seq() =~= pre.update(
                        i as int,
                        self.registry.traces_seq()[i as int],
                    ));
                    assert(old(self).traces() == pre);
                    assert(old(self).traces()[i as int] == pre[i as int]);
                    assert(self.traces() =~= old(self).traces().update(
                        i as int,
                        self.traces()[i as int],
                    ));
                    assert(self.registry.wf()) by {
                        assert forall|a: int, b: int|
                            0 <= a < b < self.registry.traces_seq().len() implies (
                        #[trigger] self.registry.traces_seq()[a]).trace_id != (
                        #[trigger] self.registry.traces_seq()[b]).trace_id by {
                            assert(self.registry.traces_seq()[a].trace_id == pre[a].trace_id);
                            assert(self.registry.traces_seq()[b].trace_id == pre[b].trace_id);
                        }
                    }
                    if !ok {
                        assert(self.registry.traces_seq() =~= pre);
                    }
                }
                ok
            },
        }
    }

    /// Drop a finished span's bookkeeping entry from its trace; a no-op when
    /// the trace is not registered.
    pub fn remove_child_span_from_trace(&mut self, trace_id: &str, span_id: &str)
        requires
            old(self).wf(),
        ensures
            final(self).wf(),
            final(self).globals() == old(self).globals(),
            final(self).sampler_ref() == old(self).sampler_ref(),
            final(self).presend_ref() == old(self).presend_ref(),
            (forall|j: int|
                0 <= j < old(self).traces().len() ==> (#[trigger] old(self).traces()[j]).trace_id
                    != trace_id@) ==> final(self).traces() == old(self).traces(),
            forall|i: int|
                0 <= i < old(self).traces().len() && (#[trigger] old(self).traces()[i]).trace_id
                    == trace_id@ ==> final(self).traces() == old(self).traces().update(
                    i,
                    TraceView {
                        child_index: old(self).traces()[i].child_index.remove(span_id@),
                        ..old(self).traces()[i]
                    },
                ),
    {
        match self.registry.lookup_index(trace_id) {
            None => {},
            Some(i) => {
                let ghost pre = self.registry.traces_seq();
                let tr = &mut self.registry.traces[i];
                tr.remove_child_span(span_id);
                proof {
                    assert(self.registry.traces_seq() =~= pre.update(
                        i as int,
                        self.registry.traces_seq()[i as int],
                    ));
                    assert(old(self).traces() == pre);
                    assert(old(self).traces()[i as int] == pre[i as int]);
                    assert(self.traces() =~= old(self).traces().update(
                        i as int,
                        self.traces()[i as int],
                    ));
                    assert(self.registry.wf()) by {
                        assert forall|a: int, b: int|
                            0 <= a < b < self.registry.traces_seq().len() implies (
                        #[trigger] self.registry.traces_seq()[a]).trace_id != (
                        #[trigger] self.registry.traces_seq()[b]).trace_id by {
                            assert(self.registry.traces_seq()[a].trace_id == pre[a].trace_id);
                            assert(self.registry.traces_seq()[b].trace_id == pre[b].trace_id);
                        }
                    }
                }
            },
        }
    }

    /// Send one span (and, with it, its synchronous unsent subtree) of the
    /// given trace. Returns false, with nothing changed and nothing
    /// transmitted, when the trace is unknown or the handle invalid; sending
    /// an already-sent span is a no-op.
    pub fn send_span<E: Emitter>(&mut self, trace_id: &str, span: usize, em: &mut E) -> (r: bool)
        requires
            old(self).wf(),
        ensures
            final(self).wf(),
            final(self).globals() == old(self).globals(),
            final(self).sampler_ref() == old(self).sampler_ref(),
            final(self).presend_ref() == old(self).presend_ref(),
            r == exists|i: int|
                0 <= i < old(self).traces().len() && (#[trigger] old(self).traces()[i]).trace_id
                    == trace_id@ && span < old(self).traces()[i].spans.len(),
            !r ==> final(self).traces() == old(self).traces() && final(em).log() == old(em).log(),
            r ==> exists|i: int|
                0 <= i < old(self).traces().len() && (#[trigger] old(self).traces()[i]).trace_id
                    == trace_id@ && span < old(self).traces()[i].spans.len() && send_transition(
                    old(self).sampler_ref(),
                    old(self).presend_ref(),
                    old(self).traces()[i],
                    final(self).traces()[i],
                    span as int,
                    old(em).log(),
                    final(em).log(),
                ) && final(self).traces() == old(self).traces().update(
                    i,
                    final(self).traces()[i],
                ),
    {
        match self.registry.lookup_index(trace_id) {
            None => false,
            Some(i) => {
                let ghost pre = self.registry.traces_seq();
                if span >= self.registry.traces[i].span_count() {
                proof {
                    assert forall|i2: int|
                        0 <= i2 < old(self).traces().len() && (#[trigger] old(
                            self,
                        ).traces()[i2]).trace_id == trace_id@ implies i2 == i as int by {
                        if i2 != i as int {
                            assert(old(self).traces()[i2].trace_id != old(self).traces()[
                                i as int
                            ].trace_id);
                        }
                    }
                }
                    return false;
                }
                proof {
                    assert(old(self).traces()[i as int].trace_id == trace_id@);
                    assert(span < old(self).traces()[i as int].spans.len());
                }
                let tr = &mut self.registry.traces[i];
                tr.send_span(span, &self.sampler, &self.presend, em);
                proof {
                    assert(self.registry.traces_seq() =~= pre.update(
                        i as int,
                        self.registry.traces_seq()[i as int],
                    ));
                    assert(old(self).traces() == pre);
                    assert(old(self).traces()[i as int] == pre[i as int]);
                    assert(self.traces() =~= old(self).traces().update(
                        i as int,
                        self.traces()[i as int],
                    ));
                    assert(self.registry.wf()) by {
                        assert forall|a: int, b: int|
                            0 <= a < b < self.registry.traces_seq().len() implies (
                        #[trigger] self.registry.traces_seq()[a]).trace_id != (
                        #[trigger] self.registry.traces_seq()[b]).trace_id by {
                            assert(self.registry.traces_seq()[a].trace_id == pre[a].trace_id);
                            assert(self.registry.traces_seq()[b].trace_id == pre[b].trace_id);
                        }
                    }
                }
                true
            },
        }
    }

    /// Send a whole trace: run the send protocol on its root span, which
    /// finalizes and transmits every synchronous unsent span of the trace.
    /// Returns false, with nothing changed, when the trace is unknown.
    pub fn send_trace<E: Emitter>(&mut self, trace_id: &str, em: &mut E) -> (r: bool)
        requires
            old(self).wf(),
        ensures
            final(self).wf(),
            final(self).globals() == old(self).globals(),
            final(self).sampler_ref() == old(self).sampler_ref(),
            final(self).presend_ref() == old(self).presend_ref(),
            r == exists|i: int|
                0 <= i < old(self).traces().len() && (#[trigger] old(self).traces()[i]).trace_id
                    == trace_id@,
            !r ==> final(self).traces() == old(self).traces() && final(em).log() == old(em).log(),
            r ==> exists|i: int|
                0 <= i < old(self).traces().len() && (#[trigger] old(self).traces()[i]).trace_id
                    == trace_id@ && send_transition(
                    old(self).sampler_ref(),
                    old(self).presend_ref(),
                    old(self).traces()[i],
                    final(self).traces()[i],
                    0,
                    old(em).log(),
                    final(em).log(),
                ) && final(self).traces() == old(self).traces().update(
                    i,
                    final(self).traces()[i],
                ),
    {
        match self.registry.lookup_index(trace_id) {
            None => false,
            Some(i) => {
                let ghost pre = self.registry.traces_seq();
                let tr = &mut self.registry.traces[i];
                tr.send(&self.sampler, &self.presend, em);
                proof {
                    assert(self.registry.traces_seq() =~= pre.update(
                        i as int,
                        self.registry.traces_seq()[i as int],
                    ));
                    assert(old(self).traces() == pre);
                    assert(old(self).traces()[i as int] == pre[i as int]);
                    assert(self.traces() =~= old(self).traces().update(
                        i as int,
                        self.traces()[i as int],
                    ));
                    assert(self.registry.wf()) by {
                        assert forall|a: int, b: int|
                            0 <= a < b < self.registry.traces_seq().len() implies (
                        #[trigger] self.registry.traces_seq()[a]).trace_id != (
                        #[trigger] self.registry.traces_seq()[b]).trace_id by {
                            assert(self.registry.traces_seq()[a].trace_id == pre[a].trace_id);
                            assert(self.registry.traces_seq()[b].trace_id == pre[b].trace_id);
                        }
                    }
                }
                true
            },
        }
    }

    /// Serialize a trace's continuation for an outbound call, with the given
    /// span as the new parent. An unknown trace or invalid handle yields the
    /// empty string.
    pub fn serialize_headers(&self, trace_id: &str, span: usize) -> (r: String)
        requires
            self.wf(),
        ensures
            (forall|j: int|
                0 <= j < self.traces().len() ==> (#[trigger] self.traces()[j]).trace_id
                    != trace_id@) ==> r@.len() == 0,
            forall|i: int|
                0 <= i < self.traces().len() && (#[trigger] self.traces()[i]).trace_id == trace_id@
                    && span < self.traces()[i].spans.len() ==> r@ == encoded_header(
                    self.traces()[i].trace_id,
                    self.traces()[i].spans[span as int].span_id,
                    self.traces()[i].dataset,
                    json_object_of(self.traces()[i].fields),
                ),
            forall|i: int|
                0 <= i < self.traces().len() && (#[trigger] self.traces()[i]).trace_id == trace_id@
                    && span >= self.traces()[i].spans.len() ==> r@.len() == 0,
    {
        match self.registry.lookup_index(trace_id) {
            None => String::new(),
            Some(i) => {
                let tr = self.registry.trace_at(i);
                if span >= tr.span_count() {
                    return String::new();
                }
                let sid = tr.get_span(span).span_id().clone();
                let r = tr.serialize_headers(sid.as_str());
                proof {
                    assert forall|j: int|
                        0 <= j < self.traces().len() && (#[trigger] self.traces()[j]).trace_id
                            == trace_id@ implies j == i as int by {
                        if j != i as int {
                            assert(self.traces()[j].trace_id != self.traces()[i as int].trace_id);
                        }
                    }
                }
                r
            },
        }
    }
}

} // verus!
