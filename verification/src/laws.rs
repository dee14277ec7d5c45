//! Laws of the send protocol and the rollup accumulator, stated once over
//! the transition relation and proved for every trace, sampler and presend
//! hook the contracts admit.

use vstd::prelude::*;

use crate::fields::{rollup_key, sat_add_i64};
use crate::hooks::{Presend, Sampler};
use crate::json::{json_of_decimal, json_of_str};
use crate::numfmt::micros_dec_of;
use crate::trace::{
    assembled_fields, event_for, events_for, keep_child, po, po_kids, send_transition,
    span_type_of, stamped_fields, wf_children, TraceView,
};

verus! {

/// A span's send is idempotent: sending an already-sent span transmits no
/// event and leaves the trace exactly as it was.
pub proof fn lemma_send_idempotent<S: Sampler, P: Presend>(
    smp: S,
    prs: P,
    t0: TraceView,
    t1: TraceView,
    idx: int,
    log0: Seq<crate::emitter::EventView>,
    log1: Seq<crate::emitter::EventView>,
)
    requires
        0 <= idx < t0.spans.len(),
        t0.spans[idx].is_sent,
        send_transition(smp, prs, t0, t1, idx, log0, log1),
    ensures
        t1 == t0,
        log1 == log0,
{
}

proof fn lemma_events_for_dropped<S: Sampler, P: Presend>(
    smp: S,
    prs: P,
    t: TraceView,
    order: Seq<int>,
    durs: Seq<u64>,
    bps: Seq<bool>,
)
    requires
        forall|f: Map<Seq<char>, serde_json::Value>| !(#[trigger] smp.decision(f)).0,
    ensures
        events_for(smp, prs, t, order, durs, bps).len() == 0,
    decreases order.len(),
{
    if order.len() > 0 {
        lemma_events_for_dropped(
            smp,
            prs,
            t,
            order.drop_first(),
            durs.drop_first(),
            bps.drop_first(),
        );
    }
}

/// A sampler that keeps nothing results in zero transmitted events for the
/// whole send, whatever the spans' fields hold.
pub proof fn lemma_sampler_drops_all<S: Sampler, P: Presend>(
    smp: S,
    prs: P,
    t0: TraceView,
    t1: TraceView,
    idx: int,
    log0: Seq<crate::emitter::EventView>,
    log1: Seq<crate::emitter::EventView>,
)
    requires
        0 <= idx < t0.spans.len(),
        send_transition(smp, prs, t0, t1, idx, log0, log1),
        forall|f: Map<Seq<char>, serde_json::Value>| !(#[trigger] smp.decision(f)).0,
    ensures
        log1 == log0,
{
    if !t0.spans[idx].is_sent {
        let order = po(t0.spans, idx);
        let durs = choose|durs: Seq<u64>|
            durs.len() == order.len() && log1 == log0 + #[trigger] events_for(
                smp,
                prs,
                t0,
                order,
                durs,
                crate::trace::bps_for(order.len() as int),
            );
        lemma_events_for_dropped(
            smp,
            prs,
            t0,
            order,
            durs,
            crate::trace::bps_for(order.len() as int),
        );
        assert(log0 + events_for(
            smp,
            prs,
            t0,
            order,
            durs,
            crate::trace::bps_for(order.len() as int),
        ) =~= log0);
    }
}

proof fn lemma_events_for_cleared<S: Sampler, P: Presend>(
    smp: S,
    prs: P,
    t: TraceView,
    order: Seq<int>,
    durs: Seq<u64>,
    bps: Seq<bool>,
)
    requires
        forall|f: Map<Seq<char>, serde_json::Value>| #[trigger] prs.transform(f) == Map::<
            Seq<char>,
            serde_json::Value,
        >::empty(),
    ensures
        forall|k: int|
            0 <= k < events_for(smp, prs, t, order, durs, bps).len() ==> (#[trigger] events_for(
                smp,
                prs,
                t,
                order,
                durs,
                bps,
            )[k]).fields == Map::<Seq<char>, serde_json::Value>::empty(),
    decreases order.len(),
{
    if order.len() > 0 {
        lemma_events_for_cleared(
            smp,
            prs,
            t,
            order.drop_first(),
            durs.drop_first(),
            bps.drop_first(),
        );
        let head = event_for(smp, prs, t, order[0], durs[0], bps[0]);
        let tail = events_for(smp, prs, t, order.drop_first(), durs.drop_first(), bps.drop_first());
        assert forall|k: int|
            0 <= k < events_for(smp, prs, t, order, durs, bps).len() implies (
        #[trigger] events_for(smp, prs, t, order, durs, bps)[k]).fields == Map::<
            Seq<char>,
            serde_json::Value,
        >::empty() by {
            if k < head.len() {
                assert(events_for(smp, prs, t, order, durs, bps)[k] == head[k]);
            } else {
                assert(events_for(smp, prs, t, order, durs, bps)[k] == tail[k - head.len()]);
            }
        }
    }
}

/// A presend hook that clears every field is observed in what is
/// transmitted: every event of the send carries an empty field set.
pub proof fn lemma_presend_clear_observed<S: Sampler, P: Presend>(
    smp: S,
    prs: P,
    t0: TraceView,
    t1: TraceView,
    idx: int,
    log0: Seq<crate::emitter::EventView>,
    log1: Seq<crate::emitter::EventView>,
)
    requires
        0 <= idx < t0.spans.len(),
        send_transition(smp, prs, t0, t1, idx, log0, log1),
        forall|f: Map<Seq<char>, serde_json::Value>| #[trigger] prs.transform(f) == Map::<
            Seq<char>,
            serde_json::Value,
        >::empty(),
    ensures
        log1.len() >= log0.len(),
        forall|k: int| 0 <= k < log0.len() ==> #[trigger] log1[k] == log0[k],
        forall|k: int|
            log0.len() <= k < log1.len() ==> (#[trigger] log1[k]).fields == Map::<
                Seq<char>,
                serde_json::Value,
            >::empty(),
{
    if !t0.spans[idx].is_sent {
        let order = po(t0.spans, idx);
        let durs = choose|durs: Seq<u64>|
            durs.len() == order.len() && log1 == log0 + #[trigger] events_for(
                smp,
                prs,
                t0,
                order,
                durs,
                crate::trace::bps_for(order.len() as int),
            );
        lemma_events_for_cleared(
            smp,
            prs,
            t0,
            order,
            durs,
            crate::trace::bps_for(order.len() as int),
        );
    }
}

proof fn lemma_events_for_kept_len<S: Sampler, P: Presend>(
    smp: S,
    prs: P,
    t: TraceView,
    order: Seq<int>,
    durs: Seq<u64>,
    bps: Seq<bool>,
)
    requires
        order.len() == durs.len(),
        order.len() == bps.len(),
        forall|f: Map<Seq<char>, serde_json::Value>| (#[trigger] smp.decision(f)).0,
    ensures
        events_for(smp, prs, t, order, durs, bps).len() == order.len(),
    decreases order.len(),
{
    if order.len() > 0 {
        lemma_events_for_kept_len(
            smp,
            prs,
            t,
            order.drop_first(),
            durs.drop_first(),
            bps.drop_first(),
        );
    }
}

/// How many of the listed children the protocol follows: the synchronous
/// unsent ones.
pub open spec fn count_kept(spans: Seq<crate::trace::SpanView>, cs: Seq<int>) -> int
    decreases cs.len(),
{
    if cs.len() == 0 {
        0
    } else {
        (if keep_child(spans, cs[0]) {
            1int
        } else {
            0int
        }) + count_kept(spans, cs.drop_first())
    }
}

proof fn lemma_po_kids_leaves(spans: Seq<crate::trace::SpanView>, i: int, k: int)
    requires
        wf_children(spans),
        0 <= i < spans.len(),
        0 <= k <= spans[i].children.len(),
        forall|k2: int|
            0 <= k2 < spans[i].children.len() ==> (#[trigger] spans[spans[i].children[k2]]).children
                =~= Seq::<int>::empty(),
    ensures
        po_kids(spans, i, k).len() == count_kept(spans, spans[i].children.skip(k)),
        forall|m: int|
            0 <= m < po_kids(spans, i, k).len() ==> exists|k2: int|
                k <= k2 < spans[i].children.len() && #[trigger] po_kids(spans, i, k)[m] == spans[
                    i
                ].children[k2] && keep_child(spans, spans[i].children[k2]),
    decreases spans[i].children.len() - k,
{
    let cs = spans[i].children;
    if k < cs.len() {
        lemma_po_kids_leaves(spans, i, k + 1);
        assert(cs.skip(k).drop_first() =~= cs.skip(k + 1));
        assert(cs.skip(k)[0] == cs[k]);
        let c = cs[k];
        if keep_child(spans, c) {
            assert(spans[c].children =~= Seq::<int>::empty());
            assert(po_kids(spans, c, 0) == Seq::<int>::empty());
            assert(po(spans, c) =~= Seq::<int>::empty() + seq![c]);
            assert(po(spans, c).len() == 1);
            assert(po(spans, c)[0] == c);
        }
        let head = if keep_child(spans, c) {
            po(spans, c)
        } else {
            Seq::<int>::empty()
        };
        assert(po_kids(spans, i, k) == head + po_kids(spans, i, k + 1));
        assert forall|m: int| 0 <= m < po_kids(spans, i, k).len() implies exists|k2: int|
            k <= k2 < cs.len() && #[trigger] po_kids(spans, i, k)[m] == cs[k2] && keep_child(
                spans,
                cs[k2],
            ) by {
            if m < head.len() {
                assert(po_kids(spans, i, k)[m] == cs[k] && keep_child(spans, cs[k]));
            } else {
                let m2 = m - head.len();
                assert(po_kids(spans, i, k)[m] == po_kids(spans, i, k + 1)[m2]);
                let k2 = choose|k2: int|
                    k + 1 <= k2 < cs.len() && #[trigger] po_kids(spans, i, k + 1)[m2] == cs[k2]
                        && keep_child(spans, cs[k2]);
                assert(po_kids(spans, i, k)[m] == cs[k2] && keep_child(spans, cs[k2]));
            }
        }
    } else {
        assert(cs.skip(k).len() == 0);
    }
}

/// Sending an unsent span whose children are all leaves transmits, with a
/// sampler that keeps everything, exactly one event for the span and one for
/// each synchronous unsent child; asynchronous children stay unsent and must
/// be sent on their own to appear.
pub proof fn lemma_send_counts<S: Sampler, P: Presend>(
    smp: S,
    prs: P,
    t0: TraceView,
    t1: TraceView,
    idx: int,
    log0: Seq<crate::emitter::EventView>,
    log1: Seq<crate::emitter::EventView>,
)
    requires
        wf_children(t0.spans),
        0 <= idx < t0.spans.len(),
        !t0.spans[idx].is_sent,
        forall|k: int|
            0 <= k < t0.spans[idx].children.len() ==> (#[trigger] t0.spans[t0.spans[
                idx
            ].children[k]]).children =~= Seq::<int>::empty(),
        send_transition(smp, prs, t0, t1, idx, log0, log1),
        forall|f: Map<Seq<char>, serde_json::Value>| (#[trigger] smp.decision(f)).0,
    ensures
        log1.len() == log0.len() + 1 + count_kept(t0.spans, t0.spans[idx].children),
        forall|k: int|
            0 <= k < t0.spans[idx].children.len() && (#[trigger] t0.spans[t0.spans[
                idx
            ].children[k]]).is_async ==> t1.spans[t0.spans[idx].children[k]].is_sent == t0.spans[
                t0.spans[idx].children[k]
            ].is_sent,
{
    let order = po(t0.spans, idx);
    let durs = choose|durs: Seq<u64>|
        durs.len() == order.len() && log1 == log0 + #[trigger] events_for(
            smp,
            prs,
            t0,
            order,
            durs,
            crate::trace::bps_for(order.len() as int),
        );
    lemma_events_for_kept_len(
        smp,
        prs,
        t0,
        order,
        durs,
        crate::trace::bps_for(order.len() as int),
    );
    lemma_po_kids_leaves(t0.spans, idx, 0);
    assert(t0.spans[idx].children.skip(0) =~= t0.spans[idx].children);
    assert(order == po_kids(t0.spans, idx, 0) + seq![idx]);
    assert(order.len() == po_kids(t0.spans, idx, 0).len() + 1);
    // an asynchronous child is not in the order, so its flag is unchanged
    assert forall|k: int|
        0 <= k < t0.spans[idx].children.len() && (#[trigger] t0.spans[t0.spans[
            idx
        ].children[k]]).is_async implies t1.spans[t0.spans[idx].children[k]].is_sent == t0.spans[
        t0.spans[idx].children[k]
    ].is_sent by {
        let c = t0.spans[idx].children[k];
        crate::trace::lemma_po_kids_bounds(t0.spans, idx, 0);
        if order.contains(c) {
            let m = choose|m: int| 0 <= m < order.len() && order[m] == c;
            if m < po_kids(t0.spans, idx, 0).len() {
                assert(po_kids(t0.spans, idx, 0)[m] == c);
                let k2 = choose|k2: int|
                    0 <= k2 < t0.spans[idx].children.len() && #[trigger] po_kids(
                        t0.spans,
                        idx,
                        0,
                    )[m] == t0.spans[idx].children[k2] && keep_child(
                        t0.spans,
                        t0.spans[idx].children[k2],
                    );
                assert(keep_child(t0.spans, c));
                assert(false);
            } else {
                assert(order[m] == idx);
                assert(c > idx);
                assert(false);
            }
        }
    }
}

/// Rollup accumulation: two contributions to a fresh key sum exactly, and a
/// different key's sum is untouched; this is the shape two
/// `add_rollup_field` calls leave the rollup map in.
pub proof fn lemma_rollup_accumulates(
    m: Map<Seq<char>, i64>,
    k: Seq<char>,
    a: i64,
    b: i64,
    k2: Seq<char>,
)
    requires
        !m.dom().contains(k),
        i64::MIN <= a + b <= i64::MAX,
        k2 != k,
    ensures
        ({
            let m1 = m.insert(k, sat_add_i64(0, a as int));
            let m2 = m1.insert(k, sat_add_i64(m1[k] as int, b as int));
            &&& m2[k] == a + b
            &&& m.dom().contains(k2) ==> m2.dom().contains(k2) && m2[k2] == m[k2]
            &&& !m.dom().contains(k2) ==> !m2.dom().contains(k2)
        }),
{
}

/// Only the trace's own root emits the trace-wide rollup sums: at the root
/// the assembled fields carry each sum under its `rollup.`-prefixed key.
pub proof fn lemma_root_emits_trace_rollups(t: TraceView, dur: u64, bp: bool, k: Seq<char>)
    requires
        0 < t.spans.len(),
        t.spans[0].is_root,
        t.spans[0].parent_id.len() == 0,
        t.rollups.dom().contains(k),
    ensures
        assembled_fields(t, 0, dur, bp).dom().contains(rollup_key(k)),
        assembled_fields(t, 0, dur, bp)[rollup_key(k)] == json_of_decimal(
            micros_dec_of(t.rollups[k] as int),
        ),
{
    reveal_strlit("rollup.");
    assert(rollup_key(k).subrange(0, 7) =~= "rollup."@);
    assert(rollup_key(k).skip(7) =~= k);
    assert(crate::fields::rendered_rollups_prefixed(t.rollups).dom().contains(rollup_key(k)));
}

/// Away from such a root, the assembled fields are exactly the span's
/// stamps, the trace-level fields and the span type: no trace-wide rollup is
/// merged in.
pub proof fn lemma_nonroot_no_trace_rollups(t: TraceView, i: int, dur: u64, bp: bool)
    requires
        0 <= i < t.spans.len(),
        !(t.spans[i].is_root && t.spans[i].parent_id.len() == 0),
    ensures
        assembled_fields(t, i, dur, bp) == stamped_fields(t, i, dur, bp).union_prefer_right(
            t.fields,
        ).insert("meta.span_type"@, json_of_str(span_type_of(t, i))),
{
}

proof fn lemma_po_kids_member(spans: Seq<crate::trace::SpanView>, i: int, k: int, k2: int)
    requires
        wf_children(spans),
        0 <= i < spans.len(),
        0 <= k <= k2 < spans[i].children.len(),
        keep_child(spans, spans[i].children[k2]),
    ensures
        po_kids(spans, i, k).contains(spans[i].children[k2]),
    decreases k2 - k,
{
    let c = spans[i].children[k];
    let head = if keep_child(spans, c) {
        po(spans, c)
    } else {
        Seq::<int>::empty()
    };
    assert(po_kids(spans, i, k) == head + po_kids(spans, i, k + 1));
    if k == k2 {
        crate::trace::lemma_po_bounds(spans, c);
        assert(po(spans, c).last() == c);
        assert(po_kids(spans, i, k)[head.len() - 1] == c);
    } else {
        lemma_po_kids_member(spans, i, k + 1, k2);
        let m = choose|m: int|
            0 <= m < po_kids(spans, i, k + 1).len() && #[trigger] po_kids(spans, i, k + 1)[m]
                == spans[i].children[k2];
        assert(po_kids(spans, i, k)[head.len() + m] == spans[i].children[k2]);
    }
}

/// A span's synchronous children are sent no later than the span itself:
/// after any send of the span, each of its synchronous children is sent.
pub proof fn lemma_sync_children_sent<S: Sampler, P: Presend>(
    smp: S,
    prs: P,
    t0: TraceView,
    t1: TraceView,
    idx: int,
    log0: Seq<crate::emitter::EventView>,
    log1: Seq<crate::emitter::EventView>,
    k: int,
)
    requires
        wf_children(t0.spans),
        0 <= idx < t0.spans.len(),
        !t0.spans[idx].is_sent,
        send_transition(smp, prs, t0, t1, idx, log0, log1),
        0 <= k < t0.spans[idx].children.len(),
        !t0.spans[t0.spans[idx].children[k]].is_async,
    ensures
        t1.spans[t0.spans[idx].children[k]].is_sent,
{
    let c = t0.spans[idx].children[k];
    if t0.spans[c].is_sent {
        assert(t1.spans[c].is_sent);
    } else {
        assert(keep_child(t0.spans, c));
        lemma_po_kids_member(t0.spans, idx, 0, k);
        let order = po(t0.spans, idx);
        let m = choose|m: int|
            0 <= m < po_kids(t0.spans, idx, 0).len() && #[trigger] po_kids(t0.spans, idx, 0)[m]
                == c;
        assert(order == po_kids(t0.spans, idx, 0) + seq![idx]);
        assert(order[m] == c);
        assert(order.contains(c));
    }
}

} // verus!
