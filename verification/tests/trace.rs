use beeline::client::Client;
use beeline::emitter::{Event, FailingEmitter, RecordingEmitter};
use beeline::hooks::{ClearPresend, ConstantSampler, DefaultPresend, DefaultSampler};
use beeline::trace::Span;

fn jstr(s: &str) -> serde_json::Value {
    serde_json::Value::String(s.to_string())
}

fn event_named<'a>(events: &'a [Event], name: &str) -> &'a Event {
    for e in events {
        if e.field("name") == Some(&jstr(name)) {
            return e;
        }
    }
    panic!("no event named {}", name);
}

#[test]
fn test_new_span() {
    let span = Span::new();
    assert_eq!(span.span_id().len(), 36);
    assert_eq!(span.get_children().len(), 0);
}

#[test]
fn test_new_trace() {
    let mut client = Client::new(DefaultSampler, DefaultPresend);
    let tid = client.new_trace(None);
    let trace = client.get_trace(&tid).unwrap();
    assert!(!trace.trace_id().is_empty());
    assert!(trace.parent_id().is_empty());
    assert!(trace.rollups_empty());
    assert_eq!(trace.field_count(), 0);
    assert_eq!(trace.get_span(trace.get_root_span()).is_root(), true);
}

#[test]
fn test_new_trace_with_serialized_headers() {
    let mut client = Client::new(DefaultSampler, DefaultPresend);
    let serialized_headers = "1;trace_id=weofijwoeifj,parent_id=owefjoweifj,context=eyJlcnJvck1zZyI6ImZhaWxlZCB0byBzaWduIG9uIiwidG9SZXRyeSI6dHJ1ZSwidXNlcklEIjoxfQ==";
    let tid = client.new_trace(Some(serialized_headers));
    let trace = client.get_trace(&tid).unwrap();

    assert_eq!(trace.trace_id(), "weofijwoeifj");
    assert_eq!(trace.parent_id(), "owefjoweifj");

    let one: serde_json::Value = serde_json::from_str("1").unwrap();
    assert_eq!(trace.field("userID"), Some(&one));
    assert_eq!(trace.field("toRetry"), Some(&serde_json::Value::Bool(true)));
    assert_eq!(trace.field("errorMsg"), Some(&jstr("failed to sign on")));
}

#[test]
fn test_trace_add_field() {
    let mut client = Client::new(DefaultSampler, DefaultPresend);
    let tid = client.new_trace(None);
    let v: serde_json::Value = serde_json::from_str("{\"a\":1}").unwrap();
    assert!(client.trace_add_field(&tid, "nor", v.clone()));
    let trace = client.get_trace(&tid).unwrap();
    assert_eq!(trace.field("nor"), Some(&v));
}

#[test]
fn test_trace_rollup_fields() {
    let mut client = Client::new(DefaultSampler, DefaultPresend);
    let tid = client.new_trace(None);
    // contributions are carried in micro-units: 5.0 is 5_000_000, 0.1 is 100_000
    assert!(client.trace_add_rollup_field(&tid, "bignum", 5_000_000));
    assert!(client.trace_add_rollup_field(&tid, "bignum", 5_000_000));
    assert!(client.trace_add_rollup_field(&tid, "smallnum", 100_000));

    let trace = client.get_trace(&tid).unwrap();
    assert_eq!(trace.rollup_micros("bignum"), Some(10_000_000));
    assert_eq!(trace.rollup_micros("smallnum"), Some(100_000));
}

#[test]
fn test_send_trace() {
    let mut client = Client::new(DefaultSampler, DefaultPresend);
    let tid = client.new_trace(None);
    let root = client.get_trace(&tid).unwrap().get_root_span();
    assert!(client.span_add_field(&tid, root, "name", jstr("rs")));

    let c1 = client.create_child(&tid, root).unwrap();
    assert!(client.span_add_field(&tid, c1, "name", jstr("c1")));
    let c2 = client.create_child(&tid, c1).unwrap();
    assert!(client.span_add_field(&tid, c2, "name", jstr("c2")));
    let ac1 = client.create_async_child(&tid, c1).unwrap();
    assert!(client.span_add_field(&tid, ac1, "name", jstr("ac1")));
    let not_sent_child = client.create_child(&tid, ac1).unwrap();
    assert!(client.span_add_field(&tid, not_sent_child, "name", jstr("not_sent_child")));

    let mut emitter = RecordingEmitter::new();
    assert!(client.send_trace(&tid, &mut emitter));
    assert_eq!(emitter.len(), 3);
}

#[test]
fn test_send_trace_prehook() {
    // the presend hook clears every field; the transmitted event shows it
    let mut client = Client::new(DefaultSampler, ClearPresend);
    let tid = client.new_trace(None);
    let root = client.get_trace(&tid).unwrap().get_root_span();
    assert!(client.span_add_field(&tid, root, "name", jstr("rs")));
    let mut emitter = RecordingEmitter::new();
    assert!(client.send_trace(&tid, &mut emitter));
    assert_eq!(emitter.len(), 1);
    assert_eq!(emitter.events()[0].field_count(), 0);
    assert_eq!(emitter.events()[0].field("name"), None);
}

#[test]
fn test_send_trace_sampler_hook() {
    let mut client = Client::new(ConstantSampler { keep: false, rate: 1 }, DefaultPresend);
    let tid = client.new_trace(None);
    let root = client.get_trace(&tid).unwrap().get_root_span();
    assert!(client.span_add_field(&tid, root, "name", jstr("rs")));
    let mut emitter = RecordingEmitter::new();
    assert!(client.send_trace(&tid, &mut emitter));
    // the sampler dropped the event
    assert!(emitter.events().is_empty());
}

#[test]
fn send_is_idempotent() {
    let mut client = Client::new(DefaultSampler, DefaultPresend);
    let tid = client.new_trace(None);
    let mut emitter = RecordingEmitter::new();
    assert!(client.send_trace(&tid, &mut emitter));
    assert_eq!(emitter.len(), 1);
    // a second send transmits nothing and does not fail
    assert!(client.send_trace(&tid, &mut emitter));
    assert_eq!(emitter.len(), 1);
}

#[test]
fn sync_and_async_children_counted() {
    // N = 2 synchronous and M = 3 asynchronous children: N + 1 events
    let mut client = Client::new(DefaultSampler, DefaultPresend);
    let tid = client.new_trace(None);
    let root = client.get_trace(&tid).unwrap().get_root_span();
    let s1 = client.create_child(&tid, root).unwrap();
    let s2 = client.create_child(&tid, root).unwrap();
    let a1 = client.create_async_child(&tid, root).unwrap();
    let a2 = client.create_async_child(&tid, root).unwrap();
    let a3 = client.create_async_child(&tid, root).unwrap();
    let _ = (s1, s2);

    let mut emitter = RecordingEmitter::new();
    assert!(client.send_trace(&tid, &mut emitter));
    assert_eq!(emitter.len(), 3);

    // the asynchronous children are still unsent and appear only when sent
    for a in [a1, a2, a3] {
        assert!(!client.get_trace(&tid).unwrap().get_span(a).is_sent());
        assert!(client.send_span(&tid, a, &mut emitter));
    }
    assert_eq!(emitter.len(), 6);
}

#[test]
fn end_to_end_scenario() {
    let mut client = Client::new(DefaultSampler, DefaultPresend);
    let tid = client.new_trace(None);
    assert!(client.trace_add_field(&tid, "region", jstr("us-east")));
    let root = client.get_trace(&tid).unwrap().get_root_span();
    assert!(client.span_add_field(&tid, root, "name", jstr("rs")));
    let c1 = client.create_child(&tid, root).unwrap();
    assert!(client.span_add_field(&tid, c1, "name", jstr("c1")));
    let c2 = client.create_child(&tid, c1).unwrap();
    assert!(client.span_add_field(&tid, c2, "name", jstr("c2")));
    let ac1 = client.create_async_child(&tid, c1).unwrap();
    let nsc = client.create_child(&tid, ac1).unwrap();
    let _ = nsc;

    let mut emitter = RecordingEmitter::new();
    assert!(client.send_trace(&tid, &mut emitter));
    assert_eq!(emitter.len(), 3);

    let events = emitter.events();
    for (name, ty) in [("rs", "root"), ("c1", "mid"), ("c2", "leaf")] {
        let e = event_named(events, name);
        assert_eq!(e.field("region"), Some(&jstr("us-east")));
        assert_eq!(e.field("meta.span_type"), Some(&jstr(ty)));
        let dur = e.field("duration_ms").expect("duration_ms present");
        assert!(dur.is_u64());
    }
}

#[test]
fn only_root_emits_trace_rollups() {
    let mut client = Client::new(DefaultSampler, DefaultPresend);
    let tid = client.new_trace(None);
    let root = client.get_trace(&tid).unwrap().get_root_span();
    assert!(client.span_add_field(&tid, root, "name", jstr("rs")));
    let c1 = client.create_child(&tid, root).unwrap();
    assert!(client.span_add_field(&tid, c1, "name", jstr("c1")));

    // 10.0 at the trace, 2.5 on the child's own accumulator
    assert!(client.trace_add_rollup_field(&tid, "bignum", 10_000_000));
    assert!(client.span_add_rollup_field(&tid, c1, "local", 2_500_000));

    let mut emitter = RecordingEmitter::new();
    assert!(client.send_trace(&tid, &mut emitter));
    assert_eq!(emitter.len(), 2);

    let ten: serde_json::Value = serde_json::from_str("10").unwrap();
    let two_half: serde_json::Value = serde_json::from_str("2.5").unwrap();
    let root_ev = event_named(emitter.events(), "rs");
    let child_ev = event_named(emitter.events(), "c1");
    assert_eq!(root_ev.field("rollup.bignum"), Some(&ten));
    assert_eq!(child_ev.field("rollup.bignum"), None);
    assert_eq!(child_ev.field("local"), Some(&two_half));
    assert_eq!(root_ev.field("local"), None);
}

#[test]
fn sent_span_is_frozen() {
    let mut client = Client::new(DefaultSampler, DefaultPresend);
    let tid = client.new_trace(None);
    let root = client.get_trace(&tid).unwrap().get_root_span();
    let mut emitter = RecordingEmitter::new();
    assert!(client.send_trace(&tid, &mut emitter));
    assert!(client.get_trace(&tid).unwrap().get_span(root).is_sent());
    // further field writes are refused
    assert!(!client.span_add_field(&tid, root, "late", jstr("x")));
}

#[test]
fn emitter_failure_still_marks_sent() {
    let mut client = Client::new(DefaultSampler, DefaultPresend);
    let tid = client.new_trace(None);
    let root = client.get_trace(&tid).unwrap().get_root_span();
    let mut emitter = FailingEmitter::new();
    assert!(client.send_trace(&tid, &mut emitter));
    // the event was handed over once, the failure is not retried
    assert_eq!(emitter.len(), 1);
    assert!(client.get_trace(&tid).unwrap().get_span(root).is_sent());
    assert!(client.send_trace(&tid, &mut emitter));
    assert_eq!(emitter.len(), 1);
}

#[test]
fn events_carry_identity_fields() {
    let mut client = Client::new(DefaultSampler, DefaultPresend);
    let tid = client.new_trace(None);
    let root = client.get_trace(&tid).unwrap().get_root_span();
    let c1 = client.create_child(&tid, root).unwrap();
    assert!(client.span_add_field(&tid, c1, "name", jstr("c1")));
    let sid = client
        .get_trace(&tid)
        .unwrap()
        .get_span(c1)
        .span_id()
        .clone();
    let rid = client
        .get_trace(&tid)
        .unwrap()
        .get_span(root)
        .span_id()
        .clone();

    let mut emitter = RecordingEmitter::new();
    assert!(client.send_span(&tid, c1, &mut emitter));
    assert_eq!(emitter.len(), 1);
    let e = &emitter.events()[0];
    assert_eq!(e.field("trace.trace_id"), Some(&jstr(&tid)));
    assert_eq!(e.field("trace.span_id"), Some(&jstr(&sid)));
    assert_eq!(e.field("trace.parent_id"), Some(&jstr(&rid)));
    // sent directly, not by its parent
    assert_eq!(e.field("meta.sent_by_parent"), None);
    assert_eq!(e.sample_rate(), 1);
}
