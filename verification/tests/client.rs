use beeline::client::Client;
use beeline::emitter::RecordingEmitter;
use beeline::hooks::{DefaultPresend, DefaultSampler};

fn jstr(s: &str) -> serde_json::Value {
    serde_json::Value::String(s.to_string())
}

#[test]
fn test_two_traces() {
    // two traces, each tagged and sent on its own: exactly two events
    let mut client = Client::new(DefaultSampler, DefaultPresend);
    let mut emitter = RecordingEmitter::new();

    let t1 = client.new_trace(None);
    assert!(client.trace_add_field(&t1, "thread", jstr("one")));
    let t2 = client.new_trace(None);
    assert!(client.trace_add_field(&t2, "thread", jstr("two")));

    assert!(client.send_trace(&t1, &mut emitter));
    assert!(client.send_trace(&t2, &mut emitter));
    assert_eq!(emitter.len(), 2);

    assert_eq!(emitter.events()[0].field("thread"), Some(&jstr("one")));
    assert_eq!(emitter.events()[1].field("thread"), Some(&jstr("two")));
}

#[test]
fn test_two_traces_with_span() {
    // one trace carries an extra child span sent early: three events in all
    let mut client = Client::new(DefaultSampler, DefaultPresend);
    let mut emitter = RecordingEmitter::new();

    let t1 = client.new_trace(None);
    assert!(client.trace_add_field(&t1, "thread", jstr("one")));
    let root = client.get_trace(&t1).unwrap().get_root_span();
    let child = client.create_child(&t1, root).unwrap();
    assert!(client.span_add_field(&t1, child, "span", jstr("span_one")));
    assert!(client.send_span(&t1, child, &mut emitter));
    assert!(client.send_trace(&t1, &mut emitter));

    let t2 = client.new_trace(None);
    assert!(client.trace_add_field(&t2, "thread", jstr("two")));
    assert!(client.send_trace(&t2, &mut emitter));

    assert_eq!(emitter.len(), 3);
}

#[test]
fn client_fields_seed_new_spans() {
    let mut client = Client::new(DefaultSampler, DefaultPresend);
    client.add_field("meta.service_name", jstr("beeline-test"));
    let tid = client.new_trace(None);
    let mut emitter = RecordingEmitter::new();
    assert!(client.send_trace(&tid, &mut emitter));
    assert_eq!(emitter.len(), 1);
    assert_eq!(
        emitter.events()[0].field("meta.service_name"),
        Some(&jstr("beeline-test"))
    );
}

#[test]
fn serialize_headers_connects_traces() {
    let mut client = Client::new(DefaultSampler, DefaultPresend);
    let t1 = client.new_trace(None);
    assert!(client.trace_add_field(&t1, "region", jstr("us-east")));
    let root = client.get_trace(&t1).unwrap().get_root_span();
    let root_id = client
        .get_trace(&t1)
        .unwrap()
        .get_span(root)
        .span_id()
        .clone();

    let header = client.serialize_headers(&t1, root);
    assert!(!header.is_empty());

    // a downstream process continues the trace from the header
    let t2 = client.new_trace(Some(&header));
    assert_eq!(t2, t1);
    let downstream = client.get_trace(&t2).unwrap();
    assert_eq!(downstream.parent_id(), &root_id);
    assert_eq!(downstream.field("region"), Some(&jstr("us-east")));
    // the continuing root is a subroot: it continues an upstream span
    let mut emitter = RecordingEmitter::new();
    assert!(client.send_trace(&t2, &mut emitter));
    assert_eq!(emitter.len(), 1);
    assert_eq!(
        emitter.events()[0].field("meta.span_type"),
        Some(&jstr("subroot"))
    );
}

#[test]
fn unknown_trace_degrades_gracefully() {
    let mut client = Client::new(DefaultSampler, DefaultPresend);
    let mut emitter = RecordingEmitter::new();
    assert!(client.get_trace("nope").is_none());
    assert!(!client.send_trace("nope", &mut emitter));
    assert!(client.create_child("nope", 0).is_none());
    assert!(!client.trace_add_field("nope", "k", jstr("v")));
    assert_eq!(client.serialize_headers("nope", 0), "");
    assert_eq!(emitter.len(), 0);
}

#[test]
fn undecodable_header_starts_fresh_trace() {
    let mut client = Client::new(DefaultSampler, DefaultPresend);
    let tid = client.new_trace(Some("9;trace_id=abc"));
    let trace = client.get_trace(&tid).unwrap();
    assert!(!trace.trace_id().is_empty());
    assert_ne!(trace.trace_id(), "abc");
    assert!(trace.parent_id().is_empty());
    assert_eq!(trace.field_count(), 0);
}
