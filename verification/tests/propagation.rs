use beeline::errors::BeelineError;
use beeline::propagation::Propagation;

#[test]
fn test_marshal() {
    let ctx: serde_json::Value = serde_json::from_str(
        "{\"userID\":1,\"errorMsg\":\"failed to sign on\",\"toRetry\":true}",
    )
    .unwrap();
    let mut p = Propagation {
        trace_id: "abcdef123456".to_string(),
        parent_id: "0102030405".to_string(),
        trace_context: ctx,
        dataset: "".to_string(),
    };
    assert_eq!(
        p.marshal_trace_context(),
        "1;trace_id=abcdef123456,parent_id=0102030405,context=eyJlcnJvck1zZyI6ImZhaWxlZCB0byBzaWduIG9uIiwidG9SZXRyeSI6dHJ1ZSwidXNlcklEIjoxfQ=="
    );

    p.dataset = "dada".to_string();
    assert_eq!(
        p.marshal_trace_context(),
        "1;trace_id=abcdef123456,parent_id=0102030405,dataset=dada,context=eyJlcnJvck1zZyI6ImZhaWxlZCB0byBzaWduIG9uIiwidG9SZXRyeSI6dHJ1ZSwidXNlcklEIjoxfQ=="
    );
}

#[test]
fn test_unmarshal_with_dataset() {
    let p = Propagation {
        trace_id: "weofijwoeifj".to_string(),
        parent_id: "owefjoweifj".to_string(),
        dataset: "dada".to_string(),
        trace_context: serde_json::from_str("{\"key\":\"value\"}").unwrap(),
    };
    assert_eq!(
        p,
        Propagation::unmarshal_trace_context(&p.marshal_trace_context()).unwrap()
    );
}

#[test]
fn round_trip_without_dataset() {
    let p = Propagation {
        trace_id: "abc".to_string(),
        parent_id: "".to_string(),
        dataset: "".to_string(),
        trace_context: serde_json::from_str("{\"n\":7,\"ok\":false}").unwrap(),
    };
    let q = Propagation::unmarshal_trace_context(&p.marshal_trace_context()).unwrap();
    assert_eq!(p, q);
}

#[test]
fn decode_rejects_unsupported_version() {
    let r = Propagation::unmarshal_trace_context("2;trace_id=abc,context=e30=");
    assert_eq!(r.unwrap_err(), BeelineError::UnsupportedVersion);
    let r2 = Propagation::unmarshal_trace_context("garbage");
    assert_eq!(r2.unwrap_err(), BeelineError::UnsupportedVersion);
    let r3 = Propagation::unmarshal_trace_context("");
    assert_eq!(r3.unwrap_err(), BeelineError::UnsupportedVersion);
}

#[test]
fn decode_rejects_missing_trace_id() {
    let r = Propagation::unmarshal_trace_context("1;trace_id=,parent_id=abc,context=e30=");
    assert_eq!(r.unwrap_err(), BeelineError::MissingTraceId);
}

#[test]
fn decode_rejects_bad_base64() {
    let r = Propagation::unmarshal_trace_context("1;trace_id=a,parent_id=b,context=!!!");
    assert_eq!(r.unwrap_err(), BeelineError::InvalidBase64);
}

#[test]
fn decode_rejects_bad_json() {
    // "ew==" is the base64 of "{", which is not complete JSON.
    let r = Propagation::unmarshal_trace_context("1;trace_id=a,parent_id=b,context=ew==");
    assert_eq!(r.unwrap_err(), BeelineError::InvalidJson);
    // a header with no context clause at all is rejected the same way
    let r2 = Propagation::unmarshal_trace_context("1;trace_id=a,parent_id=b");
    assert_eq!(r2.unwrap_err(), BeelineError::InvalidJson);
}

#[test]
fn decode_ignores_unknown_clauses_and_takes_last_value() {
    let r =
        Propagation::unmarshal_trace_context("1;other=zzz,trace_id=first,trace_id=second,context=e30=")
            .unwrap();
    assert_eq!(r.trace_id, "second");
    assert_eq!(r.parent_id, "");
    assert_eq!(r.dataset, "");
    let empty: serde_json::Value = serde_json::from_str("{}").unwrap();
    assert_eq!(r.trace_context, empty);
}

#[test]
fn error_descriptions_are_nonempty() {
    assert!(!BeelineError::UnsupportedVersion.describe().is_empty());
    assert!(!BeelineError::MissingTraceId.describe().is_empty());
    assert!(!BeelineError::InvalidBase64.describe().is_empty());
    assert!(!BeelineError::InvalidJson.describe().is_empty());
}
