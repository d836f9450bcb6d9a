//! Batches that reach a function as one event.
use lpr_router::outer_batch::{
    parse_outer_smug_batch, take_apart, OuterBatchEnvelope, VirtualInvocation,
};

fn envelope(body: &[u8]) -> Option<OuterBatchEnvelope> {
    let value: serde_json::Value = serde_json::from_slice(body).ok()?;
    let v = u8::try_from(value.get("v")?.as_u64()?).ok()?;
    let batch = match value.get("batch") {
        Some(b) => b.as_array()?.iter().map(|i| serde_json::to_vec(i).unwrap()).collect(),
        None => vec![],
    };
    Some(OuterBatchEnvelope { v, batch })
}

fn parse(body: &[u8]) -> Result<Option<Vec<VirtualInvocation>>, String> {
    parse_outer_smug_batch(envelope(body))
}

#[test]
fn parse_outer_batch_rejects_non_json() {
    let got = parse(b"nope").unwrap();
    assert!(got.is_none());
}

#[test]
fn parse_outer_batch_rejects_wrong_version() {
    let got = parse(br#"{"v":2,"batch":[]}"#).unwrap();
    assert!(got.is_none());
}

#[test]
fn parse_outer_batch_extracts_ids() {
    let got = parse(
        br#"{"v":1,"batch":[{"requestContext":{"requestId":"a"}},{"requestContext":{"requestId":"b"}}]}"#,
    )
    .unwrap()
    .unwrap();

    assert_eq!(got.len(), 2);
    assert_eq!(got[0].id, "a");
    assert_eq!(got[1].id, "b");
    assert_eq!(got[0].event_bytes, br#"{"requestContext":{"requestId":"a"}}"#);
}

#[test]
fn parse_outer_batch_rejects_duplicate_ids() {
    let err = parse(
        br#"{"v":1,"batch":[{"requestContext":{"requestId":"a"}},{"requestContext":{"requestId":"a"}}]}"#,
    )
    .unwrap_err();

    assert!(err.contains("duplicate"));
    assert_eq!(err, "duplicate requestContext.requestId in batch (a)");
}

#[test]
fn items_need_an_id() {
    for item in [r#"{}"#, r#"{"requestContext":{}}"#, r#"{"requestContext":{"requestId":1}}"#] {
        let body = format!(r#"{{"v":1,"batch":[{item}]}}"#);
        assert_eq!(
            parse(body.as_bytes()).unwrap_err(),
            "batch item missing requestContext.requestId"
        );
    }
    let unreadable = OuterBatchEnvelope { v: 1, batch: vec![b"{".to_vec()] };
    assert!(parse_outer_smug_batch(Some(unreadable)).is_err());
}

#[test]
fn an_empty_batch_has_no_invocations() {
    assert_eq!(parse(br#"{"v":1,"batch":[]}"#).unwrap().unwrap().len(), 0);
    assert_eq!(parse(br#"{"v":1}"#).unwrap().unwrap().len(), 0);
}

#[test]
fn items_are_taken_apart_in_order() {
    let ids = vec![Some("x".to_string()), Some("y".to_string())];
    let got = take_apart(vec![b"1".to_vec(), b"2".to_vec()], ids).unwrap();
    let pairs: Vec<(&str, &[u8])> =
        got.iter().map(|i| (i.id.as_str(), i.event_bytes.as_slice())).collect();
    assert_eq!(pairs, vec![("x", b"1".as_slice()), ("y", b"2".as_slice())]);
}
