//! Streamed responses: lines, records and what is done for them.
use lpr_router::lines::{LineBuffer, MAX_BUFFER_BYTES};
use lpr_router::response::RouterResponse;
use lpr_router::str_map::StrMap;
use lpr_router::stream::{
    bad_record, classify_record, classify_shape, RecordShape, StreamAction, StreamDemux,
    StreamPending, StreamRecordType, StreamResponseRecord, StreamResponseRecordInterleaved,
    StreamResponseRecordLegacy,
};

/// What clients have seen, in order.
#[derive(Debug, PartialEq)]
enum Seen {
    Response(u32, u16, String),
    Head(u32, u16, Vec<(String, String)>),
    Chunk(u32, String),
}

fn waiting(ids: &[&str]) -> StrMap<StreamPending<u32, u32>> {
    let mut m = StrMap::new();
    for (n, id) in ids.iter().enumerate() {
        let sink = n as u32 + 1;
        m.insert(id.to_string(), StreamPending { init: Some(sink), body: sink });
    }
    m
}

fn text(resp: &RouterResponse) -> String {
    String::from_utf8(resp.body.clone()).unwrap()
}

fn strings(value: &serde_json::Value) -> StrMap<String> {
    let mut m = StrMap::new();
    if let Some(o) = value.as_object() {
        for (k, v) in o {
            m.insert(k.clone(), v.as_str().unwrap().to_string());
        }
    }
    m
}

fn list(value: &serde_json::Value) -> Vec<String> {
    match value.as_array() {
        Some(a) => a.iter().map(|v| v.as_str().unwrap().to_string()).collect(),
        None => vec![],
    }
}

fn read(line: &[u8], shape: RecordShape) -> Result<StreamResponseRecord, String> {
    let v: serde_json::Value = serde_json::from_slice(line).map_err(|e| e.to_string())?;
    let version = v["v"].as_u64().ok_or("missing field `v`")? as u8;
    let id = v["id"].as_str().ok_or("missing field `id`")?.to_string();
    let status = v["statusCode"].as_u64().map(|s| s as u16);
    let body = v["body"].as_str().map(|s| s.to_string());
    let is_base64_encoded = v["isBase64Encoded"].as_bool().unwrap_or_default();
    if shape == RecordShape::Legacy {
        return Ok(StreamResponseRecord::Legacy(StreamResponseRecordLegacy {
            v: version,
            id,
            status_code: status.ok_or("missing field `statusCode`")?,
            headers: strings(&v["headers"]),
            cookies: list(&v["cookies"]),
            body: body.unwrap_or_default(),
            is_base64_encoded,
        }));
    }
    let record_type = match v["type"].as_str() {
        Some("head") => StreamRecordType::Head,
        Some("chunk") => StreamRecordType::Chunk,
        Some("end") => StreamRecordType::End,
        Some("error") => StreamRecordType::Error,
        _ => return Err("unknown variant".to_string()),
    };
    Ok(StreamResponseRecord::Interleaved(StreamResponseRecordInterleaved {
        v: version,
        id,
        record_type,
        status_code: status,
        headers: strings(&v["headers"]),
        cookies: list(&v["cookies"]),
        body,
        is_base64_encoded,
        message: v["message"].as_str().map(|s| s.to_string()),
    }))
}

fn perform(
    demux: &mut StreamDemux<u32, u32>,
    action: StreamAction<u32, u32>,
    gone: &[u32],
    seen: &mut Vec<Seen>,
) -> Result<(), String> {
    match action {
        StreamAction::Idle => Ok(()),
        StreamAction::Respond { init, response } => {
            seen.push(Seen::Response(init, response.status, text(&response)));
            Ok(())
        }
        StreamAction::Open { init, head, id, body, next } => {
            let taken = !gone.contains(&init);
            if taken {
                let headers = head
                    .headers
                    .iter()
                    .map(|(k, v)| (k.to_string(), v.to_str().unwrap().to_string()))
                    .collect();
                seen.push(Seen::Head(init, head.status, headers));
            }
            let action = demux.head_sent(id, body, next, taken)?;
            perform(demux, action, gone, seen)
        }
        StreamAction::Send { id, body, bytes } => {
            let taken = !gone.contains(&body);
            if taken {
                seen.push(Seen::Chunk(body, String::from_utf8(bytes).unwrap()));
            }
            demux.chunk_sent(id, body, taken);
            Ok(())
        }
    }
}

fn lines_of(
    demux: &mut StreamDemux<u32, u32>,
    gone: &[u32],
    seen: &mut Vec<Seen>,
) -> Result<(), String> {
    while let Some(line) = demux.next_line() {
        let shape = classify_record(&line)?;
        if shape == RecordShape::Unaddressed {
            continue;
        }
        let record = read(&line, shape).map_err(|e| bad_record(&e))?;
        let action = demux.dispatch(record)?;
        perform(demux, action, gone, seen)?;
    }
    Ok(())
}

/// Runs a stream, and returns what the clients saw and how many bodies are still open.
fn run_with(ids: &[&str], chunks: Vec<Result<&str, &str>>, gone: &[u32], report: bool) -> Vec<Seen> {
    let mut demux = StreamDemux::new(waiting(ids), report);
    let mut seen = vec![];
    let mut outcome = Ok(());
    for chunk in chunks {
        outcome = demux
            .receive(chunk.map(|c| c.as_bytes().to_vec()).map_err(|e| e.to_string()))
            .and_then(|()| lines_of(&mut demux, gone, &mut seen));
        if outcome.is_err() {
            break;
        }
    }
    if outcome.is_ok() {
        demux.close();
        outcome = lines_of(&mut demux, gone, &mut seen);
    }
    let replies = match outcome {
        Ok(()) => demux.finish(),
        Err(msg) => demux.fail(&msg),
    };
    for (init, resp) in replies {
        seen.push(Seen::Response(init, resp.status, text(&resp)));
    }
    seen
}

fn run(ids: &[&str], chunks: &[&str]) -> Vec<Seen> {
    run_with(ids, chunks.iter().map(|c| Ok(*c)).collect(), &[], false)
}

fn ok(sink: u32) -> Seen {
    Seen::Response(sink, 200, "ok".to_string())
}

fn failed(sink: u32, msg: &str) -> Seen {
    Seen::Response(sink, 502, msg.to_string())
}

fn chunk(sink: u32, s: &str) -> Seen {
    Seen::Chunk(sink, s.to_string())
}

#[test]
fn response_stream_dispatches_early_records() {
    let mut demux = StreamDemux::new(waiting(&["a", "b"]), false);
    let mut seen = vec![];
    let chunk1 = "{\"v\":1,\"id\":\"b\",\"statusCode\":200,\"headers\":{},\"body\":\"ok\",\"isBase64Encoded\":false}\n{\"v\":1,\"id\":\"a\"";
    demux.receive(Ok(chunk1.as_bytes().to_vec())).unwrap();
    lines_of(&mut demux, &[], &mut seen).unwrap();
    assert_eq!(seen, vec![ok(2)]);
    let chunk2 = ",\"statusCode\":200,\"headers\":{},\"body\":\"ok\",\"isBase64Encoded\":false}\n";
    demux.receive(Ok(chunk2.as_bytes().to_vec())).unwrap();
    lines_of(&mut demux, &[], &mut seen).unwrap();
    assert_eq!(seen, vec![ok(2), ok(1)]);
    assert!(demux.finish().is_empty());
}

#[test]
fn response_stream_without_trailing_newline_is_accepted() {
    let seen = run(
        &["a"],
        &[r#"{"v":1,"id":"a","statusCode":200,"headers":{},"body":"ok","isBase64Encoded":false}"#],
    );
    assert_eq!(seen, vec![ok(1)]);
}

#[test]
fn response_stream_accepts_crlf_records() {
    let seen = run(
        &["a"],
        &["{\"v\":1,\"id\":\"a\",\"statusCode\":200,\"headers\":{},\"body\":\"ok\",\"isBase64Encoded\":false}\r\n"],
    );
    assert_eq!(seen, vec![ok(1)]);
}

#[test]
fn response_stream_error_fails_all() {
    let seen = run_with(&["a", "b"], vec![Err("boom")], &[], false);
    assert_eq!(
        seen,
        vec![failed(1, "response stream error: boom"), failed(2, "response stream error: boom")]
    );
}

#[test]
fn response_stream_missing_record_fails_remaining() {
    let seen = run(
        &["a", "b"],
        &["{\"v\":1,\"id\":\"a\",\"statusCode\":200,\"headers\":{},\"body\":\"ok\",\"isBase64Encoded\":false}\n"],
    );
    assert_eq!(seen, vec![ok(1), failed(2, "missing response record")]);
}

#[test]
fn response_stream_invalid_record_fails_all() {
    let seen = run(&["a", "b"], &["{not-json}\n"]);
    assert_eq!(seen.len(), 2);
    for s in seen {
        let Seen::Response(_, status, msg) = s else {
            panic!("expected a response");
        };
        assert_eq!(status, 502);
        assert!(msg.contains("bad ndjson record"));
    }
}

#[test]
fn response_stream_interleaved_records_stream_body() {
    let seen = run(
        &["a"],
        &[concat3(
            r#"{"v":1,"id":"a","type":"head","statusCode":200,"headers":{"content-type":"text/plain"}}"#,
            r#"{"v":1,"id":"a","type":"chunk","body":"hello","isBase64Encoded":false}"#,
            r#"{"v":1,"id":"a","type":"end"}"#,
        )
        .as_str()],
    );
    assert_eq!(
        seen,
        vec![
            Seen::Head(1, 200, vec![("content-type".to_string(), "text/plain".to_string())]),
            chunk(1, "hello"),
        ]
    );
}

fn concat3(a: &str, b: &str, c: &str) -> String {
    format!("{a}\n{b}\n{c}\n")
}

#[test]
fn a_head_is_synthesized() {
    let seen = run_with(
        &["a", "b"],
        vec![Ok("{\"v\":1,\"id\":\"a\",\"type\":\"chunk\",\"body\":\"aGk=\",\"isBase64Encoded\":true}\n{\"v\":1,\"id\":\"b\",\"type\":\"end\"}\n{\"v\":1,\"id\":\"a\",\"type\":\"end\"}\n")],
        &[],
        true,
    );
    let size = vec![("x-lpr-batch-size".to_string(), "2".to_string())];
    assert_eq!(
        seen,
        vec![Seen::Head(1, 200, size.clone()), chunk(1, "hi"), Seen::Head(2, 200, size)]
    );
}

#[test]
fn the_first_head_and_the_first_end_count() {
    let seen = run(
        &["a"],
        &[
            "{\"v\":1,\"id\":\"a\",\"type\":\"head\",\"statusCode\":201,\"cookies\":[\"a=b\"]}\n",
            "{\"v\":1,\"id\":\"a\",\"type\":\"head\",\"statusCode\":202}\n",
            "{\"v\":1,\"id\":\"a\",\"type\":\"chunk\",\"body\":\"1\"}\n",
            "{\"v\":1,\"id\":\"a\",\"type\":\"end\"}\n",
            "{\"v\":1,\"id\":\"a\",\"type\":\"chunk\",\"body\":\"2\"}\n",
        ],
    );
    assert_eq!(
        seen,
        vec![
            Seen::Head(1, 201, vec![("set-cookie".to_string(), "a=b".to_string())]),
            chunk(1, "1"),
        ]
    );
}

#[test]
fn error_records_answer_their_request() {
    let seen = run(
        &["a", "b", "c"],
        &[
            "{\"v\":1,\"id\":\"a\",\"type\":\"error\",\"statusCode\":503,\"message\":\"upstream failed\"}\n",
            "{\"v\":1,\"id\":\"b\",\"type\":\"error\"}\n",
            "{\"v\":1,\"id\":\"c\",\"type\":\"error\",\"statusCode\":99}\n",
        ],
    );
    assert_eq!(
        seen,
        vec![
            Seen::Response(1, 503, "upstream failed".to_string()),
            failed(2, "error"),
            failed(3, "error"),
        ]
    );
}

#[test]
fn an_error_after_the_head_ends_the_body() {
    let seen = run(
        &["a"],
        &["{\"v\":1,\"id\":\"a\",\"type\":\"head\"}\n{\"v\":1,\"id\":\"a\",\"type\":\"error\"}\n{\"v\":1,\"id\":\"a\",\"type\":\"chunk\",\"body\":\"x\"}\n"],
    );
    assert_eq!(seen, vec![Seen::Head(1, 200, vec![])]);
}

#[test]
fn records_without_a_known_id_are_dropped() {
    let seen = run(
        &["a"],
        &[
            "{\"v\":1,\"statusCode\":200}\n{\"v\":1,\"type\":\"end\"}\n",
            "{\"v\":1,\"id\":\"x\",\"statusCode\":200}\n",
            "{\"v\":1,\"id\":\"a\",\"statusCode\":200,\"body\":\"ok\"}\n",
        ],
    );
    assert_eq!(seen, vec![ok(1)]);
}

#[test]
fn bad_records_fail_the_requests_that_wait() {
    let after = |line: &str| run(&["a", "b"], &[line]);
    assert_eq!(
        after("{\"v\":3,\"id\":\"a\",\"statusCode\":200}\n"),
        vec![failed(1, "unsupported record version: 3"), failed(2, "unsupported record version: 3")]
    );
    assert_eq!(
        after("{\"v\":1,\"id\":\"a\",\"statusCode\":99}\n"),
        vec![failed(2, "bad response: invalid status code")]
    );
    assert_eq!(
        after("{\"v\":1,\"id\":\"a\",\"type\":\"head\",\"statusCode\":99}\n"),
        vec![failed(2, "bad status code: invalid status code")]
    );
    assert_eq!(
        after("{\"v\":1,\"id\":\"a\",\"type\":\"head\",\"headers\":{\"a b\":\"\"}}\n"),
        vec![failed(2, "bad response headers: invalid HTTP header name")]
    );
    let seen = after("{\"v\":1,\"id\":\"a\",\"type\":\"chunk\",\"body\":\"!\",\"isBase64Encoded\":true}\n");
    assert_eq!(seen.len(), 2);
    assert_eq!(seen[0], Seen::Head(1, 200, vec![]));
    assert!(matches!(&seen[1], Seen::Response(2, 502, m) if m.starts_with("bad chunk body: ")));
    assert_eq!(
        after("{\"v\":1,\"id\":\"a\",\"type\":\"nope\"}\n"),
        vec![
            failed(1, "bad ndjson record: unknown variant"),
            failed(2, "bad ndjson record: unknown variant")
        ]
    );
}

#[test]
fn clients_that_are_gone_get_nothing_more() {
    let seen = run_with(
        &["a", "b"],
        vec![Ok("{\"v\":1,\"id\":\"a\",\"type\":\"chunk\",\"body\":\"!\",\"isBase64Encoded\":true}\n{\"v\":1,\"id\":\"a\",\"type\":\"chunk\",\"body\":\"x\"}\n{\"v\":1,\"id\":\"b\",\"type\":\"end\"}\n")],
        &[1],
        false,
    );
    assert_eq!(seen, vec![Seen::Head(2, 200, vec![])]);
}

#[test]
fn large_streams_fail() {
    let mut demux = StreamDemux::new(waiting(&["a"]), false);
    demux.receive(Ok(vec![b'x'; MAX_BUFFER_BYTES])).unwrap();
    assert_eq!(demux.next_line(), None);
    assert_eq!(demux.receive(Ok(vec![b'x'])).unwrap_err(), "response stream too large");
    let replies = demux.fail("response stream too large");
    assert_eq!(replies.len(), 1);
    assert_eq!(text(&replies[0].1), "response stream too large");
}

fn all_lines(chunks: &[&[u8]]) -> Vec<Vec<u8>> {
    let mut demux = StreamDemux::new(waiting(&[]), false);
    let mut out = vec![];
    for c in chunks {
        demux.receive(Ok(c.to_vec())).unwrap();
        while let Some(line) = demux.next_line() {
            out.push(line);
        }
    }
    demux.close();
    while let Some(line) = demux.next_line() {
        out.push(line);
    }
    out
}

#[test]
fn lines_do_not_depend_on_chunks() {
    let stream = b"\n\r\none\r\ntwo\n\nthr\ree\n\r\r\nlast\r\n\r";
    let whole = all_lines(&[stream]);
    let expected: Vec<&[u8]> = vec![b"one", b"two", b"thr\ree", b"\r", b"last"];
    assert_eq!(whole, expected);
    for cut in 0..stream.len() {
        assert_eq!(all_lines(&[&stream[..cut], &stream[cut..]]), whole);
    }
    let bytes: Vec<&[u8]> = stream.chunks(1).collect();
    assert_eq!(all_lines(&bytes), whole);
    assert_eq!(all_lines(&[b"a\n\n\r\n"]), vec![b"a"]);
    assert_eq!(all_lines(&[b"a\r\r"]), vec![b"a"]);
}

#[test]
fn a_line_buffer_hands_out_its_tail() {
    let mut b = LineBuffer::new();
    assert!(b.push(b"x\ny\r"));
    assert_eq!(b.next_line(), Some(b"x".to_vec()));
    assert_eq!(b.next_line(), None);
    assert_eq!(b.tail(), Some(b"y".to_vec()));
    assert_eq!(b.tail(), None);
}

#[test]
fn lines_are_classified() {
    let shape = |s: &str| classify_record(s.as_bytes());
    assert_eq!(shape(r#"{"id":"a"}"#), Ok(RecordShape::Legacy));
    assert_eq!(shape(r#"{"id":"a","type":"x"}"#), Ok(RecordShape::Interleaved));
    assert_eq!(shape(r#"{"type":"x"}"#), Ok(RecordShape::Unaddressed));
    assert_eq!(shape("42"), Ok(RecordShape::Legacy));
    assert!(shape("{").unwrap_err().starts_with("bad ndjson record: "));
    assert_eq!(classify_shape(true, true, false), RecordShape::Unaddressed);
    assert_eq!(classify_shape(false, false, false), RecordShape::Legacy);
}

#[test]
fn every_request_is_answered_once() {
    let seen = run(
        &["a", "b", "c", "d"],
        &[
            "{\"v\":1,\"id\":\"c\",\"type\":\"head\",\"statusCode\":201}\n",
            "{\"v\":1,\"id\":\"a\",\"statusCode\":200,\"body\":\"ok\"}\n",
            "{\"v\":1,\"id\":\"a\",\"statusCode\":500,\"body\":\"late\"}\n",
            "{\"v\":1,\"id\":\"c\",\"type\":\"head\",\"statusCode\":500}\n",
            "{\"v\":1,\"id\":\"b\",\"type\":\"end\"}\n",
            "{\"v\":1,\"id\":\"c\",\"type\":\"error\",\"message\":\"late\"}\n",
        ],
    );
    assert_eq!(
        seen,
        vec![
            Seen::Head(3, 201, vec![]),
            ok(1),
            Seen::Head(2, 200, vec![]),
            failed(4, "missing response record"),
        ]
    );
}

#[test]
fn cuts_and_line_ends_change_nothing() {
    let first = "{\"v\":1,\"id\":\"a\",\"type\":\"chunk\",\"body\":\"x\"}";
    let second = "{\"v\":1,\"id\":\"b\",\"statusCode\":200,\"body\":\"ok\"}";
    let third = "{\"v\":1,\"id\":\"a\",\"type\":\"end\"}";
    let expected = vec![Seen::Head(1, 200, vec![]), chunk(1, "x"), ok(2)];
    let streams = [
        format!("{first}\n{second}\n{third}\n"),
        format!("{first}\r\n{second}\r\n{third}\r\n"),
        format!("\n{first}\n\r\n\n{second}\n{third}\n\n"),
        format!("{first}\n{second}\r\n{third}"),
    ];
    for stream in &streams {
        assert_eq!(run(&["a", "b"], &[stream]), expected);
        for cut in [1, 20, first.len(), first.len() + 1, first.len() + 2, stream.len() - 1] {
            let (head, tail) = stream.split_at(cut);
            assert_eq!(run(&["a", "b"], &[head, tail]), expected);
        }
        let bytes: Vec<&str> = (0..stream.len()).map(|i| &stream[i..i + 1]).collect();
        assert_eq!(run(&["a", "b"], &bytes), expected);
    }
}
