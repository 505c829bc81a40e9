use signals_sdk::signal::Signal;
use signals_sdk::stream::EventStreamReader;

fn drain(reader: &mut EventStreamReader) -> Vec<(Option<String>, Option<String>)> {
    let mut out = Vec::new();
    while let Some(event) = reader.next_event() {
        out.push((event.id, event.data));
    }
    out
}

#[test]
fn reader_yields_events_of_complete_lines() {
    let mut reader = EventStreamReader::new();
    reader.push_chunk(b"id: 1\ndata: {\"a\":1}\n\nid: 2\ndata: x");
    assert_eq!(drain(&mut reader), vec![(Some("1".to_string()), Some("{\"a\":1}".to_string()))]);
    assert_eq!(reader.latest_id().as_deref(), Some("1"));
    reader.push_chunk(b"\n\n");
    assert_eq!(drain(&mut reader), vec![(Some("2".to_string()), Some("x".to_string()))]);
    assert_eq!(reader.latest_id().as_deref(), Some("2"));
    assert!(reader.next_event().is_none());
}

#[test]
fn reader_handles_crlf_and_keepalives() {
    let mut reader = EventStreamReader::new();
    reader.push_chunk(b": ping\r\n\r\ndata: a\r\n\r\n");
    assert_eq!(drain(&mut reader), vec![(None, Some("a".to_string()))]);
    assert_eq!(reader.latest_id(), None);
}

#[test]
fn latest_id_kept_across_events_without_id() {
    let mut reader = EventStreamReader::new();
    reader.push_chunk(b"id: 5\ndata: a\n\ndata: b\n\n");
    assert_eq!(drain(&mut reader).len(), 2);
    assert_eq!(reader.latest_id().as_deref(), Some("5"));
}

#[test]
fn chunking_does_not_change_events() {
    let body: &[u8] = "event: s\nid: 7\ndata: é€😀\n\ndata: second\n\n".as_bytes();
    let mut whole = EventStreamReader::new();
    whole.push_chunk(body);
    let expected = drain(&mut whole);
    assert_eq!(expected.len(), 2);
    for split in 0..body.len() {
        if std::str::from_utf8(&body[..split]).is_err() {
            continue;
        }
        let mut reader = EventStreamReader::new();
        reader.push_chunk(&body[..split]);
        let mut got = drain(&mut reader);
        reader.push_chunk(&body[split..]);
        got.extend(drain(&mut reader));
        assert_eq!(got, expected, "split at {}", split);
    }
}

#[test]
fn invalid_utf8_is_replaced() {
    let mut reader = EventStreamReader::new();
    reader.push_chunk(b"data: a\xffb\n\n");
    assert_eq!(drain(&mut reader), vec![(None, Some("a\u{fffd}b".to_string()))]);
    // A character split between chunks is decoded per chunk.
    let mut reader = EventStreamReader::new();
    reader.push_chunk(b"data: \xc3");
    reader.push_chunk(b"\xa9\n\n");
    assert_eq!(drain(&mut reader), vec![(None, Some("\u{fffd}\u{fffd}".to_string()))]);
}

#[test]
fn signal_constructors() {
    let s = Signal::new_at("ws".to_string(), "ip.banned".to_string(), "transform:jail:sshd".to_string(), 1234);
    assert_eq!(s.id, 0);
    assert_eq!(s.workspace_id, "ws");
    assert_eq!(s.kind, "ip.banned");
    assert_eq!(s.source, "transform:jail:sshd");
    assert_eq!(s.ts, 1234);
    assert_eq!(s.payload, serde_json::Value::Null);
    let s = s.with_payload(serde_json::Value::Bool(true));
    assert_eq!(s.payload, serde_json::Value::Bool(true));
    assert_eq!(s.ts, 1234);
    let now = Signal::new("w".to_string(), "k".to_string(), "s".to_string());
    assert!(now.ts > 1_600_000_000_000);
    assert_eq!(now.payload, serde_json::Value::Null);
}

fn events_of_chunks(chunks: &[&[u8]]) -> (Vec<(Option<String>, Option<String>)>, Option<String>) {
    let mut reader = EventStreamReader::new();
    let mut out = Vec::new();
    for chunk in chunks {
        reader.push_chunk(chunk);
        out.extend(drain(&mut reader));
    }
    (out, reader.latest_id())
}

#[test]
fn three_chunks_same_as_one() {
    let body: &[u8] = b"id: 1\ndata: a\n\nid: 2\ndata: b\n\ndata: c\n\n";
    let whole = events_of_chunks(&[body]);
    assert_eq!(whole.0.len(), 3);
    assert_eq!(whole.1.as_deref(), Some("2"));
    for i in 0..body.len() {
        for j in i..body.len() {
            let got = events_of_chunks(&[&body[..i], &body[i..j], &body[j..]]);
            assert_eq!(got, whole, "cuts at {} and {}", i, j);
        }
    }
}

#[test]
fn crlf_body_same_as_lf_body() {
    let lf: &[u8] = b"event: s\nid: 4\ndata: x\n\n: ping\ndata: y\n\n";
    let crlf: &[u8] = b"event: s\r\nid: 4\r\ndata: x\r\n\r\n: ping\r\ndata: y\r\n\r\n";
    assert_eq!(events_of_chunks(&[lf]), events_of_chunks(&[crlf]));
    assert_eq!(events_of_chunks(&[lf]).0.len(), 2);
}

#[test]
fn unfinished_tail_is_not_delivered() {
    let complete: &[u8] = b"id: 1\ndata: a\n\n";
    // An event still being written: its lines are complete but no blank line follows.
    let (events, latest) = events_of_chunks(&[complete, b"id: 2\ndata: b\n"]);
    assert_eq!(events, vec![(Some("1".to_string()), Some("a".to_string()))]);
    assert_eq!(latest.as_deref(), Some("1"));
    // An unterminated last line.
    let (events, latest) = events_of_chunks(&[complete, b"id: 3\ndata: c\n\n".split_last().unwrap().1]);
    assert_eq!(events.len(), 1);
    assert_eq!(latest.as_deref(), Some("1"));
    let (events, latest) = events_of_chunks(&[complete, b"data: partial"]);
    assert_eq!(events.len(), 1);
    assert_eq!(latest.as_deref(), Some("1"));
}

#[test]
fn latest_id_is_that_of_last_event_with_id() {
    let (events, latest) = events_of_chunks(&[b"id: 1\ndata: a\n\nid: 9\ndata: b\n\ndata: c\n\nid: 5\n\n"]);
    assert_eq!(events.len(), 3);
    // The trailing `id: 5` never became an event, so it is not the latest id.
    assert_eq!(latest.as_deref(), Some("9"));
}
