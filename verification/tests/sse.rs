use parlyx_streamer::sse::{parse_event, parse_sse, SseBuffer};
use serde_json::Value;

fn some(s: &str) -> Option<String> {
    Some(s.to_string())
}

#[test]
fn data_line_is_payload() {
    assert_eq!(parse_sse("data: {\"type\":\"complete\"}"), some("{\"type\":\"complete\"}"));
    assert_eq!(parse_sse("data:x"), some("x"));
    assert_eq!(parse_sse("data: \t\u{3000}x "), some("x "));
    assert_eq!(parse_sse("data:"), some(""));
}

#[test]
fn data_lines_are_joined() {
    assert_eq!(parse_sse("data: a\ndata: b\ndata: c"), some("a\nb\nc"));
    assert_eq!(parse_sse("data:\ndata:"), some("\n"));
}

#[test]
fn other_lines_are_ignored() {
    assert_eq!(parse_sse("event: message\nid: 7\ndata: a\n: comment\ndata: b\nretry: 1"), some("a\nb"));
    assert_eq!(parse_sse(" data: a"), None);
    assert_eq!(parse_sse("Data: a"), None);
    assert_eq!(parse_sse("dat"), None);
    assert_eq!(parse_sse(": keep-alive"), None);
    assert_eq!(parse_sse(""), None);
    assert_eq!(parse_sse("\n"), None);
}

#[test]
fn carriage_returns_before_line_feeds_are_dropped() {
    assert_eq!(parse_sse("data: a\r\ndata: b\r\n"), some("a\nb"));
    assert_eq!(parse_sse("data: a\ndata: b\n"), some("a\nb"));
    assert_eq!(parse_sse("data: a\r"), some("a\r"));
    assert_eq!(parse_sse("data: a\r\r\n"), some("a\r"));
    assert_eq!(parse_sse("data: a\rdata: b"), some("a\rdata: b"));
}

#[test]
fn events_are_cut_at_blank_lines() {
    let mut buffer = SseBuffer::new();
    assert_eq!(buffer.receive_text("data: a\n\ndata: b\n\ndata: c"), vec!["a", "b"]);
    assert_eq!(buffer.receive_text("\n"), Vec::<String>::new());
    assert_eq!(buffer.receive_text("data: d"), Vec::<String>::new());
    assert_eq!(buffer.receive_text("\n\n: ping\n\n\n\ndata: e\n\n"), vec!["c\nd", "e"]);
}

#[test]
fn three_line_feeds_leave_one() {
    let mut buffer = SseBuffer::new();
    assert_eq!(buffer.receive_text("data: a\n\n\n"), vec!["a"]);
    assert_eq!(buffer.receive_text("data: b\n\n"), vec!["b"]);
}

#[test]
fn pieces_do_not_matter() {
    let text = "data: {\"a\":1}\n\n: x\n\nevent: e\ndata: two\ndata: lines\n\n\n\ndata: z\n\nrest";
    let mut whole = SseBuffer::new();
    let expected = whole.receive_text(text);
    assert_eq!(expected, vec!["{\"a\":1}", "two\nlines", "z"]);
    for cut in 0..=text.len() {
        let mut buffer = SseBuffer::new();
        let mut got = buffer.receive_text(&text[..cut]);
        got.extend(buffer.receive_text(&text[cut..]));
        assert_eq!(got, expected);
    }
    let mut buffer = SseBuffer::new();
    let mut got = Vec::new();
    for byte in text.as_bytes() {
        got.extend(buffer.receive(&[*byte]));
    }
    assert_eq!(got, expected);
}

#[test]
fn a_stream_gives_back_what_was_sent() {
    let payloads = [vec!["{}"], vec!["first", "", "third"], vec![""], vec!["ends in \r"]];
    let mut text = String::new();
    let mut expected = Vec::new();
    for payload in &payloads {
        let sent: Vec<String> = payload.iter().map(|l| format!("data: {}", l)).collect();
        text.push_str(&sent.join("\n"));
        text.push_str("\n\n");
        expected.push(payload.join("\n"));
    }
    assert_eq!(SseBuffer::new().receive_text(&text), expected);
}

#[test]
fn bytes_are_decoded() {
    let mut buffer = SseBuffer::new();
    assert_eq!(buffer.receive("data: żółw\n\n".as_bytes()), vec!["żółw"]);
    assert_eq!(buffer.receive(b"data: a\xff\xfeb\n\n"), vec!["a\u{fffd}\u{fffd}b"]);
}

#[test]
fn whole_characters_may_come_in_pieces() {
    let text = "data: żó\n\ndata: łw\n\n";
    for cut in 0..=text.len() {
        if text.is_char_boundary(cut) {
            let mut buffer = SseBuffer::new();
            let mut got = buffer.receive(&text.as_bytes()[..cut]);
            got.extend(buffer.receive(&text.as_bytes()[cut..]));
            assert_eq!(got, vec!["żó", "łw"]);
        }
    }
}

#[test]
fn a_torn_character_is_replaced() {
    let mut buffer = SseBuffer::new();
    assert_eq!(buffer.receive(b"data: \xc3"), Vec::<String>::new());
    assert_eq!(buffer.receive(b"\xa9\n\n"), vec!["\u{fffd}\u{fffd}"]);
}

fn json(text: &str) -> Option<Value> {
    serde_json::from_str::<Value>(text).ok()
}

fn partial(text: &str) -> Value {
    let mut fields = serde_json::Map::new();
    fields.insert("type".to_string(), Value::from("partial"));
    fields.insert("text".to_string(), Value::from(text));
    Value::Object(fields)
}

#[test]
fn a_written_event_is_read_back() {
    let event = partial("two\nlines, \"quoted\"\r");
    let raw = format!("data: {}", serde_json::to_string(&event).unwrap());
    assert_eq!(parse_event(&raw, json), Some(event));
}

#[test]
fn an_event_without_a_usable_payload_is_nothing() {
    assert_eq!(parse_event(": ping", json), None);
    assert_eq!(parse_event("data: {", json), None);
}

#[test]
fn rejected_payloads_are_skipped() {
    let mut buffer = SseBuffer::new();
    let got = buffer.receive_events(b"data: 1\n\ndata: {\n\n: ping\n\ndata: 2\n\ndata: 3", json);
    assert_eq!(got, vec![Value::from(1), Value::from(2)]);
    assert_eq!(buffer.receive_events(b"\n\n", json), vec![Value::from(3)]);
}

#[test]
fn a_written_stream_is_read_back_in_any_pieces() {
    let events = vec![partial("a"), partial("\n\n"), partial("\u{17c}")];
    let mut text = String::new();
    for event in &events {
        text.push_str(&format!("data: {}\n\n", serde_json::to_string(event).unwrap()));
    }
    let mut buffer = SseBuffer::new();
    let mut got = Vec::new();
    for c in text.chars() {
        got.extend(buffer.receive_events(c.to_string().as_bytes(), json));
    }
    assert_eq!(got, events);
}
