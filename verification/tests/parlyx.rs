use parlyx_streamer::parlyx::{Body, Method, Operation, ParlyxClient};

fn client() -> ParlyxClient {
    ParlyxClient::new("http://host:5555//".to_string(), "key".to_string())
}

#[test]
fn slashes_at_the_end_of_the_base_are_dropped() {
    for base in ["http://h", "http://h/", "http://h///"] {
        assert_eq!(ParlyxClient::new(base.to_string(), String::new()).base_url, "http://h");
    }
    assert_eq!(ParlyxClient::new("//".to_string(), String::new()).base_url, "");
    assert_eq!(ParlyxClient::new("/a/b".to_string(), String::new()).base_url, "/a/b");
}

#[test]
fn start_request() {
    let r = client().start_streaming(
        Some("title".to_string()),
        Some(1),
        Some(4),
        Some("http://hook".to_string()),
    );
    assert_eq!(r.method, Method::Post);
    assert_eq!(r.url, "http://host:5555/api/streaming/start");
    assert_eq!(r.bearer, "key");
    assert_eq!(r.accept, None);
    match r.body {
        Body::StartStreaming(b) => {
            assert_eq!(b.title.as_deref(), Some("title"));
            assert_eq!(b.min_speakers, Some(1));
            assert_eq!(b.max_speakers, Some(4));
            assert_eq!(b.webhook_url.as_deref(), Some("http://hook"));
        }
        other => panic!("{:?}", other),
    }
}

#[test]
fn chunk_request() {
    let r = client().send_chunk("s1", 12, vec![1, 2, 3]);
    assert_eq!(r.method, Method::Post);
    assert_eq!(r.url, "http://host:5555/api/streaming/s1/chunk");
    match r.body {
        Body::Chunk(f) => {
            assert_eq!(f.chunk_index, "12");
            assert_eq!(f.file_name, "chunk_12.wav");
            assert_eq!(f.mime, "audio/wav");
            assert_eq!(f.wav, vec![1, 2, 3]);
        }
        other => panic!("{:?}", other),
    }
}

#[test]
fn chunk_names_are_distinct() {
    let mut names: Vec<String> = [0u64, 1, 9, 10, 11, 100, 101, u64::MAX]
        .iter()
        .map(|i| match client().send_chunk("s", *i, vec![]).body {
            Body::Chunk(f) => f.file_name,
            other => panic!("{:?}", other),
        })
        .collect();
    names.sort();
    names.dedup();
    assert_eq!(names.len(), 8);
}

#[test]
fn finish_and_cancel_requests() {
    let f = client().finish("s1");
    assert_eq!(f.method, Method::Post);
    assert_eq!(f.url, "http://host:5555/api/streaming/s1/finish");
    assert!(matches!(f.body, Body::Empty));
    let c = client().cancel("s1");
    assert_eq!(c.method, Method::Post);
    assert_eq!(c.url, "http://host:5555/api/streaming/s1/cancel");
    assert!(matches!(c.body, Body::Empty));
}

#[test]
fn edit_request() {
    let r = client().update_segment("s1", "g2", None, Some("Ann".to_string()));
    assert_eq!(r.method, Method::Put);
    assert_eq!(r.url, "http://host:5555/api/streaming/s1/segments/g2");
    match r.body {
        Body::SegmentEdit(b) => {
            assert_eq!(b.text, None);
            assert_eq!(b.speaker.as_deref(), Some("Ann"));
        }
        other => panic!("{:?}", other),
    }
}

#[test]
fn events_request() {
    let r = client().open_events("s1");
    assert_eq!(r.method, Method::Get);
    assert_eq!(r.url, "http://host:5555/api/streaming/s1/events");
    assert_eq!(r.accept.as_deref(), Some("text/event-stream"));
    assert_eq!(r.bearer, "key");
    assert!(matches!(r.body, Body::Empty));
}

#[test]
fn success_is_two_hundred_something() {
    for op in [
        Operation::StartStreaming,
        Operation::SendChunk,
        Operation::Finish,
        Operation::UpdateSegment,
        Operation::OpenEvents,
    ] {
        assert!(!op.is_refused(200) && !op.is_refused(299));
        assert!(op.is_refused(199) && op.is_refused(300) && op.is_refused(500));
        assert_eq!(op.check_reply(204, None), Ok(()));
    }
    assert_eq!(Operation::Cancel.check_reply(500, None), Ok(()));
}

#[test]
fn refusals_name_operation_status_and_body() {
    let refused = |op: Operation, status: u16, body: Option<&str>| {
        op.check_reply(status, body.map(|b| b.to_string())).unwrap_err()
    };
    assert_eq!(
        refused(Operation::StartStreaming, 401, Some("bad key")),
        "start_streaming HTTP 401 Unauthorized: bad key"
    );
    assert_eq!(
        refused(Operation::SendChunk, 413, None),
        "send_chunk HTTP 413 Payload Too Large: "
    );
    assert_eq!(refused(Operation::Finish, 500, Some("x")), "finish HTTP 500 Internal Server Error: x");
    assert_eq!(
        refused(Operation::UpdateSegment, 404, Some("")),
        "update_segment HTTP 404 Not Found: "
    );
    assert_eq!(
        refused(Operation::OpenEvents, 799, Some("y")),
        "events HTTP 799 <unknown status code>: y"
    );
}

#[test]
fn refusal_of_a_given_status_text() {
    assert_eq!(Operation::Finish.refusal_of("418 tea", None), "finish HTTP 418 tea: ");
}

#[test]
fn transport_contexts() {
    assert_eq!(Operation::StartStreaming.context(), "POST /streaming/start");
    assert_eq!(Operation::SendChunk.context(), "POST /streaming/:id/chunk");
    assert_eq!(Operation::Finish.context(), "POST /streaming/:id/finish");
    assert_eq!(Operation::Cancel.context(), "POST /streaming/:id/cancel");
    assert_eq!(Operation::UpdateSegment.context(), "PUT segment edit");
    assert_eq!(Operation::OpenEvents.context(), "GET /streaming/:id/events");
}
