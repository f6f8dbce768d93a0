use parlyx_streamer::audio::{start_capture, CaptureHandle};
use parlyx_streamer::parlyx::{
    Body, FinishResponse, HttpRequest, Method, ParlyxClient, StartStreamingResponse, StreamEvent,
};
use parlyx_streamer::session::{
    already_active, fail, set_status, AppState, Emission, EventForwarder, SessionRunner,
    SessionStatus, StreamEmission, TaskAborts,
};
use parlyx_streamer::wav::{encode_wav, WavError};

fn runner() -> SessionRunner {
    let client = ParlyxClient::new("http://h".to_string(), "k".to_string());
    let (opening, _) = SessionRunner::start(client, None, None, None, None, None);
    let (capturing, _) = opening.opened(StartStreamingResponse {
        stream_id: "s".to_string(),
        task_id: "t".to_string(),
    });
    capturing.captured(start_capture())
}

fn form(request: HttpRequest) -> (String, String, Vec<u8>) {
    match request.body {
        Body::Chunk(f) => (f.chunk_index, f.file_name, f.wav),
        other => panic!("{:?}", other),
    }
}

#[test]
fn fail_is_the_error() {
    assert_eq!(fail::<u8>("no".to_string()), Err("no".to_string()));
}

#[test]
fn fresh_state_is_idle() {
    let mut state = AppState::new();
    assert!(matches!(state.status, SessionStatus::Idle));
    assert!(!already_active(&state));
    state.current = Some(runner());
    assert!(already_active(&state));
}

#[test]
fn set_status_stores_and_announces() {
    let mut state = AppState::new();
    let e = set_status(&mut state, SessionStatus::Error { message: "m".to_string() });
    assert_eq!(e.channel(), "parlyx://status");
    assert!(matches!(e, Emission::Status(SessionStatus::Error { message }) if message == "m"));
    assert!(matches!(&state.status, SessionStatus::Error { message } if message == "m"));
}

#[test]
fn opening_a_session() {
    let client = ParlyxClient::new("http://h/".to_string(), "k".to_string());
    let (opening, request) = SessionRunner::start(
        client,
        Some("t".to_string()),
        Some(2),
        None,
        Some("w".to_string()),
        Some("mic".to_string()),
    );
    assert_eq!(request.url, "http://h/api/streaming/start");
    match request.body {
        Body::StartStreaming(b) => {
            assert_eq!(b.title.as_deref(), Some("t"));
            assert_eq!(b.min_speakers, Some(2));
            assert_eq!(b.max_speakers, None);
            assert_eq!(b.webhook_url.as_deref(), Some("w"));
        }
        other => panic!("{:?}", other),
    }
    let (capturing, device) = opening.opened(StartStreamingResponse {
        stream_id: "s".to_string(),
        task_id: "t".to_string(),
    });
    assert_eq!(device.as_deref(), Some("mic"));
    let r = capturing.captured(start_capture());
    assert_eq!((r.stream_id.as_str(), r.task_id.as_str()), ("s", "t"));
    assert_eq!(r.capture, Some(start_capture()));
    assert!(r.chunk_task && r.events_task);
}

#[test]
fn pause_and_resume_set_the_flag() {
    let mut r = runner();
    r.pause();
    assert!(r.capture.unwrap().pause_flag);
    r.resume();
    assert!(!r.capture.unwrap().pause_flag);
    r.capture = None;
    r.pause();
    assert!(r.capture.is_none());
}

#[test]
fn stopping_ends_capture_and_asks_to_finish() {
    let (ending, request) = runner().stop();
    assert_eq!(request.url, "http://h/api/streaming/s/finish");
    assert_eq!(
        ending.capture,
        Some(CaptureHandle { stop_flag: true, pause_flag: false, thread: false })
    );
    assert!(ending.join_capture);
    let (aborts, result) = ending.finished(Ok(FinishResponse { task_id: "t2".to_string() }));
    assert_eq!(aborts, TaskAborts { chunk_task: true, events_task: true });
    assert_eq!(result, Ok("t2".to_string()));
    let (aborts, result) = ending.finished(Err("down".to_string()));
    assert_eq!(aborts, TaskAborts { chunk_task: false, events_task: false });
    assert_eq!(result, Err("finishing parlyx session: down".to_string()));
}

#[test]
fn the_event_stream_of_a_session() {
    let r = runner().events_request();
    assert_eq!(r.method, Method::Get);
    assert_eq!(r.url, "http://h/api/streaming/s/events");
    assert_eq!(r.bearer, "k");
    assert_eq!(r.accept.as_deref(), Some("text/event-stream"));
    assert!(matches!(r.body, Body::Empty));
}

#[test]
fn cancelling_aborts_both_tasks() {
    let (ending, request) = runner().cancel();
    assert_eq!(request.url, "http://h/api/streaming/s/cancel");
    assert!(ending.join_capture);
    assert_eq!(ending.cancelled(), TaskAborts { chunk_task: true, events_task: true });
}

#[test]
fn uploads_are_numbered_without_gaps() {
    let mut u = runner().chunk_uploader();
    let first = u.next_upload(&[1, -1]).unwrap();
    assert_eq!(first.url, "http://h/api/streaming/s/chunk");
    let (index, name, wav) = form(first);
    assert_eq!((index.as_str(), name.as_str()), ("0", "chunk_0.wav"));
    assert_eq!(wav, encode_wav(&[1, -1]).unwrap());
    let sent = u.uploaded(Ok(()));
    assert_eq!(sent.channel(), "parlyx://chunk-sent");
    assert!(matches!(sent, Emission::ChunkSent(1)));

    assert!(u.upload_of(Err(WavError::Sample)).is_none());
    assert_eq!(u.idx, 1);

    assert_eq!(form(u.next_upload(&[]).unwrap()).0, "1");
    let failed = u.uploaded(Err("send_chunk HTTP 500".to_string()));
    assert!(matches!(
        failed,
        Emission::Status(SessionStatus::Error { message })
            if message == "chunk upload failed: send_chunk HTTP 500"
    ));

    assert_eq!(form(u.upload_of(Ok(vec![9])).unwrap()), ("2".to_string(), "chunk_2.wav".to_string(), vec![9]));
    assert!(matches!(u.uploaded(Ok(())), Emission::ChunkSent(2)));
    assert_eq!((u.idx, u.sent), (3, 2));
}

#[test]
fn a_refused_upload_is_not_counted_as_sent() {
    let mut u = runner().chunk_uploader();
    assert_eq!((u.idx, u.sent), (0, 0));
    assert!(matches!(u.uploaded(Err("500".to_string())), Emission::Status(_)));
    assert!(matches!(u.uploaded(Ok(())), Emission::ChunkSent(1)));
    assert_eq!((u.idx, u.sent), (2, 1));
}

#[test]
fn a_failed_opening_says_what_failed() {
    let client = ParlyxClient::new("http://h".to_string(), "k".to_string());
    let (opening, _) = SessionRunner::start(client, None, None, None, None, None);
    assert_eq!(
        opening.failed("start_streaming HTTP 401 Unauthorized: bad key"),
        "starting parlyx streaming session: start_streaming HTTP 401 Unauthorized: bad key"
    );
}

#[test]
fn a_failed_capture_says_what_failed() {
    let client = ParlyxClient::new("http://h".to_string(), "k".to_string());
    let (opening, _) = SessionRunner::start(client, None, None, None, None, None);
    let (capturing, _) = opening.opened(StartStreamingResponse {
        stream_id: "s".to_string(),
        task_id: "t".to_string(),
    });
    assert_eq!(
        capturing.capture_failed("spawn audio thread"),
        "starting audio capture: spawn audio thread"
    );
}

fn shown(emission: StreamEmission<f64>) -> (&'static str, String) {
    let channel = emission.channel();
    let payload = match emission {
        StreamEmission::Received(n) => n.to_string(),
        StreamEmission::Event(StreamEvent::Partial { text }) => text,
        StreamEmission::Event(StreamEvent::Complete) => "complete".to_string(),
        StreamEmission::Event(other) => panic!("{:?}", other),
    };
    (channel, payload)
}

#[test]
fn events_follow_their_count_until_complete() {
    let events: Vec<StreamEvent<f64>> = vec![
        StreamEvent::Partial { text: "hi".to_string() },
        StreamEvent::Complete,
        StreamEvent::Partial { text: "late".to_string() },
    ];
    let mut f = EventForwarder::new::<f64>();
    let mut told = Vec::new();
    let mut finished = Vec::new();
    for event in events {
        let step = f.forward(event);
        told.extend(step.emissions.into_iter().map(shown));
        finished.push(step.finished);
    }
    assert_eq!(
        told,
        vec![
            ("parlyx://event-received", "1".to_string()),
            ("parlyx://stream-event", "hi".to_string()),
            ("parlyx://event-received", "2".to_string()),
            ("parlyx://stream-event", "complete".to_string()),
        ]
    );
    assert_eq!(finished, vec![false, true, true]);
    assert_eq!(f, EventForwarder { received: 2, finished: true });
}

#[test]
fn a_forwarded_event_is_unchanged() {
    let mut step = EventForwarder::new::<f64>().forward(StreamEvent::<f64>::SpeakerRename {
        from: "A".to_string(),
        to: "B".to_string(),
    });
    assert!(!step.finished);
    assert!(matches!(
        step.emissions.pop(),
        Some(StreamEmission::Event(StreamEvent::SpeakerRename { from, to })) if from == "A" && to == "B"
    ));
}

#[test]
fn a_failed_event_stream_is_an_error_status() {
    assert!(matches!(
        EventForwarder::open_failed("refused".to_string()),
        Emission::Status(SessionStatus::Error { message }) if message == "SSE connection failed: refused"
    ));
}
