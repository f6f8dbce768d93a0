use parlyx_streamer::audio::start_capture;
use parlyx_streamer::commands::{
    check_inactive, current_state, pause_streaming, resume_streaming, start_completed, start_streaming,
    stop_completed, stop_streaming, update_segment, StartArgs, UpdateSegmentArgs,
};
use parlyx_streamer::parlyx::{Body, FinishResponse, Method, Operation, StartStreamingResponse};
use parlyx_streamer::session::{AppState, Emission, SessionStatus, TaskAborts};
use parlyx_streamer::settings::Settings;

fn settings(base: &str, key: &str) -> Result<Settings, String> {
    Ok(Settings {
        parlyx_server_base_url: base.to_string(),
        api_key: key.to_string(),
        webhook_url: Some("http://hook".to_string()),
    })
}

fn args() -> StartArgs {
    StartArgs {
        title: Some("talk".to_string()),
        min_speakers: Some(1),
        max_speakers: Some(3),
        device_name: Some("mic".to_string()),
    }
}

fn refusal(state: &mut AppState, s: Result<Settings, String>) -> String {
    match start_streaming(state, s, args()) {
        Ok(_) => panic!("not refused"),
        Err(message) => message,
    }
}

fn recording() -> AppState {
    let mut state = AppState::new();
    let starting = start_streaming(&mut state, settings("http://h/", "k"), args()).unwrap();
    let (capturing, _) = starting.opening.opened(StartStreamingResponse {
        stream_id: "s".to_string(),
        task_id: "t".to_string(),
    });
    start_completed(&mut state, Ok(capturing.captured(start_capture()))).unwrap();
    state
}

fn names(status: &SessionStatus) -> (&'static str, &str, &str) {
    match status {
        SessionStatus::Recording { stream_id, task_id } => ("recording", stream_id, task_id),
        SessionStatus::Paused { stream_id, task_id } => ("paused", stream_id, task_id),
        _ => ("", "", ""),
    }
}

#[test]
fn a_start_announces_and_requests() {
    let mut state = AppState::new();
    let starting = start_streaming(&mut state, settings("http://h/", "k"), args()).unwrap();
    assert!(matches!(starting.announce, Emission::Status(SessionStatus::Starting)));
    assert!(matches!(current_state(&state), SessionStatus::Starting));
    assert!(state.current.is_none());
    assert_eq!(starting.request.url, "http://h/api/streaming/start");
    assert_eq!(starting.request.bearer, "k");
    assert_eq!(starting.opening.device_name.as_deref(), Some("mic"));
    match starting.request.body {
        Body::StartStreaming(b) => {
            assert_eq!(b.title.as_deref(), Some("talk"));
            assert_eq!((b.min_speakers, b.max_speakers), (Some(1), Some(3)));
            assert_eq!(b.webhook_url.as_deref(), Some("http://hook"));
        }
        other => panic!("{:?}", other),
    }
}

#[test]
fn a_start_may_be_refused() {
    let mut state = AppState::new();
    assert_eq!(refusal(&mut state, Err("disk".to_string())), "disk");
    assert_eq!(refusal(&mut state, settings("", "")), "parlyx_server_base_url is not set");
    assert_eq!(refusal(&mut state, settings("http://h", "")), "api_key is not set");
    assert!(matches!(current_state(&state), SessionStatus::Idle));
}

#[test]
fn a_failed_start_leaves_the_state_and_can_be_repeated() {
    let mut state = AppState::new();
    let starting = start_streaming(&mut state, settings("http://h/", "k"), args()).unwrap();
    let refusal = Operation::StartStreaming.check_reply(401, Some("bad key".to_string())).unwrap_err();
    let message = starting.opening.failed(&refusal);
    assert_eq!(
        start_completed(&mut state, Err(message)).unwrap_err(),
        "starting parlyx streaming session: start_streaming HTTP 401 Unauthorized: bad key"
    );
    assert!(state.current.is_none());
    assert!(matches!(state.status, SessionStatus::Starting));
    assert_eq!(check_inactive(&state), Ok(()));
    assert!(start_streaming(&mut state, settings("http://h/", "k"), args()).is_ok());
}

#[test]
fn one_session_at_a_time() {
    let mut state = recording();
    assert_eq!(check_inactive(&state), Err("a session is already active".to_string()));
    assert_eq!(refusal(&mut state, Err("disk".to_string())), "a session is already active");
    assert_eq!(refusal(&mut state, settings("http://h", "k")), "a session is already active");
    pause_streaming(&mut state).unwrap();
    assert_eq!(refusal(&mut state, settings("http://h", "k")), "a session is already active");
    assert_eq!(names(&state.status), ("paused", "s", "t"));
}

#[test]
fn resume_undoes_pause() {
    let mut state = recording();
    assert_eq!(names(&current_state(&state)), ("recording", "s", "t"));
    let (status, announce) = pause_streaming(&mut state).unwrap();
    assert_eq!(names(&status), ("paused", "s", "t"));
    assert!(matches!(announce, Emission::Status(s) if names(&s) == ("paused", "s", "t")));
    assert!(state.current.as_ref().unwrap().capture.unwrap().pause_flag);
    pause_streaming(&mut state).unwrap();
    let (status, announce) = resume_streaming(&mut state).unwrap();
    assert_eq!(names(&status), ("recording", "s", "t"));
    assert!(matches!(announce, Emission::Status(s) if names(&s) == ("recording", "s", "t")));
    assert_eq!(state.current.as_ref().unwrap().capture, Some(start_capture()));
    assert_eq!(names(&state.status), ("recording", "s", "t"));
}

#[test]
fn no_session_no_pause() {
    let mut state = AppState::new();
    assert_eq!(pause_streaming(&mut state).unwrap_err(), "no active session");
    assert_eq!(resume_streaming(&mut state).unwrap_err(), "no active session");
    assert!(matches!(state.status, SessionStatus::Idle));
}

#[test]
fn a_stop_finishes_the_session() {
    let mut state = recording();
    let (announce, stopped) = stop_streaming(&mut state);
    assert!(matches!(announce, Emission::Status(SessionStatus::Stopping)));
    assert!(state.current.is_none());
    let (ending, request) = stopped.unwrap();
    assert_eq!(request.url, "http://h/api/streaming/s/finish");
    let outcome = stop_completed(&mut state, ending, Ok(FinishResponse { task_id: "t".to_string() }));
    assert_eq!(outcome.aborts, TaskAborts { chunk_task: true, events_task: true });
    let (status, _) = outcome.result.unwrap();
    assert!(matches!(status, SessionStatus::Stopped { task_id: Some(id) } if id == "t"));
    assert!(matches!(&state.status, SessionStatus::Stopped { task_id: Some(id) } if id == "t"));
    assert!(start_streaming(&mut state, settings("http://h", "k"), args()).is_ok());
}

#[test]
fn a_failed_stop_stays_stopping() {
    let mut state = recording();
    let (_, stopped) = stop_streaming(&mut state);
    let (ending, _) = stopped.unwrap();
    let refusal = Operation::Finish.check_reply(500, Some("boom".to_string())).unwrap_err();
    let outcome = stop_completed(&mut state, ending, Err(refusal));
    assert_eq!(outcome.aborts, TaskAborts { chunk_task: false, events_task: false });
    assert_eq!(outcome.result.unwrap_err(), "finishing parlyx session: finish HTTP 500 Internal Server Error: boom");
    assert!(matches!(state.status, SessionStatus::Stopping));
}

#[test]
fn stopping_nothing_still_announces() {
    let mut state = AppState::new();
    let (announce, stopped) = stop_streaming(&mut state);
    assert!(matches!(announce, Emission::Status(SessionStatus::Stopping)));
    assert_eq!(stopped.unwrap_err(), "no active session");
    assert!(matches!(state.status, SessionStatus::Stopping));
}

#[test]
fn an_edit_goes_to_the_configured_server() {
    let edit = || UpdateSegmentArgs {
        stream_id: "s".to_string(),
        segment_id: "g".to_string(),
        text: Some("hello".to_string()),
        speaker: None,
    };
    let r = update_segment(settings("http://h//", "k"), edit()).unwrap();
    assert_eq!(r.method, Method::Put);
    assert_eq!(r.url, "http://h/api/streaming/s/segments/g");
    assert_eq!(r.bearer, "k");
    match r.body {
        Body::SegmentEdit(b) => {
            assert_eq!(b.text.as_deref(), Some("hello"));
            assert_eq!(b.speaker, None);
        }
        other => panic!("{:?}", other),
    }
    assert_eq!(update_segment(Err("disk".to_string()), edit()).unwrap_err(), "disk");
}
