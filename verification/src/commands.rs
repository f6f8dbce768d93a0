//! The commands of the web UI, as far as they decide something: which are
//! refused, and what they make of the application's state.
//!
//! Starting and stopping have outside work in the middle, and so come in two
//! parts each.

use vstd::prelude::*;

use crate::parlyx::{
    api_url, is_request, law_segment_urls, stream_path, without_slashes, Body, FinishResponse,
    HttpRequest, Method, ParlyxClient, SegmentEditRequest, StartStreamingRequest,
};
use crate::session::{
    already_active, capture_paused_is, consistent, ending_of, fail, set_status, with_pause_flag,
    AppState, Emission, SessionEnding, SessionOpening, SessionRunner, SessionStatus, TaskAborts,
};
use crate::settings::Settings;

verus! {

/// What the user asks for when starting a session.
#[derive(Debug)]
pub struct StartArgs {
    pub title: Option<String>,
    pub min_speakers: Option<u32>,
    pub max_speakers: Option<u32>,
    pub device_name: Option<String>,
}

/// The segment that the user edits, and the edit.
#[derive(Debug)]
pub struct UpdateSegmentArgs {
    pub stream_id: String,
    pub segment_id: String,
    pub text: Option<String>,
    pub speaker: Option<String>,
}

/// A session that is being started: what to announce, and the request to make.
#[derive(Debug)]
pub struct Starting {
    pub announce: Emission,
    pub opening: SessionOpening,
    pub request: HttpRequest,
}

/// Why a start is refused, if it is: a session is active already, the settings
/// could not be loaded, or one that is needed is empty. The first of these
/// counts.
pub open spec fn start_refusal(state: AppState, settings: Result<Settings, String>) -> Option<
    Seq<char>,
> {
    if state.current is Some {
        Some("a session is already active"@)
    } else {
        match settings {
            Err(message) => Some(message@),
            Ok(s) => if s.parlyx_server_base_url@.len() == 0 {
                Some("parlyx_server_base_url is not set"@)
            } else if s.api_key@.len() == 0 {
                Some("api_key is not set"@)
            } else {
                None
            },
        }
    }
}

/// Refuses a start while a session is active, before the settings are looked
/// at.
pub fn check_inactive(state: &AppState) -> (r: Result<(), String>)
    ensures
        match state.current {
            Some(_) => r matches Err(message) && message@ == "a session is already active"@,
            None => r is Ok,
        },
{
    if already_active(state) {
        fail("a session is already active".to_owned())
    } else {
        Ok(())
    }
}

/// The state while a session is being started.
pub open spec fn while_starting(state: AppState) -> AppState {
    AppState { status: SessionStatus::Starting, ..state }
}

/// Begins to start a session. A start that is refused changes nothing;
/// otherwise the status becomes `Starting`.
pub fn start_streaming(
    state: &mut AppState,
    settings: Result<Settings, String>,
    args: StartArgs,
) -> (r: Result<Starting, String>)
    ensures
        consistent(*old(state)) ==> consistent(*final(state)),
        r is Ok <==> old(state).current is None && (settings matches Ok(s)
            && s.parlyx_server_base_url@.len() > 0 && s.api_key@.len() > 0),
        match start_refusal(*old(state), settings) {
            Some(reason) => {
                &&& r matches Err(message) && message@ == reason
                &&& *final(state) == *old(state)
            },
            None => {
                &&& *final(state) == while_starting(*old(state))
                &&& final(state).status == SessionStatus::Starting
                &&& final(state).current == old(state).current
                &&& settings matches Ok(s) && r matches Ok(starting) && {
                    &&& starting.announce == Emission::Status(SessionStatus::Starting)
                    &&& starting.opening.client.base_url@ == without_slashes(
                        s.parlyx_server_base_url@,
                    )
                    &&& starting.opening.client.base_url@.is_prefix_of(s.parlyx_server_base_url@)
                    &&& starting.opening.client.api_key == s.api_key
                    &&& starting.request.method == Method::Post
                    &&& starting.request.url@ == starting.opening.client.base_url@ + "/api"@
                        + "/streaming/start"@
                    &&& starting.request.bearer == s.api_key
                    &&& starting.opening.device_name == args.device_name
                    &&& is_request(
                        starting.request,
                        Method::Post,
                        starting.opening.client,
                        "/streaming/start"@,
                    )
                    &&& starting.request.body == Body::StartStreaming(
                        StartStreamingRequest {
                            title: args.title,
                            min_speakers: args.min_speakers,
                            max_speakers: args.max_speakers,
                            webhook_url: s.webhook_url,
                        },
                    )
                }
            },
        },
{
    match check_inactive(state) {
        Ok(()) => {},
        Err(message) => return fail(message),
    }
    let s: Settings = match settings {
        Ok(s) => s,
        Err(message) => return fail(message),
    };
    if s.parlyx_server_base_url.as_str().is_empty() {
        return fail("parlyx_server_base_url is not set".to_owned());
    }
    if s.api_key.as_str().is_empty() {
        return fail("api_key is not set".to_owned());
    }
    let announce: Emission = set_status(state, SessionStatus::Starting);
    let client: ParlyxClient = ParlyxClient::new(s.parlyx_server_base_url, s.api_key);
    let (opening, request) = SessionRunner::start(
        client,
        args.title,
        args.min_speakers,
        args.max_speakers,
        s.webhook_url,
        args.device_name,
    );
    Ok(Starting { announce, opening, request })
}

/// The status of a session that records.
pub open spec fn recording(runner: SessionRunner) -> SessionStatus {
    SessionStatus::Recording { stream_id: runner.stream_id, task_id: runner.task_id }
}

/// The status of a session that is paused.
pub open spec fn paused(runner: SessionRunner) -> SessionStatus {
    SessionStatus::Paused { stream_id: runner.stream_id, task_id: runner.task_id }
}

/// The state once a session has been started.
pub open spec fn after_start(runner: SessionRunner) -> AppState {
    AppState { current: Some(runner), status: recording(runner) }
}

/// Completes the start of a session: it becomes the active one, and records.
/// A start that failed leaves the state as it is, and says what failed.
pub fn start_completed(state: &mut AppState, outcome: Result<SessionRunner, String>) -> (r: Result<
    (SessionStatus, Emission),
    String,
>)
    ensures
        match outcome {
            Ok(runner) => {
                &&& *final(state) == after_start(runner)
                &&& final(state).current == Some(runner)
                &&& final(state).status == (SessionStatus::Recording {
                    stream_id: runner.stream_id,
                    task_id: runner.task_id,
                })
                &&& capture_paused_is(runner, false) ==> consistent(*final(state))
                &&& r == Ok::<(SessionStatus, Emission), String>(
                    (recording(runner), Emission::Status(recording(runner))),
                )
            },
            Err(message) => {
                &&& *final(state) == *old(state)
                &&& r == Err::<(SessionStatus, Emission), String>(message)
            },
        },
{
    let runner: SessionRunner = match outcome {
        Ok(runner) => runner,
        Err(message) => return fail(message),
    };
    let status: SessionStatus = SessionStatus::Recording {
        stream_id: runner.stream_id.clone(),
        task_id: runner.task_id.clone(),
    };
    state.current = Some(runner);
    let announce: Emission = set_status(state, status.clone());
    Ok((status, announce))
}

/// The state after a pause.
pub open spec fn after_pause(state: AppState) -> AppState {
    match state.current {
        Some(runner) => AppState {
            current: Some(with_pause_flag(runner, true)),
            status: paused(runner),
        },
        None => state,
    }
}

/// The state after a resumption.
pub open spec fn after_resume(state: AppState) -> AppState {
    match state.current {
        Some(runner) => AppState {
            current: Some(with_pause_flag(runner, false)),
            status: recording(runner),
        },
        None => state,
    }
}

/// Pauses the active session.
pub fn pause_streaming(state: &mut AppState) -> (r: Result<(SessionStatus, Emission), String>)
    ensures
        *final(state) == after_pause(*old(state)),
        match old(state).current {
            Some(runner) => {
                &&& final(state).status == (SessionStatus::Paused {
                    stream_id: runner.stream_id,
                    task_id: runner.task_id,
                })
                &&& final(state).current matches Some(p) && p.stream_id == runner.stream_id
                    && p.client == runner.client && (p.capture matches Some(c) ==> c.pause_flag)
                &&& r matches Ok((status, announce)) && status == final(state).status && announce
                    == Emission::Status(status)
            },
            None => r is Err && *final(state) == *old(state),
        },
        consistent(*old(state)) ==> consistent(*final(state)),
        match old(state).current {
            Some(runner) => r == Ok::<(SessionStatus, Emission), String>(
                (paused(runner), Emission::Status(paused(runner))),
            ),
            None => r matches Err(message) && message@ == "no active session"@,
        },
{
    let taken: Option<SessionRunner> = state.current.take();
    let mut runner: SessionRunner = match taken {
        Some(runner) => runner,
        None => return fail("no active session".to_owned()),
    };
    runner.pause();
    let status: SessionStatus = SessionStatus::Paused {
        stream_id: runner.stream_id.clone(),
        task_id: runner.task_id.clone(),
    };
    state.current = Some(runner);
    let announce: Emission = set_status(state, status.clone());
    Ok((status, announce))
}

/// Resumes the active session.
pub fn resume_streaming(state: &mut AppState) -> (r: Result<(SessionStatus, Emission), String>)
    ensures
        *final(state) == after_resume(*old(state)),
        match old(state).current {
            Some(runner) => {
                &&& final(state).status == (SessionStatus::Recording {
                    stream_id: runner.stream_id,
                    task_id: runner.task_id,
                })
                &&& final(state).current matches Some(p) && p.stream_id == runner.stream_id
                    && p.client == runner.client && (p.capture matches Some(c) ==> !c.pause_flag)
                &&& r matches Ok((status, announce)) && status == final(state).status && announce
                    == Emission::Status(status)
            },
            None => r is Err && *final(state) == *old(state),
        },
        consistent(*old(state)) ==> consistent(*final(state)),
        match old(state).current {
            Some(runner) => r == Ok::<(SessionStatus, Emission), String>(
                (recording(runner), Emission::Status(recording(runner))),
            ),
            None => r matches Err(message) && message@ == "no active session"@,
        },
{
    let taken: Option<SessionRunner> = state.current.take();
    let mut runner: SessionRunner = match taken {
        Some(runner) => runner,
        None => return fail("no active session".to_owned()),
    };
    runner.resume();
    let status: SessionStatus = SessionStatus::Recording {
        stream_id: runner.stream_id.clone(),
        task_id: runner.task_id.clone(),
    };
    state.current = Some(runner);
    let announce: Emission = set_status(state, status.clone());
    Ok((status, announce))
}

/// The state after a stop, until the server has answered.
pub open spec fn after_stop(state: AppState) -> AppState {
    AppState { current: None, status: SessionStatus::Stopping }
}

/// Begins to stop the active session, which is active no longer. `Stopping`
/// is announced even where there is no session to stop.
pub fn stop_streaming(state: &mut AppState) -> (r: (
    Emission,
    Result<(SessionEnding, HttpRequest), String>,
))
    ensures
        *final(state) == after_stop(*old(state)),
        final(state).current is None,
        final(state).status == SessionStatus::Stopping,
        consistent(*final(state)),
        r.0 == Emission::Status(SessionStatus::Stopping),
        match old(state).current {
            Some(runner) => r.1 matches Ok((ending, request)) && {
                &&& ending == ending_of(runner)
                &&& match runner.capture {
                    Some(c) => {
                        &&& ending.capture matches Some(stopped) && stopped.stop_flag
                            && !stopped.thread
                        &&& ending.join_capture == c.thread
                    },
                    None => ending.capture is None && !ending.join_capture,
                }
                &&& ending.chunk_task == runner.chunk_task
                &&& ending.events_task == runner.events_task
                &&& request.method == Method::Post
                &&& request.url@ == runner.client.base_url@ + "/api/streaming/"@
                    + runner.stream_id@ + "/finish"@
                &&& request.bearer == runner.client.api_key
                &&& is_request(
                    request,
                    Method::Post,
                    runner.client,
                    stream_path(runner.stream_id@, "/finish"@),
                )
                &&& request.body == Body::Empty
            },
            None => r.1 matches Err(message) && message@ == "no active session"@,
        },
{
    let announce: Emission = set_status(state, SessionStatus::Stopping);
    let taken: Option<SessionRunner> = state.current.take();
    match taken {
        Some(runner) => (announce, Ok(runner.stop())),
        None => (announce, fail("no active session".to_owned())),
    }
}

/// The outcome of a stop: which tasks to abort, and the status to announce.
#[derive(Debug)]
pub struct StopOutcome {
    pub aborts: TaskAborts,
    pub result: Result<(SessionStatus, Emission), String>,
}

/// Completes a stop with the server's answer. Where the server did not answer
/// as it should, the status stays as it is, and the result says what failed.
pub fn stop_completed(
    state: &mut AppState,
    ending: SessionEnding,
    answer: Result<FinishResponse, String>,
) -> (r: StopOutcome)
    ensures
        final(state).current == old(state).current,
        consistent(*old(state)) ==> consistent(*final(state)),
        match answer {
            Ok(response) => {
                let stopped = SessionStatus::Stopped { task_id: Some(response.task_id) };
                &&& final(state).status == stopped
                &&& r.result == Ok::<(SessionStatus, Emission), String>(
                    (stopped, Emission::Status(stopped)),
                )
                &&& r.aborts == (TaskAborts {
                    chunk_task: ending.chunk_task,
                    events_task: ending.events_task,
                })
            },
            Err(error) => {
                &&& *final(state) == *old(state)
                &&& r.result matches Err(message) && message@ == "finishing parlyx session: "@
                    + error@
                &&& r.aborts == (TaskAborts { chunk_task: false, events_task: false })
            },
        },
{
    let (aborts, result) = ending.finished(answer);
    match result {
        Ok(task_id) => {
            let status: SessionStatus = SessionStatus::Stopped { task_id: Some(task_id) };
            let announce: Emission = set_status(state, status.clone());
            StopOutcome { aborts, result: Ok((status, announce)) }
        },
        Err(message) => StopOutcome { aborts, result: fail(message) },
    }
}

/// Edits a transcript segment, at the server that the settings name.
pub fn update_segment(settings: Result<Settings, String>, args: UpdateSegmentArgs) -> (r: Result<
    HttpRequest,
    String,
>)
    ensures
        match settings {
            Ok(s) => r matches Ok(request) && {
                &&& request.method == Method::Put
                &&& request.url@ == api_url(
                    without_slashes(s.parlyx_server_base_url@),
                    stream_path(args.stream_id@, "/segments/"@ + args.segment_id@),
                )
                &&& request.url@ == without_slashes(s.parlyx_server_base_url@)
                    + "/api/streaming/"@ + args.stream_id@ + "/segments/"@ + args.segment_id@
                &&& request.bearer == s.api_key
                &&& request.accept is None
                &&& request.body == Body::SegmentEdit(
                    SegmentEditRequest { text: args.text, speaker: args.speaker },
                )
            },
            Err(message) => r == Err::<HttpRequest, String>(message),
        },
{
    let s: Settings = match settings {
        Ok(s) => s,
        Err(message) => return fail(message),
    };
    proof {
        law_segment_urls(
            without_slashes(s.parlyx_server_base_url@),
            args.stream_id@,
            args.segment_id@,
        );
    }
    let client: ParlyxClient = ParlyxClient::new(s.parlyx_server_base_url, s.api_key);
    Ok(
        client.update_segment(
            args.stream_id.as_str(),
            args.segment_id.as_str(),
            args.text,
            args.speaker,
        ),
    )
}

/// The status last announced.
pub fn current_state(state: &AppState) -> (r: SessionStatus)
    ensures
        r == state.status,
{
    state.status.clone()
}

/// Resuming undoes a pause: a session that records is, after a pause and a
/// resumption, as it was.
pub proof fn law_resume_undoes_pause(state: AppState)
    requires
        consistent(state),
        state.status is Recording,
    ensures
        after_resume(after_pause(state)) == state,
{
}

/// Pausing and resuming are idempotent, and only the latest of them counts.
pub proof fn law_last_of_pause_and_resume_counts(state: AppState)
    ensures
        after_pause(after_pause(state)) == after_pause(state),
        after_resume(after_resume(state)) == after_resume(state),
        after_pause(after_resume(state)) == after_pause(state),
        after_resume(after_pause(state)) == after_resume(state),
{
}

/// Pausing a paused session, or resuming one that records, changes nothing.
pub proof fn law_redundant_commands_change_nothing(state: AppState)
    requires
        consistent(state),
    ensures
        state.status is Paused ==> after_pause(state) == state,
        state.status is Recording ==> after_resume(state) == state,
{
}

/// Pausing and resuming change neither which session is active nor anything of
/// it but the pause flag of its capture.
pub proof fn law_pause_keeps_session(state: AppState)
    ensures
        match state.current {
            Some(runner) => {
                &&& after_pause(state).current matches Some(p) && with_pause_flag(p, false)
                    == with_pause_flag(runner, false) && p.stream_id == runner.stream_id
                    && p.task_id == runner.task_id && p.client == runner.client
                &&& after_resume(state).current matches Some(p) && with_pause_flag(p, false)
                    == with_pause_flag(runner, false) && p.stream_id == runner.stream_id
                    && p.task_id == runner.task_id && p.client == runner.client
            },
            None => after_pause(state) == state && after_resume(state) == state,
        },
{
}

/// Stopping frees the way: once a session has been stopped, a start is not
/// refused for a session that is active.
pub proof fn law_stop_makes_room(state: AppState, settings: Settings)
    requires
        settings.parlyx_server_base_url@.len() > 0,
        settings.api_key@.len() > 0,
    ensures
        start_refusal(after_stop(state), Ok(settings)) is None,
{
}

/// A start that failed can be repeated: it is refused no more than before.
pub proof fn law_failed_start_makes_room(state: AppState, settings: Result<Settings, String>)
    ensures
        start_refusal(while_starting(state), settings) == start_refusal(state, settings),
{
}

/// One session at a time: while a session is active, paused or not, every
/// start is refused, with the same message whatever the settings.
pub proof fn law_one_session_at_a_time(runner: SessionRunner, settings: Result<Settings, String>)
    ensures
        start_refusal(after_start(runner), settings) == Some("a session is already active"@),
        start_refusal(after_pause(after_start(runner)), settings) == Some(
            "a session is already active"@,
        ),
{
}

/// A start is let through just where no session is active, the settings could
/// be loaded, and neither server nor key is empty. Otherwise the first of these
/// that fails is the reason.
pub proof fn law_what_lets_a_start_through(state: AppState, settings: Result<Settings, String>)
    ensures
        start_refusal(state, settings) is None <==> state.current is None && (settings matches Ok(s)
            && s.parlyx_server_base_url@.len() > 0 && s.api_key@.len() > 0),
        state.current is Some ==> start_refusal(state, settings) == Some(
            "a session is already active"@,
        ),
        state.current is None ==> (settings matches Err(message) ==> start_refusal(state, settings)
            == Some(message@)),
        state.current is None ==> (settings matches Ok(s) && s.parlyx_server_base_url@.len() == 0
            ==> start_refusal(state, settings) == Some("parlyx_server_base_url is not set"@)),
        state.current is None ==> (settings matches Ok(s) && s.parlyx_server_base_url@.len() > 0
            && s.api_key@.len() == 0 ==> start_refusal(state, settings) == Some(
            "api_key is not set"@,
        )),
{
}

/// Starting announces itself and leaves the active session alone; a session
/// that was started is the active one, and records under its own ids.
pub proof fn law_start_makes_the_session_active(state: AppState, runner: SessionRunner)
    ensures
        while_starting(state).status == SessionStatus::Starting,
        while_starting(state).current == state.current,
        after_start(runner).current == Some(runner),
        after_start(runner).status == (SessionStatus::Recording {
            stream_id: runner.stream_id,
            task_id: runner.task_id,
        }),
{
}

/// A pause pauses capture and a resumption lets it go on, whatever the state
/// before, and the status says so under the session's own ids. Nothing else of
/// the session changes. Without a session neither does anything.
pub proof fn law_pause_pauses_and_resume_resumes(state: AppState, runner: SessionRunner)
    requires
        state.current == Some(runner),
    ensures
        after_pause(state).status == (SessionStatus::Paused {
            stream_id: runner.stream_id,
            task_id: runner.task_id,
        }),
        after_resume(state).status == (SessionStatus::Recording {
            stream_id: runner.stream_id,
            task_id: runner.task_id,
        }),
        after_pause(state).current matches Some(p) && (p == SessionRunner {
            capture: p.capture,
            ..runner
        }) && (match runner.capture {
            Some(c) => p.capture matches Some(d) && d.pause_flag && d.stop_flag == c.stop_flag
                && d.thread == c.thread,
            None => p.capture is None,
        }),
        after_resume(state).current matches Some(p) && (p == SessionRunner {
            capture: p.capture,
            ..runner
        }) && (match runner.capture {
            Some(c) => p.capture matches Some(d) && !d.pause_flag && d.stop_flag == c.stop_flag
                && d.thread == c.thread,
            None => p.capture is None,
        }),
{
}

/// Without an active session, pausing and resuming leave the state alone.
pub proof fn law_no_session_nothing_to_pause(state: AppState)
    requires
        state.current is None,
    ensures
        after_pause(state) == state,
        after_resume(state) == state,
{
}

/// Stopping leaves no active session, whatever the state before.
pub proof fn law_stop_leaves_no_session(state: AppState)
    ensures
        after_stop(state).current is None,
        after_stop(state).status == SessionStatus::Stopping,
{
}

} // verus!
