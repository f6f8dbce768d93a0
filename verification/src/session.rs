//! The life of a recording session: opening it, shipping chunks, following
//! the event stream, pausing, stopping and cancelling.
//!
//! A session is opened in steps, each of which needs the outcome of outside
//! work: [`SessionRunner::start`] names the request, [`SessionOpening::opened`]
//! takes the server's answer, [`SessionCapturing::captured`] takes the handle
//! of the started capture. A step that fails ends the opening there.

use vstd::prelude::*;

use crate::audio::{CaptureHandle, TARGET_SAMPLE_RATE};
use crate::parlyx::{
    api_url, chunk_file_name, is_request, law_stream_urls, stream_path, Body, FinishResponse,
    HttpRequest, Method, ParlyxClient, StartStreamingRequest, StartStreamingResponse, StreamEvent,
};
use crate::text::decimal;
use crate::wav::{
    encode_wav, fits_wav, sink_closes, sink_opens, sink_takes, wav_file, wav_outcome, WavError,
};

verus! {

/// Event name under which the server's events reach the web UI.
pub const EVENT_STREAM: &'static str = "parlyx://stream-event";

/// Event name of status updates for the web UI.
pub const EVENT_STATUS: &'static str = "parlyx://status";

/// Event name of the count of chunks that the server has taken so far.
pub const EVENT_CHUNK_SENT: &'static str = "parlyx://chunk-sent";

/// Event name of the count of events received so far.
pub const EVENT_EVENT_RECEIVED: &'static str = "parlyx://event-received";

/// Where a session stands.
#[derive(Debug)]
pub enum SessionStatus {
    Idle,
    Starting,
    Recording { stream_id: String, task_id: String },
    Paused { stream_id: String, task_id: String },
    Stopping,
    Stopped { task_id: Option<String> },
    Error { message: String },
}

impl Clone for SessionStatus {
    fn clone(&self) -> (r: Self)
        ensures
            r == *self,
    {
        match self {
            SessionStatus::Idle => SessionStatus::Idle,
            SessionStatus::Starting => SessionStatus::Starting,
            SessionStatus::Recording { stream_id, task_id } => SessionStatus::Recording {
                stream_id: stream_id.clone(),
                task_id: task_id.clone(),
            },
            SessionStatus::Paused { stream_id, task_id } => SessionStatus::Paused {
                stream_id: stream_id.clone(),
                task_id: task_id.clone(),
            },
            SessionStatus::Stopping => SessionStatus::Stopping,
            SessionStatus::Stopped { task_id } => SessionStatus::Stopped {
                task_id: match task_id {
                    Some(id) => Some(id.clone()),
                    None => None,
                },
            },
            SessionStatus::Error { message } => SessionStatus::Error { message: message.clone() },
        }
    }
}

/// Something to tell the web UI.
#[derive(Debug)]
pub enum Emission {
    /// The session's status, or an error to show beside it.
    Status(SessionStatus),
    /// How many chunks the server has taken.
    ChunkSent(u64),
}

/// The event name an emission goes under.
pub open spec fn emission_channel(e: Emission) -> Seq<char> {
    match e {
        Emission::Status(_) => EVENT_STATUS@,
        Emission::ChunkSent(_) => EVENT_CHUNK_SENT@,
    }
}

impl Emission {
    /// The event name the emission goes under.
    pub fn channel(&self) -> (r: &'static str)
        ensures
            r@ == emission_channel(*self),
            *self is Status ==> r@ == "parlyx://status"@,
            *self is ChunkSent ==> r@ == "parlyx://chunk-sent"@,
    {
        match self {
            Emission::Status(_) => EVENT_STATUS,
            Emission::ChunkSent(_) => EVENT_CHUNK_SENT,
        }
    }
}

/// An active session.
#[derive(Debug)]
pub struct SessionRunner {
    pub stream_id: String,
    pub task_id: String,
    /// The capture that feeds the session.
    pub capture: Option<CaptureHandle>,
    /// Whether a task ships chunks.
    pub chunk_task: bool,
    /// Whether a task follows the event stream.
    pub events_task: bool,
    pub client: ParlyxClient,
}

/// The state of the application: the active session, if any, and the status
/// last announced.
#[derive(Debug)]
pub struct AppState {
    pub current: Option<SessionRunner>,
    pub status: SessionStatus,
}

/// Whether the pause flag of a session's capture, if it has one, is as given.
pub open spec fn capture_paused_is(runner: SessionRunner, paused: bool) -> bool {
    runner.capture matches Some(c) ==> c.pause_flag == paused
}

/// Whether the status agrees with the active session: a status that names a
/// session names the active one, and capture is paused just when the status
/// says so.
pub open spec fn consistent(state: AppState) -> bool {
    match state.status {
        SessionStatus::Recording { stream_id, task_id } => state.current matches Some(runner)
            && runner.stream_id == stream_id && runner.task_id == task_id && capture_paused_is(
            runner,
            false,
        ),
        SessionStatus::Paused { stream_id, task_id } => state.current matches Some(runner)
            && runner.stream_id == stream_id && runner.task_id == task_id && capture_paused_is(
            runner,
            true,
        ),
        _ => true,
    }
}

impl AppState {
    /// No session, and nothing announced yet.
    pub fn new() -> (r: Self)
        ensures
            r.current is None,
            r.status == SessionStatus::Idle,
            consistent(r),
    {
        AppState { current: None, status: SessionStatus::Idle }
    }
}

/// Sets the status, and announces it.
pub fn set_status(state: &mut AppState, status: SessionStatus) -> (r: Emission)
    ensures
        final(state).status == status,
        final(state).current == old(state).current,
        r == Emission::Status(status),
{
    state.status = status.clone();
    Emission::Status(status)
}

/// Whether a session is active.
pub fn already_active(state: &AppState) -> (r: bool)
    ensures
        r == (state.current is Some),
{
    state.current.is_some()
}

/// The error with the given message.
pub fn fail<T>(msg: String) -> (r: Result<T, String>)
    ensures
        r == Err::<T, String>(msg),
{
    Err(msg)
}

/// A text with another before it.
fn prefixed(prefix: &str, text: &str) -> (r: String)
    ensures
        r@ == prefix@ + text@,
{
    let mut out: String = prefix.to_owned();
    out.append(text);
    out
}

/// A session whose opening request is under way.
#[derive(Debug)]
pub struct SessionOpening {
    pub client: ParlyxClient,
    pub device_name: Option<String>,
}

/// A session that the server has opened, and whose capture is to be started.
#[derive(Debug)]
pub struct SessionCapturing {
    pub client: ParlyxClient,
    pub stream_id: String,
    pub task_id: String,
}

impl SessionOpening {
    /// Takes the server's answer. The result says which device to capture
    /// from.
    pub fn opened(self, response: StartStreamingResponse) -> (r: (
        SessionCapturing,
        Option<String>,
    ))
        ensures
            r.0 == (SessionCapturing {
                client: self.client,
                stream_id: response.stream_id,
                task_id: response.task_id,
            }),
            r.1 == self.device_name,
    {
        (
            SessionCapturing {
                client: self.client,
                stream_id: response.stream_id,
                task_id: response.task_id,
            },
            self.device_name,
        )
    }

    /// Gives the opening up, where the request failed: no capture is started.
    /// The result says what failed.
    pub fn failed(self, error: &str) -> (r: String)
        ensures
            r@ == "starting parlyx streaming session: "@ + error@,
    {
        prefixed("starting parlyx streaming session: ", error)
    }
}

impl SessionCapturing {
    /// Takes the handle of the started capture: the session is active, and its
    /// two tasks run.
    pub fn captured(self, capture: CaptureHandle) -> (r: SessionRunner)
        ensures
            r == (SessionRunner {
                stream_id: self.stream_id,
                task_id: self.task_id,
                capture: Some(capture),
                chunk_task: true,
                events_task: true,
                client: self.client,
            }),
    {
        SessionRunner {
            stream_id: self.stream_id,
            task_id: self.task_id,
            capture: Some(capture),
            chunk_task: true,
            events_task: true,
            client: self.client,
        }
    }

    /// Gives the opening up, where capture could not be started: neither task
    /// runs. The result says what failed.
    pub fn capture_failed(self, error: &str) -> (r: String)
        ensures
            r@ == "starting audio capture: "@ + error@,
    {
        prefixed("starting audio capture: ", error)
    }
}

/// What is left to do for a session that ends: which tasks to abort once the
/// server has been told.
#[derive(Debug, Clone, Copy, PartialEq, Eq, Structural)]
pub struct SessionEnding {
    /// The capture, its stop flag set, where there was one.
    pub capture: Option<CaptureHandle>,
    /// Whether a capture thread is to be joined before the server is told.
    pub join_capture: bool,
    pub chunk_task: bool,
    pub events_task: bool,
}

/// Which tasks to abort.
#[derive(Debug, Clone, Copy, PartialEq, Eq, Structural)]
pub struct TaskAborts {
    pub chunk_task: bool,
    pub events_task: bool,
}

/// A capture handle after its stop.
pub open spec fn stopped_capture(capture: Option<CaptureHandle>) -> Option<CaptureHandle> {
    match capture {
        Some(c) => Some(CaptureHandle { stop_flag: true, thread: false, ..c }),
        None => None,
    }
}

/// What is left to do for a session that ends.
pub open spec fn ending_of(runner: SessionRunner) -> SessionEnding {
    SessionEnding {
        capture: stopped_capture(runner.capture),
        join_capture: runner.capture matches Some(c) && c.thread,
        chunk_task: runner.chunk_task,
        events_task: runner.events_task,
    }
}

/// Stops a capture, where there is one. The flag says whether a thread is to
/// be joined.
fn stop_capture(capture: Option<CaptureHandle>) -> (r: (Option<CaptureHandle>, bool))
    ensures
        r.0 == stopped_capture(capture),
        r.1 == (capture matches Some(c) && c.thread),
{
    match capture {
        Some(c) => {
            let mut handle: CaptureHandle = c;
            let join: bool = handle.stop();
            (Some(handle), join)
        },
        None => (None, false),
    }
}

/// The capture of a runner after its pause flag has been set or cleared.
pub open spec fn with_pause_flag(runner: SessionRunner, paused: bool) -> SessionRunner {
    SessionRunner {
        capture: match runner.capture {
            Some(c) => Some(CaptureHandle { pause_flag: paused, ..c }),
            None => None,
        },
        ..runner
    }
}

impl SessionRunner {
    /// Begins to open a session: names the request to make.
    pub fn start(
        client: ParlyxClient,
        title: Option<String>,
        min_speakers: Option<u32>,
        max_speakers: Option<u32>,
        webhook_url: Option<String>,
        device_name: Option<String>,
    ) -> (r: (SessionOpening, HttpRequest))
        ensures
            r.0 == (SessionOpening { client, device_name }),
            is_request(r.1, Method::Post, client, "/streaming/start"@),
            r.1.method == Method::Post,
            r.1.url@ == client.base_url@ + "/api"@ + "/streaming/start"@,
            r.1.bearer == client.api_key,
            r.1.body == Body::StartStreaming(
                StartStreamingRequest { title, min_speakers, max_speakers, webhook_url },
            ),
    {
        let request: HttpRequest = client.start_streaming(
            title,
            min_speakers,
            max_speakers,
            webhook_url,
        );
        (SessionOpening { client, device_name }, request)
    }

    /// Discards what the device delivers from now on.
    pub fn pause(&mut self)
        ensures
            *final(self) == with_pause_flag(*old(self), true),
            *final(self) == (SessionRunner { capture: final(self).capture, ..*old(self) }),
            match old(self).capture {
                Some(c) => final(self).capture == Some(CaptureHandle { pause_flag: true, ..c }),
                None => final(self).capture is None,
            },
    {
        match self.capture {
            Some(c) => {
                let mut handle: CaptureHandle = c;
                handle.pause();
                self.capture = Some(handle);
            },
            None => {},
        }
    }

    /// Keeps what the device delivers from now on.
    pub fn resume(&mut self)
        ensures
            *final(self) == with_pause_flag(*old(self), false),
            *final(self) == (SessionRunner { capture: final(self).capture, ..*old(self) }),
            match old(self).capture {
                Some(c) => final(self).capture == Some(CaptureHandle { pause_flag: false, ..c }),
                None => final(self).capture is None,
            },
    {
        match self.capture {
            Some(c) => {
                let mut handle: CaptureHandle = c;
                handle.resume();
                self.capture = Some(handle);
            },
            None => {},
        }
    }

    /// Ends the session: capture stops, then the server is asked to finish.
    pub fn stop(self) -> (r: (SessionEnding, HttpRequest))
        ensures
            r.0 == ending_of(self),
            is_request(r.1, Method::Post, self.client, stream_path(self.stream_id@, "/finish"@)),
            r.1.method == Method::Post,
            r.1.url@ == self.client.base_url@ + "/api/streaming/"@ + self.stream_id@ + "/finish"@,
            r.1.bearer == self.client.api_key,
            r.1.accept is None,
            r.1.body == Body::Empty,
            r.0.chunk_task == self.chunk_task,
            r.0.events_task == self.events_task,
            match self.capture {
                Some(c) => {
                    &&& r.0.capture matches Some(stopped) && stopped.stop_flag && !stopped.thread
                        && stopped.pause_flag == c.pause_flag
                    &&& r.0.join_capture == c.thread
                },
                None => r.0.capture is None && !r.0.join_capture,
            },
    {
        let (capture, join_capture) = stop_capture(self.capture);
        let request: HttpRequest = self.client.finish(self.stream_id.as_str());
        (
            SessionEnding {
                capture,
                join_capture,
                chunk_task: self.chunk_task,
                events_task: self.events_task,
            },
            request,
        )
    }

    /// Discards the session: capture stops, then the server is told.
    pub fn cancel(self) -> (r: (SessionEnding, HttpRequest))
        ensures
            r.0 == ending_of(self),
            is_request(r.1, Method::Post, self.client, stream_path(self.stream_id@, "/cancel"@)),
            r.1.method == Method::Post,
            r.1.url@ == self.client.base_url@ + "/api/streaming/"@ + self.stream_id@ + "/cancel"@,
            r.1.bearer == self.client.api_key,
            r.1.accept is None,
            r.1.body == Body::Empty,
            r.0.chunk_task == self.chunk_task,
            r.0.events_task == self.events_task,
            match self.capture {
                Some(c) => {
                    &&& r.0.capture matches Some(stopped) && stopped.stop_flag && !stopped.thread
                        && stopped.pause_flag == c.pause_flag
                    &&& r.0.join_capture == c.thread
                },
                None => r.0.capture is None && !r.0.join_capture,
            },
    {
        let (capture, join_capture) = stop_capture(self.capture);
        let request: HttpRequest = self.client.cancel(self.stream_id.as_str());
        (
            SessionEnding {
                capture,
                join_capture,
                chunk_task: self.chunk_task,
                events_task: self.events_task,
            },
            request,
        )
    }

    /// What the chunk task starts from.
    pub fn chunk_uploader(&self) -> (r: ChunkUploader)
        ensures
            r == (ChunkUploader {
                client: self.client,
                stream_id: self.stream_id,
                idx: 0,
                sent: 0,
            }),
            has_uploaded(r, Seq::empty()),
    {
        ChunkUploader {
            client: self.client.clone(),
            stream_id: self.stream_id.clone(),
            idx: 0,
            sent: 0,
        }
    }

    /// What the events task starts with: the request for the session's event
    /// stream.
    pub fn events_request(&self) -> (r: HttpRequest)
        ensures
            r.method == Method::Get,
            r.url@ == api_url(self.client.base_url@, stream_path(self.stream_id@, "/events"@)),
            r.url@ == self.client.base_url@ + "/api/streaming/"@ + self.stream_id@ + "/events"@,
            r.bearer == self.client.api_key,
            r.accept matches Some(accept) && accept@ == "text/event-stream"@,
            r.body == Body::Empty,
    {
        self.client.open_events(self.stream_id.as_str())
    }
}

impl SessionEnding {
    /// After the server has answered the request to finish: both tasks are
    /// aborted, and the task that the server names is the session's result.
    /// A request that failed leaves the tasks alone, to end by themselves, and
    /// the result says what failed.
    pub fn finished(self, answer: Result<FinishResponse, String>) -> (r: (
        TaskAborts,
        Result<String, String>,
    ))
        ensures
            match answer {
                Ok(response) => {
                    &&& r.0 == (TaskAborts {
                        chunk_task: self.chunk_task,
                        events_task: self.events_task,
                    })
                    &&& r.1 == Ok::<String, String>(response.task_id)
                },
                Err(error) => {
                    &&& r.0 == (TaskAborts { chunk_task: false, events_task: false })
                    &&& r.1 matches Err(message) && message@ == "finishing parlyx session: "@
                        + error@
                },
            },
    {
        match answer {
            Ok(response) => (
                TaskAborts { chunk_task: self.chunk_task, events_task: self.events_task },
                Ok(response.task_id),
            ),
            Err(error) => (
                TaskAborts { chunk_task: false, events_task: false },
                Err(prefixed("finishing parlyx session: ", error.as_str())),
            ),
        }
    }

    /// After the request to cancel, whatever came of it: both tasks are
    /// aborted.
    pub fn cancelled(self) -> (r: TaskAborts)
        ensures
            r == (TaskAborts { chunk_task: self.chunk_task, events_task: self.events_task }),
    {
        TaskAborts { chunk_task: self.chunk_task, events_task: self.events_task }
    }
}

/// The task that ships chunks.
#[derive(Debug)]
pub struct ChunkUploader {
    pub client: ParlyxClient,
    pub stream_id: String,
    /// The index under which the next chunk goes.
    pub idx: u64,
    /// How many chunks the server has taken.
    pub sent: u64,
}

/// Whether `r` uploads `wav` as the uploader's next chunk.
pub open spec fn uploads(u: ChunkUploader, r: HttpRequest, wav: Seq<u8>) -> bool {
    &&& is_request(r, Method::Post, u.client, stream_path(u.stream_id@, "/chunk"@))
    &&& r.body matches Body::Chunk(form) && {
        &&& form.chunk_index@ == decimal(u.idx as nat)
        &&& form.file_name@ == chunk_file_name(u.idx)
        &&& form.mime@ == "audio/wav"@
        &&& form.wav@ == wav
    }
}

/// What became of a chunk of samples.
pub enum ChunkOutcome {
    /// It could not be encoded, and was skipped.
    Skipped,
    /// It was encoded and sent, and the server took it or not.
    Uploaded { taken: bool },
}

/// Where the chunk task stands.
pub struct UploadRun {
    /// The indices under which chunks were uploaded.
    pub indices: Seq<int>,
    /// The next index.
    pub next: int,
    /// How many uploads the server took.
    pub sent: int,
}

/// Where the chunk task stands once it has gone through all of `chunks`.
pub open spec fn upload_run(chunks: Seq<ChunkOutcome>) -> UploadRun
    decreases chunks.len(),
{
    if chunks.len() == 0 {
        UploadRun { indices: Seq::empty(), next: 0, sent: 0 }
    } else {
        let run = upload_run(chunks.drop_last());
        match chunks.last() {
            ChunkOutcome::Skipped => run,
            ChunkOutcome::Uploaded { taken } => UploadRun {
                indices: run.indices.push(run.next),
                next: run.next + 1,
                sent: run.sent + if taken {
                    1int
                } else {
                    0int
                },
            },
        }
    }
}

/// Whether the chunk task has gone through these chunks.
pub open spec fn has_uploaded(u: ChunkUploader, chunks: Seq<ChunkOutcome>) -> bool {
    &&& u.idx == upload_run(chunks).next
    &&& u.sent == upload_run(chunks).sent
}

impl ChunkUploader {
    /// The upload of a chunk that has been encoded, or none where that failed:
    /// such a chunk is skipped and takes no index.
    pub fn upload_of(&self, encoded: Result<Vec<u8>, WavError>) -> (r: Option<HttpRequest>)
        ensures
            match encoded {
                Ok(wav) => r matches Some(request) && uploads(*self, request, wav@),
                Err(_) => r is None,
            },
            match encoded {
                Ok(wav) => r matches Some(request) && request.method == Method::Post
                    && request.bearer == self.client.api_key
                    && request.url@ == self.client.base_url@ + "/api/streaming/"@
                    + self.stream_id@ + "/chunk"@ && (request.body matches Body::Chunk(form)
                    && form.chunk_index@ == decimal(self.idx as nat) && form.wav@ == wav@),
                Err(_) => r is None,
            },
    {
        match encoded {
            Ok(wav) => Some(self.client.send_chunk(self.stream_id.as_str(), self.idx, wav)),
            Err(_) => None,
        }
    }

    /// Encodes a chunk of samples, and names its upload. A chunk is skipped
    /// just where it cannot be encoded.
    pub fn next_upload(&self, samples: &[i16]) -> (r: Option<HttpRequest>)
        requires
            fits_wav(samples@.len()),
        ensures
            match wav_outcome(samples@) {
                Ok(wav) => r matches Some(request) && uploads(*self, request, wav),
                Err(_) => r is None,
            },
            r matches Some(request) ==> uploads(
                *self,
                request,
                wav_file(1, TARGET_SAMPLE_RATE, samples@),
            ),
            r is Some <==> {
                &&& sink_opens(1, TARGET_SAMPLE_RATE, 16)
                &&& forall|i: int|
                    0 <= i < samples@.len() ==> sink_takes(
                        1,
                        TARGET_SAMPLE_RATE,
                        samples@.take(i),
                        #[trigger] samples@[i],
                    )
                &&& sink_closes(1, TARGET_SAMPLE_RATE, samples@)
            },
            r matches Some(request) ==> request.method == Method::Post
                    && request.bearer == self.client.api_key
                    && request.url@ == self.client.base_url@ + "/api/streaming/"@
                    + self.stream_id@ + "/chunk"@ && (request.body matches Body::Chunk(form)
                    && form.chunk_index@ == decimal(self.idx as nat) && form.wav@ == wav_file(
                1,
                TARGET_SAMPLE_RATE,
                samples@,
            )),
    {
        self.upload_of(encode_wav(samples))
    }

    /// Takes the outcome of an upload. The index is used up either way. An
    /// upload that the server took is counted, and the count announced; one
    /// that failed is not repeated, and is reported as an error.
    pub fn uploaded(&mut self, outcome: Result<(), String>) -> (r: Emission)
        requires
            old(self).idx < u64::MAX,
            old(self).sent <= old(self).idx,
        ensures
            final(self).idx == old(self).idx + 1,
            final(self).sent == old(self).sent + (if outcome is Ok {
                1int
            } else {
                0int
            }),
            final(self).sent <= final(self).idx,
            final(self).client == old(self).client,
            final(self).stream_id == old(self).stream_id,
            match outcome {
                Ok(()) => r == Emission::ChunkSent(final(self).sent),
                Err(error) => r matches Emission::Status(SessionStatus::Error { message })
                    && message@ == "chunk upload failed: "@ + error@,
            },
            forall|chunks: Seq<ChunkOutcome>|
                has_uploaded(*old(self), chunks) ==> #[trigger] has_uploaded(
                    *final(self),
                    chunks.push(ChunkOutcome::Uploaded { taken: outcome is Ok }),
                ),
    {
        assert(forall|chunks: Seq<ChunkOutcome>, last: ChunkOutcome| #[trigger]
            chunks.push(last).drop_last() =~= chunks);
        self.idx = self.idx + 1;
        match outcome {
            Ok(()) => {
                self.sent = self.sent + 1;
                Emission::ChunkSent(self.sent)
            },
            Err(error) => {
                let message: String = prefixed("chunk upload failed: ", error.as_str());
                Emission::Status(SessionStatus::Error { message })
            },
        }
    }
}

/// The task that follows the event stream.
#[derive(Debug, Clone, Copy, PartialEq, Eq, Structural)]
pub struct EventForwarder {
    /// How many events it has passed on.
    pub received: u64,
    /// Whether the last of them ended the stream.
    pub finished: bool,
}

/// Something to tell the web UI about the event stream.
#[derive(Debug)]
pub enum StreamEmission<N> {
    /// How many events have been received.
    Received(u64),
    /// An event, as it came.
    Event(StreamEvent<N>),
}

/// The event name an emission about the event stream goes under.
pub open spec fn stream_channel<N>(e: StreamEmission<N>) -> Seq<char> {
    match e {
        StreamEmission::Received(_) => EVENT_EVENT_RECEIVED@,
        StreamEmission::Event(_) => EVENT_STREAM@,
    }
}

impl<N> StreamEmission<N> {
    /// The event name the emission goes under.
    pub fn channel(&self) -> (r: &'static str)
        ensures
            r@ == stream_channel(*self),
            *self is Received ==> r@ == "parlyx://event-received"@,
            *self is Event ==> r@ == "parlyx://stream-event"@,
    {
        match self {
            StreamEmission::Received(_) => EVENT_EVENT_RECEIVED,
            StreamEmission::Event(_) => EVENT_STREAM,
        }
    }
}

/// What to do about an event: what to tell the web UI, in this order, and
/// whether the task ends.
#[derive(Debug)]
pub struct ForwardStep<N> {
    pub emissions: Vec<StreamEmission<N>>,
    pub finished: bool,
}

/// Whether the stream is done with this event.
pub open spec fn ends_stream<N>(event: StreamEvent<N>) -> bool {
    event is Complete
}

/// Whether one of `events` has ended the stream.
pub open spec fn stream_ended<N>(events: Seq<StreamEvent<N>>) -> bool {
    exists|i: int| 0 <= i < events.len() && ends_stream(#[trigger] events[i])
}

/// The events that are passed on when `events` arrive: the task ends with the
/// first `Complete`.
pub open spec fn forward_run<N>(events: Seq<StreamEvent<N>>) -> Seq<StreamEvent<N>>
    decreases events.len(),
{
    if events.len() == 0 {
        Seq::empty()
    } else if stream_ended(events.drop_last()) {
        forward_run(events.drop_last())
    } else {
        forward_run(events.drop_last()).push(events.last())
    }
}

/// What the web UI is told when `events` arrive: before each event that is
/// passed on, how many it makes.
pub open spec fn emission_run<N>(events: Seq<StreamEvent<N>>) -> Seq<StreamEmission<N>> {
    Seq::new(
        2 * forward_run(events).len(),
        |i: int|
            if i % 2 == 0 {
                StreamEmission::Received((i / 2 + 1) as u64)
            } else {
                StreamEmission::Event(forward_run(events)[i / 2])
            },
    )
}

/// Whether the task has seen these events arrive.
pub open spec fn has_forwarded<N>(f: EventForwarder, events: Seq<StreamEvent<N>>) -> bool {
    &&& f.received == forward_run(events).len()
    &&& f.finished == stream_ended(events)
}

/// One more event, after all the others.
proof fn lemma_forward_push<N>(events: Seq<StreamEvent<N>>, event: StreamEvent<N>)
    ensures
        stream_ended(events.push(event)) == (stream_ended(events) || ends_stream(event)),
        forward_run(events.push(event)) == (if stream_ended(events) {
            forward_run(events)
        } else {
            forward_run(events).push(event)
        }),
{
    let more = events.push(event);
    assert(more.drop_last() =~= events);
    if stream_ended(events) {
        let i = choose|i: int| 0 <= i < events.len() && ends_stream(#[trigger] events[i]);
        assert(more[i] == events[i]);
    }
    if ends_stream(event) {
        assert(more[events.len() as int] == event);
    }
    if stream_ended(more) {
        let i = choose|i: int| 0 <= i < more.len() && ends_stream(#[trigger] more[i]);
        if i < events.len() {
            assert(events[i] == more[i]);
        }
    }
}

impl EventForwarder {
    /// A task that has not received an event yet. `N` is the type of the times
    /// in the events to come.
    pub fn new<N>() -> (r: Self)
        ensures
            r == (EventForwarder { received: 0, finished: false }),
            has_forwarded(r, Seq::<StreamEvent<N>>::empty()),
    {
        EventForwarder { received: 0, finished: false }
    }

    /// Takes an event from the stream. The count is announced, then the event
    /// passed on. The stream is done with `Complete`: nothing is told of what
    /// comes after it.
    pub fn forward<N>(&mut self, event: StreamEvent<N>) -> (r: ForwardStep<N>)
        requires
            old(self).received < u64::MAX,
        ensures
            if old(self).finished {
                &&& *final(self) == *old(self)
                &&& r.emissions@ == Seq::<StreamEmission<N>>::empty()
            } else {
                &&& *final(self) == (EventForwarder {
                    received: (old(self).received + 1) as u64,
                    finished: ends_stream(event),
                })
                &&& r.emissions@ == seq![
                    StreamEmission::Received((old(self).received + 1) as u64),
                    StreamEmission::Event(event),
                ]
            },
            r.finished == final(self).finished,
            !old(self).finished ==> final(self).finished == (event is Complete),
            !old(self).finished && (event is Transcript || event is Partial || event is Diarization
                || event is SpeakerRename || event is Error) ==> !final(self).finished,
            forall|events: Seq<StreamEvent<N>>|
                has_forwarded(*old(self), events) ==> {
                    &&& #[trigger] has_forwarded(*final(self), events.push(event))
                    &&& emission_run(events.push(event)) == emission_run(events) + r.emissions@
                },
    {
        let ghost before = *self;
        let mut emissions: Vec<StreamEmission<N>> = Vec::new();
        if !self.finished {
            self.received = self.received + 1;
            self.finished = match event {
                StreamEvent::Complete => true,
                _ => false,
            };
            emissions.push(StreamEmission::Received(self.received));
            emissions.push(StreamEmission::Event(event));
        }
        proof {
            assert forall|events: Seq<StreamEvent<N>>| has_forwarded(before, events) implies {
                &&& #[trigger] has_forwarded(*self, events.push(event))
                &&& emission_run(events.push(event)) == emission_run(events) + emissions@
            } by {
                lemma_forward_push(events, event);
                assert(emission_run(events.push(event)) =~= emission_run(events) + emissions@);
            }
        }
        ForwardStep { emissions, finished: self.finished }
    }

    /// What to announce where the event stream could not be opened.
    pub fn open_failed(error: String) -> (r: Emission)
        ensures
            r matches Emission::Status(SessionStatus::Error { message }) && message@
                == "SSE connection failed: "@ + error@,
    {
        let message: String = prefixed("SSE connection failed: ", error.as_str());
        Emission::Status(SessionStatus::Error { message })
    }
}

/// Uploads are numbered from zero without gaps or repetitions, whichever
/// chunks are skipped and whichever uploads fail. A skipped chunk leaves the
/// chunk task where it was.
pub proof fn law_uploads_are_numbered(chunks: Seq<ChunkOutcome>)
    ensures
        upload_run(chunks.push(ChunkOutcome::Skipped)) == upload_run(chunks),
        upload_run(chunks).next == upload_run(chunks).indices.len(),
        forall|k: int|
            0 <= k < upload_run(chunks).indices.len() ==> #[trigger] upload_run(chunks).indices[k]
                == k,
    decreases chunks.len(),
{
    assert(chunks.push(ChunkOutcome::Skipped).drop_last() =~= chunks);
    if chunks.len() > 0 {
        law_uploads_are_numbered(chunks.drop_last());
    }
}

/// The count that is announced is the number of chunks that the server has
/// taken: neither a skipped chunk nor a failed upload adds to it.
pub proof fn law_only_taken_chunks_are_counted(chunks: Seq<ChunkOutcome>)
    ensures
        upload_run(chunks).sent == chunks.filter(
            |c: ChunkOutcome| c == ChunkOutcome::Uploaded { taken: true },
        ).len(),
        upload_run(chunks).sent <= upload_run(chunks).next,
    decreases chunks.len(),
{
    reveal(Seq::filter);
    if chunks.len() > 0 {
        law_only_taken_chunks_are_counted(chunks.drop_last());
    }
}

/// Events are passed on in order and unchanged, up to and with the first
/// `Complete`, and none after it. While there was none, all are passed on.
pub proof fn law_forwarded_until_complete<N>(events: Seq<StreamEvent<N>>)
    ensures
        forward_run(events).is_prefix_of(events),
        forall|i: int|
            0 <= i < forward_run(events).len() - 1 ==> !ends_stream(
                #[trigger] forward_run(events)[i],
            ),
        if stream_ended(events) {
            forward_run(events).len() > 0 && ends_stream(forward_run(events).last())
        } else {
            forward_run(events) == events
        },
    decreases events.len(),
{
    if events.len() > 0 {
        let before = events.drop_last();
        let last = events.last();
        law_forwarded_until_complete(before);
        lemma_forward_push(before, last);
        assert(before.push(last) =~= events);
        if !stream_ended(before) {
            assert(forward_run(events) =~= events);
            assert forall|i: int| 0 <= i < forward_run(events).len() - 1 implies !ends_stream(
                #[trigger] forward_run(events)[i],
            ) by {
                assert(before[i] == events[i]);
            }
        } else {
            assert(forward_run(events) =~= events.take(forward_run(events).len() as int));
        }
    }
}

/// Nothing that arrives after `Complete` is passed on or counted.
pub proof fn law_nothing_follows_complete<N>(
    events: Seq<StreamEvent<N>>,
    late: Seq<StreamEvent<N>>,
)
    requires
        stream_ended(events),
    ensures
        forward_run(events + late) == forward_run(events),
        emission_run(events + late) == emission_run(events),
        stream_ended(events + late),
    decreases late.len(),
{
    if late.len() == 0 {
        assert(events + late =~= events);
    } else {
        let fewer = late.drop_last();
        law_nothing_follows_complete(events, fewer);
        lemma_forward_push(events + fewer, late.last());
        assert((events + fewer).push(late.last()) =~= events + late);
        assert(emission_run(events + late) =~= emission_run(events));
    }
}

/// Every emission goes under the name of its kind.
pub proof fn law_emission_names<N>(e: Emission, s: StreamEmission<N>)
    ensures
        e is Status ==> emission_channel(e) == "parlyx://status"@,
        e is ChunkSent ==> emission_channel(e) == "parlyx://chunk-sent"@,
        s is Received ==> stream_channel(s) == "parlyx://event-received"@,
        s is Event ==> stream_channel(s) == "parlyx://stream-event"@,
{
}

/// Only `Complete` ends the stream: while none has come, every event is passed
/// on, each right after its count, and the task goes on.
pub proof fn law_only_complete_ends_the_stream<N>(events: Seq<StreamEvent<N>>)
    requires
        forall|i: int| 0 <= i < events.len() ==> !((#[trigger] events[i]) is Complete),
    ensures
        !stream_ended(events),
        forward_run(events) == events,
        emission_run(events).len() == 2 * events.len(),
        forall|k: int|
            0 <= k < events.len() ==> emission_run(events)[2 * k] == StreamEmission::<N>::Received(
                (k + 1) as u64,
            ) && emission_run(events)[2 * k + 1] == StreamEmission::Event(#[trigger] events[k]),
{
    law_forwarded_until_complete(events);
    assert(!stream_ended(events));
    assert forall|k: int| 0 <= k < events.len() implies emission_run(events)[2 * k]
        == StreamEmission::<N>::Received((k + 1) as u64) && emission_run(events)[2 * k + 1]
        == StreamEmission::Event(#[trigger] events[k]) by {
        assert((2 * k) / 2 == k && (2 * k + 1) / 2 == k);
    }
}

/// `Complete` is the last event that is passed on: what came before it is, and
/// nothing that comes after it.
pub proof fn law_complete_is_the_last_event<N>(
    events: Seq<StreamEvent<N>>,
    late: Seq<StreamEvent<N>>,
)
    requires
        forall|i: int| 0 <= i < events.len() ==> !((#[trigger] events[i]) is Complete),
    ensures
        stream_ended(events.push(StreamEvent::Complete) + late),
        forward_run(events.push(StreamEvent::Complete) + late) == events.push(
            StreamEvent::Complete,
        ),
        emission_run(events.push(StreamEvent::Complete) + late) == emission_run(events) + seq![
            StreamEmission::Received((events.len() + 1) as u64),
            StreamEmission::Event(StreamEvent::Complete),
        ],
{
    let done = events.push(StreamEvent::<N>::Complete);
    law_only_complete_ends_the_stream(events);
    lemma_forward_push(events, StreamEvent::Complete);
    law_nothing_follows_complete(done, late);
    assert(emission_run(done) =~= emission_run(events) + seq![
        StreamEmission::Received((events.len() + 1) as u64),
        StreamEmission::Event(StreamEvent::Complete),
    ]);
}

/// The task's counter is the number of events that came up to `Complete`, and
/// the task has ended just where `Complete` came.
pub proof fn law_forwarder_counts_until_complete<N>(
    f: EventForwarder,
    events: Seq<StreamEvent<N>>,
    late: Seq<StreamEvent<N>>,
)
    requires
        forall|i: int| 0 <= i < events.len() ==> !((#[trigger] events[i]) is Complete),
    ensures
        has_forwarded(f, events) <==> f.received == events.len() && !f.finished,
        has_forwarded(f, events.push(StreamEvent::Complete) + late) <==> f.received == events.len()
            + 1 && f.finished,
{
    law_only_complete_ends_the_stream(events);
    law_complete_is_the_last_event(events, late);
}

/// Ending a session always ends its capture, paused or not: the stop flag is
/// set, and its thread, where it has one, is joined once. Both tasks are named
/// as they run. A session without a capture has none to end.
pub proof fn law_ending_always_stops_capture(runner: SessionRunner)
    ensures
        runner.capture matches Some(c) ==> (ending_of(runner).capture matches Some(stopped)
            && stopped.stop_flag && !stopped.thread && stopped.pause_flag == c.pause_flag),
        runner.capture matches Some(c) ==> ending_of(runner).join_capture == c.thread,
        runner.capture is None ==> ending_of(runner).capture is None && !ending_of(
            runner,
        ).join_capture,
        ending_of(runner).chunk_task == runner.chunk_task,
        ending_of(runner).events_task == runner.events_task,
        runner.capture is Some ==> (stopped_capture(runner.capture) matches Some(stopped)
            && stopped.stop_flag && !stopped.thread),
{
}

/// Setting the pause flag sets it, and changes nothing else of the session.
pub proof fn law_pause_flag_is_set(runner: SessionRunner, paused: bool)
    ensures
        with_pause_flag(runner, paused).stream_id == runner.stream_id,
        with_pause_flag(runner, paused).task_id == runner.task_id,
        with_pause_flag(runner, paused).client == runner.client,
        with_pause_flag(runner, paused).chunk_task == runner.chunk_task,
        with_pause_flag(runner, paused).events_task == runner.events_task,
        runner.capture is None ==> with_pause_flag(runner, paused).capture is None,
        runner.capture matches Some(c) ==> (with_pause_flag(runner, paused).capture matches Some(d)
            && d.pause_flag == paused && d.stop_flag == c.stop_flag && d.thread == c.thread),
{
}

/// A status that names a session names the active one, whose capture is paused
/// just where the status says so.
pub proof fn law_status_names_the_active_session(state: AppState)
    requires
        consistent(state),
    ensures
        state.status matches SessionStatus::Recording { stream_id, task_id } ==> (
        state.current matches Some(runner) && runner.stream_id == stream_id && runner.task_id
            == task_id && (runner.capture matches Some(c) ==> !c.pause_flag)),
        state.status matches SessionStatus::Paused { stream_id, task_id } ==> (
        state.current matches Some(runner) && runner.stream_id == stream_id && runner.task_id
            == task_id && (runner.capture matches Some(c) ==> c.pause_flag)),
{
}

/// An upload goes to the session's chunk resource with the client's key, and
/// carries the next index in decimal and the whole file.
pub proof fn law_uploads_carry_the_whole_file(u: ChunkUploader, r: HttpRequest, wav: Seq<u8>)
    requires
        uploads(u, r, wav),
    ensures
        r.method == Method::Post,
        r.url@ == u.client.base_url@ + "/api/streaming/"@ + u.stream_id@ + "/chunk"@,
        r.bearer == u.client.api_key,
        r.accept is None,
        r.body matches Body::Chunk(form) && form.chunk_index@ == decimal(u.idx as nat)
            && form.file_name@ == "chunk_"@ + decimal(u.idx as nat) + ".wav"@ && form.mime@
            == "audio/wav"@ && form.wav@ == wav,
{
    law_stream_urls(u.client.base_url@, u.stream_id@, "/chunk"@);
}

/// The next index is the number of chunks that were uploaded, and the count of
/// chunks sent the number of those that the server took.
pub proof fn law_uploader_counts_uploads(u: ChunkUploader, chunks: Seq<ChunkOutcome>)
    requires
        has_uploaded(u, chunks),
    ensures
        u.idx == chunks.filter(|c: ChunkOutcome| c is Uploaded).len(),
        u.sent == chunks.filter(
            |c: ChunkOutcome| c == ChunkOutcome::Uploaded { taken: true },
        ).len(),
{
    law_only_taken_chunks_are_counted(chunks);
    lemma_next_is_uploads(chunks);
}

proof fn lemma_next_is_uploads(chunks: Seq<ChunkOutcome>)
    ensures
        upload_run(chunks).next == chunks.filter(|c: ChunkOutcome| c is Uploaded).len(),
    decreases chunks.len(),
{
    reveal(Seq::filter);
    if chunks.len() > 0 {
        lemma_next_is_uploads(chunks.drop_last());
    }
}

} // verus!
