//! The streaming API of the parlyx server: which requests the client makes,
//! and which replies it takes for refusals.
//!
//! Requests are plain values. Whoever performs one sends the bearer token,
//! the headers and the body that it names.
//!
//! - `POST /api/streaming/start` opens a session
//! - `POST /api/streaming/:id/chunk` uploads a chunk of audio
//! - `POST /api/streaming/:id/finish` closes the session
//! - `POST /api/streaming/:id/cancel` discards it
//! - `PUT /api/streaming/:id/segments/:sid` edits a transcript segment
//! - `GET /api/streaming/:id/events` is the event stream

use vstd::prelude::*;

use crate::text::{decimal, decimal_text, from_chars, law_decimal_denotes, to_chars};

verus! {

/// What opening a session asks for.
#[derive(Debug)]
pub struct StartStreamingRequest {
    pub title: Option<String>,
    pub min_speakers: Option<u32>,
    pub max_speakers: Option<u32>,
    pub webhook_url: Option<String>,
}

/// The server's answer to opening a session.
#[derive(Debug)]
pub struct StartStreamingResponse {
    pub stream_id: String,
    pub task_id: String,
}

/// The server's answer to closing a session.
#[derive(Debug)]
pub struct FinishResponse {
    pub task_id: String,
}

/// An edit of a transcript segment: new text, a new speaker, or both.
#[derive(Debug)]
pub struct SegmentEditRequest {
    pub text: Option<String>,
    pub speaker: Option<String>,
}

/// What the server reports while a session runs. `N` is the type of its
/// times in seconds.
#[derive(Debug, Clone)]
pub enum StreamEvent<N> {
    Transcript { text: String, timestamp: String, speaker: Option<String>, segment_id: String },
    Partial { text: String },
    Diarization { segments: Vec<DiarizationSegment<N>> },
    SpeakerRename { from: String, to: String },
    Error { message: String },
    Complete,
}

/// A stretch of audio, and who speaks in it.
#[derive(Debug, Clone)]
pub struct DiarizationSegment<N> {
    pub start: N,
    pub end: N,
    pub speaker: String,
}

/// An HTTP method.
#[derive(Debug, Clone, Copy, PartialEq, Eq, Structural)]
pub enum Method {
    Get,
    Post,
    Put,
}

/// The multipart form that carries a chunk: a text field `chunk_index` and a
/// file field `file`.
#[derive(Debug)]
pub struct ChunkForm {
    pub chunk_index: String,
    pub file_name: String,
    pub mime: String,
    pub wav: Vec<u8>,
}

/// The body of a request.
#[derive(Debug)]
pub enum Body {
    Empty,
    StartStreaming(StartStreamingRequest),
    Chunk(ChunkForm),
    SegmentEdit(SegmentEditRequest),
}

/// A request to perform.
#[derive(Debug)]
pub struct HttpRequest {
    pub method: Method,
    pub url: String,
    /// The token of the `Authorization: Bearer` header.
    pub bearer: String,
    /// The value of the `accept` header, where one is sent.
    pub accept: Option<String>,
    pub body: Body,
}

/// The operations of the API.
#[derive(Debug, Clone, Copy, PartialEq, Eq, Structural)]
pub enum Operation {
    StartStreaming,
    SendChunk,
    Finish,
    Cancel,
    UpdateSegment,
    OpenEvents,
}

/// A client of the API at one server.
#[derive(Debug)]
pub struct ParlyxClient {
    pub base_url: String,
    pub api_key: String,
}

impl Clone for ParlyxClient {
    fn clone(&self) -> (r: Self)
        ensures
            r == *self,
    {
        ParlyxClient { base_url: self.base_url.clone(), api_key: self.api_key.clone() }
    }
}

/// A text without the slashes at its end.
pub open spec fn without_slashes(s: Seq<char>) -> Seq<char>
    decreases s.len(),
{
    if s.len() > 0 && s.last() == '/' {
        without_slashes(s.drop_last())
    } else {
        s
    }
}

/// The URL of an API path at a server.
pub open spec fn api_url(base_url: Seq<char>, path: Seq<char>) -> Seq<char> {
    base_url + "/api"@ + path
}

/// The path of a session's resource.
pub open spec fn stream_path(stream_id: Seq<char>, resource: Seq<char>) -> Seq<char> {
    "/streaming/"@ + stream_id + resource
}

/// The name of the file that a chunk travels as.
pub open spec fn chunk_file_name(chunk_index: u64) -> Seq<char> {
    "chunk_"@ + decimal(chunk_index as nat) + ".wav"@
}

/// A request with a bearer token and without an `accept` header.
pub open spec fn is_request(
    r: HttpRequest,
    method: Method,
    client: ParlyxClient,
    path: Seq<char>,
) -> bool {
    &&& r.method == method
    &&& r.url@ == api_url(client.base_url@, path)
    &&& r.bearer == client.api_key
    &&& r.accept is None
}

proof fn lemma_without_slashes(s: Seq<char>, n: int)
    requires
        0 <= n <= s.len(),
        forall|i: int| n <= i < s.len() ==> s[i] == '/',
        n > 0 ==> s[n - 1] != '/',
    ensures
        without_slashes(s) == s.take(n),
    decreases s.len(),
{
    if n < s.len() {
        lemma_without_slashes(s.drop_last(), n);
        assert(s.drop_last().take(n) =~= s.take(n));
    } else {
        assert(s.take(n) =~= s);
    }
}

/// A text without the slashes at its end.
fn trim_end_slashes(s: &str) -> (r: String)
    ensures
        r@ == without_slashes(s@),
{
    let mut chars: Vec<char> = to_chars(s);
    let mut n: usize = chars.len();
    while n > 0 && chars[n - 1] == '/'
        invariant
            n <= chars@.len(),
            chars@ == s@,
            forall|i: int| n <= i < chars@.len() ==> chars@[i] == '/',
        decreases n,
    {
        n = n - 1;
    }
    proof {
        lemma_without_slashes(s@, n as int);
    }
    chars.truncate(n);
    from_chars(chars.as_slice())
}

impl ParlyxClient {
    /// A client for the server at `base_url`, slashes at its end or not.
    pub fn new(base_url: String, api_key: String) -> (r: Self)
        ensures
            r.base_url@ == without_slashes(base_url@),
            r.base_url@.is_prefix_of(base_url@),
            forall|i: int| r.base_url@.len() <= i < base_url@.len() ==> base_url@[i] == '/',
            r.base_url@.len() > 0 ==> r.base_url@.last() != '/',
            r.api_key == api_key,
    {
        proof {
            law_base_loses_slashes_only(base_url@);
        }
        ParlyxClient { base_url: trim_end_slashes(base_url.as_str()), api_key }
    }

    /// The URL of an API path.
    fn url(&self, path: &str) -> (r: String)
        ensures
            r@ == api_url(self.base_url@, path@),
    {
        let mut url: String = self.base_url.clone();
        url.append("/api");
        url.append(path);
        url
    }

    /// The URL of a session's resource.
    fn stream_url(&self, stream_id: &str, resource: &str) -> (r: String)
        ensures
            r@ == api_url(self.base_url@, stream_path(stream_id@, resource@)),
    {
        let mut path: String = "/streaming/".to_owned();
        path.append(stream_id);
        path.append(resource);
        self.url(path.as_str())
    }

    /// Opens a session.
    pub fn start_streaming(
        &self,
        title: Option<String>,
        min_speakers: Option<u32>,
        max_speakers: Option<u32>,
        webhook_url: Option<String>,
    ) -> (r: HttpRequest)
        ensures
            is_request(r, Method::Post, *self, "/streaming/start"@),
            r.method == Method::Post,
            r.url@ == self.base_url@ + "/api"@ + "/streaming/start"@,
            r.bearer == self.api_key,
            r.accept is None,
            r.body == Body::StartStreaming(
                StartStreamingRequest { title, min_speakers, max_speakers, webhook_url },
            ),
    {
        HttpRequest {
            method: Method::Post,
            url: self.url("/streaming/start"),
            bearer: self.api_key.clone(),
            accept: None,
            body: Body::StartStreaming(
                StartStreamingRequest { title, min_speakers, max_speakers, webhook_url },
            ),
        }
    }

    /// Uploads a chunk.
    pub fn send_chunk(&self, stream_id: &str, chunk_index: u64, wav: Vec<u8>) -> (r: HttpRequest)
        ensures
            is_request(r, Method::Post, *self, stream_path(stream_id@, "/chunk"@)),
            r.method == Method::Post,
            r.url@ == self.base_url@ + "/api/streaming/"@ + stream_id@ + "/chunk"@,
            r.bearer == self.api_key,
            r.accept is None,
            r.body matches Body::Chunk(form) && {
                &&& form.chunk_index@ == decimal(chunk_index as nat)
                &&& form.file_name@ == chunk_file_name(chunk_index)
                &&& form.file_name@ == "chunk_"@ + decimal(chunk_index as nat) + ".wav"@
                &&& form.mime@ == "audio/wav"@
                &&& form.wav == wav
            },
    {
        proof {
            law_stream_urls(self.base_url@, stream_id@, "/chunk"@);
        }
        let index: String = decimal_text(chunk_index);
        let mut file_name: String = "chunk_".to_owned();
        file_name.append(index.as_str());
        file_name.append(".wav");
        HttpRequest {
            method: Method::Post,
            url: self.stream_url(stream_id, "/chunk"),
            bearer: self.api_key.clone(),
            accept: None,
            body: Body::Chunk(
                ChunkForm { chunk_index: index, file_name, mime: "audio/wav".to_owned(), wav },
            ),
        }
    }

    /// Closes a session.
    pub fn finish(&self, stream_id: &str) -> (r: HttpRequest)
        ensures
            is_request(r, Method::Post, *self, stream_path(stream_id@, "/finish"@)),
            r.method == Method::Post,
            r.url@ == self.base_url@ + "/api/streaming/"@ + stream_id@ + "/finish"@,
            r.bearer == self.api_key,
            r.accept is None,
            r.body == Body::Empty,
    {
        proof {
            law_stream_urls(self.base_url@, stream_id@, "/finish"@);
        }
        HttpRequest {
            method: Method::Post,
            url: self.stream_url(stream_id, "/finish"),
            bearer: self.api_key.clone(),
            accept: None,
            body: Body::Empty,
        }
    }

    /// Discards a session.
    pub fn cancel(&self, stream_id: &str) -> (r: HttpRequest)
        ensures
            is_request(r, Method::Post, *self, stream_path(stream_id@, "/cancel"@)),
            r.method == Method::Post,
            r.url@ == self.base_url@ + "/api/streaming/"@ + stream_id@ + "/cancel"@,
            r.bearer == self.api_key,
            r.accept is None,
            r.body == Body::Empty,
    {
        proof {
            law_stream_urls(self.base_url@, stream_id@, "/cancel"@);
        }
        HttpRequest {
            method: Method::Post,
            url: self.stream_url(stream_id, "/cancel"),
            bearer: self.api_key.clone(),
            accept: None,
            body: Body::Empty,
        }
    }

    /// Edits a transcript segment.
    pub fn update_segment(
        &self,
        stream_id: &str,
        segment_id: &str,
        text: Option<String>,
        speaker: Option<String>,
    ) -> (r: HttpRequest)
        ensures
            is_request(
                r,
                Method::Put,
                *self,
                stream_path(stream_id@, "/segments/"@ + segment_id@),
            ),
            r.method == Method::Put,
            r.url@ == self.base_url@ + "/api/streaming/"@ + stream_id@ + "/segments/"@
                + segment_id@,
            r.bearer == self.api_key,
            r.accept is None,
            r.body == Body::SegmentEdit(SegmentEditRequest { text, speaker }),
    {
        proof {
            law_segment_urls(self.base_url@, stream_id@, segment_id@);
        }
        let mut resource: String = "/segments/".to_owned();
        resource.append(segment_id);
        HttpRequest {
            method: Method::Put,
            url: self.stream_url(stream_id, resource.as_str()),
            bearer: self.api_key.clone(),
            accept: None,
            body: Body::SegmentEdit(SegmentEditRequest { text, speaker }),
        }
    }

    /// Opens the event stream of a session.
    pub fn open_events(&self, stream_id: &str) -> (r: HttpRequest)
        ensures
            r.method == Method::Get,
            r.url@ == api_url(self.base_url@, stream_path(stream_id@, "/events"@)),
            r.url@ == self.base_url@ + "/api/streaming/"@ + stream_id@ + "/events"@,
            r.bearer == self.api_key,
            r.accept matches Some(accept) && accept@ == "text/event-stream"@,
            r.body == Body::Empty,
    {
        proof {
            law_stream_urls(self.base_url@, stream_id@, "/events"@);
        }
        HttpRequest {
            method: Method::Get,
            url: self.stream_url(stream_id, "/events"),
            bearer: self.api_key.clone(),
            accept: Some("text/event-stream".to_owned()),
            body: Body::Empty,
        }
    }
}

/// Whether a status code says that the request succeeded.
pub open spec fn is_success(status: u16) -> bool {
    200 <= status < 300
}

/// Whether a reply with this status is taken for a refusal. Cancelling takes
/// any reply.
pub open spec fn refuses(operation: Operation, status: u16) -> bool {
    operation != Operation::Cancel && !is_success(status)
}

/// How an operation is called in error messages.
pub open spec fn operation_label(operation: Operation) -> Seq<char> {
    match operation {
        Operation::StartStreaming => "start_streaming"@,
        Operation::SendChunk => "send_chunk"@,
        Operation::Finish => "finish"@,
        Operation::Cancel => "cancel"@,
        Operation::UpdateSegment => "update_segment"@,
        Operation::OpenEvents => "events"@,
    }
}

/// What a failure to reach the server is put down to.
pub open spec fn operation_context(operation: Operation) -> Seq<char> {
    match operation {
        Operation::StartStreaming => "POST /streaming/start"@,
        Operation::SendChunk => "POST /streaming/:id/chunk"@,
        Operation::Finish => "POST /streaming/:id/finish"@,
        Operation::Cancel => "POST /streaming/:id/cancel"@,
        Operation::UpdateSegment => "PUT segment edit"@,
        Operation::OpenEvents => "GET /streaming/:id/events"@,
    }
}

/// The message of a refusal, given the text of its status and its body. A
/// body that could not be read counts as empty.
pub open spec fn refusal_message(
    operation: Operation,
    status_text: Seq<char>,
    body: Option<String>,
) -> Seq<char> {
    operation_label(operation) + " HTTP "@ + status_text + ": "@ + match body {
        Some(text) => text@,
        None => Seq::empty(),
    }
}

impl Operation {
    /// How the operation is called in error messages.
    fn label(&self) -> (r: &'static str)
        ensures
            r@ == operation_label(*self),
    {
        match self {
            Operation::StartStreaming => "start_streaming",
            Operation::SendChunk => "send_chunk",
            Operation::Finish => "finish",
            Operation::Cancel => "cancel",
            Operation::UpdateSegment => "update_segment",
            Operation::OpenEvents => "events",
        }
    }

    /// What a failure to reach the server is put down to.
    pub fn context(&self) -> (r: &'static str)
        ensures
            r@ == operation_context(*self),
    {
        match self {
            Operation::StartStreaming => "POST /streaming/start",
            Operation::SendChunk => "POST /streaming/:id/chunk",
            Operation::Finish => "POST /streaming/:id/finish",
            Operation::Cancel => "POST /streaming/:id/cancel",
            Operation::UpdateSegment => "PUT segment edit",
            Operation::OpenEvents => "GET /streaming/:id/events",
        }
    }

    /// Whether a reply with this status is taken for a refusal.
    pub fn is_refused(&self, status: u16) -> (r: bool)
        ensures
            r == refuses(*self, status),
            r == !(*self == Operation::Cancel || 200 <= status <= 299),
    {
        match self {
            Operation::Cancel => false,
            _ => status < 200 || status >= 300,
        }
    }

    /// The message of a refusal, given the text of its status.
    pub fn refusal_of(&self, status_text: &str, body: Option<String>) -> (r: String)
        ensures
            r@ == refusal_message(*self, status_text@, body),
            match body {
                Some(text) => r@ == operation_label(*self) + " HTTP "@ + status_text@ + ": "@
                    + text@,
                None => r@ == operation_label(*self) + " HTTP "@ + status_text@ + ": "@,
            },
    {
        let mut message: String = self.label().to_owned();
        message.append(" HTTP ");
        message.append(status_text);
        message.append(": ");
        match body {
            Some(text) => {
                message.append(text.as_str());
            },
            None => {
                assert(message@ + Seq::<char>::empty() =~= message@);
            },
        }
        message
    }

    /// Judges a reply: a refusal becomes an error message. `body` is the text
    /// of the reply, as far as it could be read.
    pub fn check_reply(&self, status: u16, body: Option<String>) -> (r: Result<(), String>)
        requires
            100 <= status <= 999,
        ensures
            match r {
                Ok(()) => !refuses(*self, status) && (*self == Operation::Cancel || 200 <= status
                    <= 299),
                Err(message) => {
                    &&& refuses(*self, status)
                    &&& *self != Operation::Cancel
                    &&& status < 200 || 300 <= status
                    &&& message@ == refusal_message(*self, status_line(status), body)
                },
            },
    {
        if self.is_refused(status) {
            let text: String = status_text(status);
            Err(self.refusal_of(text.as_str(), body))
        } else {
            Ok(())
        }
    }
}

/// The phrase that goes with a status code.
pub uninterp spec fn reason_phrase(status: u16) -> Seq<char>;

/// A status code as error messages show it: the number, a space, and the
/// phrase that goes with it.
pub open spec fn status_line(status: u16) -> Seq<char> {
    decimal(status as nat).push(' ') + reason_phrase(status)
}

/// The `Display` of `reqwest::StatusCode`: the number, a space, and a phrase
/// that depends on the number alone. The table of phrases is named, not
/// stated. A status code lies between 100 and 999.
#[verifier::external_body]
fn status_text(status: u16) -> (r: String)
    requires
        100 <= status <= 999,
    ensures
        r@ == decimal(status as nat).push(' ') + reason_phrase(status),
{
    reqwest::StatusCode::from_u16(status).unwrap().to_string()
}

/// Trimming twice is trimming once, and a trimmed base does not end in a
/// slash: no URL gets a double slash in front of `api` from its base.
pub proof fn law_base_has_no_slash_at_end(base: Seq<char>)
    ensures
        without_slashes(base).len() > 0 ==> without_slashes(base).last() != '/',
        without_slashes(without_slashes(base)) == without_slashes(base),
    decreases base.len(),
{
    if base.len() > 0 && base.last() == '/' {
        law_base_has_no_slash_at_end(base.drop_last());
    }
}

/// Slashes at the end of the base URL make no difference to any URL.
pub proof fn law_slashes_do_not_matter(base: Seq<char>, slashes: nat, path: Seq<char>)
    ensures
        api_url(without_slashes(base + Seq::new(slashes, |i: int| '/')), path) == api_url(
            without_slashes(base),
            path,
        ),
    decreases slashes,
{
    let longer = base + Seq::new(slashes, |i: int| '/');
    if slashes == 0 {
        assert(longer =~= base);
    } else {
        let fewer = (slashes - 1) as nat;
        assert(longer.drop_last() =~= base + Seq::new(fewer, |i: int| '/'));
        law_slashes_do_not_matter(base, fewer, path);
        assert(longer.last() == '/');
    }
}

/// Different chunks travel under different file names.
pub proof fn law_chunk_names_distinct(i: u64, j: u64)
    ensures
        chunk_file_name(i) == chunk_file_name(j) <==> i == j,
{
    if chunk_file_name(i) == chunk_file_name(j) {
        let a = decimal(i as nat);
        let b = decimal(j as nat);
        let head = "chunk_"@;
        let tail = ".wav"@;
        assert(chunk_file_name(i).len() == head.len() + a.len() + tail.len());
        assert(chunk_file_name(j).len() == head.len() + b.len() + tail.len());
        assert(a =~= chunk_file_name(i).subrange(head.len() as int, (head.len() + a.len()) as int));
        assert(b =~= chunk_file_name(j).subrange(head.len() as int, (head.len() + b.len()) as int));
        law_decimal_denotes(i as nat);
        law_decimal_denotes(j as nat);
    }
}

/// A base URL loses slashes at its end and nothing else: it is the trimmed
/// base with nothing but slashes behind it, and all of them are gone.
pub proof fn law_base_loses_slashes_only(base: Seq<char>)
    ensures
        without_slashes(base).is_prefix_of(base),
        forall|i: int| without_slashes(base).len() <= i < base.len() ==> base[i] == '/',
        without_slashes(base).len() > 0 ==> without_slashes(base).last() != '/',
    decreases base.len(),
{
    if base.len() > 0 && base.last() == '/' {
        law_base_loses_slashes_only(base.drop_last());
        assert forall|i: int| without_slashes(base).len() <= i < base.len() implies base[i]
            == '/' by {
            if i < base.len() - 1 {
                assert(base.drop_last()[i] == '/');
            }
        }
        assert(base.drop_last().take(without_slashes(base).len() as int) =~= base.take(
            without_slashes(base).len() as int,
        ));
    } else {
        assert(base.take(base.len() as int) =~= base);
    }
}

/// The URL of an API path is the base, `/api` and the whole path.
pub proof fn law_api_urls(base: Seq<char>, path: Seq<char>)
    ensures
        api_url(base, path) == base + "/api"@ + path,
        api_url(base, path).len() == base.len() + 4 + path.len(),
{
    reveal_strlit("/api");
}

/// The URL of a session's resource is the base, the fixed part, the whole
/// session id and the whole resource.
pub proof fn law_stream_urls(base: Seq<char>, stream_id: Seq<char>, resource: Seq<char>)
    ensures
        api_url(base, stream_path(stream_id, resource)) == base + "/api/streaming/"@ + stream_id
            + resource,
{
    reveal_strlit("/api");
    reveal_strlit("/streaming/");
    reveal_strlit("/api/streaming/");
    assert(api_url(base, stream_path(stream_id, resource)) =~= base + "/api/streaming/"@
        + stream_id + resource);
}

/// The URL of a segment edit ends with the whole segment id, behind the whole
/// session id.
pub proof fn law_segment_urls(base: Seq<char>, stream_id: Seq<char>, segment_id: Seq<char>)
    ensures
        api_url(base, stream_path(stream_id, "/segments/"@ + segment_id)) == base
            + "/api/streaming/"@ + stream_id + "/segments/"@ + segment_id,
{
    law_stream_urls(base, stream_id, "/segments/"@ + segment_id);
    assert(base + "/api/streaming/"@ + stream_id + ("/segments/"@ + segment_id) =~= base
        + "/api/streaming/"@ + stream_id + "/segments/"@ + segment_id);
}

/// Within a session, different segments are edited at different URLs, and a
/// resource is found at one URL only.
pub proof fn law_different_segments_different_urls(
    base: Seq<char>,
    stream_id: Seq<char>,
    a: Seq<char>,
    b: Seq<char>,
)
    ensures
        api_url(base, stream_path(stream_id, "/segments/"@ + a)) == api_url(
            base,
            stream_path(stream_id, "/segments/"@ + b),
        ) <==> a == b,
        api_url(base, stream_path(stream_id, a)) == api_url(base, stream_path(stream_id, b)) <==> a
            == b,
{
    law_segment_urls(base, stream_id, a);
    law_segment_urls(base, stream_id, b);
    law_stream_urls(base, stream_id, a);
    law_stream_urls(base, stream_id, b);
    let long = base + "/api/streaming/"@ + stream_id + "/segments/"@;
    let short = base + "/api/streaming/"@ + stream_id;
    assert((long + a).skip(long.len() as int) =~= a);
    assert((long + b).skip(long.len() as int) =~= b);
    assert((short + a).skip(short.len() as int) =~= a);
    assert((short + b).skip(short.len() as int) =~= b);
}

/// A request carries the client's key and goes to the path at the client's
/// server; it has no `accept` header.
pub proof fn law_requests_go_to_the_server(
    r: HttpRequest,
    method: Method,
    client: ParlyxClient,
    path: Seq<char>,
)
    ensures
        is_request(r, method, client, path) <==> {
            &&& r.method == method
            &&& r.url@ == client.base_url@ + "/api"@ + path
            &&& r.bearer@ == client.api_key@
            &&& r.bearer == client.api_key
            &&& r.accept is None
        },
{
}

/// A reply is refused just where its status lies outside the two hundreds; a
/// cancellation is never refused.
pub proof fn law_refused_statuses(operation: Operation, status: u16)
    ensures
        refuses(operation, status) <==> operation != Operation::Cancel && (status < 200 || status
            >= 300),
{
}

/// The message of a refusal names the operation, the status and the whole
/// body; a body that could not be read adds nothing.
pub proof fn law_refusal_keeps_the_body(operation: Operation, status: Seq<char>, body: String)
    ensures
        refusal_message(operation, status, Some(body)) == refusal_message(operation, status, None)
            + body@,
        refusal_message(operation, status, None) == operation_label(operation) + " HTTP "@ + status
            + ": "@,
{
    assert(refusal_message(operation, status, None) =~= operation_label(operation) + " HTTP "@
        + status + ": "@);
}

/// The name of a chunk's file is its whole index in decimal, between fixed
/// texts.
pub proof fn law_chunk_names(chunk_index: u64)
    ensures
        chunk_file_name(chunk_index) == "chunk_"@ + decimal(chunk_index as nat) + ".wav"@,
{
}

/// A status is shown as its number, a space and its phrase.
pub proof fn law_status_lines(status: u16)
    ensures
        status_line(status) == decimal(status as nat) + " "@ + reason_phrase(status),
{
    reveal_strlit(" ");
    assert(status_line(status) =~= decimal(status as nat) + " "@ + reason_phrase(status));
}

} // verus!
