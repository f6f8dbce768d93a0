//! The capture loop: a buffer that the device fills, windows of samples taken
//! out of it, and what is noted of each chunk before it is handed on.

use vstd::prelude::*;

use crate::audio::{CaptureHandle, CHUNK_SECONDS, SAMPLES_PER_CHUNK, TARGET_SAMPLE_RATE};

verus! {

/// Mono samples that the device has delivered and the loop has not yet taken.
#[derive(Debug)]
pub struct PendingSamples<T> {
    samples: Vec<T>,
}

impl<T> View for PendingSamples<T> {
    type V = Seq<T>;

    closed spec fn view(&self) -> Seq<T> {
        self.samples@
    }
}

/// What is pending after a delivery: the delivery is discarded while paused.
pub open spec fn delivered<T>(pending: Seq<T>, paused: bool, mono: Seq<T>) -> Seq<T> {
    if paused {
        pending
    } else {
        pending + mono
    }
}

/// The oldest `window` samples and what remains after them, or no samples
/// while there are fewer.
pub open spec fn windowed<T>(pending: Seq<T>, window: nat) -> (Option<Seq<T>>, Seq<T>) {
    if pending.len() < window {
        (None, pending)
    } else {
        (Some(pending.take(window as int)), pending.skip(window as int))
    }
}

impl<T> PendingSamples<T> {
    /// A buffer without samples.
    pub fn new() -> (r: Self)
        ensures
            r@ == Seq::<T>::empty(),
    {
        PendingSamples { samples: Vec::new() }
    }

    /// Takes in what the device delivers, unless capture is paused.
    pub fn deliver(&mut self, handle: CaptureHandle, mono: Vec<T>)
        ensures
            final(self)@ == delivered(old(self)@, handle.pause_flag, mono@),
            handle.pause_flag ==> final(self)@ == old(self)@,
            !handle.pause_flag ==> final(self)@ == old(self)@ + mono@,
            forall|state: CaptureLoop, events: Seq<CaptureEvent<T>>|
                has_captured(state, old(self)@, events) ==> #[trigger] has_captured(
                    state,
                    final(self)@,
                    events.push(
                        CaptureEvent::Deliver { paused: handle.pause_flag, mono: mono@ },
                    ),
                ),
    {
        assert(forall|events: Seq<CaptureEvent<T>>, last: CaptureEvent<T>| #[trigger]
            events.push(last).drop_last() =~= events);
        if !handle.pause_flag {
            let mut rest: Vec<T> = mono;
            self.samples.append(&mut rest);
        }
    }

    /// Takes the oldest `window` samples, or nothing while there are fewer.
    pub fn take_window(&mut self, window: usize) -> (r: Option<Vec<T>>)
        ensures
            match r {
                Some(samples) => windowed(old(self)@, window as nat).0 == Some(samples@),
                None => windowed(old(self)@, window as nat).0 is None,
            },
            final(self)@ == windowed(old(self)@, window as nat).1,
            r is Some <==> old(self)@.len() >= window,
            match r {
                Some(samples) => samples@.len() == window && samples@ + final(self)@ == old(self)@,
                None => final(self)@ == old(self)@,
            },
    {
        if self.samples.len() < window {
            return None;
        }
        let mut taken: Vec<T> = self.samples.split_off(window);
        core::mem::swap(&mut taken, &mut self.samples);
        assert(taken@ + self.samples@ =~= old(self)@);
        Some(taken)
    }
}

/// What the capture loop does next.
#[derive(Debug)]
pub enum CaptureStep<T> {
    /// The loop ends.
    Exit,
    /// There is no whole window yet: sleep, then ask again.
    Sleep,
    /// A window of samples at the device's rate.
    Window(Vec<T>),
}

/// What there is to say about a captured chunk.
#[derive(Debug, Clone, Copy, PartialEq, Eq, Structural)]
pub enum LevelNote {
    /// The chunk is essentially silent, the given number of chunks in a row.
    /// The user is warned at the first one and at every fifth.
    Silent { chunk: u64, consecutive_silent: u32, warn: bool },
    /// The chunk can be heard. `resumed_after` counts the silent chunks just
    /// before it, if any.
    Audible { chunk: u64, resumed_after: Option<u32> },
}

/// The state of the capture loop.
#[derive(Debug, Clone, Copy, PartialEq, Eq, Structural)]
pub struct CaptureLoop {
    /// Samples at the device's rate that make one chunk.
    pub window: usize,
    /// Chunks captured so far.
    pub chunk_idx: u64,
    /// Silent chunks since the last audible one.
    pub consecutive_silent: u32,
    /// Whether the loop goes on.
    pub running: bool,
}

/// Whether a run of silent chunks of this length is worth a warning.
pub open spec fn warns_at(consecutive_silent: int) -> bool {
    consecutive_silent == 1 || consecutive_silent % 5 == 0
}

/// The silent chunks at the end of a recording, given for each chunk whether
/// it was silent.
pub open spec fn silent_run(chunks: Seq<bool>) -> nat
    decreases chunks.len(),
{
    if chunks.len() == 0 || !chunks.last() {
        0
    } else {
        silent_run(chunks.drop_last()) + 1
    }
}

/// Whether the loop's counters are those of a recording, given for each
/// chunk whether it was silent.
pub open spec fn counts_chunks(state: CaptureLoop, chunks: Seq<bool>) -> bool {
    &&& state.chunk_idx == chunks.len()
    &&& state.consecutive_silent == silent_run(chunks)
}

/// The samples that a device of this rate delivers, per channel, in the time
/// of one chunk.
pub open spec fn chunk_window(in_sample_rate: u32) -> nat {
    (CHUNK_SECONDS * in_sample_rate) as nat
}

/// The samples of one channel that make one chunk at the device's rate.
pub fn window_samples(in_sample_rate: u32) -> (r: usize)
    requires
        chunk_window(in_sample_rate) <= usize::MAX,
    ensures
        r == chunk_window(in_sample_rate),
        r == 3 * in_sample_rate,
        in_sample_rate == TARGET_SAMPLE_RATE ==> r == SAMPLES_PER_CHUNK,
{
    CHUNK_SECONDS as usize * in_sample_rate as usize
}

/// Whether a device's samples have to be resampled.
pub fn needs_resampling(in_sample_rate: u32) -> (r: bool)
    ensures
        r == (in_sample_rate != TARGET_SAMPLE_RATE),
{
    in_sample_rate != TARGET_SAMPLE_RATE
}

/// Picks what becomes of a window: at the target rate the window itself, else
/// what the resampler made of it. A window that the resampler failed on is
/// dropped, and is not counted.
pub fn resampled<T>(in_sample_rate: u32, window: Vec<T>, output: Option<Vec<T>>) -> (r: Option<
    Vec<T>,
>)
    ensures
        r == (if in_sample_rate == TARGET_SAMPLE_RATE {
            Some(window)
        } else {
            output
        }),
{
    if needs_resampling(in_sample_rate) {
        output
    } else {
        Some(window)
    }
}

impl CaptureLoop {
    /// A loop that has not captured anything yet, for a device of this rate.
    /// `T` is the type of the samples to come.
    pub fn new<T>(in_sample_rate: u32) -> (r: Self)
        requires
            chunk_window(in_sample_rate) <= usize::MAX,
        ensures
            r == (CaptureLoop {
                window: chunk_window(in_sample_rate) as usize,
                chunk_idx: 0,
                consecutive_silent: 0,
                running: true,
            }),
            r.window == 3 * in_sample_rate,
            counts_chunks(r, Seq::empty()),
            has_captured(r, Seq::<T>::empty(), Seq::empty()),
    {
        CaptureLoop {
            window: window_samples(in_sample_rate),
            chunk_idx: 0,
            consecutive_silent: 0,
            running: true,
        }
    }

    /// Looks at the stop flag, then at the buffer. A stopped loop ends at once
    /// and leaves the buffer alone.
    pub fn poll<T>(&mut self, handle: CaptureHandle, pending: &mut PendingSamples<T>) -> (r:
        CaptureStep<T>)
        requires
            old(self).running,
        ensures
            *final(self) == (CaptureLoop { running: !handle.stop_flag, ..*old(self) }),
            if handle.stop_flag {
                &&& r == CaptureStep::<T>::Exit
                &&& final(pending)@ == old(pending)@
            } else {
                &&& match windowed(old(pending)@, old(self).window as nat).0 {
                    Some(samples) => r matches CaptureStep::Window(taken) && taken@ == samples,
                    None => r == CaptureStep::<T>::Sleep,
                }
                &&& final(pending)@ == windowed(old(pending)@, old(self).window as nat).1
            },
            handle.stop_flag ==> r is Exit && !final(self).running && final(pending)@
                == old(pending)@,
            !handle.stop_flag && old(pending)@.len() < old(self).window ==> r is Sleep
                && final(pending)@ == old(pending)@,
            !handle.stop_flag && old(pending)@.len() >= old(self).window ==> (
            r matches CaptureStep::Window(taken) && taken@.len() == old(self).window && taken@
                + final(pending)@ == old(pending)@),
            forall|events: Seq<CaptureEvent<T>>|
                has_captured(*old(self), old(pending)@, events) ==> {
                    &&& #[trigger] has_captured(
                        *final(self),
                        final(pending)@,
                        events.push(CaptureEvent::Poll { stopped: handle.stop_flag }),
                    )
                    &&& capture_run(
                        old(self).window as nat,
                        events.push(CaptureEvent::Poll { stopped: handle.stop_flag }),
                    ).windows == capture_run(old(self).window as nat, events).windows + handed_out(
                        r,
                    )
                },
    {
        assert(forall|events: Seq<CaptureEvent<T>>, last: CaptureEvent<T>| #[trigger]
            events.push(last).drop_last() =~= events);
        assert(forall|windows: Seq<Seq<T>>| windows + Seq::<Seq<T>>::empty() =~= windows);
        assert(forall|windows: Seq<Seq<T>>, taken: Seq<T>| #[trigger]
            windows.push(taken) =~= windows + seq![taken]);
        if handle.stop_flag {
            self.running = false;
            return CaptureStep::Exit;
        }
        match pending.take_window(self.window) {
            Some(samples) => CaptureStep::Window(samples),
            None => CaptureStep::Sleep,
        }
    }

    /// Notes a chunk: counts it, and counts it into the run of silent chunks
    /// or ends that run.
    pub fn captured(&mut self, silent: bool) -> (r: LevelNote)
        requires
            old(self).chunk_idx < u64::MAX,
            silent ==> old(self).consecutive_silent < u32::MAX,
        ensures
            *final(self) == (CaptureLoop {
                chunk_idx: (old(self).chunk_idx + 1) as u64,
                consecutive_silent: if silent {
                    (old(self).consecutive_silent + 1) as u32
                } else {
                    0
                },
                ..*old(self)
            }),
            r == (if silent {
                LevelNote::Silent {
                    chunk: old(self).chunk_idx,
                    consecutive_silent: (old(self).consecutive_silent + 1) as u32,
                    warn: warns_at(old(self).consecutive_silent + 1),
                }
            } else {
                LevelNote::Audible {
                    chunk: old(self).chunk_idx,
                    resumed_after: if old(self).consecutive_silent > 0 {
                        Some(old(self).consecutive_silent)
                    } else {
                        None
                    },
                }
            }),
            r matches LevelNote::Silent { consecutive_silent, warn, .. } ==> warn == (
            consecutive_silent == 1 || consecutive_silent % 5 == 0),
            forall|chunks: Seq<bool>|
                counts_chunks(*old(self), chunks) ==> #[trigger] counts_chunks(
                    *final(self),
                    chunks.push(silent),
                ),
    {
        assert(forall|chunks: Seq<bool>| #[trigger] chunks.push(silent).drop_last() =~= chunks);
        let chunk: u64 = self.chunk_idx;
        self.chunk_idx = chunk + 1;
        if silent {
            let run: u32 = self.consecutive_silent + 1;
            self.consecutive_silent = run;
            LevelNote::Silent { chunk, consecutive_silent: run, warn: run == 1 || run % 5 == 0 }
        } else {
            let run: u32 = self.consecutive_silent;
            self.consecutive_silent = 0;
            LevelNote::Audible { chunk, resumed_after: if run > 0 { Some(run) } else { None } }
        }
    }

    /// Notes whether the chunk could be handed on: once nobody takes chunks
    /// any more, the loop ends. `T` is the type of the samples.
    pub fn sent<T>(&mut self, taken: bool)
        requires
            old(self).running,
        ensures
            *final(self) == (CaptureLoop { running: taken, ..*old(self) }),
            forall|pending: Seq<T>, events: Seq<CaptureEvent<T>>|
                has_captured(*old(self), pending, events) ==> #[trigger] has_captured(
                    *final(self),
                    pending,
                    events.push(CaptureEvent::Sent { taken }),
                ),
    {
        assert(forall|events: Seq<CaptureEvent<T>>, last: CaptureEvent<T>| #[trigger]
            events.push(last).drop_last() =~= events);
        self.running = taken;
    }
}

/// One thing that happens during a capture.
pub enum CaptureEvent<T> {
    /// The device delivers samples, while capture is paused or not.
    Deliver { paused: bool, mono: Seq<T> },
    /// The loop looks at the stop flag, then asks for a window.
    Poll { stopped: bool },
    /// The loop learns whether anybody took the chunk it handed on.
    Sent { taken: bool },
}

/// Where a capture stands.
pub struct CaptureRun<T> {
    /// Whether the loop goes on.
    pub running: bool,
    /// The windows handed out.
    pub windows: Seq<Seq<T>>,
    /// The samples that are still pending.
    pub pending: Seq<T>,
}

/// Where a capture stands after one more event. A loop that has ended does
/// nothing any more; the device may still deliver.
pub open spec fn capture_step<T>(
    run: CaptureRun<T>,
    window: nat,
    event: CaptureEvent<T>,
) -> CaptureRun<T> {
    match event {
        CaptureEvent::Deliver { paused, mono } => CaptureRun {
            pending: delivered(run.pending, paused, mono),
            ..run
        },
        CaptureEvent::Poll { stopped } => if !run.running || stopped {
            CaptureRun { running: false, ..run }
        } else {
            match windowed(run.pending, window) {
                (Some(taken), left) => CaptureRun {
                    windows: run.windows.push(taken),
                    pending: left,
                    ..run
                },
                (None, _) => run,
            }
        },
        CaptureEvent::Sent { taken } => CaptureRun { running: run.running && taken, ..run },
    }
}

/// Where a capture stands once all of `events` have happened.
pub open spec fn capture_run<T>(window: nat, events: Seq<CaptureEvent<T>>) -> CaptureRun<T>
    decreases events.len(),
{
    if events.len() == 0 {
        CaptureRun { running: true, windows: Seq::empty(), pending: Seq::empty() }
    } else {
        capture_step(capture_run(window, events.drop_last()), window, events.last())
    }
}

/// Whether the loop and its buffer have seen these events happen.
pub open spec fn has_captured<T>(
    state: CaptureLoop,
    pending: Seq<T>,
    events: Seq<CaptureEvent<T>>,
) -> bool {
    &&& state.running == capture_run(state.window as nat, events).running
    &&& pending == capture_run(state.window as nat, events).pending
}

/// The window that a step hands out, if it does.
pub open spec fn handed_out<T>(step: CaptureStep<T>) -> Seq<Seq<T>> {
    match step {
        CaptureStep::Window(samples) => seq![samples@],
        _ => Seq::empty(),
    }
}

/// The samples delivered while capture was not paused, in order.
pub open spec fn kept<T>(events: Seq<CaptureEvent<T>>) -> Seq<T>
    decreases events.len(),
{
    if events.len() == 0 {
        Seq::empty()
    } else {
        match events.last() {
            CaptureEvent::Deliver { paused, mono } => delivered(
                kept(events.drop_last()),
                paused,
                mono,
            ),
            _ => kept(events.drop_last()),
        }
    }
}

/// All windows, one after the other.
pub open spec fn concat_all<T>(windows: Seq<Seq<T>>) -> Seq<T>
    decreases windows.len(),
{
    if windows.len() == 0 {
        Seq::empty()
    } else {
        concat_all(windows.drop_last()) + windows.last()
    }
}

/// However deliveries and windows interleave, the windows and then what is
/// pending are exactly the samples delivered while not paused: none is lost,
/// doubled or reordered. Each window has the full length.
pub proof fn law_no_sample_lost<T>(window: nat, events: Seq<CaptureEvent<T>>)
    ensures
        concat_all(capture_run(window, events).windows) + capture_run(window, events).pending
            == kept(events),
        forall|i: int|
            0 <= i < capture_run(window, events).windows.len() ==> (
            #[trigger] capture_run(window, events).windows[i]).len() == window,
    decreases events.len(),
{
    if events.len() == 0 {
        assert(concat_all(Seq::<Seq<T>>::empty()) + Seq::<T>::empty() =~= Seq::<T>::empty());
    } else {
        let before = events.drop_last();
        law_no_sample_lost(window, before);
        let run = capture_run(window, before);
        match events.last() {
            CaptureEvent::Deliver { paused, mono } => {
                if !paused {
                    assert(concat_all(run.windows) + (run.pending + mono) =~= (concat_all(
                        run.windows,
                    ) + run.pending) + mono);
                }
            },
            CaptureEvent::Poll { stopped } => {
                if run.running && !stopped && run.pending.len() >= window {
                    let taken = run.pending.take(window as int);
                    let left = run.pending.skip(window as int);
                    assert(run.windows.push(taken).drop_last() =~= run.windows);
                    assert(taken + left =~= run.pending);
                    assert((concat_all(run.windows) + taken) + left =~= concat_all(run.windows) + (
                    taken + left));
                }
            },
            CaptureEvent::Sent { taken } => {},
        }
    }
}

/// Windows of equal length, laid end to end, are found at the multiples of
/// that length.
proof fn lemma_concat_of_equal_windows<T>(windows: Seq<Seq<T>>, window: nat, k: int)
    requires
        0 <= k < windows.len(),
        forall|i: int| 0 <= i < windows.len() ==> (#[trigger] windows[i]).len() == window,
    ensures
        concat_all(windows).len() == windows.len() * window,
        0 <= k * window <= (k + 1) * window <= concat_all(windows).len(),
        concat_all(windows).subrange(k * window, (k + 1) * window) == windows[k],
    decreases windows.len(),
{
    let before = windows.drop_last();
    let n = windows.len() as int;
    let w = window as int;
    assert((n - 1) * w + w == n * w) by (nonlinear_arith);
    assert((k + 1) * w == k * w + w) by (nonlinear_arith);
    assert(0 <= k * w && (k + 1) * w <= n * w) by (nonlinear_arith)
        requires
            0 <= k < n,
            0 <= w,
    ;
    if n > 1 {
        let j = if k < n - 1 {
            k
        } else {
            0
        };
        lemma_concat_of_equal_windows(before, window, j);
    } else {
        assert((n - 1) * w == 0) by (nonlinear_arith)
            requires
                n == 1,
        ;
    }
    assert(concat_all(before).len() == (n - 1) * w);
    if k < n - 1 {
        assert(concat_all(windows).subrange(k * w, (k + 1) * w) =~= concat_all(before).subrange(
            k * w,
            (k + 1) * w,
        ));
    } else {
        assert(concat_all(windows).subrange(k * w, (k + 1) * w) =~= windows[k]);
    }
}

/// Whether `chunk` is the span of `samples` that comes after `k` spans of the
/// same length.
pub open spec fn is_span<T>(samples: Seq<T>, window: nat, k: int, chunk: Seq<T>) -> bool {
    &&& 0 <= k * window <= (k + 1) * window <= samples.len()
    &&& chunk == samples.subrange(k * window, (k + 1) * window)
}

/// The chunks of a device, before resampling, are consecutive spans of what it
/// delivered while not paused, [`CHUNK_SECONDS`] long each, from the first
/// sample on. At the target rate each has [`SAMPLES_PER_CHUNK`] samples.
pub proof fn law_chunks_are_consecutive<T>(in_sample_rate: u32, events: Seq<CaptureEvent<T>>)
    ensures
        forall|k: int|
            0 <= k < capture_run(chunk_window(in_sample_rate), events).windows.len() ==> is_span(
                kept(events),
                chunk_window(in_sample_rate),
                k,
                #[trigger] capture_run(chunk_window(in_sample_rate), events).windows[k],
            ),
        in_sample_rate == TARGET_SAMPLE_RATE ==> chunk_window(in_sample_rate) == SAMPLES_PER_CHUNK,
{
    let window = chunk_window(in_sample_rate);
    let run = capture_run(window, events);
    law_no_sample_lost(window, events);
    assert forall|k: int| 0 <= k < run.windows.len() implies is_span(
        kept(events),
        window,
        k,
        #[trigger] run.windows[k],
    ) by {
        lemma_concat_of_equal_windows(run.windows, window, k);
        assert(kept(events).subrange(k * window, (k + 1) * window) =~= concat_all(
            run.windows,
        ).subrange(k * window, (k + 1) * window));
    }
}

/// Pausing keeps every sample delivered in between out of the stream.
pub proof fn law_paused_samples_discarded<T>(
    window: nat,
    events: Seq<CaptureEvent<T>>,
    mono: Seq<T>,
)
    ensures
        capture_run(window, events.push(CaptureEvent::Deliver { paused: true, mono }))
            == capture_run(window, events),
{
    let more = events.push(CaptureEvent::Deliver { paused: true, mono });
    assert(more.drop_last() =~= events);
}

/// Whether the stop flag is set at every look at it.
pub open spec fn stop_flag_is_set<T>(events: Seq<CaptureEvent<T>>) -> bool {
    forall|i: int|
        0 <= i < events.len() ==> (#[trigger] events[i] matches CaptureEvent::Poll { stopped }
            ==> stopped)
}

/// Once the stop flag is set, no window is handed out, however much is or gets
/// pending, and the loop ends with its next look at the flag.
pub proof fn law_no_window_once_stopped<T>(
    window: nat,
    events: Seq<CaptureEvent<T>>,
    later: Seq<CaptureEvent<T>>,
)
    requires
        stop_flag_is_set(later),
    ensures
        capture_run(window, events + later).windows == capture_run(window, events).windows,
        (exists|i: int| 0 <= i < later.len() && #[trigger] later[i] is Poll) ==> !capture_run(
            window,
            events + later,
        ).running,
    decreases later.len(),
{
    if later.len() == 0 {
        assert(events + later =~= events);
    } else {
        let fewer = later.drop_last();
        assert forall|i: int| 0 <= i < fewer.len() implies (
        #[trigger] fewer[i] matches CaptureEvent::Poll { stopped } ==> stopped) by {
            assert(fewer[i] == later[i]);
        }
        law_no_window_once_stopped(window, events, fewer);
        assert((events + later).drop_last() =~= events + fewer);
        assert((events + later).last() == later[later.len() - 1]);
        if exists|i: int| 0 <= i < later.len() && #[trigger] later[i] is Poll {
            let i = choose|i: int| 0 <= i < later.len() && #[trigger] later[i] is Poll;
            if i < fewer.len() {
                assert(fewer[i] is Poll);
            }
        }
    }
}

/// A loop that has ended, by the stop flag or because nobody takes chunks any
/// more, hands out nothing and does not start again.
pub proof fn law_ended_capture_stays_ended<T>(
    window: nat,
    events: Seq<CaptureEvent<T>>,
    later: Seq<CaptureEvent<T>>,
)
    requires
        !capture_run(window, events).running,
    ensures
        capture_run(window, events + later).windows == capture_run(window, events).windows,
        !capture_run(window, events + later).running,
    decreases later.len(),
{
    if later.len() == 0 {
        assert(events + later =~= events);
    } else {
        law_ended_capture_stays_ended(window, events, later.drop_last());
        assert((events + later).drop_last() =~= events + later.drop_last());
    }
}

/// The counter of silent chunks is the length of the silent end of the
/// recording: those chunks are silent, and the one before them is not.
pub proof fn law_silent_run_is_trailing(chunks: Seq<bool>)
    ensures
        silent_run(chunks) <= chunks.len(),
        forall|i: int| chunks.len() - silent_run(chunks) <= i < chunks.len() ==> chunks[i],
        silent_run(chunks) < chunks.len() ==> !chunks[chunks.len() - silent_run(chunks) - 1],
    decreases chunks.len(),
{
    if chunks.len() > 0 && chunks.last() {
        let before = chunks.drop_last();
        law_silent_run_is_trailing(before);
        assert forall|i: int|
            chunks.len() - silent_run(chunks) <= i < chunks.len() implies chunks[i] by {
            if i < before.len() {
                assert(before[i]);
            }
        }
        if silent_run(chunks) < chunks.len() {
            assert(!before[before.len() - silent_run(before) - 1]);
        }
    }
}

/// A delivery is appended whole, or discarded whole while capture is paused.
pub proof fn law_deliveries_are_appended_whole<T>(pending: Seq<T>, mono: Seq<T>)
    ensures
        delivered(pending, false, mono) == pending + mono,
        delivered(pending, true, mono) == pending,
{
}

/// A window comes out just where there are enough samples. It has exactly the
/// length asked for, and window and rest are what was pending.
pub proof fn law_windows_split_what_is_pending<T>(pending: Seq<T>, window: nat)
    ensures
        windowed(pending, window).0 is Some <==> pending.len() >= window,
        match windowed(pending, window).0 {
            Some(taken) => taken.len() == window && taken + windowed(pending, window).1 == pending,
            None => windowed(pending, window).1 == pending,
        },
{
    if pending.len() >= window {
        assert(pending.take(window as int) + pending.skip(window as int) =~= pending);
    }
}

/// A chunk is three seconds of the device's samples.
pub proof fn law_chunks_last_three_seconds(in_sample_rate: u32)
    ensures
        chunk_window(in_sample_rate) == 3 * in_sample_rate,
        chunk_window(TARGET_SAMPLE_RATE) == SAMPLES_PER_CHUNK,
        SAMPLES_PER_CHUNK == 48_000,
{
}

/// A run of silent chunks is worth a warning at its first chunk and at every
/// fifth, and at no other.
pub proof fn law_warnings_come_at_one_and_at_fives(k: int)
    requires
        k >= 0,
    ensures
        warns_at(1),
        warns_at(5 * k),
        forall|d: int| 1 <= d <= 4 && 5 * k + d != 1 ==> !#[trigger] warns_at(5 * k + d),
{
}

/// The counters of a loop are the number of chunks and the length of the
/// silent run at the end.
pub proof fn law_counters_count(state: CaptureLoop, chunks: Seq<bool>)
    requires
        counts_chunks(state, chunks),
    ensures
        state.chunk_idx == chunks.len(),
        state.consecutive_silent <= chunks.len(),
        forall|i: int| chunks.len() - state.consecutive_silent <= i < chunks.len() ==> chunks[i],
        state.consecutive_silent < chunks.len() ==> !chunks[chunks.len()
            - state.consecutive_silent - 1],
{
    law_silent_run_is_trailing(chunks);
}

/// A capture starts running, with nothing handed out and nothing pending. Each
/// further event does to it what the loop and its buffer do: a delivery is
/// appended whole unless paused; a look at a set stop flag, or at any flag of
/// a loop that has ended, hands nothing out; any other look hands out the
/// oldest window where there is one.
pub proof fn law_capture_event_by_event<T>(window: nat, events: Seq<CaptureEvent<T>>)
    ensures
        capture_run::<T>(window, Seq::empty()).running,
        capture_run::<T>(window, Seq::empty()).windows.len() == 0,
        capture_run::<T>(window, Seq::empty()).pending.len() == 0,
        forall|mono: Seq<T>|
            ({
                let before = capture_run(window, events);
                let after = #[trigger] capture_run(
                    window,
                    events.push(CaptureEvent::Deliver { paused: false, mono }),
                );
                &&& after.pending == before.pending + mono
                &&& after.windows == before.windows
                &&& after.running == before.running
            }),
        forall|mono: Seq<T>|
            #[trigger] capture_run(
                window,
                events.push(CaptureEvent::Deliver { paused: true, mono }),
            ) == capture_run(window, events),
        ({
            let before = capture_run(window, events);
            let after = capture_run(window, events.push(CaptureEvent::Poll { stopped: true }));
            &&& !after.running
            &&& after.windows == before.windows
            &&& after.pending == before.pending
        }),
        ({
            let before = capture_run(window, events);
            let after = capture_run(window, events.push(CaptureEvent::Poll { stopped: false }));
            if before.running && before.pending.len() >= window {
                &&& after.running
                &&& after.windows.len() == before.windows.len() + 1
                &&& before.windows.is_prefix_of(after.windows)
                &&& after.windows.last().len() == window
                &&& after.windows.last() + after.pending == before.pending
            } else {
                &&& after.running == before.running
                &&& after.windows == before.windows
                &&& after.pending == before.pending
            }
        }),
        forall|taken: bool|
            ({
                let before = capture_run(window, events);
                let after = #[trigger] capture_run(
                    window,
                    events.push(CaptureEvent::Sent { taken }),
                );
                &&& after.running == (before.running && taken)
                &&& after.windows == before.windows
                &&& after.pending == before.pending
            }),
{
    assert(forall|last: CaptureEvent<T>| #[trigger] events.push(last).drop_last() =~= events);
    let before = capture_run(window, events);
    if before.pending.len() >= window {
        let taken = before.pending.take(window as int);
        assert(taken + before.pending.skip(window as int) =~= before.pending);
        assert(before.windows.push(taken).take(before.windows.len() as int) =~= before.windows);
    }
}

/// A loop and its buffer have seen events happen just where they stand as the
/// capture does after those events.
pub proof fn law_history_is_where_the_capture_stands<T>(
    state: CaptureLoop,
    pending: Seq<T>,
    events: Seq<CaptureEvent<T>>,
)
    ensures
        has_captured(state, pending, events) <==> {
            &&& state.running == capture_run(state.window as nat, events).running
            &&& pending == capture_run(state.window as nat, events).pending
        },
{
}

/// The samples that count are the unpaused deliveries, one after the other and
/// whole.
pub proof fn law_kept_is_all_unpaused_deliveries<T>(events: Seq<CaptureEvent<T>>)
    ensures
        kept(events) == events.map_values(
            |event: CaptureEvent<T>|
                match event {
                    CaptureEvent::Deliver { paused: false, mono } => mono,
                    _ => Seq::empty(),
                },
        ).flatten(),
    decreases events.len(),
{
    let heard = |event: CaptureEvent<T>|
        match event {
            CaptureEvent::Deliver { paused: false, mono } => mono,
            _ => Seq::<T>::empty(),
        };
    let monos = events.map_values(heard);
    if events.len() == 0 {
        assert(monos.flatten() =~= kept(events));
    } else {
        let before = events.drop_last();
        law_kept_is_all_unpaused_deliveries(before);
        assert(monos.drop_last() =~= before.map_values(heard));
        monos.lemma_flatten_and_flatten_alt_are_equivalent();
        monos.drop_last().lemma_flatten_and_flatten_alt_are_equivalent();
        assert(monos.flatten() =~= monos.drop_last().flatten() + monos.last());
        assert(kept(events) =~= monos.flatten());
    }
}

/// Whatever happens, the windows handed out, and then what is pending, are the
/// concatenation of all unpaused deliveries.
pub proof fn law_windows_and_rest_are_the_deliveries<T>(
    window: nat,
    events: Seq<CaptureEvent<T>>,
)
    ensures
        capture_run(window, events).windows.flatten() + capture_run(window, events).pending
            == events.map_values(
            |event: CaptureEvent<T>|
                match event {
                    CaptureEvent::Deliver { paused: false, mono } => mono,
                    _ => Seq::empty(),
                },
        ).flatten(),
        forall|k: int|
            0 <= k < capture_run(window, events).windows.len() ==> (
            #[trigger] capture_run(window, events).windows[k]).len() == window,
{
    law_no_sample_lost(window, events);
    law_kept_is_all_unpaused_deliveries(events);
    lemma_concat_is_flatten(capture_run(window, events).windows);
}

proof fn lemma_concat_is_flatten<T>(windows: Seq<Seq<T>>)
    ensures
        concat_all(windows) == windows.flatten(),
    decreases windows.len(),
{
    if windows.len() == 0 {
        assert(concat_all(windows) =~= windows.flatten());
    } else {
        lemma_concat_is_flatten(windows.drop_last());
        windows.lemma_flatten_and_flatten_alt_are_equivalent();
        windows.drop_last().lemma_flatten_and_flatten_alt_are_equivalent();
    }
}

/// What a step hands out is its window, and no other step hands out anything.
pub proof fn law_only_windows_are_handed_out<T>(step: CaptureStep<T>)
    ensures
        match step {
            CaptureStep::Window(samples) => handed_out(step).len() == 1 && handed_out(step)[0]
                == samples@,
            _ => handed_out(step).len() == 0,
        },
{
}

} // verus!
