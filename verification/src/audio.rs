//! Audio capture: which device to open, how its samples are buffered, cut
//! into chunks and metered, and how capture is paused and stopped.
//!
//! Samples are of a type parameter here: the caller chooses their
//! representation, and nothing in this module computes with them.

use vstd::prelude::*;
use vstd::slice::slice_subrange;

verus! {

/// Sample rate, in Hz, that the server's streaming pipeline expects.
pub const TARGET_SAMPLE_RATE: u32 = 16_000;

/// Chunk length in seconds.
pub const CHUNK_SECONDS: u32 = 3;

/// Samples per chunk at [`TARGET_SAMPLE_RATE`].
pub const SAMPLES_PER_CHUNK: usize = 48_000;

/// How long the capture loop sleeps while a chunk is not complete.
pub const POLL_INTERVAL_MS: u64 = 50;

/// An input device, as the picker shows it.
#[derive(Debug, Clone)]
pub struct AudioDevice {
    pub name: String,
    pub channels: u16,
    pub default_sample_rate: u32,
    pub is_default: bool,
}

/// The default input configuration of a device.
#[derive(Debug, Clone, Copy)]
pub struct DeviceConfig {
    pub channels: u16,
    pub sample_rate: u32,
}

/// What the host reports of one input device. A device may fail to give its
/// name or its default configuration.
#[derive(Debug, Clone)]
pub struct ProbedDevice {
    pub name: Option<String>,
    pub config: Option<DeviceConfig>,
}

/// The name a device goes by: a nameless one is `<unknown>`.
pub open spec fn device_label(name: Option<String>) -> Seq<char> {
    match name {
        Some(n) => n@,
        None => "<unknown>"@,
    }
}

/// The name of the default device, empty where there is none.
pub open spec fn default_label(name: Option<String>) -> Seq<char> {
    match name {
        Some(n) => n@,
        None => Seq::empty(),
    }
}

/// Whether `listed` is how `probed` shows in the list of devices.
pub open spec fn lists_as(
    probed: ProbedDevice,
    default_name: Option<String>,
    listed: AudioDevice,
) -> bool {
    &&& probed.config matches Some(config) && listed.channels == config.channels
        && listed.default_sample_rate == config.sample_rate
    &&& listed.name@ == device_label(probed.name)
    &&& listed.is_default == (device_label(probed.name) == default_label(default_name))
}

/// The devices that have a default configuration, in the host's order.
pub open spec fn usable(probed: Seq<ProbedDevice>) -> Seq<ProbedDevice> {
    probed.filter(|d: ProbedDevice| d.config is Some)
}

/// The name a device goes by.
fn label_of(name: Option<String>) -> (r: String)
    ensures
        r@ == device_label(name),
{
    match name {
        Some(n) => n,
        None => "<unknown>".to_owned(),
    }
}

/// Lists the host's input devices for the picker: each device that has a
/// default configuration, in the host's order, the default one marked. A
/// device without a default configuration is left out.
pub fn list_input_devices(default_name: Option<String>, probed: Vec<ProbedDevice>) -> (r: Vec<
    AudioDevice,
>)
    ensures
        r@.len() == usable(probed@).len(),
        forall|i: int|
            0 <= i < r@.len() ==> lists_as(usable(probed@)[i], default_name, #[trigger] r@[i]),
        r@.len() == probed@.filter(|d: ProbedDevice| d.config is Some).len(),
        forall|i: int|
            0 <= i < r@.len() ==> {
                let d = probed@.filter(|d: ProbedDevice| d.config is Some)[i];
                &&& d.config matches Some(config) && (#[trigger] r@[i]).channels == config.channels
                    && r@[i].default_sample_rate == config.sample_rate
                &&& match d.name {
                    Some(name) => r@[i].name@ == name@,
                    None => r@[i].name@ == "<unknown>"@,
                }
                &&& r@[i].is_default == match default_name {
                    Some(default) => r@[i].name@ == default@,
                    None => r@[i].name@ == Seq::<char>::empty(),
                }
            },
{
    let mut out: Vec<AudioDevice> = Vec::new();
    let default_text: String = match default_name.clone() {
        Some(n) => n,
        None => String::new(),
    };
    assert(default_text@ =~= default_label(default_name));
    let mut i: usize = 0;
    while i < probed.len()
        invariant
            i <= probed@.len(),
            default_text@ == default_label(default_name),
            out@.len() == usable(probed@.take(i as int)).len(),
            forall|k: int|
                0 <= k < out@.len() ==> lists_as(
                    usable(probed@.take(i as int))[k],
                    default_name,
                    #[trigger] out@[k],
                ),
        decreases probed@.len() - i,
    {
        proof {
            assert(probed@.take(i + 1).drop_last() =~= probed@.take(i as int));
            reveal(Seq::filter);
        }
        match probed[i].config {
            Some(config) => {
                let name: String = label_of(probed[i].name.clone());
                let is_default: bool = name == default_text;
                out.push(
                    AudioDevice {
                        is_default,
                        name,
                        channels: config.channels,
                        default_sample_rate: config.sample_rate,
                    },
                );
            },
            None => {},
        }
        i = i + 1;
    }
    assert(probed@.take(i as int) =~= probed@);
    out
}

/// Which device to capture from.
#[derive(Debug)]
pub enum DeviceRequest {
    /// The host's default input device.
    Default,
    /// The first device of this name.
    Named(String),
}

/// Reads the user's choice: no name, or an empty one, means the default device.
pub fn requested_device(device_name: Option<String>) -> (r: DeviceRequest)
    ensures
        match device_name {
            Some(name) => if name@.len() > 0 {
                r == DeviceRequest::Named(name)
            } else {
                r == DeviceRequest::Default
            },
            None => r == DeviceRequest::Default,
        },
{
    match device_name {
        Some(name) => {
            if name.as_str().is_empty() {
                DeviceRequest::Default
            } else {
                DeviceRequest::Named(name)
            }
        },
        None => DeviceRequest::Default,
    }
}

/// Whether the device at `i` has the name looked for.
pub open spec fn is_named(names: Seq<Option<String>>, i: int, name: Seq<char>) -> bool {
    names[i] matches Some(n) && n@ == name
}

/// The first device of the given name, as an index into `names`. A device
/// that fails to give its name is never a match.
pub fn find_device(names: &Vec<Option<String>>, name: &String) -> (r: Result<usize, String>)
    ensures
        match r {
            Ok(i) => {
                &&& i < names@.len()
                &&& is_named(names@, i as int, name@)
                &&& forall|j: int| 0 <= j < i ==> !is_named(names@, j, name@)
                &&& names@[i as int] matches Some(found) && found@ == name@
                &&& forall|j: int|
                    0 <= j < i ==> (#[trigger] names@[j] matches Some(other) ==> other@ != name@)
            },
            Err(message) => {
                &&& forall|j: int| 0 <= j < names@.len() ==> !is_named(names@, j, name@)
                &&& forall|j: int|
                    0 <= j < names@.len() ==> (#[trigger] names@[j] matches Some(other) ==> other@
                        != name@)
                &&& message@ == "input device '"@ + name@ + "' not found"@
            },
        },
{
    let mut i: usize = 0;
    while i < names.len()
        invariant
            i <= names@.len(),
            forall|j: int| 0 <= j < i ==> !is_named(names@, j, name@),
            forall|j: int|
                0 <= j < i ==> (#[trigger] names@[j] matches Some(other) ==> other@ != name@),
        decreases names@.len() - i,
    {
        match &names[i] {
            Some(n) => {
                if *n == *name {
                    return Ok(i);
                }
            },
            None => {},
        }
        i = i + 1;
    }
    let mut message: String = "input device '".to_owned();
    message.append(name.as_str());
    message.append("' not found");
    Err(message)
}

/// The default device, where the host has one.
pub fn default_device<D>(device: Option<D>) -> (r: Result<D, String>)
    ensures
        match device {
            Some(d) => r == Ok::<D, String>(d),
            None => r matches Err(message) && message@ == "no default input device"@,
        },
{
    match device {
        Some(d) => Ok(d),
        None => Err("no default input device".to_owned()),
    }
}

/// A sample format that a device may deliver. One that is not supported
/// carries its name.
#[derive(Debug)]
pub enum SampleFormat {
    F32,
    I16,
    U16,
    Other(String),
}

/// The formats that capture can decode.
#[derive(Debug, Clone, Copy, PartialEq, Eq, Structural)]
pub enum SampleDecoder {
    F32,
    I16,
    U16,
}

/// Chooses how to decode a device's samples, or refuses its format.
pub fn choose_decoder(format: SampleFormat) -> (r: Result<SampleDecoder, String>)
    ensures
        match format {
            SampleFormat::F32 => r == Ok::<SampleDecoder, String>(SampleDecoder::F32),
            SampleFormat::I16 => r == Ok::<SampleDecoder, String>(SampleDecoder::I16),
            SampleFormat::U16 => r == Ok::<SampleDecoder, String>(SampleDecoder::U16),
            SampleFormat::Other(name) => r matches Err(message) && message@
                == "unsupported sample format: "@ + name@,
        },
{
    match format {
        SampleFormat::F32 => Ok(SampleDecoder::F32),
        SampleFormat::I16 => Ok(SampleDecoder::I16),
        SampleFormat::U16 => Ok(SampleDecoder::U16),
        SampleFormat::Other(name) => {
            let mut message: String = "unsupported sample format: ".to_owned();
            message.append(name.as_str());
            Err(message)
        },
    }
}

/// Moves an unsigned sample so that silence lies at zero.
pub fn center_u16(sample: u16) -> (r: i32)
    ensures
        r == sample - i16::MAX,
{
    sample as i32 - 32767
}

/// The handle on a running capture: its two flags, and whether a capture
/// thread is still to be joined.
#[derive(Debug, Clone, Copy, PartialEq, Eq, Structural)]
pub struct CaptureHandle {
    pub stop_flag: bool,
    pub pause_flag: bool,
    pub thread: bool,
}

/// The handle of a capture whose thread has just been started.
pub fn start_capture() -> (r: CaptureHandle)
    ensures
        r == (CaptureHandle { stop_flag: false, pause_flag: false, thread: true }),
{
    CaptureHandle { stop_flag: false, pause_flag: false, thread: true }
}

impl CaptureHandle {
    /// From now on, what the device delivers is discarded.
    pub fn pause(&mut self)
        ensures
            *final(self) == (CaptureHandle { pause_flag: true, ..*old(self) }),
    {
        self.pause_flag = true;
    }

    /// From now on, what the device delivers is kept again.
    pub fn resume(&mut self)
        ensures
            *final(self) == (CaptureHandle { pause_flag: false, ..*old(self) }),
    {
        self.pause_flag = false;
    }

    /// Tells the capture loop to end. The result says whether the caller has a
    /// thread to join: that is so once.
    pub fn stop(&mut self) -> (join: bool)
        ensures
            *final(self) == (CaptureHandle { stop_flag: true, thread: false, ..*old(self) }),
            join == old(self).thread,
    {
        self.stop_flag = true;
        let join: bool = self.thread;
        self.thread = false;
        join
    }
}

/// The frames that `len` interleaved samples make, without a partial one.
pub open spec fn frame_count(len: nat, channels: nat) -> nat {
    len / channels
}

/// One frame of interleaved samples: one sample of each channel.
pub open spec fn frame<T>(interleaved: Seq<T>, channels: nat, f: int) -> Seq<T> {
    interleaved.subrange(f * channels, f * channels + channels)
}

/// Whether `mixed` is a result of `mean` on the frame `f`.
pub open spec fn is_mean_of_frame<T, M: Fn(&[T]) -> T>(
    mean: M,
    interleaved: Seq<T>,
    channels: nat,
    f: int,
    mixed: T,
) -> bool {
    exists|slice: &[T]|
        #![trigger call_ensures(mean, (slice,), mixed)]
        slice@ == frame(interleaved, channels, f) && call_ensures(mean, (slice,), mixed)
}

/// Whether `mixed` is a downmix of interleaved samples: what `mean` makes of
/// each whole frame, in order. Samples of a single channel are their own
/// downmix.
pub open spec fn is_downmix<T, M: Fn(&[T]) -> T>(
    mean: M,
    interleaved: Seq<T>,
    channels: nat,
    mixed: Seq<T>,
) -> bool {
    if channels <= 1 {
        mixed == interleaved
    } else {
        &&& mixed.len() == frame_count(interleaved.len(), channels)
        &&& forall|f: int|
            0 <= f < mixed.len() ==> is_mean_of_frame(
                mean,
                interleaved,
                channels,
                f,
                #[trigger] mixed[f],
            )
    }
}

/// Mixes interleaved samples down to one channel: each whole frame becomes
/// what `mean` makes of it, and a trailing partial frame is dropped. Samples
/// of a single channel come back as they are.
pub fn downmix_mono<T: Copy, M: Fn(&[T]) -> T>(
    interleaved: &[T],
    channels: usize,
    mean: M,
) -> (r: Vec<T>)
    requires
        forall|slice: &[T]| slice@.len() == channels ==> call_requires(mean, (slice,)),
    ensures
        is_downmix(mean, interleaved@, channels as nat, r@),
        channels <= 1 ==> r@ == interleaved@,
        channels > 1 ==> r@.len() == interleaved@.len() / channels as nat,
{
    let mut out: Vec<T> = Vec::new();
    if channels <= 1 {
        let mut i: usize = 0;
        while i < interleaved.len()
            invariant
                i <= interleaved@.len(),
                out@ == interleaved@.take(i as int),
            decreases interleaved@.len() - i,
        {
            out.push(interleaved[i]);
            assert(interleaved@.take(i + 1) =~= interleaved@.take(i as int).push(
                interleaved@[i as int],
            ));
            i = i + 1;
        }
        assert(interleaved@.take(i as int) =~= interleaved@);
        return out;
    }
    let len: usize = interleaved.len();
    let frames: usize = len / channels;
    let mut f: usize = 0;
    while f < frames
        invariant
            channels > 1,
            len == interleaved@.len(),
            frames == frame_count(interleaved@.len(), channels as nat),
            f <= frames,
            out@.len() == f,
            forall|slice: &[T]| slice@.len() == channels ==> call_requires(mean, (slice,)),
            forall|k: int|
                0 <= k < f ==> is_mean_of_frame(
                    mean,
                    interleaved@,
                    channels as nat,
                    k,
                    #[trigger] out@[k],
                ),
        decreases frames - f,
    {
        proof {
            let n = interleaved@.len() as int;
            let c = channels as int;
            assert((f + 1) * c <= n && f * c + c == (f + 1) * c && 0 <= f * c)
                by (nonlinear_arith)
                requires
                    f < frames,
                    frames == n / c,
                    c > 1,
                    n >= 0,
                    f >= 0,
            ;
        }
        let start: usize = f * channels;
        let slice = slice_subrange(interleaved, start, start + channels);
        let ghost before = out@;
        let mixed: T = mean(slice);
        out.push(mixed);
        assert(slice@ == frame(interleaved@, channels as nat, f as int));
        assert(call_ensures(mean, (slice,), mixed));
        assert forall|k: int| 0 <= k < f + 1 implies is_mean_of_frame(
            mean,
            interleaved@,
            channels as nat,
            k,
            #[trigger] out@[k],
        ) by {
            if k < f {
                assert(out@[k] == before[k]);
            }
        }
        f = f + 1;
    }
    out
}

/// Cutting interleaved samples between two frames leaves the frames as they
/// are: the frames of the whole are those of the first part, then those of the
/// second.
pub proof fn law_frames_of_parts<T>(a: Seq<T>, b: Seq<T>, channels: nat)
    requires
        channels >= 1,
        a.len() % channels == 0,
    ensures
        frame_count((a + b).len(), channels) == frame_count(a.len(), channels) + frame_count(
            b.len(),
            channels,
        ),
        forall|f: int|
            0 <= f < frame_count(a.len(), channels) ==> #[trigger] frame(a + b, channels, f)
                == frame(a, channels, f),
        forall|f: int|
            0 <= f < frame_count(b.len(), channels) ==> #[trigger] frame(b, channels, f) == frame(
                a + b,
                channels,
                frame_count(a.len(), channels) + f,
            ),
{
    let c = channels as int;
    let p = a.len() as int;
    let q = b.len() as int;
    let n = p / c;
    assert(n * c == p) by (nonlinear_arith)
        requires
            c >= 1,
            p % c == 0,
            n == p / c,
    ;
    assert((p + q) / c == n + q / c) by (nonlinear_arith)
        requires
            c >= 1,
            n * c == p,
    ;
    assert forall|f: int| 0 <= f < n implies #[trigger] frame(a + b, channels, f) == frame(
        a,
        channels,
        f,
    ) by {
        assert(0 <= f * c && f * c + c <= p) by (nonlinear_arith)
            requires
                0 <= f < n,
                c >= 1,
                n * c == p,
        ;
        assert(frame(a + b, channels, f) =~= frame(a, channels, f));
    }
    assert forall|f: int| 0 <= f < q / c implies #[trigger] frame(b, channels, f) == frame(
        a + b,
        channels,
        n + f,
    ) by {
        assert(0 <= f * c && f * c + c <= q && (n + f) * c == p + f * c) by (nonlinear_arith)
            requires
                0 <= f < q / c,
                c >= 1,
                n * c == p,
        ;
        assert(frame(a + b, channels, n + f) =~= frame(b, channels, f));
    }
}

/// Whether `mean` makes the same of the same samples.
pub open spec fn is_deterministic<T, M: Fn(&[T]) -> T>(mean: M) -> bool {
    forall|s: &[T], t: &[T], x: T, y: T|
        s@ == t@ && #[trigger] call_ensures(mean, (s,), x) && #[trigger] call_ensures(
            mean,
            (t,),
            y,
        ) ==> x == y
}

/// Mixing down in parts changes nothing, as long as the parts are cut between
/// frames: the downmix of the whole is the downmix of the first part, then
/// that of the second.
pub proof fn law_downmix_of_parts<T, M: Fn(&[T]) -> T>(
    mean: M,
    a: Seq<T>,
    b: Seq<T>,
    channels: nat,
    mixed_a: Seq<T>,
    mixed_b: Seq<T>,
    mixed: Seq<T>,
)
    requires
        channels >= 1,
        a.len() % channels == 0,
        is_deterministic(mean),
        is_downmix(mean, a, channels, mixed_a),
        is_downmix(mean, b, channels, mixed_b),
        is_downmix(mean, a + b, channels, mixed),
    ensures
        mixed == mixed_a + mixed_b,
{
    if channels > 1 {
        law_frames_of_parts(a, b, channels);
        let n = frame_count(a.len(), channels) as int;
        assert forall|f: int| 0 <= f < mixed.len() implies mixed[f] == (mixed_a + mixed_b)[f] by {
            assert(is_mean_of_frame(mean, a + b, channels, f, mixed[f]));
            if f < n {
                assert(is_mean_of_frame(mean, a, channels, f, mixed_a[f]));
                assert(frame(a + b, channels, f) == frame(a, channels, f));
            } else {
                assert(is_mean_of_frame(mean, b, channels, f - n, mixed_b[f - n]));
                assert(frame(b, channels, f - n) == frame(a + b, channels, n + (f - n)));
            }
        }
        assert(mixed =~= mixed_a + mixed_b);
    }
}

/// The devices of two lists are those of the first that have a configuration
/// and then those of the second. A single device is kept just where it has
/// one.
pub proof fn law_usable_devices_one_by_one(
    a: Seq<ProbedDevice>,
    b: Seq<ProbedDevice>,
    device: ProbedDevice,
)
    ensures
        usable(a + b) == usable(a) + usable(b),
        device.config is Some ==> usable(seq![device]) == seq![device],
        device.config is None ==> usable(seq![device]) == Seq::<ProbedDevice>::empty(),
    decreases b.len(),
{
    reveal_with_fuel(Seq::filter, 2);
    assert(seq![device].drop_last() =~= Seq::empty());
    assert(usable(Seq::empty()) =~= Seq::empty());
    assert(usable(seq![device]) =~= if device.config is Some {
        seq![device]
    } else {
        Seq::empty()
    });
    if b.len() == 0 {
        assert(a + b =~= a);
        assert(usable(a) + usable(b) =~= usable(a));
    } else {
        assert((a + b).drop_last() =~= a + b.drop_last());
        law_usable_devices_one_by_one(a, b.drop_last(), device);
        assert(usable(a + b) =~= usable(a) + usable(b));
    }
}

/// A device is listed under its own name, or `<unknown>` where it gives none,
/// with the channels and the rate of its configuration. It is the default just
/// where it goes by the default device's name.
pub proof fn law_devices_are_listed_as_they_are(
    probed: ProbedDevice,
    default_name: Option<String>,
    listed: AudioDevice,
)
    requires
        lists_as(probed, default_name, listed),
    ensures
        probed.config matches Some(config) && config.channels == listed.channels
            && config.sample_rate == listed.default_sample_rate,
        probed.name matches Some(name) ==> listed.name@ == name@,
        probed.name is None ==> listed.name@ == "<unknown>"@,
        default_name matches Some(default) ==> listed.is_default == (listed.name@ == default@),
        default_name is None ==> listed.is_default == (listed.name@.len() == 0),
{
    assert(listed.name@ =~= Seq::<char>::empty() <==> listed.name@.len() == 0);
}

/// Frames are laid end to end: sample `k` of frame `f` is the sample at `k`
/// behind `f` whole frames, and fewer samples than a frame are left over.
pub proof fn law_frames_sample_by_sample<T>(interleaved: Seq<T>, channels: nat, f: int, k: int)
    requires
        channels >= 1,
        0 <= f < frame_count(interleaved.len(), channels),
        0 <= k < channels,
    ensures
        0 <= f * channels + k < interleaved.len(),
        frame(interleaved, channels, f).len() == channels,
        frame(interleaved, channels, f)[k] == interleaved[f * channels + k],
        frame_count(interleaved.len(), channels) * channels <= interleaved.len(),
        interleaved.len() < (frame_count(interleaved.len(), channels) + 1) * channels,
{
    let n = interleaved.len() as int;
    let c = channels as int;
    let q = n / c;
    assert(q * c <= n && n < (q + 1) * c && 0 <= f * c && f * c + c <= n) by (nonlinear_arith)
        requires
            c >= 1,
            n >= 0,
            q == n / c,
            0 <= f < q,
    ;
}

/// A downmix of several channels has one sample a frame, each a result of
/// `mean` on that whole frame; a downmix of one channel is that channel.
pub proof fn law_downmix_frame_by_frame<T, M: Fn(&[T]) -> T>(
    mean: M,
    interleaved: Seq<T>,
    channels: nat,
    mixed: Seq<T>,
    f: int,
)
    requires
        is_downmix(mean, interleaved, channels, mixed),
    ensures
        channels <= 1 ==> mixed == interleaved,
        channels > 1 ==> mixed.len() == interleaved.len() / channels,
        channels > 1 && 0 <= f < mixed.len() ==> exists|slice: &[T]|
            #![trigger call_ensures(mean, (slice,), mixed[f])]
            slice@ == interleaved.subrange(f * channels, f * channels + channels) && call_ensures(
                mean,
                (slice,),
                mixed[f],
            ),
{
    if channels > 1 && 0 <= f < mixed.len() {
        assert(is_mean_of_frame(mean, interleaved, channels, f, mixed[f]));
    }
}

} // verus!
