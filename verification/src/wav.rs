//! The WAV container that each chunk of samples travels in.

use std::io::Cursor;
use vstd::prelude::*;

use crate::audio::{SAMPLES_PER_CHUNK, TARGET_SAMPLE_RATE};

verus! {

/// Why a chunk could not be encoded.
#[derive(Debug, Clone, Copy, PartialEq, Eq, Structural)]
pub enum WavError {
    /// The header could not be written.
    Header,
    /// A sample could not be written.
    Sample,
    /// The lengths could not be filled in at the end.
    Finish,
}

/// The low byte of a number in two's complement.
pub open spec fn byte0(x: int) -> u8 {
    (x % 256) as u8
}

/// The second lowest byte of a number in two's complement.
pub open spec fn byte1(x: int) -> u8 {
    (x / 256 % 256) as u8
}

/// Sixteen bits, little endian.
pub open spec fn le16(x: int) -> Seq<u8> {
    seq![byte0(x), byte1(x)]
}

/// Thirty-two bits, little endian.
pub open spec fn le32(x: int) -> Seq<u8> {
    le16(x) + le16(x / 65536)
}

/// Four letters as bytes.
pub open spec fn tag(a: char, b: char, c: char, d: char) -> Seq<u8> {
    seq![a as u8, b as u8, c as u8, d as u8]
}

/// The forty-four bytes in front of `data_len` bytes of integer PCM samples:
/// the RIFF header, the format chunk and the head of the data chunk.
pub open spec fn wav_header(channels: u16, sample_rate: u32, bits: u16, data_len: int) -> Seq<u8> {
    let frame = channels * (bits / 8);
    tag('R', 'I', 'F', 'F') + le32(36 + data_len) + tag('W', 'A', 'V', 'E') + tag(
        'f',
        'm',
        't',
        ' ',
    ) + le32(16) + le16(1) + le16(channels as int) + le32(sample_rate as int) + le32(
        sample_rate * frame,
    ) + le16(frame) + le16(bits as int) + tag('d', 'a', 't', 'a') + le32(data_len)
}

/// Sixteen-bit samples, each little endian, one after the other.
pub open spec fn pcm16(samples: Seq<i16>) -> Seq<u8> {
    Seq::new(
        2 * samples.len(),
        |i: int|
            if i % 2 == 0 {
                byte0(samples[i / 2] as int)
            } else {
                byte1(samples[i / 2] as int)
            },
    )
}

/// A whole WAV file of sixteen-bit integer samples.
pub open spec fn wav_file(channels: u16, sample_rate: u32, samples: Seq<i16>) -> Seq<u8> {
    wav_header(channels, sample_rate, 16, 2 * samples.len() as int) + pcm16(samples)
}

/// `hound::Error`, carried but never looked into.
#[verifier::external_type_specification]
#[verifier::external_body]
pub struct ExHoundError(hound::Error);

/// A `hound::WavWriter` that writes sixteen-bit samples into a byte vector.
/// It collects samples: `sink_samples` names those written so far,
/// `sink_format` the channel count and sample rate it was opened with, and
/// `sink_target` the bytes that the borrowed vector holds once the writer has
/// let go of it. `hound` bounds the writer's parameter by `std::io` traits,
/// hence a struct around it.
#[verifier::external_body]
pub struct WavSink<'a> {
    writer: hound::WavWriter<Cursor<&'a mut Vec<u8>>>,
}

/// The samples written to the sink so far.
pub uninterp spec fn sink_samples(sink: WavSink) -> Seq<i16>;

/// The channel count and the sample rate that the sink was opened with.
pub uninterp spec fn sink_format(sink: WavSink) -> (u16, u32);

/// What the vector behind the sink holds when the sink's borrow ends.
pub uninterp spec fn sink_target(sink: WavSink) -> Seq<u8>;

/// Whether `hound::WavWriter::new` succeeds on an empty vector.
pub uninterp spec fn sink_opens(channels: u16, sample_rate: u32, bits_per_sample: u16) -> bool;

/// Whether `hound::WavWriter::write_sample` succeeds on a sample, given the
/// format and the samples written before it.
pub uninterp spec fn sink_takes(
    channels: u16,
    sample_rate: u32,
    written: Seq<i16>,
    sample: i16,
) -> bool;

/// Whether `hound::WavWriter::finalize` succeeds, given the format and the
/// samples written.
pub uninterp spec fn sink_closes(channels: u16, sample_rate: u32, written: Seq<i16>) -> bool;

/// `hound::WavWriter::new` on a cursor at the start of an empty vector, for
/// sixteen-bit integer samples: where it succeeds, no sample has been written
/// yet, the format is the one asked for, and the vector ends up as the sink's
/// target. It writes a header, which the format alone determines, into memory;
/// whether it succeeds is therefore named as a function of the format. That
/// the `std::io` cursor under it never fails is not stated.
#[verifier::external_body]
fn open_sink<'a>(
    buf: &'a mut Vec<u8>,
    channels: u16,
    sample_rate: u32,
    bits_per_sample: u16,
) -> (r: Result<WavSink<'a>, hound::Error>)
    requires
        old(buf)@.len() == 0,
        bits_per_sample == 16,
        1 <= channels <= 2,
        1 <= sample_rate,
        sample_rate * channels * 2 <= u32::MAX,
    ensures
        r is Ok <==> sink_opens(channels, sample_rate, bits_per_sample),
        r matches Ok(sink) ==> {
            &&& sink_samples(sink) == Seq::<i16>::empty()
            &&& sink_format(sink) == (channels, sample_rate)
            &&& sink_target(sink) == final(buf)@
        },
{
    let spec = hound::WavSpec {
        channels,
        sample_rate,
        bits_per_sample,
        sample_format: hound::SampleFormat::Int,
    };
    let writer = hound::WavWriter::new(Cursor::new(buf), spec)?;
    Ok(WavSink { writer })
}

/// `hound::WavWriter::write_sample` on a sixteen-bit sample: where it
/// succeeds, the sample comes after those written before. Format and target
/// stay. A sink that a write failed on is given up. The write goes to memory,
/// behind what was written before; whether it succeeds is named as a function
/// of that and of the sample. A sink that is dropped writes its header too, so
/// the file size with the new sample must fit thirty-two bits.
#[verifier::external_body]
fn write_sample<'a>(mut sink: WavSink<'a>, sample: i16) -> (r: Result<WavSink<'a>, hound::Error>)
    requires
        2 * (sink_samples(sink).len() + 1) + 36 <= u32::MAX,
    ensures
        r is Ok <==> sink_takes(
            sink_format(sink).0,
            sink_format(sink).1,
            sink_samples(sink),
            sample,
        ),
        r matches Ok(longer) ==> {
            &&& sink_samples(longer) == sink_samples(sink).push(sample)
            &&& sink_format(longer) == sink_format(sink)
            &&& sink_target(longer) == sink_target(sink)
        },
{
    sink.writer.write_sample(sample)?;
    Ok(sink)
}

/// `hound::WavWriter::finalize`: where it succeeds, the vector behind the
/// sink holds the WAV file of the format and of the samples written. It writes
/// the lengths into the header, in memory; whether it succeeds is named as a
/// function of the format and the samples. It fails where the last frame lacks
/// samples. The file size that goes into the header must fit thirty-two bits.
#[verifier::external_body]
fn finish_sink(sink: WavSink) -> (r: Result<(), hound::Error>)
    requires
        2 * sink_samples(sink).len() + 36 <= u32::MAX,
    ensures
        r is Ok <==> sink_closes(sink_format(sink).0, sink_format(sink).1, sink_samples(sink)),
        r is Ok ==> sink_samples(sink).len() % (sink_format(sink).0 as nat) == 0,
        r is Ok ==> sink_target(sink) == wav_file(
            sink_format(sink).0,
            sink_format(sink).1,
            sink_samples(sink),
        ),
{
    sink.writer.finalize()
}

/// Whether a chunk of `len` samples fits a WAV file, whose header counts its
/// bytes in thirty-two bits.
pub open spec fn fits_wav(len: nat) -> bool {
    2 * len + 36 <= u32::MAX
}

/// Whether the writer takes every sample, each after those before it.
pub open spec fn sink_takes_all(channels: u16, sample_rate: u32, samples: Seq<i16>) -> bool {
    forall|i: int|
        0 <= i < samples.len() ==> sink_takes(
            channels,
            sample_rate,
            samples.take(i),
            #[trigger] samples[i],
        )
}

/// What becomes of a chunk of mono samples at [`TARGET_SAMPLE_RATE`]: the
/// whole WAV file, unless the writer fails. The error tells at which step: at
/// the header, at some sample, or at the end.
pub open spec fn wav_outcome(samples: Seq<i16>) -> Result<Seq<u8>, WavError> {
    if !sink_opens(1, TARGET_SAMPLE_RATE, 16) {
        Err(WavError::Header)
    } else if !sink_takes_all(1, TARGET_SAMPLE_RATE, samples) {
        Err(WavError::Sample)
    } else if !sink_closes(1, TARGET_SAMPLE_RATE, samples) {
        Err(WavError::Finish)
    } else {
        Ok(wav_file(1, TARGET_SAMPLE_RATE, samples))
    }
}

/// Encodes a chunk of mono samples at [`TARGET_SAMPLE_RATE`] as a WAV file in
/// memory. It fails just where the writer underneath fails.
pub fn encode_wav(samples: &[i16]) -> (r: Result<Vec<u8>, WavError>)
    requires
        fits_wav(samples@.len()),
    ensures
        match r {
            Ok(bytes) => wav_outcome(samples@) == Ok::<Seq<u8>, WavError>(bytes@),
            Err(error) => wav_outcome(samples@) == Err::<Seq<u8>, WavError>(error),
        },
        r matches Ok(bytes) ==> bytes@ == wav_file(1, TARGET_SAMPLE_RATE, samples@),
        r is Ok <==> {
            &&& sink_opens(1, TARGET_SAMPLE_RATE, 16)
            &&& forall|i: int|
                0 <= i < samples@.len() ==> sink_takes(
                    1,
                    TARGET_SAMPLE_RATE,
                    samples@.take(i),
                    #[trigger] samples@[i],
                )
            &&& sink_closes(1, TARGET_SAMPLE_RATE, samples@)
        },
        r == Err::<Vec<u8>, WavError>(WavError::Header) ==> !sink_opens(
            1,
            TARGET_SAMPLE_RATE,
            16,
        ),
        r == Err::<Vec<u8>, WavError>(WavError::Sample) ==> exists|i: int|
            0 <= i < samples@.len() && !sink_takes(
                1,
                TARGET_SAMPLE_RATE,
                samples@.take(i),
                #[trigger] samples@[i],
            ),
        r == Err::<Vec<u8>, WavError>(WavError::Finish) ==> !sink_closes(
            1,
            TARGET_SAMPLE_RATE,
            samples@,
        ),
{
    let mut buf: Vec<u8> = Vec::new();
    let mut sink = match open_sink(&mut buf, 1, TARGET_SAMPLE_RATE, 16) {
        Ok(sink) => sink,
        Err(_) => return Err(WavError::Header),
    };
    let ghost target = sink_target(sink);
    let mut i: usize = 0;
    while i < samples.len()
        invariant
            i <= samples@.len(),
            fits_wav(samples@.len()),
            sink_opens(1, TARGET_SAMPLE_RATE, 16),
            forall|k: int|
                0 <= k < i ==> sink_takes(
                    1,
                    TARGET_SAMPLE_RATE,
                    samples@.take(k),
                    #[trigger] samples@[k],
                ),
            sink_samples(sink) == samples@.take(i as int),
            sink_format(sink) == (1u16, TARGET_SAMPLE_RATE),
            sink_target(sink) == target,
        decreases samples@.len() - i,
    {
        sink = match write_sample(sink, samples[i]) {
            Ok(longer) => longer,
            Err(_) => return Err(WavError::Sample),
        };
        assert(samples@.take(i + 1) =~= samples@.take(i as int).push(samples@[i as int]));
        i = i + 1;
    }
    assert(samples@.take(i as int) =~= samples@);
    match finish_sink(sink) {
        Ok(()) => {},
        Err(_) => return Err(WavError::Finish),
    }
    Ok(buf)
}

/// The number that two bytes denote in little endian two's complement.
pub open spec fn sample_at(bytes: Seq<u8>, at: int) -> int {
    let unsigned = bytes[at] + 256 * bytes[at + 1];
    if unsigned < 32768 {
        unsigned
    } else {
        unsigned - 65536
    }
}

/// A WAV file gives back the samples that went into it: it is forty-four bytes
/// of header and two bytes a sample, and the bytes of each sample denote it.
pub proof fn law_wav_gives_back_samples(channels: u16, sample_rate: u32, samples: Seq<i16>)
    ensures
        wav_file(channels, sample_rate, samples).len() == 44 + 2 * samples.len(),
        forall|k: int|
            0 <= k < samples.len() ==> sample_at(
                wav_file(channels, sample_rate, samples),
                44 + 2 * k,
            ) == #[trigger] samples[k],
{
    let file = wav_file(channels, sample_rate, samples);
    let header = wav_header(channels, sample_rate, 16, 2 * samples.len() as int);
    assert(header.len() == 44);
    assert forall|k: int| 0 <= k < samples.len() implies sample_at(file, 44 + 2 * k)
        == #[trigger] samples[k] by {
        let x = samples[k] as int;
        assert(file[44 + 2 * k] == pcm16(samples)[2 * k]);
        assert(file[44 + 2 * k + 1] == pcm16(samples)[2 * k + 1]);
        assert((2 * k) / 2 == k && (2 * k + 1) / 2 == k);
        assert(byte0(x) + 256 * byte1(x) == if x < 0 { x + 65536 } else { x });
    }
}

/// Two chunks of samples are never encoded as the same file.
pub proof fn law_wav_injective(channels: u16, sample_rate: u32, a: Seq<i16>, b: Seq<i16>)
    ensures
        wav_file(channels, sample_rate, a) == wav_file(channels, sample_rate, b) <==> a == b,
{
    if wav_file(channels, sample_rate, a) == wav_file(channels, sample_rate, b) {
        law_wav_gives_back_samples(channels, sample_rate, a);
        law_wav_gives_back_samples(channels, sample_rate, b);
        assert forall|k: int| 0 <= k < a.len() implies a[k] == b[k] by {
            assert(a[k] as int == b[k] as int);
        }
        assert(a =~= b);
    }
}

/// A chunk fits a WAV file just where the size in the header, thirty-six bytes
/// and two a sample, fits thirty-two bits.
pub proof fn law_what_fits_a_file(len: nat)
    ensures
        fits_wav(len) <==> len <= 2_147_483_629,
{
}

/// Encoding fails only where the writer fails: a writer that opens, takes every
/// sample in turn and closes leaves the file, however long the chunk. Each
/// error comes from the step that it names.
pub proof fn law_encoding_fails_only_where_the_writer_fails(samples: Seq<i16>)
    ensures
        wav_outcome(samples) is Ok <==> {
            &&& sink_opens(1, TARGET_SAMPLE_RATE, 16)
            &&& forall|i: int|
                0 <= i < samples.len() ==> sink_takes(
                    1,
                    TARGET_SAMPLE_RATE,
                    samples.take(i),
                    #[trigger] samples[i],
                )
            &&& sink_closes(1, TARGET_SAMPLE_RATE, samples)
        },
        wav_outcome(samples) matches Ok(file) ==> file == wav_file(1, TARGET_SAMPLE_RATE, samples),
        wav_outcome(samples) == Err::<Seq<u8>, WavError>(WavError::Header) <==> !sink_opens(
            1,
            TARGET_SAMPLE_RATE,
            16,
        ),
        wav_outcome(samples) == Err::<Seq<u8>, WavError>(WavError::Sample) ==> exists|i: int|
            0 <= i < samples.len() && !sink_takes(
                1,
                TARGET_SAMPLE_RATE,
                samples.take(i),
                #[trigger] samples[i],
            ),
        wav_outcome(samples) == Err::<Seq<u8>, WavError>(WavError::Finish) ==> !sink_closes(
            1,
            TARGET_SAMPLE_RATE,
            samples,
        ),
{
}

/// A full chunk is encoded, wherever the writer does not fail: it fits a file,
/// which is a header and two bytes a sample.
pub proof fn law_full_chunks_are_encoded(samples: Seq<i16>)
    requires
        samples.len() == SAMPLES_PER_CHUNK,
        sink_opens(1, TARGET_SAMPLE_RATE, 16),
        forall|i: int|
            0 <= i < samples.len() ==> sink_takes(
                1,
                TARGET_SAMPLE_RATE,
                samples.take(i),
                #[trigger] samples[i],
            ),
        sink_closes(1, TARGET_SAMPLE_RATE, samples),
    ensures
        fits_wav(samples.len()),
        wav_outcome(samples) matches Ok(file) && file.len() == 44 + 2 * SAMPLES_PER_CHUNK,
{
    law_wav_gives_back_samples(1, TARGET_SAMPLE_RATE, samples);
}

proof fn lemma_le32(x: int)
    requires
        0 <= x <= u32::MAX,
    ensures
        le32(x).len() == 4,
        le32(x)[0] + 256 * le32(x)[1] + 65536 * le32(x)[2] + 16777216 * le32(x)[3] == x,
{
    let high = x / 65536;
    assert(le32(x)[0] == byte0(x) && le32(x)[1] == byte1(x));
    assert(le32(x)[2] == byte0(high) && le32(x)[3] == byte1(high));
    assert(x == x % 256 + 256 * (x / 256 % 256) + 65536 * high);
    assert(high == high % 256 + 256 * (high / 256 % 256)) by {
        assert(high / 256 < 256);
    }
}

proof fn lemma_le16(x: int)
    requires
        0 <= x <= u16::MAX,
    ensures
        le16(x).len() == 2,
        le16(x)[0] + 256 * le16(x)[1] == x,
{
    assert(x / 256 < 256);
}

/// Where the parts of a header stand.
proof fn lemma_thirteen_parts(
    a: Seq<u8>,
    b: Seq<u8>,
    c: Seq<u8>,
    d: Seq<u8>,
    e: Seq<u8>,
    f: Seq<u8>,
    g: Seq<u8>,
    h: Seq<u8>,
    i: Seq<u8>,
    j: Seq<u8>,
    k: Seq<u8>,
    l: Seq<u8>,
    m: Seq<u8>,
    s: Seq<u8>,
)
    requires
        a.len() == 4,
        b.len() == 4,
        c.len() == 4,
        d.len() == 4,
        e.len() == 4,
        f.len() == 2,
        g.len() == 2,
        h.len() == 4,
        i.len() == 4,
        j.len() == 2,
        k.len() == 2,
        l.len() == 4,
        m.len() == 4,
        s == a + b + c + d + e + f + g + h + i + j + k + l + m,
    ensures
        s.len() == 44,
        s[0] == a[0] && s[1] == a[1] && s[2] == a[2] && s[3] == a[3],
        s[4] == b[0] && s[5] == b[1] && s[6] == b[2] && s[7] == b[3],
        s[8] == c[0] && s[9] == c[1] && s[10] == c[2] && s[11] == c[3],
        s[12] == d[0] && s[13] == d[1] && s[14] == d[2] && s[15] == d[3],
        s[16] == e[0] && s[17] == e[1] && s[18] == e[2] && s[19] == e[3],
        s[20] == f[0] && s[21] == f[1],
        s[22] == g[0] && s[23] == g[1],
        s[24] == h[0] && s[25] == h[1] && s[26] == h[2] && s[27] == h[3],
        s[28] == i[0] && s[29] == i[1] && s[30] == i[2] && s[31] == i[3],
        s[32] == j[0] && s[33] == j[1],
        s[34] == k[0] && s[35] == k[1],
        s[36] == l[0] && s[37] == l[1] && s[38] == l[2] && s[39] == l[3],
        s[40] == m[0] && s[41] == m[1] && s[42] == m[2] && s[43] == m[3],
{
    let front = a + b + c + d + e;
    let middle = front + f + g + h + i;
    assert(front.len() == 20 && middle.len() == 32);
    assert(forall|x: int| 0 <= x < 20 ==> s[x] == front[x]);
    assert(forall|x: int| 20 <= x < 32 ==> s[x] == middle[x]);
}

/// A WAV file byte by byte: the tags, the sizes and the format at their places
/// in the header, then the low and the high byte of each sample.
pub proof fn law_wav_bytes(channels: u16, sample_rate: u32, samples: Seq<i16>)
    requires
        1 <= channels <= 2,
        sample_rate * (channels * 2) <= u32::MAX,
        2 * samples.len() + 36 <= u32::MAX,
    ensures
        wav_file(channels, sample_rate, samples).len() == 44 + 2 * samples.len(),
        ({
            let file = wav_file(channels, sample_rate, samples);
            &&& file[0] == 82 && file[1] == 73 && file[2] == 70 && file[3] == 70
            &&& file[4] + 256 * file[5] + 65536 * file[6] + 16777216 * file[7] == 36 + 2
                * samples.len()
            &&& file[8] == 87 && file[9] == 65 && file[10] == 86 && file[11] == 69
            &&& file[12] == 102 && file[13] == 109 && file[14] == 116 && file[15] == 32
            &&& file[16] == 16 && file[17] == 0 && file[18] == 0 && file[19] == 0
            &&& file[20] == 1 && file[21] == 0
            &&& file[22] + 256 * file[23] == channels
            &&& file[24] + 256 * file[25] + 65536 * file[26] + 16777216 * file[27] == sample_rate
            &&& file[28] + 256 * file[29] + 65536 * file[30] + 16777216 * file[31] == sample_rate
                * (channels * 2)
            &&& file[32] + 256 * file[33] == channels * 2
            &&& file[34] == 16 && file[35] == 0
            &&& file[36] == 100 && file[37] == 97 && file[38] == 116 && file[39] == 97
            &&& file[40] + 256 * file[41] + 65536 * file[42] + 16777216 * file[43] == 2
                * samples.len()
        }),
        forall|k: int|
            0 <= k < samples.len() ==> wav_file(channels, sample_rate, samples)[44 + 2 * k] + 256
                * wav_file(channels, sample_rate, samples)[45 + 2 * k] == if (
            #[trigger] samples[k]) < 0 {
                samples[k] + 65536
            } else {
                samples[k] as int
            },
{
    let n = 2 * samples.len() as int;
    let frame = channels * 2;
    let header = wav_header(channels, sample_rate, 16, n);
    let file = wav_file(channels, sample_rate, samples);
    assert(0 <= sample_rate * frame) by (nonlinear_arith)
        requires
            frame >= 0,
    ;
    lemma_le32(36 + n);
    lemma_le32(16);
    lemma_le16(1);
    lemma_le16(channels as int);
    lemma_le32(sample_rate as int);
    lemma_le32(sample_rate * frame);
    lemma_le16(frame);
    lemma_le16(16);
    lemma_le32(n);
    assert(channels * (16u16 / 8) == frame);
    lemma_thirteen_parts(
        tag('R', 'I', 'F', 'F'),
        le32(36 + n),
        tag('W', 'A', 'V', 'E'),
        tag('f', 'm', 't', ' '),
        le32(16),
        le16(1),
        le16(channels as int),
        le32(sample_rate as int),
        le32(sample_rate * frame),
        le16(frame),
        le16(16),
        tag('d', 'a', 't', 'a'),
        le32(n),
        header,
    );
    assert(forall|i: int| 0 <= i < 44 ==> file[i] == header[i]);
    assert forall|k: int| 0 <= k < samples.len() implies file[44 + 2 * k] + 256 * file[45 + 2 * k]
        == if (#[trigger] samples[k]) < 0 {
        samples[k] + 65536
    } else {
        samples[k] as int
    } by {
        let x = samples[k] as int;
        assert(file[44 + 2 * k] == pcm16(samples)[2 * k]);
        assert(file[45 + 2 * k] == pcm16(samples)[2 * k + 1]);
        assert((2 * k) / 2 == k && (2 * k + 1) / 2 == k);
    }
}

} // verus!
