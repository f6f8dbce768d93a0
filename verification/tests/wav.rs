use parlyx_streamer::audio::TARGET_SAMPLE_RATE;
use parlyx_streamer::wav::encode_wav;
use std::io::Cursor;

#[test]
fn empty_chunk_is_a_bare_header() {
    let bytes = encode_wav(&[]).unwrap();
    assert_eq!(
        bytes,
        vec![
            b'R', b'I', b'F', b'F', 36, 0, 0, 0, b'W', b'A', b'V', b'E', b'f', b'm', b't', b' ', 16,
            0, 0, 0, 1, 0, 1, 0, 0x80, 0x3e, 0, 0, 0x00, 0x7d, 0, 0, 2, 0, 16, 0, b'd', b'a', b't',
            b'a', 0, 0, 0, 0
        ]
    );
}

#[test]
fn samples_are_little_endian_after_the_header() {
    let bytes = encode_wav(&[0, 1, -1, 258, i16::MAX, i16::MIN]).unwrap();
    assert_eq!(bytes.len(), 44 + 12);
    assert_eq!(&bytes[4..8], &[36 + 12, 0, 0, 0]);
    assert_eq!(&bytes[40..44], &[12, 0, 0, 0]);
    assert_eq!(&bytes[44..], &[0, 0, 1, 0, 0xff, 0xff, 2, 1, 0xff, 0x7f, 0x00, 0x80]);
}

#[test]
fn a_reader_gives_back_the_samples() {
    let samples: Vec<i16> = (0..5000i32).map(|i| ((i * 37) % 65536 - 32768) as i16).collect();
    let bytes = encode_wav(&samples).unwrap();
    let mut reader = hound::WavReader::new(Cursor::new(bytes)).unwrap();
    let spec = reader.spec();
    assert_eq!(spec.channels, 1);
    assert_eq!(spec.sample_rate, TARGET_SAMPLE_RATE);
    assert_eq!(spec.bits_per_sample, 16);
    assert_eq!(spec.sample_format, hound::SampleFormat::Int);
    let back: Vec<i16> = reader.samples::<i16>().map(|s| s.unwrap()).collect();
    assert_eq!(back, samples);
}

#[test]
fn different_chunks_differ() {
    assert_ne!(encode_wav(&[1, 2]).unwrap(), encode_wav(&[2, 1]).unwrap());
    assert_ne!(encode_wav(&[0]).unwrap(), encode_wav(&[]).unwrap());
}
