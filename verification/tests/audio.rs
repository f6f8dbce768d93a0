use parlyx_streamer::audio::{
    center_u16, choose_decoder, default_device, downmix_mono, find_device, list_input_devices,
    requested_device, start_capture, CaptureHandle, DeviceConfig, DeviceRequest, ProbedDevice,
    SampleDecoder, SampleFormat, CHUNK_SECONDS, SAMPLES_PER_CHUNK, TARGET_SAMPLE_RATE,
};

fn device(name: Option<&str>, config: Option<(u16, u32)>) -> ProbedDevice {
    ProbedDevice {
        name: name.map(|n| n.to_string()),
        config: config.map(|(channels, sample_rate)| DeviceConfig { channels, sample_rate }),
    }
}

#[test]
fn a_chunk_is_three_seconds() {
    assert_eq!(SAMPLES_PER_CHUNK, (TARGET_SAMPLE_RATE * CHUNK_SECONDS) as usize);
    assert_eq!(SAMPLES_PER_CHUNK, 48_000);
}

#[test]
fn devices_are_listed_in_order_and_the_default_is_marked() {
    let listed = list_input_devices(
        Some("USB".to_string()),
        vec![
            device(Some("Built-in"), Some((2, 44_100))),
            device(Some("Broken"), None),
            device(None, Some((1, 8_000))),
            device(Some("USB"), Some((1, 48_000))),
        ],
    );
    let shown: Vec<(&str, u16, u32, bool)> = listed
        .iter()
        .map(|d| (d.name.as_str(), d.channels, d.default_sample_rate, d.is_default))
        .collect();
    assert_eq!(
        shown,
        vec![
            ("Built-in", 2, 44_100, false),
            ("<unknown>", 1, 8_000, false),
            ("USB", 1, 48_000, true)
        ]
    );
}

#[test]
fn without_a_default_only_an_empty_name_is_marked() {
    let listed = list_input_devices(
        None,
        vec![device(Some(""), Some((1, 1))), device(Some("x"), Some((1, 1)))],
    );
    assert!(listed[0].is_default);
    assert!(!listed[1].is_default);
    assert!(list_input_devices(None, vec![]).is_empty());
}

#[test]
fn no_name_means_the_default_device() {
    assert!(matches!(requested_device(None), DeviceRequest::Default));
    assert!(matches!(requested_device(Some(String::new())), DeviceRequest::Default));
    assert!(matches!(requested_device(Some("mic".to_string())), DeviceRequest::Named(n) if n == "mic"));
}

#[test]
fn the_first_device_of_the_name_is_found() {
    let names = vec![None, Some("a".to_string()), Some("b".to_string()), Some("b".to_string())];
    assert_eq!(find_device(&names, &"b".to_string()), Ok(2));
    assert_eq!(
        find_device(&names, &"c".to_string()),
        Err("input device 'c' not found".to_string())
    );
    assert_eq!(
        find_device(&vec![None], &"<unknown>".to_string()),
        Err("input device '<unknown>' not found".to_string())
    );
}

#[test]
fn a_missing_default_device_is_an_error() {
    assert_eq!(default_device(Some(3)), Ok(3));
    assert_eq!(default_device::<u8>(None), Err("no default input device".to_string()));
}

#[test]
fn three_formats_are_supported() {
    assert_eq!(choose_decoder(SampleFormat::F32), Ok(SampleDecoder::F32));
    assert_eq!(choose_decoder(SampleFormat::I16), Ok(SampleDecoder::I16));
    assert_eq!(choose_decoder(SampleFormat::U16), Ok(SampleDecoder::U16));
    assert_eq!(
        choose_decoder(SampleFormat::Other("F64".to_string())),
        Err("unsupported sample format: F64".to_string())
    );
}

#[test]
fn unsigned_samples_are_centered() {
    assert_eq!(center_u16(32767), 0);
    assert_eq!(center_u16(0), -32767);
    assert_eq!(center_u16(u16::MAX), 32768);
}

#[test]
fn handle_flags() {
    let mut h = start_capture();
    assert_eq!(h, CaptureHandle { stop_flag: false, pause_flag: false, thread: true });
    h.pause();
    assert!(h.pause_flag && !h.stop_flag);
    h.resume();
    assert!(!h.pause_flag);
    assert!(h.stop());
    assert!(h.stop_flag);
    assert!(!h.stop());
}

fn mean(frame: &[f32]) -> f32 {
    frame.iter().sum::<f32>() / frame.len() as f32
}

#[test]
fn downmix_averages_whole_frames() {
    assert_eq!(downmix_mono(&[0.0f32, 1.0, 0.5, 0.25, 9.0], 2, mean), vec![0.5, 0.375]);
    assert_eq!(downmix_mono(&[3.0f32, 6.0, 9.0], 3, mean), vec![6.0]);
    assert_eq!(downmix_mono(&[3.0f32], 2, mean), Vec::<f32>::new());
}

#[test]
fn downmix_in_parts_is_downmix_of_the_whole() {
    let a = [0.0f32, 1.0, 0.5, 0.25];
    let b = [4.0f32, 2.0, 9.0];
    let whole = downmix_mono(&[0.0f32, 1.0, 0.5, 0.25, 4.0, 2.0, 9.0], 2, mean);
    let mut parts = downmix_mono(&a, 2, mean);
    parts.extend(downmix_mono(&b, 2, mean));
    assert_eq!(whole, vec![0.5, 0.375, 3.0]);
    assert_eq!(parts, whole);
}

#[test]
fn downmix_keeps_a_single_channel() {
    assert_eq!(downmix_mono(&[0.25f32, -0.5], 1, mean), vec![0.25, -0.5]);
    assert_eq!(downmix_mono(&[0.25f32, -0.5], 0, mean), vec![0.25, -0.5]);
}
