use parlyx_streamer::audio::{start_capture, CaptureHandle};
use parlyx_streamer::capture::{
    needs_resampling, resampled, window_samples, CaptureLoop, CaptureStep, LevelNote,
    PendingSamples,
};

fn window(step: CaptureStep<u32>) -> Vec<u32> {
    match step {
        CaptureStep::Window(w) => w,
        other => panic!("{:?}", other),
    }
}

#[test]
fn a_window_is_three_seconds_at_the_device_rate() {
    assert_eq!(window_samples(16_000), 48_000);
    assert_eq!(window_samples(8_000), 24_000);
    assert_eq!(window_samples(44_100), 132_300);
    assert_eq!(window_samples(48_000), 144_000);
    assert_eq!(window_samples(96_000), 288_000);
    assert_eq!(CaptureLoop::new::<u32>(44_100).window, 132_300);
}

#[test]
fn chunks_are_consecutive_spans() {
    let mut h = start_capture();
    let mut pending = PendingSamples::new();
    let mut state = CaptureLoop::new::<u32>(16_000);
    pending.deliver(h, (0..50_000u32).collect());
    h.pause();
    pending.deliver(h, vec![7; 1_000]);
    h.resume();
    pending.deliver(h, (50_000..100_000u32).collect());
    assert_eq!(window(state.poll(h, &mut pending)), (0..48_000).collect::<Vec<u32>>());
    assert_eq!(window(state.poll(h, &mut pending)), (48_000..96_000).collect::<Vec<u32>>());
    assert!(matches!(state.poll(h, &mut pending), CaptureStep::Sleep));
}

#[test]
fn windows_come_out_in_order() {
    let h = start_capture();
    let mut pending = PendingSamples::new();
    let mut state = CaptureLoop::new::<u32>(1);
    assert!(matches!(state.poll(h, &mut pending), CaptureStep::Sleep));
    pending.deliver(h, vec![1u32, 2]);
    assert!(matches!(state.poll(h, &mut pending), CaptureStep::Sleep));
    pending.deliver(h, vec![3, 4, 5, 6, 7]);
    assert_eq!(window(state.poll(h, &mut pending)), vec![1, 2, 3]);
    assert_eq!(window(state.poll(h, &mut pending)), vec![4, 5, 6]);
    assert!(matches!(state.poll(h, &mut pending), CaptureStep::Sleep));
    pending.deliver(h, vec![8, 9]);
    assert_eq!(window(state.poll(h, &mut pending)), vec![7, 8, 9]);
}

#[test]
fn paused_deliveries_are_discarded() {
    let mut h = start_capture();
    let mut pending = PendingSamples::new();
    pending.deliver(h, vec![1u32]);
    h.pause();
    pending.deliver(h, vec![100, 101]);
    h.resume();
    pending.deliver(h, vec![2]);
    assert_eq!(pending.take_window(2), Some(vec![1, 2]));
    assert_eq!(pending.take_window(1), None);
}

#[test]
fn a_stopped_loop_exits_and_leaves_the_buffer() {
    let running = start_capture();
    let stopped = CaptureHandle { stop_flag: true, ..running };
    let mut pending = PendingSamples::new();
    pending.deliver(running, vec![1u32, 2, 3]);
    let mut state = CaptureLoop::new::<u32>(1);
    assert_eq!(state.window, 3);
    assert!(matches!(state.poll(stopped, &mut pending), CaptureStep::Exit));
    assert!(!state.running);
    assert_eq!(pending.take_window(3), Some(vec![1, 2, 3]));
}

#[test]
fn loop_ends_when_nobody_takes_chunks() {
    let mut state = CaptureLoop::new::<u32>(1);
    state.sent::<u32>(true);
    assert!(state.running);
    state.sent::<u32>(false);
    assert!(!state.running);
}

#[test]
fn silence_warns_at_the_first_and_every_fifth() {
    let mut state = CaptureLoop::new::<u32>(1);
    let mut warned = Vec::new();
    for _ in 0..12 {
        if let LevelNote::Silent { consecutive_silent, warn: true, .. } = state.captured(true) {
            warned.push(consecutive_silent);
        }
    }
    assert_eq!(warned, vec![1, 5, 10]);
    assert_eq!(
        state.captured(false),
        LevelNote::Audible { chunk: 12, resumed_after: Some(12) }
    );
    assert_eq!(state.captured(false), LevelNote::Audible { chunk: 13, resumed_after: None });
    assert_eq!(
        state.captured(true),
        LevelNote::Silent { chunk: 14, consecutive_silent: 1, warn: true }
    );
    assert_eq!(state.chunk_idx, 15);
}

#[test]
fn only_other_rates_are_resampled() {
    assert!(!needs_resampling(16_000));
    assert!(needs_resampling(44_100));
    assert_eq!(resampled(16_000, vec![1, 2], None), Some(vec![1, 2]));
    assert_eq!(resampled(48_000, vec![1, 2], Some(vec![7])), Some(vec![7]));
    assert_eq!(resampled(48_000, vec![1, 2], None), None);
}
