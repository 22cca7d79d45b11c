use mia::audio::{
    level_window, level_window_start, mic_test_duration_ms, normalize_device_name, FrameChunker, HudCadence,
    FRAME_SAMPLES, SAMPLE_RATE_HZ,
};

#[test]
fn frame_chunker_yields_exact_frames_and_buffers_remainder() {
    let mut c = FrameChunker::<f32>::new(480);
    let frames = c.push(&vec![0.0; 1000]);
    assert_eq!(frames.len(), 2);
    assert!(frames.iter().all(|f| f.len() == 480));
    assert_eq!(c.pending(), 40);
    let more = c.push(&vec![0.0; 440]);
    assert_eq!(more.len(), 1);
    assert_eq!(c.pending(), 0);
}

#[test]
fn frame_samples_is_480() {
    assert_eq!(FRAME_SAMPLES, 480);
    assert_eq!(FRAME_SAMPLES, (SAMPLE_RATE_HZ as usize / 1000) * 30);
}

#[test]
fn device_name_collapses_whitespace() {
    assert_eq!(normalize_device_name("  Mic   (USB)\t Array "), "Mic (USB) Array");
}

#[test]
fn audio_chunker_keeps_sample_order() {
    let mut c = FrameChunker::<i16>::new(3);
    let frames = c.push(&[1, 2, 3, 4]);
    assert_eq!(frames, vec![vec![1, 2, 3]]);
    let more = c.push(&[5, 6, 7]);
    assert_eq!(more, vec![vec![4, 5, 6]]);
    assert_eq!(c.pending(), 1);
    let mut z = FrameChunker::<u8>::new(0);
    assert_eq!(z.push(&[9, 9]).len(), 2);
}

#[test]
fn level_meter_window_and_cadence() {
    assert_eq!(level_window(48_000), 960);
    assert_eq!(level_window(16_000), 320);
    assert_eq!(level_window(10), 1);
    assert_eq!(level_window_start(5000, 960), 4040);
    assert_eq!(level_window_start(100, 960), 0);
    let mut c = HudCadence::new();
    let ticks: Vec<bool> = (0..6).map(|_| c.next()).collect();
    assert_eq!(ticks, vec![false, false, true, false, false, true]);
}

#[test]
fn mic_test_duration_defaults_and_clamps() {
    assert_eq!(mic_test_duration_ms(None), 1500);
    assert_eq!(mic_test_duration_ms(Some(50)), 200);
    assert_eq!(mic_test_duration_ms(Some(9000)), 5000);
    assert_eq!(mic_test_duration_ms(Some(2500)), 2500);
}
