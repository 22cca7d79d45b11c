use mia::vad::{frames_for_ms, EndpointMachine, VadDecision};

fn run_probs(det: &mut EndpointMachine, probs: &[f32]) -> Vec<VadDecision> {
    probs.iter().map(|&p| det.push_frame(p >= 0.5)).collect()
}

#[test]
fn frames_for_ms_rounds_up_and_floors_at_one() {
    assert_eq!(frames_for_ms(150, 30), 5);
    assert_eq!(frames_for_ms(700, 30), 24);
    assert_eq!(frames_for_ms(1, 30), 1);
    assert_eq!(frames_for_ms(0, 30), 1);
}

#[test]
fn all_silence_never_starts_speech() {
    let mut det = EndpointMachine::with_params(150, 700, 30);
    let out = run_probs(&mut det, &[0.0; 50]);
    assert!(out.iter().all(|d| *d == VadDecision::Silence));
}

#[test]
fn speech_starts_only_after_min_speech_frames() {
    let mut det = EndpointMachine::with_params(150, 700, 30);
    let out = run_probs(&mut det, &[0.9, 0.9, 0.9, 0.9, 0.9]);
    assert_eq!(
        out,
        vec![
            VadDecision::Silence,
            VadDecision::Silence,
            VadDecision::Silence,
            VadDecision::Silence,
            VadDecision::SpeechStarted,
        ]
    );
}

#[test]
fn short_blip_does_not_start_speech() {
    let mut det = EndpointMachine::with_params(150, 700, 30);
    let out = run_probs(&mut det, &[0.9, 0.9, 0.9, 0.0, 0.0]);
    assert!(!out.contains(&VadDecision::SpeechStarted));
}

#[test]
fn ongoing_then_ends_after_min_silence() {
    let mut det = EndpointMachine::with_params(150, 700, 30);
    run_probs(&mut det, &[0.9; 5]);
    assert_eq!(det.push_frame(0.9 >= 0.5), VadDecision::SpeechOngoing);
    for _ in 0..23 {
        assert_eq!(det.push_frame(false), VadDecision::SpeechOngoing);
    }
    assert_eq!(det.push_frame(false), VadDecision::SpeechEnded);
}

#[test]
fn re_arms_for_a_second_utterance() {
    let mut det = EndpointMachine::with_params(150, 700, 30);
    run_probs(&mut det, &[0.9; 5]);
    for _ in 0..24 {
        det.push_frame(false);
    }
    let out = run_probs(&mut det, &[0.9; 5]);
    assert_eq!(out.last(), Some(&VadDecision::SpeechStarted));
}

#[test]
fn brief_pause_inside_utterance_does_not_end_it() {
    let mut det = EndpointMachine::with_params(150, 700, 30);
    run_probs(&mut det, &[0.9; 5]);
    for _ in 0..10 {
        assert_eq!(det.push_frame(false), VadDecision::SpeechOngoing);
    }
    assert_eq!(det.push_frame(true), VadDecision::SpeechOngoing);
    for _ in 0..23 {
        assert_eq!(det.push_frame(false), VadDecision::SpeechOngoing);
    }
    assert_eq!(det.push_frame(false), VadDecision::SpeechEnded);
}

#[test]
fn vad_reset_and_zero_frame_length() {
    let mut det = EndpointMachine::new();
    run_probs(&mut det, &[0.9; 5]);
    det.reset();
    assert_eq!(det.push_frame(false), VadDecision::Silence);
    assert_eq!(frames_for_ms(5, 0), 5);
    assert_eq!(frames_for_ms(60, 30), 2);
}
