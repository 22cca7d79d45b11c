use mia::dictation::{
    build_result, classify_cancel, interpret_down, next_phase, CancelReason, Phase, SessionAction,
    Signal,
};
use mia::hotkey::ActivationMode;

#[test]
fn happy_path_transitions() {
    let p = Phase::Idle;
    let p = next_phase(p, Signal::Start);
    assert_eq!(p, Phase::Listening);
    let p = next_phase(p, Signal::EndCapture);
    assert_eq!(p, Phase::Transcribing);
    let p = next_phase(p, Signal::Transcribed);
    assert_eq!(p, Phase::Inserting);
    let p = next_phase(p, Signal::Injected);
    assert_eq!(p, Phase::Idle);
}

#[test]
fn empty_speech_returns_to_idle_without_inserting() {
    assert_eq!(next_phase(Phase::Listening, Signal::Empty), Phase::Idle);
    assert_eq!(next_phase(Phase::Transcribing, Signal::TranscribedEmpty), Phase::Idle);
}

#[test]
fn cancel_from_any_phase_returns_idle() {
    for p in [Phase::Idle, Phase::Listening, Phase::Transcribing, Phase::Inserting, Phase::Error] {
        assert_eq!(next_phase(p, Signal::Cancel), Phase::Idle);
    }
}

#[test]
fn fail_goes_to_error_then_dismiss_to_idle() {
    assert_eq!(next_phase(Phase::Transcribing, Signal::Fail), Phase::Error);
    assert_eq!(next_phase(Phase::Error, Signal::Dismiss), Phase::Idle);
}

#[test]
fn illegal_signal_is_a_no_op() {
    assert_eq!(next_phase(Phase::Idle, Signal::Injected), Phase::Idle);
    assert_eq!(next_phase(Phase::Transcribing, Signal::EndCapture), Phase::Transcribing);
}

#[test]
fn interpret_down_by_mode_and_activity() {
    assert_eq!(interpret_down(ActivationMode::PushToHold, false), SessionAction::Start);
    assert_eq!(interpret_down(ActivationMode::PressToToggle, false), SessionAction::Start);
    assert_eq!(interpret_down(ActivationMode::PressToToggle, true), SessionAction::Stop);
    assert_eq!(interpret_down(ActivationMode::PushToHold, true), SessionAction::Ignore);
}

#[test]
fn classify_cancel_priority() {
    assert_eq!(classify_cancel(true, true), CancelReason::UserEscape);
    assert_eq!(classify_cancel(false, true), CancelReason::Timeout);
    assert_eq!(classify_cancel(false, false), CancelReason::EmptySpeech);
}

#[test]
fn build_result_computes_durations() {
    let r = build_result(42, Some("pt".into()), 1_000, 1_200, 1_900, 2_050, "enigo");
    assert_eq!(r.total_ms, 1_050);
    assert_eq!(r.stt_ms, 700);
    assert_eq!(r.injected_chars, 42);
    assert_eq!(r.backend, "enigo");
}

#[test]
fn build_result_saturates_on_backwards_clock() {
    let r = build_result(0, None, 2_000, 0, 0, 1_000, "clipboard");
    assert_eq!(r.total_ms, 0);
}

#[test]
fn dictation_fail_from_listening_and_dismiss_elsewhere_ignored() {
    assert_eq!(next_phase(Phase::Listening, Signal::Fail), Phase::Error);
    assert_eq!(next_phase(Phase::Listening, Signal::Dismiss), Phase::Listening);
}
