//! The dictation orchestrator's decisions: the HUD phase machine, the trigger-mode
//! interpretation of a hotkey-down, the cancel-reason classifier and the latency
//! summary builder.

use vstd::prelude::*;

use crate::hotkey::ActivationMode;

verus! {

/// The HUD/orchestrator phase. `Error` is transient → `Idle`.
#[derive(Clone, Copy, Debug, PartialEq, Eq, Structural)]
pub enum Phase {
    Idle,
    Listening,
    Transcribing,
    Inserting,
    Error,
}

/// What happened to drive a phase transition.
#[derive(Clone, Copy, Debug, PartialEq, Eq, Structural)]
pub enum Signal {
    /// Hotkey-down / trigger → begin a session.
    Start,
    /// Capture ended (release, toggle-off, or VAD endpoint) → transcribe.
    EndCapture,
    /// VAD found no speech this session → nothing to transcribe.
    Empty,
    /// STT produced non-empty cleaned text → inject it.
    Transcribed,
    /// STT/cleanup reduced to empty → inject nothing.
    TranscribedEmpty,
    /// Injection finished → back to Idle.
    Injected,
    /// Escape / abort at any phase. Idempotent.
    Cancel,
    /// A stage failed (mic / STT / injection) → transient Error.
    Fail,
    /// Dismiss the transient Error → Idle.
    Dismiss,
}

/// Why a session ended without injecting.
#[derive(Clone, Copy, Debug, PartialEq, Eq, Structural)]
pub enum CancelReason {
    UserEscape,
    EmptySpeech,
    Timeout,
}

/// What a hotkey-down means given the current session.
#[derive(Clone, Copy, Debug, PartialEq, Eq, Structural)]
pub enum SessionAction {
    Start,
    Stop,
    Ignore,
}

/// The end-to-end session summary.
#[derive(Clone, Debug, PartialEq, Eq)]
pub struct DictationResult {
    pub injected_chars: usize,
    pub detected_language: Option<String>,
    pub total_ms: u64,
    pub stt_ms: u64,
    pub backend: String,
}

/// The phase machine: Cancel always returns to Idle; the happy path runs
/// Idle → Listening → Transcribing → Inserting → Idle; empty speech or an empty
/// transcript returns to Idle; Fail goes to Error from any phase and Dismiss leaves
/// it; every other (phase, signal) pair leaves the phase unchanged.
pub open spec fn next_phase_spec(phase: Phase, signal: Signal) -> Phase {
    if signal == Signal::Cancel {
        Phase::Idle
    } else {
        match (phase, signal) {
            (Phase::Idle, Signal::Start) => Phase::Listening,
            (Phase::Listening, Signal::EndCapture) => Phase::Transcribing,
            (Phase::Listening, Signal::Empty) => Phase::Idle,
            (Phase::Transcribing, Signal::Transcribed) => Phase::Inserting,
            (Phase::Transcribing, Signal::TranscribedEmpty) => Phase::Idle,
            (Phase::Inserting, Signal::Injected) => Phase::Idle,
            (_, Signal::Fail) => Phase::Error,
            (Phase::Error, Signal::Dismiss) => Phase::Idle,
            (current, _) => current,
        }
    }
}

/// The HUD state machine. A signal that doesn't apply to the current phase leaves it
/// unchanged.
pub fn next_phase(phase: Phase, signal: Signal) -> (p: Phase)
    ensures
        p == next_phase_spec(phase, signal),
{
    if signal == Signal::Cancel {
        return Phase::Idle;
    }
    match (phase, signal) {
        (Phase::Idle, Signal::Start) => Phase::Listening,
        (Phase::Listening, Signal::EndCapture) => Phase::Transcribing,
        (Phase::Listening, Signal::Empty) => Phase::Idle,
        (Phase::Transcribing, Signal::Transcribed) => Phase::Inserting,
        (Phase::Transcribing, Signal::TranscribedEmpty) => Phase::Idle,
        (Phase::Inserting, Signal::Injected) => Phase::Idle,
        (_, Signal::Fail) => Phase::Error,
        (Phase::Error, Signal::Dismiss) => Phase::Idle,
        (current, _) => current,
    }
}

/// Interpret a hotkey-down given whether a session is already active: idle → Start;
/// active toggle-mode → Stop; active hold-mode → Ignore (auto-repeat).
pub fn interpret_down(mode: ActivationMode, active: bool) -> (a: SessionAction)
    ensures
        !active ==> a == SessionAction::Start,
        active && mode == ActivationMode::PressToToggle ==> a == SessionAction::Stop,
        active && mode == ActivationMode::PushToHold ==> a == SessionAction::Ignore,
{
    match (active, mode) {
        (false, _) => SessionAction::Start,
        (true, ActivationMode::PressToToggle) => SessionAction::Stop,
        (true, ActivationMode::PushToHold) => SessionAction::Ignore,
    }
}

/// Classify why a session ended without injecting. Escape wins over a timeout, which
/// wins over plain empty speech.
pub fn classify_cancel(escaped: bool, timed_out: bool) -> (r: CancelReason)
    ensures
        r == if escaped {
            CancelReason::UserEscape
        } else if timed_out {
            CancelReason::Timeout
        } else {
            CancelReason::EmptySpeech
        },
{
    if escaped {
        CancelReason::UserEscape
    } else if timed_out {
        CancelReason::Timeout
    } else {
        CancelReason::EmptySpeech
    }
}

pub open spec fn sat_sub(a: u64, b: u64) -> u64 {
    if a >= b {
        (a - b) as u64
    } else {
        0
    }
}

/// Assemble the latency summary from stage timestamps (ms, monotonic): `total_ms` is
/// capture-start → done, `stt_ms` the inference portion, both saturating at 0.
pub fn build_result(
    injected_chars: usize,
    detected_language: Option<String>,
    capture_start_ms: u64,
    stt_start_ms: u64,
    stt_end_ms: u64,
    done_ms: u64,
    backend: &str,
) -> (r: DictationResult)
    ensures
        r.injected_chars == injected_chars,
        r.detected_language == detected_language,
        r.total_ms == sat_sub(done_ms, capture_start_ms),
        r.stt_ms == sat_sub(stt_end_ms, stt_start_ms),
        r.backend@ == backend@,
{
    DictationResult {
        injected_chars,
        detected_language,
        total_ms: done_ms.saturating_sub(capture_start_ms),
        stt_ms: stt_end_ms.saturating_sub(stt_start_ms),
        backend: String::from_str(backend),
    }
}

// ─────────────────────────────────────────────────────────────────────────────
// Laws
// ─────────────────────────────────────────────────────────────────────────────

/// Escape/abort returns to Idle from every phase, and cancelling twice is the same as
/// cancelling once.
pub proof fn lemma_cancel_always_idle(phase: Phase)
    ensures
        next_phase_spec(phase, Signal::Cancel) == Phase::Idle,
        next_phase_spec(next_phase_spec(phase, Signal::Cancel), Signal::Cancel) == Phase::Idle,
{
}

/// Text is only ever inserted after a transcription: the Inserting phase is entered
/// only from Transcribing on a non-empty transcript.
pub proof fn lemma_inserting_only_after_transcribed(phase: Phase, signal: Signal)
    ensures
        next_phase_spec(phase, signal) == Phase::Inserting && phase != Phase::Inserting ==> (phase
            == Phase::Transcribing && signal == Signal::Transcribed),
{
}

/// The Error phase is transient and reachable only through a failure: it is entered
/// only on Fail, and Dismiss or Cancel always leave it for Idle.
pub proof fn lemma_error_only_on_fail(phase: Phase, signal: Signal)
    ensures
        next_phase_spec(phase, signal) == Phase::Error && phase != Phase::Error ==> signal
            == Signal::Fail,
        next_phase_spec(Phase::Error, Signal::Dismiss) == Phase::Idle,
{
}

} // verus!
