//! Voice-activity endpointing: the state machine that turns a per-frame speech /
//! non-speech classification into utterance transitions, with a debounce before an
//! utterance starts and a hangover before it ends. Thresholding the model's speech
//! probability into that classification is the caller's part.

use vstd::prelude::*;

verus! {

/// VAD frame length in milliseconds (480 samples at 16 kHz).
pub const FRAME_MS: u32 = 30;

/// Minimum continuous speech before `SpeechStarted` (debounces coughs and clicks).
pub const MIN_SPEECH_MS: u32 = 150;

/// Silence run that ends an utterance.
pub const MIN_SILENCE_MS: u32 = 700;

/// One transition per processed frame.
#[derive(Clone, Copy, Debug, PartialEq, Eq, Structural)]
pub enum VadDecision {
    /// No speech yet (or after an endpoint).
    Silence,
    /// The frame at which a debounced run of speech became an utterance.
    SpeechStarted,
    /// Inside an utterance, including the hangover before an endpoint.
    SpeechOngoing,
    /// A silence run reached the minimum: the utterance ended.
    SpeechEnded,
}

pub open spec fn frames_for_ms_spec(ms: u32, frame_ms: u32) -> u32 {
    let f: int = if frame_ms >= 1 {
        frame_ms as int
    } else {
        1
    };
    let m: int = ms as int;
    let q: int = if m % f == 0 {
        m / f
    } else {
        m / f + 1
    };
    if q >= 1 {
        q as u32
    } else {
        1
    }
}

/// `ms` rounded up to whole frames of `frame_ms` (a zero frame length counts as 1),
/// never less than one frame.
pub fn frames_for_ms(ms: u32, frame_ms: u32) -> (n: u32)
    ensures
        n == frames_for_ms_spec(ms, frame_ms),
        n >= 1,
{
    let f = if frame_ms >= 1 {
        frame_ms
    } else {
        1
    };
    let q = if ms % f == 0 {
        ms / f
    } else {
        assert(f >= 2);
        assert(ms / f < u32::MAX) by (nonlinear_arith)
            requires
                f >= 2,
        ;
        ms / f + 1
    };
    if q >= 1 {
        q
    } else {
        1
    }
}

/// The endpoint state machine over speech / non-speech frames. It re-arms after
/// `SpeechEnded`, so successive utterances are detected without a reset.
#[derive(Clone, Debug)]
pub struct EndpointMachine {
    min_speech_frames: u32,
    min_silence_frames: u32,
    in_speech: bool,
    speech_run: u32,
    silence_run: u32,
}

/// The machine's state as plain values.
pub struct MachineV {
    pub min_speech_frames: u32,
    pub min_silence_frames: u32,
    pub in_speech: bool,
    pub speech_run: u32,
    pub silence_run: u32,
}

/// One frame: the next state and the transition emitted.
pub open spec fn step(m: MachineV, is_speech: bool) -> (MachineV, VadDecision) {
    if !m.in_speech {
        if !is_speech {
            (MachineV { speech_run: 0, ..m }, VadDecision::Silence)
        } else if m.speech_run + 1 >= m.min_speech_frames {
            (MachineV { in_speech: true, speech_run: 0, silence_run: 0, ..m }, VadDecision::SpeechStarted)
        } else {
            (MachineV { speech_run: (m.speech_run + 1) as u32, ..m }, VadDecision::Silence)
        }
    } else {
        if is_speech {
            (MachineV { silence_run: 0, ..m }, VadDecision::SpeechOngoing)
        } else if m.silence_run + 1 >= m.min_silence_frames {
            (MachineV { in_speech: false, speech_run: 0, silence_run: 0, ..m }, VadDecision::SpeechEnded)
        } else {
            (MachineV { silence_run: (m.silence_run + 1) as u32, ..m }, VadDecision::SpeechOngoing)
        }
    }
}

/// Runs stay below their thresholds, and only the current phase has a run.
pub open spec fn machine_wf(m: MachineV) -> bool {
    &&& m.min_speech_frames >= 1
    &&& m.min_silence_frames >= 1
    &&& m.speech_run < m.min_speech_frames
    &&& m.silence_run < m.min_silence_frames
}

impl EndpointMachine {
    pub closed spec fn view(&self) -> MachineV {
        MachineV {
            min_speech_frames: self.min_speech_frames,
            min_silence_frames: self.min_silence_frames,
            in_speech: self.in_speech,
            speech_run: self.speech_run,
            silence_run: self.silence_run,
        }
    }

    pub open spec fn wf(&self) -> bool {
        machine_wf(self.view())
    }

    /// Build from the fixed defaults.
    pub fn new() -> (m: Self)
        ensures
            m.wf(),
            m.view().min_speech_frames == frames_for_ms_spec(MIN_SPEECH_MS, FRAME_MS),
            m.view().min_silence_frames == frames_for_ms_spec(MIN_SILENCE_MS, FRAME_MS),
            !m.view().in_speech,
            m.view().speech_run == 0,
            m.view().silence_run == 0,
    {
        Self::with_params(MIN_SPEECH_MS, MIN_SILENCE_MS, FRAME_MS)
    }

    /// Build from explicit durations.
    pub fn with_params(min_speech_ms: u32, min_silence_ms: u32, frame_ms: u32) -> (m: Self)
        ensures
            m.wf(),
            m.view().min_speech_frames == frames_for_ms_spec(min_speech_ms, frame_ms),
            m.view().min_silence_frames == frames_for_ms_spec(min_silence_ms, frame_ms),
            !m.view().in_speech,
            m.view().speech_run == 0,
            m.view().silence_run == 0,
    {
        EndpointMachine {
            min_speech_frames: frames_for_ms(min_speech_ms, frame_ms),
            min_silence_frames: frames_for_ms(min_silence_ms, frame_ms),
            in_speech: false,
            speech_run: 0,
            silence_run: 0,
        }
    }

    /// Discard all run state (a new session).
    pub fn reset(&mut self)
        requires
            old(self).wf(),
        ensures
            final(self).wf(),
            final(self).view() == (MachineV {
                in_speech: false,
                speech_run: 0,
                silence_run: 0,
                ..old(self).view()
            }),
    {
        self.in_speech = false;
        self.speech_run = 0;
        self.silence_run = 0;
    }

    /// Process one frame and return its transition.
    pub fn push_frame(&mut self, is_speech: bool) -> (d: VadDecision)
        requires
            old(self).wf(),
        ensures
            final(self).wf(),
            (final(self).view(), d) == step(old(self).view(), is_speech),
    {
        if self.in_speech {
            self.push_in_speech(is_speech)
        } else {
            self.push_pre_speech(is_speech)
        }
    }

    fn push_pre_speech(&mut self, is_speech: bool) -> (d: VadDecision)
        requires
            old(self).wf(),
            !old(self).view().in_speech,
        ensures
            final(self).wf(),
            (final(self).view(), d) == step(old(self).view(), is_speech),
    {
        if !is_speech {
            self.speech_run = 0;
            return VadDecision::Silence;
        }
        self.speech_run = self.speech_run + 1;
        if self.speech_run >= self.min_speech_frames {
            self.in_speech = true;
            self.speech_run = 0;
            self.silence_run = 0;
            return VadDecision::SpeechStarted;
        }
        VadDecision::Silence
    }

    fn push_in_speech(&mut self, is_speech: bool) -> (d: VadDecision)
        requires
            old(self).wf(),
            old(self).view().in_speech,
        ensures
            final(self).wf(),
            (final(self).view(), d) == step(old(self).view(), is_speech),
    {
        if is_speech {
            self.silence_run = 0;
            return VadDecision::SpeechOngoing;
        }
        self.silence_run = self.silence_run + 1;
        if self.silence_run >= self.min_silence_frames {
            self.in_speech = false;
            self.speech_run = 0;
            self.silence_run = 0;
            return VadDecision::SpeechEnded;
        }
        VadDecision::SpeechOngoing
    }
}

// ─────────────────────────────────────────────────────────────────────────────
// Laws
// ─────────────────────────────────────────────────────────────────────────────

/// The states and transitions after feeding `frames` from `m`.
pub open spec fn run(m: MachineV, frames: Seq<bool>) -> (MachineV, Seq<VadDecision>)
    decreases frames.len(),
{
    if frames.len() == 0 {
        (m, Seq::empty())
    } else {
        let (m1, ds) = run(m, frames.drop_last());
        let (m2, d) = step(m1, frames.last());
        (m2, ds.push(d))
    }
}

/// Every step keeps the machine well formed.
pub proof fn lemma_step_wf(m: MachineV, is_speech: bool)
    requires
        machine_wf(m),
    ensures
        machine_wf(step(m, is_speech).0),
        step(m, is_speech).0.min_speech_frames == m.min_speech_frames,
        step(m, is_speech).0.min_silence_frames == m.min_silence_frames,
{
}

/// A session of silence only, from a machine outside an utterance, never starts
/// speech: every transition is `Silence`.
pub proof fn lemma_silence_never_starts(m: MachineV, frames: Seq<bool>)
    requires
        machine_wf(m),
        !m.in_speech,
        forall|k: int| 0 <= k < frames.len() ==> !#[trigger] frames[k],
    ensures
        !run(m, frames).0.in_speech,
        forall|k: int| 0 <= k < frames.len() ==> #[trigger] run(m, frames).1[k] == VadDecision::Silence,
        run(m, frames).1.len() == frames.len(),
    decreases frames.len(),
{
    if frames.len() > 0 {
        lemma_silence_never_starts(m, frames.drop_last());
        assert(!frames[frames.len() - 1]);
    }
}

/// Outside an utterance, a speech frame starts one exactly when it completes a run of
/// `min_speech_frames` speech frames.
pub proof fn lemma_start_needs_full_run(m: MachineV)
    requires
        machine_wf(m),
        !m.in_speech,
    ensures
        step(m, true).1 == VadDecision::SpeechStarted <==> m.speech_run + 1 == m.min_speech_frames,
{
}

/// Inside an utterance, a silent frame ends it exactly when it completes a run of
/// `min_silence_frames` silent frames; a speech frame never ends it.
pub proof fn lemma_end_needs_full_silence(m: MachineV)
    requires
        machine_wf(m),
        m.in_speech,
    ensures
        step(m, false).1 == VadDecision::SpeechEnded <==> m.silence_run + 1 == m.min_silence_frames,
        step(m, true).1 == VadDecision::SpeechOngoing,
{
}

} // verus!
