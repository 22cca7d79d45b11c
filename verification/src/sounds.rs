//! Dictation audio cues: which tone marks the start and the end of a dictation,
//! gated by the user's sound setting. Synthesizing and playing the tone is the
//! application's part.

use vstd::prelude::*;

verus! {

/// A cue: a bell tone at `freq_hz` lasting `duration_ms`.
#[derive(Clone, Copy, Debug, PartialEq, Eq, Structural)]
pub struct Tone {
    pub freq_hz: u32,
    pub duration_ms: u32,
}

/// The start cue (C5, 523 Hz) when sounds are enabled.
pub fn on_start(sounds_enabled: bool) -> (t: Option<Tone>)
    ensures
        t == if sounds_enabled {
            Some(Tone { freq_hz: 523, duration_ms: 300 })
        } else {
            None
        },
{
    if sounds_enabled {
        Some(Tone { freq_hz: 523, duration_ms: 300 })
    } else {
        None
    }
}

/// The end cue (G4, 392 Hz) when sounds are enabled.
pub fn on_end(sounds_enabled: bool) -> (t: Option<Tone>)
    ensures
        t == if sounds_enabled {
            Some(Tone { freq_hz: 392, duration_ms: 300 })
        } else {
            None
        },
{
    if sounds_enabled {
        Some(Tone { freq_hz: 392, duration_ms: 300 })
    } else {
        None
    }
}

} // verus!
