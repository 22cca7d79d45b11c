//! Audio capture shapes: the output format, fixed-size framing of a sample stream,
//! tidy device names, the level meter's window and cadence, and the microphone test
//! length. Device access and the floating-point signal processing live with the
//! application.

use vstd::prelude::*;

use crate::text::{chars_of, join, join_chars, split_whitespace, string_of, words};

verus! {

/// Output sample rate fed to VAD and speech-to-text.
pub const SAMPLE_RATE_HZ: u32 = 16000;

/// Samples in one processing frame at the output rate (16 kHz for 30 ms).
pub const FRAME_SAMPLES: usize = 480;

/// One frame is the output rate's samples per millisecond times the frame length.
pub proof fn lemma_frame_samples()
    ensures
        FRAME_SAMPLES == (SAMPLE_RATE_HZ / 1000) * crate::vad::FRAME_MS,
{
}

/// An input device for the settings picker: the raw device id and a tidy name.
#[derive(Clone, Debug, PartialEq, Eq)]
pub struct AudioDevice {
    pub id: String,
    pub name: String,
    pub is_default: bool,
}

/// Collapse runs of whitespace in a raw device name (and trim it).
pub fn normalize_device_name(raw: &str) -> (r: String)
    ensures
        r@ == join(words(raw@), " "@),
{
    let cs = chars_of(raw);
    let ws = split_whitespace(cs.as_slice());
    assert(ws@.map_values(|w: Vec<char>| w@) =~= words(raw@));
    let sp = chars_of(" ");
    let j = join_chars(&ws, sp.as_slice());
    string_of(j.as_slice())
}

/// Re-chunks a sample stream into fixed-length frames, buffering the remainder.
pub struct FrameChunker<T: Copy> {
    frame_len: usize,
    buf: Vec<T>,
}

impl<T: Copy> FrameChunker<T> {
    /// The frame length (at least 1).
    pub closed spec fn frame_len_spec(&self) -> nat {
        self.frame_len as nat
    }

    /// The samples waiting for a full frame.
    pub closed spec fn pending_spec(&self) -> Seq<T> {
        self.buf@
    }

    pub closed spec fn wf(&self) -> bool {
        self.frame_len >= 1 && self.buf@.len() < self.frame_len
    }

    /// A chunker for frames of `frame_len` samples (0 counts as 1).
    pub fn new(frame_len: usize) -> (c: Self)
        ensures
            c.wf(),
            c.frame_len_spec() == if frame_len >= 1 {
                frame_len as nat
            } else {
                1
            },
            c.pending_spec() == Seq::<T>::empty(),
    {
        FrameChunker { frame_len: if frame_len >= 1 { frame_len } else { 1 }, buf: Vec::new() }
    }

    /// Append `samples` and return every full frame now available, in order; the
    /// remainder below one frame stays buffered.
    pub fn push(&mut self, samples: &[T]) -> (frames: Vec<Vec<T>>)
        requires
            old(self).wf(),
            old(self).pending_spec().len() + samples@.len() <= usize::MAX,
        ensures
            final(self).wf(),
            final(self).frame_len_spec() == old(self).frame_len_spec(),
            ({
                let all = old(self).pending_spec() + samples@;
                let l = old(self).frame_len_spec() as int;
                &&& frames@.len() == (all.len() as int) / l
                &&& forall|k: int|
                    0 <= k < frames@.len() ==> (#[trigger] frames@[k])@ == all.subrange(k * l, k * l + l)
                &&& final(self).pending_spec() == all.subrange(frames@.len() * l, all.len() as int)
            }),
    {
        let ghost all = self.buf@ + samples@;
        let l = self.frame_len;
        let mut i: usize = 0;
        while i < samples.len()
            invariant
                i <= samples@.len(),
                self.buf@ == old(self).buf@ + samples@.take(i as int),
                self.frame_len == l,
                l == old(self).frame_len,
                old(self).buf@.len() + samples@.len() <= usize::MAX,
            decreases samples@.len() - i,
        {
            self.buf.push(samples[i]);
            i = i + 1;
            assert(self.buf@ =~= old(self).buf@ + samples@.take(i as int));
        }
        assert(samples@.take(samples@.len() as int) =~= samples@);
        assert(self.buf@ =~= all);
        let mut frames: Vec<Vec<T>> = Vec::new();
        let mut start: usize = 0;
        assert(frames@.len() * l == 0) by (nonlinear_arith)
            requires
                frames@.len() == 0,
        ;
        while start <= self.buf.len() && l <= self.buf.len() - start
            invariant
                self.buf@ == all,
                self.frame_len == l,
                l >= 1,
                start <= all.len(),
                start == frames@.len() * l,
                forall|k: int|
                    0 <= k < frames@.len() ==> (#[trigger] frames@[k])@ == all.subrange(k * l, k * l + l),
            decreases all.len() - start,
        {
            let mut f: Vec<T> = Vec::new();
            let end = start + l;
            let mut j: usize = start;
            while j < end
                invariant
                    start <= j <= end,
                    end == start + l,
                    end <= all.len(),
                    self.buf@ == all,
                    f@ == all.subrange(start as int, j as int),
                decreases end - j,
            {
                f.push(self.buf[j]);
                j = j + 1;
                assert(f@ =~= all.subrange(start as int, j as int));
            }
            let ghost n = frames@.len();
            frames.push(f);
            assert((n + 1) * l == n * l + l) by (nonlinear_arith);
            start = start + l;
        }
        let ghost n = frames@.len();
        assert((all.len() as int) / (l as int) == n) by (nonlinear_arith)
            requires
                start == n * l,
                start <= all.len(),
                all.len() - start < l,
                l >= 1,
        ;
        let mut rest: Vec<T> = Vec::new();
        let mut j: usize = start;
        while j < self.buf.len()
            invariant
                start <= j <= all.len(),
                self.buf@ == all,
                rest@ == all.subrange(start as int, j as int),
            decreases all.len() - j,
        {
            rest.push(self.buf[j]);
            j = j + 1;
            assert(rest@ =~= all.subrange(start as int, j as int));
        }
        self.buf = rest;
        frames
    }

    /// Samples currently buffered below one full frame.
    pub fn pending(&self) -> (n: usize)
        ensures
            n == self.pending_spec().len(),
    {
        self.buf.len()
    }
}


// ─────────────────────────────────────────────────────────────────────────────
// Level meter cadence and the microphone test length
// ─────────────────────────────────────────────────────────────────────────────

/// Samples the level meter averages over at a device rate: the last 20 ms (at least one).
pub open spec fn level_window_spec(rate: u32) -> nat {
    if rate / 50 >= 1 {
        (rate / 50) as nat
    } else {
        1
    }
}

/// The level meter's window in samples for a device rate.
pub fn level_window(rate: u32) -> (w: usize)
    ensures
        w == level_window_spec(rate),
{
    let w = rate / 50;
    if w >= 1 {
        w as usize
    } else {
        1
    }
}

/// Where the meter's window starts in a buffer of `len` samples: the trailing
/// `window` samples, or the whole buffer when it is shorter.
pub fn level_window_start(len: usize, window: usize) -> (start: usize)
    ensures
        start == if len >= window {
            len - window
        } else {
            0
        },
{
    if len >= window {
        len - window
    } else {
        0
    }
}

/// The meter reads every 20 ms; the HUD waveform takes every third reading (about 16 Hz).
pub struct HudCadence {
    tick: u32,
}

impl HudCadence {
    pub closed spec fn ticks(&self) -> u32 {
        self.tick
    }

    pub fn new() -> (c: Self)
        ensures
            c.ticks() == 0,
    {
        HudCadence { tick: 0 }
    }

    /// Count one meter reading; true when this reading also goes to the HUD.
    pub fn next(&mut self) -> (to_hud: bool)
        ensures
            final(self).ticks() == (if old(self).ticks() == u32::MAX {
                0
            } else {
                old(self).ticks() + 1
            }),
            to_hud == (final(self).ticks() % 3 == 0),
    {
        self.tick = if self.tick == u32::MAX {
            0
        } else {
            self.tick + 1
        };
        self.tick % 3 == 0
    }
}

/// How long the one-shot microphone test records: the requested milliseconds
/// (1500 when none), clamped to 200..=5000.
pub fn mic_test_duration_ms(ms: Option<u32>) -> (d: u32)
    ensures
        d == ({
            let m = match ms {
                Some(v) => v,
                None => 1500,
            };
            if m < 200 {
                200
            } else if m > 5000 {
                5000
            } else {
                m
            }
        }),
{
    let m = match ms {
        Some(v) => v,
        None => 1500,
    };
    if m < 200 {
        200
    } else if m > 5000 {
        5000
    } else {
        m
    }
}

} // verus!
