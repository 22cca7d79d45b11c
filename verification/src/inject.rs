//! Text injection policy: which backend types the text (clipboard paste or Unicode
//! keystrokes), how keystroke text is chunked on grapheme boundaries, which error a
//! clipboard round trip surfaces, dispatch to the backends, and how a transcript is
//! redacted for logs. The OS backends themselves live with the application.

use unicode_segmentation::UnicodeSegmentation;
use vstd::prelude::*;

use crate::snippets::strings_view;
use crate::text::{chars_of, is_blank, join, push_decimal, string_of, trim};

verus! {

/// Backend selection requested by the caller (`Auto` resolves via `pick_backend`).
#[derive(Clone, Copy, Debug, PartialEq, Eq, Structural)]
pub enum InjectMode {
    Auto,
    SendInput,
    Clipboard,
}

/// Resolved backend.
#[derive(Clone, Copy, Debug, PartialEq, Eq, Structural)]
pub enum Backend {
    SendInput,
    Clipboard,
}

/// Injection options.
#[derive(Clone, Debug)]
pub struct InjectSettings {
    pub force_clipboard_mode: bool,
    pub clipboard_threshold_chars: usize,
    pub sendinput_chunk_chars: usize,
    pub restore_clipboard: bool,
}

impl Default for InjectSettings {
    fn default() -> (s: Self)
        ensures
            s.force_clipboard_mode,
            s.clipboard_threshold_chars == 1000,
            s.sendinput_chunk_chars == 64,
            s.restore_clipboard,
    {
        InjectSettings {
            force_clipboard_mode: true,
            clipboard_threshold_chars: 1000,
            sendinput_chunk_chars: 64,
            restore_clipboard: true,
        }
    }
}

/// One interface for every OS-specific injection backend.
pub trait TextInjector {
    fn inject(&self, text: &str) -> Result<(), String>;

    fn name(&self) -> &'static str;
}

pub open spec fn clamp_spec(x: int, lo: int, hi: int) -> int {
    if x < lo {
        lo
    } else if x > hi {
        hi
    } else {
        x
    }
}

/// At or over the threshold (clamped to 200..=5000) the clipboard backend is preferred.
pub fn should_use_clipboard(len: usize, threshold: usize) -> (b: bool)
    ensures
        b == (len >= clamp_spec(threshold as int, 200, 5000)),
{
    let t = if threshold < 200 {
        200
    } else if threshold > 5000 {
        5000
    } else {
        threshold
    };
    len >= t
}

pub open spec fn pick_backend_spec(mode: InjectMode, len: usize, s: InjectSettings) -> Backend {
    match mode {
        InjectMode::SendInput => Backend::SendInput,
        InjectMode::Clipboard => Backend::Clipboard,
        InjectMode::Auto => if s.force_clipboard_mode || len >= clamp_spec(
            s.clipboard_threshold_chars as int,
            200,
            5000,
        ) {
            Backend::Clipboard
        } else {
            Backend::SendInput
        },
    }
}

/// The `Auto` decision: an explicit mode wins; otherwise a forced clipboard or a long
/// text selects the clipboard, else keystrokes.
pub fn pick_backend(mode: InjectMode, len: usize, settings: &InjectSettings) -> (b: Backend)
    ensures
        b == pick_backend_spec(mode, len, *settings),
{
    match mode {
        InjectMode::SendInput => Backend::SendInput,
        InjectMode::Clipboard => Backend::Clipboard,
        InjectMode::Auto => {
            if settings.force_clipboard_mode || should_use_clipboard(
                len,
                settings.clipboard_threshold_chars,
            ) {
                Backend::Clipboard
            } else {
                Backend::SendInput
            }
        },
    }
}

pub open spec fn backend_name(b: Backend) -> Seq<char> {
    match b {
        Backend::SendInput => "send_input"@,
        Backend::Clipboard => "clipboard"@,
    }
}

/// The backend `inject` resolves to for this `(mode, len)`, by name.
pub fn resolved_backend(mode: InjectMode, len: usize, settings: &InjectSettings) -> (n: &'static str)
    ensures
        n@ == backend_name(pick_backend_spec(mode, len, *settings)),
{
    match pick_backend(mode, len, settings) {
        Backend::SendInput => "send_input",
        Backend::Clipboard => "clipboard",
    }
}

pub open spec fn unit_view(r: Result<(), String>) -> Result<(), Seq<char>> {
    crate::dictionary::unit_result_view(r)
}

/// The paste error first, then the restore error, else success. The caller has
/// already attempted the restore, so it always runs.
pub open spec fn settle_spec(pasted: Result<(), Seq<char>>, restored: Result<(), Seq<char>>) -> Result<(), Seq<char>> {
    match pasted {
        Err(e) => Err(e),
        Ok(()) => restored,
    }
}

/// Combine the paste outcome with the (already attempted) clipboard-restore outcome.
pub fn settle_clipboard(pasted: Result<(), String>, restored: Result<(), String>) -> (r: Result<(), String>)
    ensures
        unit_view(r) == settle_spec(unit_view(pasted), unit_view(restored)),
{
    match pasted {
        Err(e) => Err(e),
        Ok(()) => restored,
    }
}

// ─────────────────────────────────────────────────────────────────────────────
// Grapheme chunking (unicode_segmentation)
// ─────────────────────────────────────────────────────────────────────────────

/// The extended grapheme clusters of a string, as `unicode_segmentation` splits it.
pub uninterp spec fn graphemes_of(s: Seq<char>) -> Seq<Seq<char>>;

/// `UnicodeSegmentation::graphemes(s, true)`, each cluster owned. Claims: the clusters
/// are the named segmentation of `s` and, in order, they spell `s` (the iterator walks
/// `s` from boundary to boundary).
#[verifier::external_body]
fn graphemes(s: &str) -> (r: Vec<String>)
    ensures
        strings_view(r@) == graphemes_of(s@),
        join(strings_view(r@), Seq::empty()) == s@,
{
    s.graphemes(true).map(String::from).collect()
}

/// Chunks from grapheme `i` on; `cur` is the chunk being built. A chunk is closed
/// before the next grapheme once it holds at least `max` characters.
pub open spec fn chunk_acc(gs: Seq<Seq<char>>, i: int, cur: Seq<char>, out: Seq<Seq<char>>, max: int) -> Seq<Seq<char>>
    decreases gs.len() - i,
{
    if i < 0 || i >= gs.len() {
        if cur.len() > 0 {
            out.push(cur)
        } else {
            out
        }
    } else if cur.len() >= max {
        chunk_acc(gs, i + 1, gs[i], out.push(cur), max)
    } else {
        chunk_acc(gs, i + 1, cur + gs[i], out, max)
    }
}

pub open spec fn chunk_spec(text: Seq<char>, max: usize) -> Seq<Seq<char>> {
    if text.len() == 0 {
        Seq::empty()
    } else {
        chunk_acc(graphemes_of(text), 0, Seq::empty(), Seq::empty(), clamp_spec(max as int, 16, 512))
    }
}

/// Group grapheme clusters into chunks: a chunk is closed before the next cluster once
/// it holds at least `max` characters (clamped to 16..=512). The chunks spell the
/// clusters in order.
pub fn chunk_graphemes(gs: &[String], max: usize) -> (r: Vec<String>)
    ensures
        strings_view(r@) == chunk_acc(
            strings_view(gs@),
            0,
            Seq::empty(),
            Seq::empty(),
            clamp_spec(max as int, 16, 512),
        ),
        join(strings_view(r@), Seq::empty()) == join(strings_view(gs@), Seq::empty()),
{
    let m: usize = if max < 16 {
        16
    } else if max > 512 {
        512
    } else {
        max
    };
    let ghost gv = strings_view(gs@);
    let mut out: Vec<String> = Vec::new();
    let mut cur: Vec<char> = Vec::new();
    let mut i: usize = 0;
    assert(strings_view(out@) =~= Seq::<Seq<char>>::empty());
    proof {
        lemma_chunk_concat(gv, 0, cur@, strings_view(out@), m as int);
        assert(gv.subrange(0, gv.len() as int) =~= gv);
    }
    while i < gs.len()
        invariant
            i <= gs@.len(),
            gv == strings_view(gs@),
            chunk_acc(gv, i as int, cur@, strings_view(out@), m as int) == chunk_acc(
                gv,
                0,
                Seq::empty(),
                Seq::empty(),
                m as int,
            ),
        decreases gs@.len() - i,
    {
        let ghost pre = strings_view(out@);
        let g = chars_of(gs[i].as_str());
        assert(g@ == gv[i as int]);
        if cur.len() >= m {
            out.push(string_of(cur.as_slice()));
            assert(strings_view(out@) =~= pre.push(cur@));
            cur = g;
        } else {
            crate::text::append_chars(&mut cur, g.as_slice());
        }
        i = i + 1;
    }
    if cur.len() > 0 {
        let ghost pre = strings_view(out@);
        out.push(string_of(cur.as_slice()));
        assert(strings_view(out@) =~= pre.push(cur@));
    }
    proof {
        lemma_chunk_concat(gv, 0, Seq::empty(), Seq::empty(), m as int);
        assert(gv.subrange(0, gv.len() as int) =~= gv);
        assert(join(Seq::<Seq<char>>::empty(), Seq::empty()) =~= Seq::<char>::empty());
    }
    out
}

/// Split text into chunks of about `max` characters (clamped to 16..=512) on grapheme
/// boundaries: never inside a cluster. Empty input gives no chunks.
pub fn chunk_for_sendinput(text: &str, max: usize) -> (r: Vec<String>)
    ensures
        strings_view(r@) == chunk_spec(text@, max),
        join(strings_view(r@), Seq::empty()) == text@,
{
    let tc = chars_of(text);
    if tc.len() == 0 {
        let r: Vec<String> = Vec::new();
        assert(strings_view(r@) =~= Seq::<Seq<char>>::empty());
        return r;
    }
    let gs = graphemes(text);
    chunk_graphemes(gs.as_slice(), max)
}

proof fn lemma_join_push(parts: Seq<Seq<char>>, x: Seq<char>)
    ensures
        join(parts.push(x), Seq::empty()) == join(parts, Seq::empty()) + x,
    decreases parts.len(),
{
    reveal_with_fuel(join, 2);
    if parts.len() == 0 {
        assert(parts.push(x) =~= seq![x]);
        assert(join(seq![x], Seq::empty()) =~= x);
    } else {
        assert(parts.push(x).drop_last() =~= parts);
        assert(parts.push(x).last() == x);
    }
}

/// Concatenating the chunks gives back `out`'s text, then `cur`, then the graphemes.
proof fn lemma_chunk_concat(gs: Seq<Seq<char>>, i: int, cur: Seq<char>, out: Seq<Seq<char>>, max: int)
    requires
        0 <= i <= gs.len(),
    ensures
        join(chunk_acc(gs, i, cur, out, max), Seq::empty()) == join(out, Seq::empty()) + cur + join(
            gs.subrange(i, gs.len() as int),
            Seq::empty(),
        ),
    decreases gs.len() - i,
{
    let rest = gs.subrange(i, gs.len() as int);
    if i >= gs.len() {
        assert(rest =~= Seq::<Seq<char>>::empty());
        if cur.len() > 0 {
            lemma_join_push(out, cur);
        }
        assert(join(out, Seq::empty()) + cur + Seq::<char>::empty() =~= join(out, Seq::empty()) + cur);
    } else {
        lemma_join_cons(gs, i);
        if cur.len() >= max {
            lemma_chunk_concat(gs, i + 1, gs[i], out.push(cur), max);
            lemma_join_push(out, cur);
            assert(join(out.push(cur), Seq::empty()) + gs[i] + join(gs.subrange(i + 1, gs.len() as int), Seq::empty())
                =~= join(out, Seq::empty()) + cur + (gs[i] + join(gs.subrange(i + 1, gs.len() as int), Seq::empty())));
        } else {
            lemma_chunk_concat(gs, i + 1, cur + gs[i], out, max);
            assert(join(out, Seq::empty()) + (cur + gs[i]) + join(gs.subrange(i + 1, gs.len() as int), Seq::empty())
                =~= join(out, Seq::empty()) + cur + (gs[i] + join(gs.subrange(i + 1, gs.len() as int), Seq::empty())));
        }
    }
}

/// With an empty separator, joining `gs[i..]` is `gs[i]` followed by joining `gs[i+1..]`.
proof fn lemma_join_cons(gs: Seq<Seq<char>>, i: int)
    requires
        0 <= i < gs.len(),
    ensures
        join(gs.subrange(i, gs.len() as int), Seq::empty()) == gs[i] + join(
            gs.subrange(i + 1, gs.len() as int),
            Seq::empty(),
        ),
    decreases gs.len() - i,
{
    let a = gs.subrange(i, gs.len() as int);
    let b = gs.subrange(i + 1, gs.len() as int);
    if i == gs.len() - 1 {
        assert(b =~= Seq::<Seq<char>>::empty());
        assert(a =~= Seq::<Seq<char>>::empty().push(gs[i]));
        lemma_join_push(Seq::empty(), gs[i]);
        assert(join(Seq::<Seq<char>>::empty(), Seq::empty()) =~= Seq::<char>::empty());
        assert(gs[i] + Seq::<char>::empty() =~= gs[i]);
        assert(Seq::<char>::empty() + gs[i] =~= gs[i]);
    } else {
        lemma_join_cons(gs.drop_last(), i);
        let a2 = gs.drop_last().subrange(i, gs.len() - 1);
        let b2 = gs.drop_last().subrange(i + 1, gs.len() - 1);
        assert(a =~= a2.push(gs.last()));
        assert(b =~= b2.push(gs.last()));
        lemma_join_push(a2, gs.last());
        lemma_join_push(b2, gs.last());
        assert(join(a, Seq::empty()) =~= gs[i] + join(b, Seq::empty()));
    }
}

// ─────────────────────────────────────────────────────────────────────────────
// Redaction
// ─────────────────────────────────────────────────────────────────────────────

// ─────────────────────────────────────────────────────────────────────────────
// Backends and dispatch
// ─────────────────────────────────────────────────────────────────────────────

/// Keystroke backend: types the text as Unicode keystrokes, chunk by chunk.
pub struct SendInputInjector {
    pub chunk: usize,
}

impl SendInputInjector {
    /// The pieces this backend types, in order: grapheme-aligned chunks of about
    /// `chunk` characters that together spell the text.
    pub fn pieces(&self, text: &str) -> (r: Vec<String>)
        ensures
            strings_view(r@) == chunk_spec(text@, self.chunk),
            join(strings_view(r@), Seq::empty()) == text@,
    {
        chunk_for_sendinput(text, self.chunk)
    }

    pub fn name(&self) -> (n: &'static str)
        ensures
            n@ == backend_name(Backend::SendInput),
    {
        "send_input"
    }
}

/// Clipboard backend: sets the clipboard, pastes, then restores the prior clipboard.
pub struct ClipboardInjector;

impl ClipboardInjector {
    pub fn name(&self) -> (n: &'static str)
        ensures
            n@ == backend_name(Backend::Clipboard),
    {
        "clipboard"
    }
}

/// The backend a text goes to: none for blank text (nothing to type), else the picked
/// backend for its length in characters.
pub open spec fn injection_spec(text: Seq<char>, mode: InjectMode, settings: InjectSettings) -> Option<Backend> {
    if trim(text).len() == 0 {
        None
    } else {
        Some(pick_backend_spec(mode, text.len() as usize, settings))
    }
}

/// The backend `inject` hands a text to, if any.
pub fn injection_backend(text: &str, mode: InjectMode, settings: &InjectSettings) -> (r: Option<Backend>)
    ensures
        r == injection_spec(text@, mode, *settings),
{
    if is_blank(text) {
        return None;
    }
    let n = chars_of(text).len();
    Some(pick_backend(mode, n, settings))
}

/// Inject text into the focused window through the backend `injection_backend`
/// picks; blank text is a no-op that succeeds without touching either backend.
/// Otherwise the result is what the picked backend's `inject` returned for the same
/// text.
pub fn inject<S: TextInjector, C: TextInjector>(
    text: &str,
    mode: InjectMode,
    settings: &InjectSettings,
    send_input: &S,
    clipboard: &C,
) -> (r: Result<(), String>)
    ensures
        injection_spec(text@, mode, *settings) is None ==> r == Ok::<(), String>(()),
        injection_spec(text@, mode, *settings) == Some(Backend::SendInput) ==> call_ensures(
            S::inject,
            (send_input, text),
            r,
        ),
        injection_spec(text@, mode, *settings) == Some(Backend::Clipboard) ==> call_ensures(
            C::inject,
            (clipboard, text),
            r,
        ),
{
    match injection_backend(text, mode, settings) {
        None => Ok(()),
        Some(Backend::SendInput) => send_input.inject(text),
        Some(Backend::Clipboard) => clipboard.inject(text),
    }
}

pub open spec fn redact_spec(text: Seq<char>) -> Seq<char> {
    "<"@ + crate::text::decimal(text.len()) + " chars>"@
}

/// A length-only placeholder for logs: the transcript is never logged verbatim.
pub fn redact_for_log(text: &str) -> (r: String)
    ensures
        r@ == redact_spec(text@),
{
    let tc = chars_of(text);
    let mut out = chars_of("<");
    push_decimal(&mut out, tc.len() as u64);
    let tail = chars_of(" chars>");
    crate::text::append_chars(&mut out, tail.as_slice());
    string_of(out.as_slice())
}


/// `chunks` groups the clusters `gs` greedily at `max` characters, as told by the
/// cluster indices `bounds` where the chunks start (and the end): each chunk spells
/// its run of consecutive clusters, each chunk was still under `max` characters before
/// its last cluster was added, and every chunk but the last reached `max`.
pub open spec fn greedy_chunking(gs: Seq<Seq<char>>, max: int, bounds: Seq<int>, chunks: Seq<Seq<char>>) -> bool {
    &&& bounds.len() == chunks.len() + 1
    &&& bounds[0] == 0
    &&& bounds.last() == gs.len()
    &&& forall|t: int| 0 <= t < chunks.len() ==> #[trigger] chunk_run(gs, max, bounds, chunks, t)
    &&& forall|t: int| 0 <= t < chunks.len() - 1 ==> (#[trigger] chunks[t]).len() >= max
}

/// Chunk `t` is the run of clusters `bounds[t]..bounds[t + 1]` (at least one), and
/// was under `max` characters before its last cluster.
pub open spec fn chunk_run(gs: Seq<Seq<char>>, max: int, bounds: Seq<int>, chunks: Seq<Seq<char>>, t: int) -> bool {
    &&& bounds[t] < bounds[t + 1]
    &&& chunks[t] == join(gs.subrange(bounds[t], bounds[t + 1]), Seq::empty())
    &&& join(gs.subrange(bounds[t], bounds[t + 1] - 1), Seq::empty()).len() < max
}

proof fn lemma_chunk_acc_greedy(
    gs: Seq<Seq<char>>,
    max: int,
    i: int,
    cur: Seq<char>,
    out: Seq<Seq<char>>,
    bs: Seq<int>,
)
    requires
        1 <= max,
        forall|k: int| 0 <= k < gs.len() ==> (#[trigger] gs[k]).len() > 0,
        0 < i <= gs.len(),
        bs.len() == out.len() + 1,
        bs[0] == 0,
        0 <= bs.last() < i,
        forall|t: int| 0 <= t < out.len() ==> #[trigger] chunk_run(gs, max, bs, out, t),
        forall|t: int| 0 <= t < out.len() ==> (#[trigger] out[t]).len() >= max,
        cur == join(gs.subrange(bs.last(), i), Seq::empty()),
        join(gs.subrange(bs.last(), i - 1), Seq::empty()).len() < max,
    ensures
        exists|bounds: Seq<int>| greedy_chunking(gs, max, bounds, chunk_acc(gs, i, cur, out, max)),
    decreases gs.len() - i,
{
    let st = bs.last();
    lemma_join_push(gs.subrange(st, i - 1), gs[i - 1]);
    assert(gs.subrange(st, i) =~= gs.subrange(st, i - 1).push(gs[i - 1]));
    assert(cur.len() > 0);
    if i == gs.len() {
        let chunks = out.push(cur);
        let bounds = bs.push(i);
        assert(chunk_acc(gs, i, cur, out, max) == chunks);
        assert forall|t: int| 0 <= t < chunks.len() implies #[trigger] chunk_run(gs, max, bounds, chunks, t) by {
            if t < out.len() {
                assert(chunk_run(gs, max, bs, out, t));
                assert(bounds[t] == bs[t] && bounds[t + 1] == bs[t + 1] && chunks[t] == out[t]);
            }
        }
        assert forall|t: int| 0 <= t < chunks.len() - 1 implies (#[trigger] chunks[t]).len() >= max by {
            assert(chunks[t] == out[t]);
        }
        assert(greedy_chunking(gs, max, bounds, chunks));
    } else if cur.len() >= max {
        let out2 = out.push(cur);
        let bs2 = bs.push(i);
        let cur2 = gs[i];
        assert(gs.subrange(i, i + 1) =~= seq![gs[i]]);
        assert(gs.subrange(i, i) =~= Seq::<Seq<char>>::empty());
        assert(join(seq![gs[i]], Seq::empty()) == gs[i]);
        assert(join(Seq::<Seq<char>>::empty(), Seq::<char>::empty()).len() == 0);
        assert forall|t: int| 0 <= t < out2.len() implies #[trigger] chunk_run(gs, max, bs2, out2, t) by {
            if t < out.len() {
                assert(chunk_run(gs, max, bs, out, t));
                assert(bs2[t] == bs[t] && bs2[t + 1] == bs[t + 1] && out2[t] == out[t]);
            }
        }
        assert forall|t: int| 0 <= t < out2.len() implies (#[trigger] out2[t]).len() >= max by {
            if t < out.len() {
                assert(out2[t] == out[t]);
            }
        }
        lemma_chunk_acc_greedy(gs, max, i + 1, cur2, out2, bs2);
        assert(chunk_acc(gs, i, cur, out, max) == chunk_acc(gs, i + 1, cur2, out2, max));
    } else {
        let cur2 = cur + gs[i];
        lemma_join_push(gs.subrange(st, i), gs[i]);
        assert(gs.subrange(st, i + 1) =~= gs.subrange(st, i).push(gs[i]));
        lemma_chunk_acc_greedy(gs, max, i + 1, cur2, out, bs);
        assert(chunk_acc(gs, i, cur, out, max) == chunk_acc(gs, i + 1, cur2, out, max));
    }
}

/// Chunking groups the clusters greedily: a chunk takes clusters in order while it
/// is under `max` characters (clamped to 16..=512) and closes as soon as it reaches
/// `max`; only the last chunk may be shorter. This holds for clusters that are not
/// empty, as grapheme clusters never are.
pub proof fn lemma_chunks_are_greedy(gs: Seq<Seq<char>>, max: usize)
    requires
        forall|k: int| 0 <= k < gs.len() ==> (#[trigger] gs[k]).len() > 0,
    ensures
        exists|bounds: Seq<int>|
            greedy_chunking(
                gs,
                clamp_spec(max as int, 16, 512),
                bounds,
                chunk_acc(gs, 0, Seq::empty(), Seq::empty(), clamp_spec(max as int, 16, 512)),
            ),
{
    let m = clamp_spec(max as int, 16, 512);
    if gs.len() == 0 {
        let bounds = seq![0int];
        assert(chunk_acc(gs, 0, Seq::empty(), Seq::empty(), m) =~= Seq::<Seq<char>>::empty());
        assert(greedy_chunking(gs, m, bounds, Seq::<Seq<char>>::empty()));
    } else {
        let e = Seq::<char>::empty();
        assert(e + gs[0] =~= gs[0]);
        assert(chunk_acc(gs, 0, e, Seq::empty(), m) == chunk_acc(gs, 1, gs[0], Seq::empty(), m));
        assert(gs.subrange(0, 1) =~= seq![gs[0]]);
        assert(join(seq![gs[0]], Seq::empty()) == gs[0]);
        assert(gs.subrange(0, 0) =~= Seq::<Seq<char>>::empty());
        assert(join(Seq::<Seq<char>>::empty(), Seq::<char>::empty()).len() == 0);
        lemma_chunk_acc_greedy(gs, m, 1, gs[0], Seq::empty(), seq![0int]);
    }
}

} // verus!
