//! Global push-to-talk hotkey: the accelerator parser / canonicalizer, the
//! reserved-chord and bare-key guards, the debounce + activation-mode reducer that
//! turns raw key edges into a clean stream of dictation intents, the session runtime
//! (watchdog generations, suspension, re-registration), and the recorder and
//! keyboard-polling decisions over snapshots of the held virtual keys.

use vstd::prelude::*;

use crate::text::{
    all_ascii, ascii_upper_letter, append_chars, ascii_digit, ascii_letter, ascii_upper_of, chars_eq, chars_of,
    decimal, is_ascii_char, join, join_chars, lowercase_of, push_decimal, string_of, to_lowercase,
    trim, trim_chars,
};

verus! {

/// Default push-to-talk chord.
pub const DEFAULT_ACCEL: &'static str = "Ctrl+Space";

/// Window that collapses key chatter / OS auto-repeat into one intent.
pub const DEBOUNCE_MS: u64 = 40;

/// Missing-release watchdog timeout for push-to-hold.
pub const MAX_HOLD_MS: u64 = 30_000;

/// Recorder auto-cancel timeout.
pub const CAPTURE_TIMEOUT_MS: u64 = 15_000;

/// Idle self-heal cadence: how often, while no session is active, the chord is re-claimed.
pub const SELF_HEAL_INTERVAL_MS: u64 = 30_000;

/// How the chord activates dictation.
#[derive(Clone, Copy, PartialEq, Eq, Debug, Structural)]
pub enum ActivationMode {
    /// Dictate while held; finish on release.
    PushToHold,
    /// Press to start, press again to stop.
    PressToToggle,
}

/// Persisted chord + mode.
#[derive(Clone, Debug, PartialEq, Eq)]
pub struct HotkeyConfig {
    pub accelerator: String,
    pub mode: ActivationMode,
}

impl Default for HotkeyConfig {
    fn default() -> (c: Self)
        ensures
            c.accelerator@ == DEFAULT_ACCEL@,
            c.mode == ActivationMode::PushToHold,
    {
        HotkeyConfig { accelerator: String::from_str(DEFAULT_ACCEL), mode: ActivationMode::PushToHold }
    }
}

/// One poll of the recorder: the chord currently held (if it is a usable one), whether
/// everything is released, and whether the user cancelled with a bare Escape.
#[derive(Clone, Debug, PartialEq, Eq)]
pub struct HotkeyRecordSample {
    pub accelerator: Option<String>,
    pub released: bool,
    pub cancelled: bool,
}

/// The clean intents emitted to the orchestrator.
#[derive(Clone, Copy, PartialEq, Eq, Debug, Structural)]
pub enum DictationIntent {
    Start,
    Stop,
    Cancel,
}

/// Modifier bitmask; `sup` is the Super/Win/Meta key.
#[derive(Clone, Copy, PartialEq, Eq, Debug, Default, Structural)]
pub struct Mods {
    pub ctrl: bool,
    pub alt: bool,
    pub shift: bool,
    pub sup: bool,
}

pub open spec fn mods_empty(m: Mods) -> bool {
    !(m.ctrl || m.alt || m.shift || m.sup)
}

pub open spec fn no_mods() -> Mods {
    Mods { ctrl: false, alt: false, shift: false, sup: false }
}

impl Mods {
    /// True when no modifier is set — a "bare key" chord.
    pub fn is_empty(&self) -> (b: bool)
        ensures
            b == mods_empty(*self),
    {
        !(self.ctrl || self.alt || self.shift || self.sup)
    }
}

/// A parsed accelerator: modifiers + an optional main key.
#[derive(Clone, PartialEq, Eq, Debug)]
pub struct Accel {
    pub mods: Mods,
    pub key: Option<String>,
}

pub open spec fn key_view(k: Option<String>) -> Option<Seq<char>> {
    match k {
        Some(s) => Some(s@),
        None => None,
    }
}

/// An accelerator as a mathematical value.
pub type AccelV = (Mods, Option<Seq<char>>);

pub open spec fn accel_view(a: Accel) -> AccelV {
    (a.mods, key_view(a.key))
}

pub open spec fn parse_view(r: Result<Accel, String>) -> Result<AccelV, Seq<char>> {
    match r {
        Ok(a) => Ok(accel_view(a)),
        Err(e) => Err(e@),
    }
}

/// True when a chord carries no modifier.
pub fn is_bare_key(mods: &Mods) -> (b: bool)
    ensures
        b == mods_empty(*mods),
{
    mods.is_empty()
}

// ─────────────────────────────────────────────────────────────────────────────
// Key tokens
// ─────────────────────────────────────────────────────────────────────────────

/// The value of a string of ASCII decimal digits.
pub open spec fn digits_value(d: Seq<char>) -> nat
    decreases d.len(),
{
    if d.len() == 0 {
        0
    } else {
        digits_value(d.drop_last()) * 10 + ((d.last() as u32) - 48) as nat
    }
}

pub open spec fn all_digits(d: Seq<char>) -> bool {
    forall|i: int| 0 <= i < d.len() ==> ascii_digit(#[trigger] d[i])
}

/// `u8::from_str`: an optional `+`, then one or more ASCII digits, valued at most 255.
pub open spec fn parse_u8_spec(s: Seq<char>) -> Option<nat> {
    let d = if s.len() > 0 && s[0] == '+' {
        s.drop_first()
    } else {
        s
    };
    if d.len() > 0 && all_digits(d) && digits_value(d) <= 255 {
        Some(digits_value(d))
    } else {
        None
    }
}

/// `f1`..`f24` → `F1`..`F24` (through `u8::from_str` on the part after `f`).
pub open spec fn canon_function_key_spec(t: Seq<char>) -> Option<Seq<char>> {
    if t.len() >= 1 && t[0] == 'f' {
        match parse_u8_spec(t.drop_first()) {
            Some(n) => if 1 <= n <= 24 {
                Some(seq!['F'] + decimal(n))
            } else {
                None
            },
            None => None,
        }
    } else {
        None
    }
}

/// The canonical display form of one (lowercased) key token, if it is bindable.
pub open spec fn canon_key_spec(t: Seq<char>) -> Option<Seq<char>> {
    if t.len() == 1 && is_ascii_char(t[0]) && ascii_letter(t[0]) {
        Some(seq![ascii_upper_of(t[0])])
    } else if t.len() == 1 && is_ascii_char(t[0]) && ascii_digit(t[0]) {
        Some(t)
    } else if t == "space"@ {
        Some("Space"@)
    } else if t == "tab"@ {
        Some("Tab"@)
    } else if t == "enter"@ || t == "return"@ {
        Some("Enter"@)
    } else if t == "esc"@ || t == "escape"@ {
        Some("Escape"@)
    } else if t == "del"@ || t == "delete"@ {
        Some("Delete"@)
    } else if t == "up"@ {
        Some("Up"@)
    } else if t == "down"@ {
        Some("Down"@)
    } else if t == "left"@ {
        Some("Left"@)
    } else if t == "right"@ {
        Some("Right"@)
    } else {
        canon_function_key_spec(t)
    }
}

/// Whether `s` spells exactly `lit`.
pub fn is_lit(s: &[char], lit: &str) -> (b: bool)
    ensures
        b == (s@ == lit@),
{
    let l = chars_of(lit);
    chars_eq(s, l.as_slice())
}

fn lit_string(lit: &str) -> (r: Option<String>)
    ensures
        r is Some,
        key_view(r) == Some(lit@),
{
    Some(String::from_str(lit))
}

/// `u8::from_str` for a character slice.
fn parse_u8(s: &[char]) -> (r: Option<u8>)
    ensures
        match r {
            Some(n) => parse_u8_spec(s@) == Some(n as nat),
            None => parse_u8_spec(s@) is None,
        },
{
    let start: usize = if s.len() > 0 && s[0] == '+' {
        1
    } else {
        0
    };
    let ghost d = if s@.len() > 0 && s@[0] == '+' {
        s@.drop_first()
    } else {
        s@
    };
    assert(d =~= s@.subrange(start as int, s@.len() as int));
    if start >= s.len() {
        return None;
    }
    let mut k = start;
    let mut val: u32 = 0;
    while k < s.len()
        invariant
            start <= k <= s@.len(),
            d =~= s@.subrange(start as int, s@.len() as int),
            d == (if s@.len() > 0 && s@[0] == '+' {
                s@.drop_first()
            } else {
                s@
            }),
            all_digits(s@.subrange(start as int, k as int)),
            val <= 256,
            val == if digits_value(s@.subrange(start as int, k as int)) <= 255 {
                digits_value(s@.subrange(start as int, k as int))
            } else {
                256
            },
        decreases s@.len() - k,
    {
        let c = s[k];
        if !((c as u32) >= 48 && (c as u32) <= 57) {
            assert(d[(k - start) as int] == s@[k as int]);
            assert(!ascii_digit(d[(k - start) as int]));
            assert(!all_digits(d));

            return None;
        }
        let ghost pre = s@.subrange(start as int, k as int);
        let ghost post = s@.subrange(start as int, k + 1);
        assert(post.drop_last() =~= pre);
        assert(post.last() == c);
        let dv = (c as u32) - 48;
        if val >= 256 {
            val = 256;
        } else {
            let nv = val * 10 + dv;
            val = if nv > 255 {
                256
            } else {
                nv
            };
        }
        proof {
            assert(digits_value(post) == digits_value(pre) * 10 + dv);
            assert forall|i: int| 0 <= i < post.len() implies ascii_digit(#[trigger] post[i]) by {
                if i < pre.len() {
                    assert(post[i] == pre[i]);
                }
            }
        }
        k = k + 1;
    }
    assert(s@.subrange(start as int, k as int) =~= d);
    if val <= 255 {
        Some(val as u8)
    } else {
        None
    }
}

/// `f1`..`f24` → `F1`..`F24`, else `None`.
fn canon_function_key(t: &[char]) -> (r: Option<String>)
    ensures
        key_view(r) == canon_function_key_spec(t@),
{
    if t.len() == 0 || t[0] != 'f' {
        return None;
    }
    let rest = crate::text::slice_range(t, 1, t.len());
    assert(rest@ =~= t@.drop_first());
    match parse_u8(rest.as_slice()) {
        Some(n) => {
            if 1 <= n && n <= 24 {
                let mut out: Vec<char> = Vec::new();
                out.push('F');
                push_decimal(&mut out, n as u64);
                assert(out@ =~= seq!['F'] + decimal(n as nat));
                Some(string_of(out.as_slice()))
            } else {
                None
            }
        },
        None => None,
    }
}

/// Normalize one (already lowercased) key token to its canonical display form, or
/// `None` if it isn't a bindable key.
fn canon_key(t: &[char]) -> (r: Option<String>)
    ensures
        key_view(r) == canon_key_spec(t@),
{
    if t.len() == 1 && (t[0] as u32) < 128 {
        let c = t[0];
        let cu = c as u32;
        if (97 <= cu && cu <= 122) || (65 <= cu && cu <= 90) {
            let u = if 97 <= cu && cu <= 122 {
                (((c as u32) - 32) as u8) as char
            } else {
                c
            };
            let mut v: Vec<char> = Vec::new();
            v.push(u);
            assert(v@ =~= seq![ascii_upper_of(t@[0])]);
            return Some(string_of(v.as_slice()));
        }
        if 48 <= cu && cu <= 57 {
            return Some(string_of(t));
        }
    }
    if is_lit(t, "space") {
        lit_string("Space")
    } else if is_lit(t, "tab") {
        lit_string("Tab")
    } else if is_lit(t, "enter") || is_lit(t, "return") {
        lit_string("Enter")
    } else if is_lit(t, "esc") || is_lit(t, "escape") {
        lit_string("Escape")
    } else if is_lit(t, "del") || is_lit(t, "delete") {
        lit_string("Delete")
    } else if is_lit(t, "up") {
        lit_string("Up")
    } else if is_lit(t, "down") {
        lit_string("Down")
    } else if is_lit(t, "left") {
        lit_string("Left")
    } else if is_lit(t, "right") {
        lit_string("Right")
    } else {
        canon_function_key(t)
    }
}

// ─────────────────────────────────────────────────────────────────────────────
// Accelerator parsing
// ─────────────────────────────────────────────────────────────────────────────

/// Which modifier a (lowercased) token names: 0 Ctrl, 1 Alt, 2 Shift, 3 Super.
pub open spec fn modifier_of(t: Seq<char>) -> Option<int> {
    if t == "ctrl"@ || t == "control"@ {
        Some(0)
    } else if t == "alt"@ || t == "option"@ {
        Some(1)
    } else if t == "shift"@ {
        Some(2)
    } else if t == "super"@ || t == "win"@ || t == "windows"@ || t == "meta"@ || t == "cmd"@
        || t == "command"@ {
        Some(3)
    } else {
        None
    }
}

pub open spec fn set_modifier(m: Mods, which: int) -> Mods {
    if which == 0 {
        Mods { ctrl: true, alt: m.alt, shift: m.shift, sup: m.sup }
    } else if which == 1 {
        Mods { ctrl: m.ctrl, alt: true, shift: m.shift, sup: m.sup }
    } else if which == 2 {
        Mods { ctrl: m.ctrl, alt: m.alt, shift: true, sup: m.sup }
    } else {
        Mods { ctrl: m.ctrl, alt: m.alt, shift: m.shift, sup: true }
    }
}

/// Set the matching modifier bit; returns `true` if `token` was a modifier.
fn apply_modifier(token: &[char], mods: &mut Mods) -> (b: bool)
    ensures
        b == (modifier_of(token@) is Some),
        b ==> *final(mods) == set_modifier(*old(mods), modifier_of(token@)->0),
        !b ==> *final(mods) == *old(mods),
{
    if is_lit(token, "ctrl") || is_lit(token, "control") {
        mods.ctrl = true;
    } else if is_lit(token, "alt") || is_lit(token, "option") {
        mods.alt = true;
    } else if is_lit(token, "shift") {
        mods.shift = true;
    } else if is_lit(token, "super") || is_lit(token, "win") || is_lit(token, "windows") || is_lit(
        token,
        "meta",
    ) || is_lit(token, "cmd") || is_lit(token, "command") {
        mods.sup = true;
    } else {
        return false;
    }
    true
}

/// The pieces of `s` between occurrences of `c`, from index `i` on (`str::split`).
pub open spec fn split_from(s: Seq<char>, c: char, i: int) -> Seq<Seq<char>>
    decreases s.len() + 1 - i,
{
    if i < 0 || i > s.len() {
        Seq::empty()
    } else {
        let e = next_index_of(s, c, i);
        if e >= s.len() || e < i {
            seq![s.subrange(i, s.len() as int)]
        } else {
            seq![s.subrange(i, e)] + split_from(s, c, e + 1)
        }
    }
}

/// First index at or after `i` holding `c` (or `s.len()`).
pub open spec fn next_index_of(s: Seq<char>, c: char, i: int) -> int
    decreases s.len() - i,
{
    if 0 <= i < s.len() && s[i] != c {
        next_index_of(s, c, i + 1)
    } else {
        i
    }
}

/// `str::split(c)`: always at least one (possibly empty) piece.
pub open spec fn split_on(s: Seq<char>, c: char) -> Seq<Seq<char>> {
    split_from(s, c, 0)
}

/// `next_index_of` is the first occurrence of `c` at or after `i` (or the end).
pub proof fn lemma_next_index_bounds(s: Seq<char>, c: char, i: int)
    requires
        0 <= i <= s.len(),
    ensures
        i <= next_index_of(s, c, i) <= s.len(),
        forall|k: int| i <= k < next_index_of(s, c, i) ==> #[trigger] s[k] != c,
        next_index_of(s, c, i) < s.len() ==> s[next_index_of(s, c, i)] == c,
    decreases s.len() - i,
{
    if i < s.len() && s[i] != c {
        lemma_next_index_bounds(s, c, i + 1);
    }
}

pub fn find_char(s: &[char], c: char, i: usize) -> (r: usize)
    requires
        i <= s@.len(),
    ensures
        r == next_index_of(s@, c, i as int),
{
    let mut k = i;
    while k < s.len() && s[k] != c
        invariant
            i <= k <= s@.len(),
            next_index_of(s@, c, k as int) == next_index_of(s@, c, i as int),
        decreases s@.len() - k,
    {
        k = k + 1;
    }
    k
}

/// `str::split(c)`, collected.
pub fn split_char(s: &[char], c: char) -> (r: Vec<Vec<char>>)
    ensures
        r@.len() == split_on(s@, c).len(),
        forall|k: int| 0 <= k < r@.len() ==> (#[trigger] r@[k])@ == split_on(s@, c)[k],
{
    let mut out: Vec<Vec<char>> = Vec::new();
    let ghost done: Seq<Seq<char>> = Seq::empty();
    let mut i: usize = 0;
    loop
        invariant
            i <= s@.len(),
            done.len() == out@.len(),
            forall|k: int| 0 <= k < out@.len() ==> (#[trigger] out@[k])@ == done[k],
            done + split_from(s@, c, i as int) == split_on(s@, c),
        decreases s@.len() - i,
    {
        let e = find_char(s, c, i);
        proof {
            lemma_next_index_bounds(s@, c, i as int);
        }
        let piece = crate::text::slice_range(s, i, e);
        let ghost old_done = done;
        proof {
            done = done.push(piece@);
        }
        out.push(piece);
        if e >= s.len() {
            proof {
                assert(split_from(s@, c, i as int) == seq![s@.subrange(i as int, s@.len() as int)]);
                assert(done =~= old_done + split_from(s@, c, i as int));
            }
            return out;
        }
        proof {
            assert(done + split_from(s@, c, e + 1) =~= old_done + split_from(s@, c, i as int));
        }
        i = e + 1;
    }
}

/// The lowercased, trimmed form of one `+`-separated piece.
pub open spec fn norm_token(p: Seq<char>) -> Seq<char> {
    lowercase_of(trim(p))
}

pub open spec fn unparseable(input: Seq<char>) -> Seq<char> {
    "unparseable hotkey: "@ + input
}

/// The parse of the pieces from `i` on, given the modifiers and key seen so far.
pub open spec fn parse_from(
    parts: Seq<Seq<char>>,
    i: int,
    mods: Mods,
    key: Option<Seq<char>>,
    input: Seq<char>,
) -> Result<AccelV, Seq<char>>
    decreases parts.len() - i,
{
    if i < 0 || i >= parts.len() {
        if mods_empty(mods) {
            Err("hotkey must include a modifier"@)
        } else {
            Ok((mods, key))
        }
    } else {
        let t = norm_token(parts[i]);
        if t.len() == 0 {
            parse_from(parts, i + 1, mods, key, input)
        } else if t == "fn"@ {
            Err("Fn key is not hookable"@)
        } else if modifier_of(t) is Some {
            parse_from(parts, i + 1, set_modifier(mods, modifier_of(t)->0), key, input)
        } else {
            match canon_key_spec(t) {
                None => Err(unparseable(input)),
                Some(c) => if key is Some {
                    Err(unparseable(input))
                } else {
                    parse_from(parts, i + 1, mods, Some(c), input)
                },
            }
        }
    }
}

/// What `parse_accelerator` makes of `input`.
pub open spec fn parse_accel_spec(input: Seq<char>) -> Result<AccelV, Seq<char>> {
    let t = trim(input);
    if t.len() == 0 {
        Err("empty hotkey"@)
    } else {
        parse_from(split_on(t, '+'), 0, no_mods(), None, input)
    }
}

fn err_lit(lit: &str) -> (r: Result<Accel, String>)
    ensures
        parse_view(r) == Err::<AccelV, Seq<char>>(lit@),
{
    Err(String::from_str(lit))
}

fn err_unparseable(input: &str) -> (r: Result<Accel, String>)
    ensures
        parse_view(r) == Err::<AccelV, Seq<char>>(unparseable(input@)),
{
    let prefix = String::from_str("unparseable hotkey: ");
    Err(prefix.concat(input))
}

/// Parse a chord string into `Accel`: `+`-separated, case- and alias-insensitive
/// tokens; modifier-only chords are accepted; empty, unparseable, bare-key and `Fn`
/// inputs are rejected with their error messages.
pub fn parse_accelerator(input: &str) -> (r: Result<Accel, String>)
    ensures
        parse_view(r) == parse_accel_spec(input@),
{
    let chars = chars_of(input);
    let trimmed = trim_chars(chars.as_slice());
    if trimmed.len() == 0 {
        return err_lit("empty hotkey");
    }
    let parts = split_char(trimmed.as_slice(), '+');
    let ghost pv = split_on(trimmed@, '+');
    let mut mods = Mods { ctrl: false, alt: false, shift: false, sup: false };
    let mut key: Option<String> = None;
    let mut i: usize = 0;
    while i < parts.len()
        invariant
            i <= parts@.len(),
            pv == split_on(trimmed@, '+'),
            trimmed@ == trim(input@),
            trimmed@.len() > 0,
            parts@.len() == pv.len(),
            forall|k: int| 0 <= k < parts@.len() ==> (#[trigger] parts@[k])@ == pv[k],
            parse_from(pv, i as int, mods, key_view(key), input@) == parse_accel_spec(input@),
        decreases parts@.len() - i,
    {
        assert(parts@[i as int]@ == pv[i as int]);
        let piece = trim_chars(parts[i].as_slice());
        let piece_s = string_of(piece.as_slice());
        let token_s = to_lowercase(piece_s.as_str());
        let token = chars_of(token_s.as_str());
        assert(token@ == norm_token(pv[i as int]));
        if token.len() == 0 {
            i = i + 1;
            continue ;
        }
        if is_lit(token.as_slice(), "fn") {
            return err_lit("Fn key is not hookable");
        }
        if apply_modifier(token.as_slice(), &mut mods) {
            i = i + 1;
            continue ;
        }
        match canon_key(token.as_slice()) {
            None => {
                return err_unparseable(input);
            },
            Some(canonical) => {
                if key.is_some() {
                    return err_unparseable(input);
                }
                key = Some(canonical);
            },
        }
        i = i + 1;
    }
    if is_bare_key(&mods) {
        return err_lit("hotkey must include a modifier");
    }
    Ok(Accel { mods, key })
}

// ─────────────────────────────────────────────────────────────────────────────
// Canonical rendering
// ─────────────────────────────────────────────────────────────────────────────

pub open spec fn opt_part(b: bool, p: Seq<char>) -> Seq<Seq<char>> {
    if b {
        seq![p]
    } else {
        Seq::empty()
    }
}

/// The canonical pieces of an accelerator: Ctrl, Alt, Shift, Super, then the key.
pub open spec fn canonical_parts(a: AccelV) -> Seq<Seq<char>> {
    opt_part(a.0.ctrl, "Ctrl"@) + opt_part(a.0.alt, "Alt"@) + opt_part(a.0.shift, "Shift"@)
        + opt_part(a.0.sup, "Super"@) + match a.1 {
        Some(k) => seq![k],
        None => Seq::empty(),
    }
}

pub open spec fn canonical_spec(a: AccelV) -> Seq<char> {
    join(canonical_parts(a), "+"@)
}

fn push_lit(parts: &mut Vec<Vec<char>>, lit: &str)
    ensures
        final(parts)@.len() == old(parts)@.len() + 1,
        forall|k: int| 0 <= k < old(parts)@.len() ==> #[trigger] final(parts)@[k] == old(parts)@[k],
        final(parts)@[old(parts)@.len() as int]@ == lit@,
{
    parts.push(chars_of(lit));
}

/// Render an `Accel` back to its canonical string (fixed modifier order: Ctrl, Alt,
/// Shift, Super), joined with `+`.
pub fn to_canonical(accel: &Accel) -> (s: String)
    ensures
        s@ == canonical_spec(accel_view(*accel)),
{
    let mut parts: Vec<Vec<char>> = Vec::new();
    let ghost a = accel_view(*accel);
    if accel.mods.ctrl {
        push_lit(&mut parts, "Ctrl");
    }
    assert(parts@.map_values(|p: Vec<char>| p@) =~= opt_part(a.0.ctrl, "Ctrl"@));
    if accel.mods.alt {
        push_lit(&mut parts, "Alt");
    }
    assert(parts@.map_values(|p: Vec<char>| p@) =~= opt_part(a.0.ctrl, "Ctrl"@) + opt_part(
        a.0.alt,
        "Alt"@,
    ));
    if accel.mods.shift {
        push_lit(&mut parts, "Shift");
    }
    assert(parts@.map_values(|p: Vec<char>| p@) =~= opt_part(a.0.ctrl, "Ctrl"@) + opt_part(
        a.0.alt,
        "Alt"@,
    ) + opt_part(a.0.shift, "Shift"@));
    if accel.mods.sup {
        push_lit(&mut parts, "Super");
    }
    assert(parts@.map_values(|p: Vec<char>| p@) =~= opt_part(a.0.ctrl, "Ctrl"@) + opt_part(
        a.0.alt,
        "Alt"@,
    ) + opt_part(a.0.shift, "Shift"@) + opt_part(a.0.sup, "Super"@));
    match &accel.key {
        Some(k) => {
            parts.push(chars_of(k.as_str()));
        },
        None => {},
    }
    assert(parts@.map_values(|p: Vec<char>| p@) =~= canonical_parts(a));
    let plus = chars_of("+");
    let joined = join_chars(&parts, plus.as_slice());
    string_of(joined.as_slice())
}

// ─────────────────────────────────────────────────────────────────────────────
// Guards
// ─────────────────────────────────────────────────────────────────────────────

pub open spec fn key_is(k: Option<Seq<char>>, lit: Seq<char>) -> bool {
    k == Some(lit)
}

/// OS-owned chords that must not be claimed: Win+L, Alt+Tab, Win+Tab, Win+D,
/// Ctrl+Alt+Delete (exact modifier sets).
pub open spec fn is_reserved_spec(a: AccelV) -> bool {
    let m = a.0;
    let k = a.1;
    (!m.ctrl && !m.alt && !m.shift && m.sup && key_is(k, "L"@)) || (!m.ctrl && m.alt && !m.shift
        && !m.sup && key_is(k, "Tab"@)) || (!m.ctrl && !m.alt && !m.shift && m.sup && key_is(
        k,
        "Tab"@,
    )) || (!m.ctrl && !m.alt && !m.shift && m.sup && key_is(k, "D"@)) || (m.ctrl && m.alt
        && !m.shift && !m.sup && key_is(k, "Delete"@))
}

fn key_equals(k: &Option<String>, lit: &str) -> (b: bool)
    ensures
        b == key_is(key_view(*k), lit@),
{
    match k {
        Some(s) => {
            let c = chars_of(s.as_str());
            let l = chars_of(lit);
            chars_eq(c.as_slice(), l.as_slice())
        },
        None => false,
    }
}

/// True for OS-owned chords MIA must not claim.
pub fn is_reserved(accel: &Accel) -> (b: bool)
    ensures
        b == is_reserved_spec(accel_view(*accel)),
{
    let m = accel.mods;
    let k = &accel.key;
    (!m.ctrl && !m.alt && !m.shift && m.sup && key_equals(k, "L")) || (!m.ctrl && m.alt && !m.shift
        && !m.sup && key_equals(k, "Tab")) || (!m.ctrl && !m.alt && !m.shift && m.sup
        && key_equals(k, "Tab")) || (!m.ctrl && !m.alt && !m.shift && m.sup && key_equals(k, "D"))
        || (m.ctrl && m.alt && !m.shift && !m.sup && key_equals(k, "Delete"))
}

/// Self-heal tick decision: re-claim the chord only when idle and at most once per
/// interval.
pub fn should_self_heal(session_active: bool, ms_since_last: u64, interval_ms: u64) -> (b: bool)
    ensures
        b == (!session_active && ms_since_last >= interval_ms),
{
    !session_active && ms_since_last >= interval_ms
}

/// Every expected modifier is among the held ones (extra ones are allowed).
pub open spec fn expected_modifiers_match_spec(expected: Mods, actual: Mods) -> bool {
    (!expected.ctrl || actual.ctrl) && (!expected.alt || actual.alt) && (!expected.shift
        || actual.shift) && (!expected.sup || actual.sup)
}

/// Whether the held modifiers include every expected one (extra ones are allowed).
pub fn expected_modifiers_match(expected: Mods, actual: Mods) -> (b: bool)
    ensures
        b == expected_modifiers_match_spec(expected, actual),
{
    (!expected.ctrl || actual.ctrl) && (!expected.alt || actual.alt) && (!expected.shift
        || actual.shift) && (!expected.sup || actual.sup)
}

pub open spec fn count_mods(m: Mods) -> nat {
    (if m.ctrl {
        1nat
    } else {
        0nat
    }) + (if m.alt {
        1nat
    } else {
        0nat
    }) + (if m.shift {
        1nat
    } else {
        0nat
    }) + (if m.sup {
        1nat
    } else {
        0nat
    })
}

/// How many modifiers are held.
pub fn modifier_count(mods: Mods) -> (n: usize)
    ensures
        n == count_mods(mods),
{
    let mut n: usize = 0;
    if mods.ctrl {
        n = n + 1;
    }
    if mods.alt {
        n = n + 1;
    }
    if mods.shift {
        n = n + 1;
    }
    if mods.sup {
        n = n + 1;
    }
    n
}

// ─────────────────────────────────────────────────────────────────────────────
// Debounce + activation-mode reducer
// ─────────────────────────────────────────────────────────────────────────────

/// A raw chord edge from the OS layer.
#[derive(Clone, Copy, PartialEq, Eq, Debug, Structural)]
pub enum RawEdge {
    Pressed,
    Released,
}

/// The reducer's edge-tracking state: whether dictation is on, whether the chord is
/// physically held, and when the last accepted edge happened.
#[derive(Clone, Copy, PartialEq, Eq, Debug, Default, Structural)]
pub struct EdgeState {
    pub active: bool,
    pub held: bool,
    pub last_edge_ms: Option<u64>,
}

pub open spec fn debounced(state: EdgeState, now_ms: u64, debounce_ms: u64) -> bool {
    match state.last_edge_ms {
        Some(last) => (if now_ms >= last {
            now_ms - last
        } else {
            0
        }) < debounce_ms,
        None => false,
    }
}

pub open spec fn push_to_hold_spec(state: EdgeState, edge: RawEdge, now_ms: u64) -> (
    EdgeState,
    Option<DictationIntent>,
) {
    match edge {
        RawEdge::Pressed => if !state.active {
            (
                EdgeState { active: true, held: true, last_edge_ms: Some(now_ms) },
                Some(DictationIntent::Start),
            )
        } else {
            (EdgeState { held: true, ..state }, None)
        },
        RawEdge::Released => if state.active {
            (
                EdgeState { active: false, held: false, last_edge_ms: Some(now_ms) },
                Some(DictationIntent::Stop),
            )
        } else {
            (EdgeState { held: false, ..state }, None)
        },
    }
}

pub open spec fn press_to_toggle_spec(state: EdgeState, edge: RawEdge, now_ms: u64) -> (
    EdgeState,
    Option<DictationIntent>,
) {
    match edge {
        RawEdge::Pressed => if state.active {
            (EdgeState { active: false, last_edge_ms: Some(now_ms), ..state }, Some(DictationIntent::Stop))
        } else {
            (EdgeState { active: true, last_edge_ms: Some(now_ms), ..state }, Some(DictationIntent::Start))
        },
        RawEdge::Released => (state, None),
    }
}

pub open spec fn reduce_spec(
    state: EdgeState,
    edge: RawEdge,
    mode: ActivationMode,
    now_ms: u64,
    debounce_ms: u64,
) -> (EdgeState, Option<DictationIntent>) {
    if debounced(state, now_ms, debounce_ms) {
        (state, None)
    } else {
        match mode {
            ActivationMode::PushToHold => push_to_hold_spec(state, edge, now_ms),
            ActivationMode::PressToToggle => press_to_toggle_spec(state, edge, now_ms),
        }
    }
}

/// The pure debounce + mode reducer. `now_ms` is a monotonic millisecond clock; an
/// edge within `debounce_ms` of the last accepted one is dropped.
pub fn reduce(
    state: EdgeState,
    edge: RawEdge,
    mode: ActivationMode,
    now_ms: u64,
    debounce_ms: u64,
) -> (r: (EdgeState, Option<DictationIntent>))
    ensures
        r == reduce_spec(state, edge, mode, now_ms, debounce_ms),
{
    if let Some(last) = state.last_edge_ms {
        let elapsed = if now_ms >= last {
            now_ms - last
        } else {
            0
        };
        if elapsed < debounce_ms {
            return (state, None);
        }
    }
    match mode {
        ActivationMode::PushToHold => reduce_push_to_hold(state, edge, now_ms),
        ActivationMode::PressToToggle => reduce_press_to_toggle(state, edge, now_ms),
    }
}

fn reduce_push_to_hold(state: EdgeState, edge: RawEdge, now_ms: u64) -> (r: (
    EdgeState,
    Option<DictationIntent>,
))
    ensures
        r == push_to_hold_spec(state, edge, now_ms),
{
    match edge {
        RawEdge::Pressed => {
            if !state.active {
                (
                    EdgeState { active: true, held: true, last_edge_ms: Some(now_ms) },
                    Some(DictationIntent::Start),
                )
            } else {
                (EdgeState { active: state.active, held: true, last_edge_ms: state.last_edge_ms }, None)
            }
        },
        RawEdge::Released => {
            if state.active {
                (
                    EdgeState { active: false, held: false, last_edge_ms: Some(now_ms) },
                    Some(DictationIntent::Stop),
                )
            } else {
                (EdgeState { active: state.active, held: false, last_edge_ms: state.last_edge_ms }, None)
            }
        },
    }
}

fn reduce_press_to_toggle(state: EdgeState, edge: RawEdge, now_ms: u64) -> (r: (
    EdgeState,
    Option<DictationIntent>,
))
    ensures
        r == press_to_toggle_spec(state, edge, now_ms),
{
    match edge {
        RawEdge::Pressed => {
            if state.active {
                (
                    EdgeState { active: false, held: state.held, last_edge_ms: Some(now_ms) },
                    Some(DictationIntent::Stop),
                )
            } else {
                (
                    EdgeState { active: true, held: state.held, last_edge_ms: Some(now_ms) },
                    Some(DictationIntent::Start),
                )
            }
        },
        RawEdge::Released => (state, None),
    }
}

/// The intent stream is clean: Start only from inactive to active, Stop only from
/// active to inactive, no intent leaves the activity unchanged, and the reducer never
/// emits Cancel. So Start and Stop strictly alternate over any sequence of edges.
pub proof fn lemma_reduce_intents_match_activity(
    state: EdgeState,
    edge: RawEdge,
    mode: ActivationMode,
    now_ms: u64,
    debounce_ms: u64,
)
    ensures
        ({
            let (next, i) = reduce_spec(state, edge, mode, now_ms, debounce_ms);
            &&& i == Some(DictationIntent::Start) ==> !state.active && next.active
            &&& i == Some(DictationIntent::Stop) ==> state.active && !next.active
            &&& i is None ==> next.active == state.active
            &&& i != Some(DictationIntent::Cancel)
        }),
{
}

/// Debounce: an edge within `debounce_ms` of the last accepted edge changes nothing.
pub proof fn lemma_reduce_debounce_drops_chatter(
    state: EdgeState,
    edge: RawEdge,
    mode: ActivationMode,
    now_ms: u64,
    debounce_ms: u64,
)
    requires
        state.last_edge_ms is Some,
        state.last_edge_ms->0 <= now_ms < state.last_edge_ms->0 + debounce_ms,
    ensures
        reduce_spec(state, edge, mode, now_ms, debounce_ms) == (state, None::<DictationIntent>),
{
}

// ─────────────────────────────────────────────────────────────────────────────
// Recorder, polling and session runtime decisions
// ─────────────────────────────────────────────────────────────────────────────

pub open spec fn opt_string_view(o: Option<String>) -> Option<Seq<char>> {
    match o {
        Some(s) => Some(s@),
        None => None,
    }
}

/// What one recorder poll reports for the held modifiers and the first held key: a
/// bare Escape cancels; a key needs a modifier; modifiers alone need at least two.
pub open spec fn record_sample_spec(mods: Mods, key: Option<Seq<char>>) -> (Option<Seq<char>>, bool, bool) {
    let released = mods_empty(mods) && key is None;
    let cancelled = mods_empty(mods) && key == Some("Escape"@);
    let accelerator = if cancelled {
        None
    } else {
        match key {
            Some(k) => if !mods_empty(mods) {
                Some(canonical_spec((mods, Some(k))))
            } else {
                None
            },
            None => if count_mods(mods) >= 2 {
                Some(canonical_spec((mods, None)))
            } else {
                None
            },
        }
    };
    (accelerator, released, cancelled)
}

/// Build one recorder sample from the held modifiers and the first held key.
pub fn record_sample_from(mods: Mods, key: Option<String>) -> (r: HotkeyRecordSample)
    ensures
        (opt_string_view(r.accelerator), r.released, r.cancelled) == record_sample_spec(
            mods,
            opt_string_view(key),
        ),
{
    let released = mods.is_empty() && key.is_none();
    let cancelled = mods.is_empty() && match &key {
        Some(k) => {
            let kc = chars_of(k.as_str());
            is_lit(kc.as_slice(), "Escape")
        },
        None => false,
    };
    let accelerator = if cancelled {
        None
    } else {
        match key {
            Some(k) => {
                if !mods.is_empty() {
                    Some(to_canonical(&Accel { mods, key: Some(k) }))
                } else {
                    None
                }
            },
            None => {
                if modifier_count(mods) >= 2 {
                    Some(to_canonical(&Accel { mods, key: None }))
                } else {
                    None
                }
            },
        }
    };
    HotkeyRecordSample { accelerator, released, cancelled }
}

/// Chords the shortcut plugin cannot hook (any Super chord, or modifiers alone) are
/// detected by polling the keyboard instead.
pub fn should_poll_accel(accel: &Accel) -> (b: bool)
    ensures
        b == (accel.mods.sup || accel.key is None),
{
    accel.mods.sup || accel.key.is_none()
}

/// One poll of a polled chord: `(down, blocked_until_release)` after it, given whether
/// the chord has no key, whether the modifiers-only chord was blocked, whether its
/// modifiers are held, whether some other key is down and whether its own key is down.
/// Releasing the modifiers clears the block; a modifiers-only chord pressed together
/// with another key is blocked until the modifiers are released.
pub open spec fn chord_poll(
    key_none: bool,
    blocked: bool,
    modifiers_held: bool,
    other_key_down: bool,
    key_down: bool,
) -> (bool, bool) {
    if !modifiers_held {
        (false, false)
    } else if blocked {
        (false, true)
    } else if key_none && other_key_down {
        (false, true)
    } else {
        (key_none || key_down, false)
    }
}

/// One poll of a polled chord (see `chord_poll`).
pub fn polled_chord_down(
    accel: &Accel,
    blocked_until_release: &mut bool,
    modifiers_held: bool,
    other_key_down: bool,
    key_down: bool,
) -> (down: bool)
    ensures
        (down, *final(blocked_until_release)) == chord_poll(
            accel.key is None,
            *old(blocked_until_release),
            modifiers_held,
            other_key_down,
            key_down,
        ),
{
    if !modifiers_held {
        *blocked_until_release = false;
        return false;
    }
    if *blocked_until_release {
        return false;
    }
    if accel.key.is_none() && other_key_down {
        *blocked_until_release = true;
        return false;
    }
    accel.key.is_none() || key_down
}

/// The Windows virtual-key code of a canonical key name (F-keys through
/// `u8::from_str`-style digits, 1..=24).
pub open spec fn key_vk_spec(k: Seq<char>) -> Option<int> {
    if k.len() == 1 && is_ascii_char(k[0]) && ascii_letter(k[0]) {
        Some((ascii_upper_of(k[0]) as u32) as int)
    } else if k.len() == 1 && is_ascii_char(k[0]) && ascii_digit(k[0]) {
        Some((k[0] as u32) as int)
    } else if k == "Space"@ {
        Some(0x20)
    } else if k == "Tab"@ {
        Some(0x09)
    } else if k == "Enter"@ {
        Some(0x0D)
    } else if k == "Escape"@ {
        Some(0x1B)
    } else if k == "Delete"@ {
        Some(0x2E)
    } else if k == "Up"@ {
        Some(0x26)
    } else if k == "Down"@ {
        Some(0x28)
    } else if k == "Left"@ {
        Some(0x25)
    } else if k == "Right"@ {
        Some(0x27)
    } else if k.len() >= 1 && k[0] == 'F' {
        match parse_u8_spec(k.drop_first()) {
            Some(n) => if 1 <= n <= 24 {
                Some(0x6F + n as int)
            } else {
                None
            },
            None => None,
        }
    } else {
        None
    }
}

/// The virtual-key code to poll for a canonical key, if it has one.
pub fn key_vk(key: &str) -> (r: Option<i32>)
    ensures
        match r {
            Some(v) => key_vk_spec(key@) == Some(v as int),
            None => key_vk_spec(key@) is None,
        },
{
    let k = chars_of(key);
    if k.len() == 1 {
        let c = k[0];
        let u = c as u32;
        if u < 128 && ((65 <= u && u <= 90) || (97 <= u && u <= 122)) {
            let up: u32 = if 97 <= u { u - 32 } else { u };
            proof {
                if 97 <= u {
                    assert(((u - 32) as char) as u32 == u - 32);
                }
            }
            return Some(up as i32);
        }
        if u < 128 && 48 <= u && u <= 57 {
            return Some(u as i32);
        }
    }
    let s = k.as_slice();
    if is_lit(s, "Space") {
        return Some(0x20);
    }
    if is_lit(s, "Tab") {
        return Some(0x09);
    }
    if is_lit(s, "Enter") {
        return Some(0x0D);
    }
    if is_lit(s, "Escape") {
        return Some(0x1B);
    }
    if is_lit(s, "Delete") {
        return Some(0x2E);
    }
    if is_lit(s, "Up") {
        return Some(0x26);
    }
    if is_lit(s, "Down") {
        return Some(0x28);
    }
    if is_lit(s, "Left") {
        return Some(0x25);
    }
    if is_lit(s, "Right") {
        return Some(0x27);
    }
    if k.len() >= 1 && k[0] == 'F' {
        let rest = crate::text::slice_range(s, 1, k.len());
        assert(rest@ =~= k@.drop_first());
        match parse_u8(rest.as_slice()) {
            Some(n) => {
                if 1 <= n && n <= 24 {
                    return Some(0x6F + n as i32);
                }
                return None;
            },
            None => {
                return None;
            },
        }
    }
    None
}

// ─────────────────────────────────────────────────────────────────────────────
// Keyboard snapshots: which virtual keys are held at one poll
// ─────────────────────────────────────────────────────────────────────────────

/// Whether virtual key `vk` is among the held keys of a snapshot.
pub open spec fn held(pressed: Seq<i32>, vk: int) -> bool {
    exists|i: int| 0 <= i < pressed.len() && pressed[i] as int == vk
}

/// Whether virtual key `vk` is held in the snapshot.
pub fn vk_held(pressed: &[i32], vk: i32) -> (b: bool)
    ensures
        b == held(pressed@, vk as int),
{
    let mut i: usize = 0;
    while i < pressed.len()
        invariant
            i <= pressed.len(),
            forall|j: int| 0 <= j < i ==> pressed@[j] != vk,
        decreases pressed.len() - i,
    {
        if pressed[i] == vk {
            return true;
        }
        i = i + 1;
    }
    false
}

/// Left/right virtual keys of the four modifiers: Ctrl, Alt, Shift, Win.
pub const VK_LCONTROL: i32 = 0xA2;
pub const VK_RCONTROL: i32 = 0xA3;
pub const VK_LMENU: i32 = 0xA4;
pub const VK_RMENU: i32 = 0xA5;
pub const VK_LSHIFT: i32 = 0xA0;
pub const VK_RSHIFT: i32 = 0xA1;
pub const VK_LWIN: i32 = 0x5B;
pub const VK_RWIN: i32 = 0x5C;

/// The modifiers held in a snapshot (either side counts).
pub open spec fn mods_held_spec(pressed: Seq<i32>) -> Mods {
    Mods {
        ctrl: held(pressed, VK_LCONTROL as int) || held(pressed, VK_RCONTROL as int),
        alt: held(pressed, VK_LMENU as int) || held(pressed, VK_RMENU as int),
        shift: held(pressed, VK_LSHIFT as int) || held(pressed, VK_RSHIFT as int),
        sup: held(pressed, VK_LWIN as int) || held(pressed, VK_RWIN as int),
    }
}

/// The modifiers held in a snapshot.
pub fn current_mods_pressed(pressed: &[i32]) -> (m: Mods)
    ensures
        m == mods_held_spec(pressed@),
{
    Mods {
        ctrl: vk_held(pressed, VK_LCONTROL) || vk_held(pressed, VK_RCONTROL),
        alt: vk_held(pressed, VK_LMENU) || vk_held(pressed, VK_RMENU),
        shift: vk_held(pressed, VK_LSHIFT) || vk_held(pressed, VK_RSHIFT),
        sup: vk_held(pressed, VK_LWIN) || vk_held(pressed, VK_RWIN),
    }
}

/// Whether every modifier of `expected` is held in the snapshot.
pub fn expected_modifiers_pressed(expected: Mods, pressed: &[i32]) -> (b: bool)
    ensures
        b == expected_modifiers_match_spec(expected, mods_held_spec(pressed@)),
{
    expected_modifiers_match(expected, current_mods_pressed(pressed))
}

/// Whether a canonical key is held: it must have a virtual key, and that key is down.
pub fn key_pressed(key: &str, pressed: &[i32]) -> (b: bool)
    ensures
        b == match key_vk_spec(key@) {
            Some(v) => held(pressed@, v),
            None => false,
        },
{
    match key_vk(key) {
        Some(v) => vk_held(pressed, v),
        None => false,
    }
}

/// Navigation and editing keys that count as "another key" while a modifiers-only
/// chord is held: Backspace, Tab, Enter, Space, PageUp/PageDown, End, Home, the
/// arrows, Insert and Delete.
pub open spec fn nav_vk(v: int) -> bool {
    v == 0x08 || v == 0x09 || v == 0x0D || (0x20 <= v <= 0x28) || v == 0x2D || v == 0x2E
}

/// A non-modifier key: navigation/editing, a digit, a letter or F1..F24.
pub open spec fn non_modifier_vk(v: int) -> bool {
    nav_vk(v) || (0x30 <= v <= 0x39) || (0x41 <= v <= 0x5A) || (0x70 <= v <= 0x87)
}

/// Whether any non-modifier key is held in the snapshot.
pub fn any_non_modifier_pressed(pressed: &[i32]) -> (b: bool)
    ensures
        b == exists|i: int| 0 <= i < pressed@.len() && non_modifier_vk(pressed@[i] as int),
{
    let mut i: usize = 0;
    while i < pressed.len()
        invariant
            i <= pressed.len(),
            forall|j: int| 0 <= j < i ==> !non_modifier_vk(pressed@[j] as int),
        decreases pressed.len() - i,
    {
        let v = pressed[i];
        if v == 0x08 || v == 0x09 || v == 0x0D || (0x20 <= v && v <= 0x28) || v == 0x2D || v == 0x2E
            || (0x30 <= v && v <= 0x39) || (0x41 <= v && v <= 0x5A) || (0x70 <= v && v <= 0x87) {
            return true;
        }
        i = i + 1;
    }
    false
}

/// The named keys the recorder looks for first, in order, with their virtual keys.
pub open spec fn named_record_keys() -> Seq<(Seq<char>, int)> {
    seq![
        ("Space"@, 0x20int),
        ("Tab"@, 0x09int),
        ("Enter"@, 0x0Dint),
        ("Escape"@, 0x1Bint),
        ("Delete"@, 0x2Eint),
        ("Up"@, 0x26int),
        ("Down"@, 0x28int),
        ("Left"@, 0x25int),
        ("Right"@, 0x27int),
    ]
}

/// The first held named key, scanning from index `i`.
pub open spec fn first_named_from(pressed: Seq<i32>, i: int) -> Option<Seq<char>>
    decreases 9 - i,
{
    if i < 0 || i >= 9 {
        None
    } else if held(pressed, named_record_keys()[i].1) {
        Some(named_record_keys()[i].0)
    } else {
        first_named_from(pressed, i + 1)
    }
}

/// The lowest held virtual key in `lo..=hi`.
pub open spec fn first_held_in(pressed: Seq<i32>, lo: int, hi: int) -> Option<int>
    decreases hi + 1 - lo,
{
    if lo > hi {
        None
    } else if held(pressed, lo) {
        Some(lo)
    } else {
        first_held_in(pressed, lo + 1, hi)
    }
}

/// The key the recorder reports for a snapshot: the first held named key, else the
/// first held letter, else the first held digit, else the first held F-key.
pub open spec fn first_record_key_spec(pressed: Seq<i32>) -> Option<Seq<char>> {
    match first_named_from(pressed, 0) {
        Some(k) => Some(k),
        None => match first_held_in(pressed, 0x41, 0x5A) {
            Some(v) => Some(seq![v as char]),
            None => match first_held_in(pressed, 0x30, 0x39) {
                Some(v) => Some(seq![v as char]),
                None => match first_held_in(pressed, 0x70, 0x87) {
                    Some(v) => Some("F"@ + decimal((v - 0x6F) as nat)),
                    None => None,
                },
            },
        },
    }
}

/// The lowest held virtual key in `lo..=hi`.
fn first_held_between(pressed: &[i32], lo: i32, hi: i32) -> (r: Option<i32>)
    requires
        0 <= lo <= hi < 0x100,
    ensures
        match r {
            Some(v) => first_held_in(pressed@, lo as int, hi as int) == Some(v as int) && lo <= v <= hi,
            None => first_held_in(pressed@, lo as int, hi as int) is None,
        },
{
    let mut v = lo;
    while v <= hi
        invariant
            lo <= v <= hi + 1,
            hi < 0x100,
            first_held_in(pressed@, lo as int, hi as int) == first_held_in(pressed@, v as int, hi as int),
        decreases hi + 1 - v,
    {
        if vk_held(pressed, v) {
            return Some(v);
        }
        v = v + 1;
    }
    None
}

/// The first key the recorder sees held in a snapshot (see `first_record_key_spec`).
pub fn first_pressed_record_key(pressed: &[i32]) -> (r: Option<String>)
    ensures
        opt_string_view(r) == first_record_key_spec(pressed@),
{
    let names: [&str; 9] = ["Space", "Tab", "Enter", "Escape", "Delete", "Up", "Down", "Left", "Right"];
    let vks: [i32; 9] = [0x20, 0x09, 0x0D, 0x1B, 0x2E, 0x26, 0x28, 0x25, 0x27];
    proof {
        reveal_strlit("Space");
        reveal_strlit("Tab");
        reveal_strlit("Enter");
        reveal_strlit("Escape");
        reveal_strlit("Delete");
        reveal_strlit("Up");
        reveal_strlit("Down");
        reveal_strlit("Left");
        reveal_strlit("Right");
        assert forall|j: int| 0 <= j < 9 implies names@[j]@ == named_record_keys()[j].0
            && vks@[j] as int == named_record_keys()[j].1 by {}
    }
    let mut i: usize = 0;
    while i < 9
        invariant
            i <= 9,
            forall|j: int| 0 <= j < 9 ==> names@[j]@ == named_record_keys()[j].0 && vks@[j] as int
                == named_record_keys()[j].1,
            first_named_from(pressed@, 0) == first_named_from(pressed@, i as int),
        decreases 9 - i,
    {
        if vk_held(pressed, vks[i]) {
            return Some(String::from_str(names[i]));
        }
        i = i + 1;
    }
    if let Some(v) = first_held_between(pressed, 0x41, 0x5A) {
        let c = char_of_ascii(v as u32);
        return Some(string_of(&[c]));
    }
    if let Some(v) = first_held_between(pressed, 0x30, 0x39) {
        let c = char_of_ascii(v as u32);
        return Some(string_of(&[c]));
    }
    if let Some(v) = first_held_between(pressed, 0x70, 0x87) {
        let mut out: Vec<char> = vec!['F'];
        push_decimal(&mut out, (v - 0x6F) as u64);
        proof {
            reveal_strlit("F");
            assert(out@ =~= "F"@ + decimal((v - 0x6F) as nat));
        }
        return Some(string_of(out.as_slice()));
    }
    None
}

/// The character of an ASCII code.
fn char_of_ascii(u: u32) -> (c: char)
    requires
        u < 128,
    ensures
        c == u as char,
        c as u32 == u,
{
    let c = u as u8 as char;
    proof {
        vstd::utf8::char_u32_cast(c, u);
    }
    c
}

/// One recorder poll from a keyboard snapshot: the held modifiers and the first held key.
pub fn platform_record_sample(pressed: &[i32]) -> (r: HotkeyRecordSample)
    ensures
        (opt_string_view(r.accelerator), r.released, r.cancelled) == record_sample_spec(
            mods_held_spec(pressed@),
            first_record_key_spec(pressed@),
        ),
{
    let mods = current_mods_pressed(pressed);
    let key = first_pressed_record_key(pressed);
    record_sample_from(mods, key)
}

/// Whether some non-modifier key is held in a snapshot.
pub open spec fn other_key_held(pressed: Seq<i32>) -> bool {
    exists|i: int| 0 <= i < pressed.len() && non_modifier_vk(pressed[i] as int)
}

/// Whether a chord's own key is held in a snapshot (false for a keyless chord or a key
/// without a virtual key).
pub open spec fn chord_key_held(key: Option<Seq<char>>, pressed: Seq<i32>) -> bool {
    match key {
        Some(k) => match key_vk_spec(k) {
            Some(v) => held(pressed, v),
            None => false,
        },
        None => false,
    }
}

/// One poll of a chord against a keyboard snapshot.
pub open spec fn snapshot_poll(a: AccelV, blocked: bool, pressed: Seq<i32>) -> (bool, bool) {
    chord_poll(
        a.1 is None,
        blocked,
        expected_modifiers_match_spec(a.0, mods_held_spec(pressed)),
        other_key_held(pressed),
        chord_key_held(a.1, pressed),
    )
}

/// One poll of a polled chord against a keyboard snapshot.
pub fn polled_accel_pressed(accel: &Accel, blocked_until_release: &mut bool, pressed: &[i32]) -> (down: bool)
    ensures
        (down, *final(blocked_until_release)) == snapshot_poll(
            accel_view(*accel),
            *old(blocked_until_release),
            pressed@,
        ),
{
    let mods_ok = expected_modifiers_pressed(accel.mods, pressed);
    let other = any_non_modifier_pressed(pressed);
    let key_down = match &accel.key {
        Some(k) => key_pressed(k.as_str(), pressed),
        None => false,
    };
    polled_chord_down(accel, blocked_until_release, mods_ok, other, key_down)
}

/// The keyboard-polling loop's state: the chord it last polled, whether that chord is
/// down, and whether a modifiers-only chord is blocked until release.
pub struct KeyPoller {
    pub last_accelerator: String,
    pub active: bool,
    pub blocked_until_release: bool,
}

/// The poller's state as plain values: (last chord, active, blocked).
pub type PollerV = (Seq<char>, bool, bool);

/// One tick of the polling loop: the next state and, when the chord's state changed,
/// the edge to feed the session runtime (`Some(true)` pressed, `Some(false)` released).
/// While handling is suspended, the chord is invalid, or the plugin hooks the chord
/// itself, the poller idles. A new chord restarts from released.
pub open spec fn poll_tick_spec(
    st: PollerV,
    suspended: bool,
    accelerator: Seq<char>,
    pressed: Seq<i32>,
) -> (PollerV, Option<bool>) {
    if suspended {
        ((st.0, false, false), None)
    } else {
        match parse_accel_spec(accelerator) {
            Err(_) => ((st.0, false, false), None),
            Ok(a) => if !(a.0.sup || a.1 is None) {
                ((st.0, false, false), None)
            } else {
                let fresh = accelerator != st.0;
                let active = if fresh {
                    false
                } else {
                    st.1
                };
                let blocked = if fresh {
                    false
                } else {
                    st.2
                };
                let (down, blocked2) = snapshot_poll(a, blocked, pressed);
                if down != active {
                    ((accelerator, down, blocked2), Some(down))
                } else {
                    ((accelerator, active, blocked2), None)
                }
            },
        }
    }
}

impl KeyPoller {
    pub open spec fn view(&self) -> PollerV {
        (self.last_accelerator@, self.active, self.blocked_until_release)
    }

    /// Nothing polled yet.
    pub fn new() -> (p: Self)
        ensures
            p.view() == (Seq::<char>::empty(), false, false),
    {
        KeyPoller { last_accelerator: String::new(), active: false, blocked_until_release: false }
    }

    /// One tick against the active chord and a keyboard snapshot (see `poll_tick_spec`).
    pub fn tick(&mut self, suspended: bool, accelerator: &str, pressed: &[i32]) -> (edge: Option<bool>)
        ensures
            (final(self).view(), edge) == poll_tick_spec(old(self).view(), suspended, accelerator@, pressed@),
    {
        if suspended {
            self.active = false;
            self.blocked_until_release = false;
            return None;
        }
        let accel = match parse_accelerator(accelerator) {
            Ok(a) => a,
            Err(_) => {
                self.active = false;
                self.blocked_until_release = false;
                return None;
            },
        };
        if !should_poll_accel(&accel) {
            self.active = false;
            self.blocked_until_release = false;
            return None;
        }
        let ac = chars_of(accelerator);
        let lc = chars_of(self.last_accelerator.as_str());
        if !crate::text::chars_eq(ac.as_slice(), lc.as_slice()) {
            self.last_accelerator = String::from_str(accelerator);
            self.active = false;
            self.blocked_until_release = false;
        }
        let down = polled_accel_pressed(&accel, &mut self.blocked_until_release, pressed);
        if down != self.active {
            self.active = down;
            Some(down)
        } else {
            None
        }
    }
}

/// Polling is stable: a second tick on the same chord and keyboard state emits no edge.
pub proof fn lemma_poll_tick_stable(st: PollerV, suspended: bool, accelerator: Seq<char>, pressed: Seq<i32>)
    ensures
        poll_tick_spec(poll_tick_spec(st, suspended, accelerator, pressed).0, suspended, accelerator, pressed).1
            is None,
{
}

/// Edges alternate: two edges emitted by consecutive ticks on the same chord are a press
/// and a release, never two presses or two releases.
pub proof fn lemma_poll_edges_alternate(
    st: PollerV,
    s1: bool,
    s2: bool,
    accelerator: Seq<char>,
    p1: Seq<i32>,
    p2: Seq<i32>,
)
    ensures
        ({
            let (st1, e1) = poll_tick_spec(st, s1, accelerator, p1);
            let (st2, e2) = poll_tick_spec(st1, s2, accelerator, p2);
            e1 is Some && e2 is Some ==> e1->0 != e2->0
        }),
{
}

/// The session runtime's state: the active chord and mode, the reducer's edge
/// tracker, whether hotkey handling is suspended, and the session generation that
/// disarms stale watchdogs.
pub struct HotkeyRuntime {
    pub cfg: HotkeyConfig,
    pub edge: EdgeState,
    pub suspended: bool,
    pub generation: u64,
}

pub open spec fn next_generation(g: u64) -> u64 {
    if g == u64::MAX {
        0
    } else {
        (g + 1) as u64
    }
}

fn bump(g: u64) -> (r: u64)
    ensures
        r == next_generation(g),
{
    if g == u64::MAX {
        0
    } else {
        g + 1
    }
}

impl HotkeyRuntime {
    /// Start with a config, an idle reducer, not suspended, generation 0.
    pub fn new(cfg: HotkeyConfig) -> (r: Self)
        ensures
            r.cfg == cfg,
            r.edge == (EdgeState { active: false, held: false, last_edge_ms: None }),
            !r.suspended,
            r.generation == 0,
    {
        HotkeyRuntime {
            cfg,
            edge: EdgeState { active: false, held: false, last_edge_ms: None },
            suspended: false,
            generation: 0,
        }
    }

    /// Replace the active config with the saved one.
    pub fn hydrate(&mut self, cfg: HotkeyConfig)
        ensures
            final(self).cfg == cfg,
            final(self).edge == old(self).edge,
            final(self).suspended == old(self).suspended,
            final(self).generation == old(self).generation,
    {
        self.cfg = cfg;
    }

    /// A raw edge of the chord at `now_ms`: run the reducer (unless suspended) and
    /// return the intent to emit, if any.
    pub fn on_edge(&mut self, pressed: bool, now_ms: u64) -> (i: Option<DictationIntent>)
        ensures
            old(self).suspended ==> i is None && final(self).edge == old(self).edge,
            !old(self).suspended ==> (final(self).edge, i) == reduce_spec(
                old(self).edge,
                if pressed {
                    RawEdge::Pressed
                } else {
                    RawEdge::Released
                },
                old(self).cfg.mode,
                now_ms,
                DEBOUNCE_MS,
            ),
            final(self).cfg == old(self).cfg,
            final(self).suspended == old(self).suspended,
            final(self).generation == old(self).generation,
    {
        if self.suspended {
            return None;
        }
        let edge = if pressed {
            RawEdge::Pressed
        } else {
            RawEdge::Released
        };
        let (next, intent) = reduce(self.edge, edge, self.cfg.mode, now_ms, DEBOUNCE_MS);
        self.edge = next;
        intent
    }

    /// A session ended (Stop or Cancel): bump the generation, disarming any watchdog.
    pub fn end_session(&mut self)
        ensures
            final(self).generation == next_generation(old(self).generation),
            final(self).edge == old(self).edge,
            final(self).cfg == old(self).cfg,
            final(self).suspended == old(self).suspended,
    {
        self.generation = bump(self.generation);
    }

    /// Escape during a session: reset the reducer and bump the generation; the caller
    /// emits Cancel.
    pub fn cancel_from_escape(&mut self)
        ensures
            final(self).generation == next_generation(old(self).generation),
            final(self).edge == (EdgeState { active: false, held: false, last_edge_ms: None }),
            final(self).cfg == old(self).cfg,
            final(self).suspended == old(self).suspended,
    {
        self.generation = bump(self.generation);
        self.edge = EdgeState { active: false, held: false, last_edge_ms: None };
    }

    /// A missing-release watchdog armed at generation `armed` expired: it forces a Stop
    /// only if no edge ended the session meanwhile and the session is still active; it
    /// then resets the reducer and bumps the generation.
    pub fn watchdog_expired(&mut self, armed: u64) -> (force_stop: bool)
        ensures
            force_stop == (old(self).generation == armed && old(self).edge.active),
            force_stop ==> final(self).edge == (EdgeState { active: false, held: false, last_edge_ms: None })
                && final(self).generation == next_generation(old(self).generation),
            !force_stop ==> final(self).edge == old(self).edge && final(self).generation == old(self).generation,
            final(self).cfg == old(self).cfg,
            final(self).suspended == old(self).suspended,
    {
        if self.generation != armed {
            return false;
        }
        if !self.edge.active {
            return false;
        }
        self.edge = EdgeState { active: false, held: false, last_edge_ms: None };
        self.generation = bump(self.generation);
        true
    }

    /// A new chord was registered with the OS: make it active, reset the reducer and
    /// resume handling.
    pub fn accept_registration(&mut self, cfg: HotkeyConfig)
        ensures
            final(self).cfg == cfg,
            final(self).edge == (EdgeState { active: false, held: false, last_edge_ms: None }),
            !final(self).suspended,
            final(self).generation == old(self).generation,
    {
        self.cfg = cfg;
        self.edge = EdgeState { active: false, held: false, last_edge_ms: None };
        self.suspended = false;
    }

    /// The chord was unregistered: stop handling edges and reset the reducer.
    pub fn suspend(&mut self)
        ensures
            final(self).suspended,
            final(self).edge == (EdgeState { active: false, held: false, last_edge_ms: None }),
            final(self).cfg == old(self).cfg,
            final(self).generation == old(self).generation,
    {
        self.suspended = true;
        self.edge = EdgeState { active: false, held: false, last_edge_ms: None };
    }

    /// A fresh OS registration invalidates any in-flight hold: reset the reducer.
    pub fn reset_edge(&mut self)
        ensures
            final(self).edge == (EdgeState { active: false, held: false, last_edge_ms: None }),
            final(self).cfg == old(self).cfg,
            final(self).suspended == old(self).suspended,
            final(self).generation == old(self).generation,
    {
        self.edge = EdgeState { active: false, held: false, last_edge_ms: None };
    }

    /// Self-healing re-registration: the chord to re-claim with the OS, if any. An
    /// invalid chord is left alone; a polled chord needs no OS registration, so only
    /// the reducer is reset. After a successful re-claim the caller resets the edge.
    pub fn prepare_reregister(&mut self) -> (r: Option<Accel>)
        ensures
            match parse_accel_spec(old(self).cfg.accelerator@) {
                Err(_) => r is None && final(self).edge == old(self).edge,
                Ok(a) => if a.0.sup || a.1 is None {
                    r is None && final(self).edge == (EdgeState {
                        active: false,
                        held: false,
                        last_edge_ms: None,
                    })
                } else {
                    r is Some && accel_view(r->0) == a && final(self).edge == old(self).edge
                },
            },
            final(self).cfg == old(self).cfg,
            final(self).suspended == old(self).suspended,
            final(self).generation == old(self).generation,
    {
        let accel = match parse_accelerator(self.cfg.accelerator.as_str()) {
            Ok(a) => a,
            Err(_) => {
                return None;
            },
        };
        if should_poll_accel(&accel) {
            self.edge = EdgeState { active: false, held: false, last_edge_ms: None };
            return None;
        }
        Some(accel)
    }
}

/// The W3C key-code name the shortcut plugin knows a canonical key by: `Key` plus the
/// uppercase letter, `Digit` plus the digit, `Arrow…` for the arrows, else the key.
pub open spec fn key_code_name_spec(k: Seq<char>) -> Seq<char> {
    if k.len() == 1 && is_ascii_char(k[0]) && ascii_letter(k[0]) {
        "Key"@ + seq![ascii_upper_of(k[0])]
    } else if k.len() == 1 && is_ascii_char(k[0]) && ascii_digit(k[0]) {
        "Digit"@ + k
    } else if k == "Up"@ {
        "ArrowUp"@
    } else if k == "Down"@ {
        "ArrowDown"@
    } else if k == "Left"@ {
        "ArrowLeft"@
    } else if k == "Right"@ {
        "ArrowRight"@
    } else {
        k
    }
}

/// The key-code name for a canonical key (see `key_code_name_spec`).
pub fn key_code_name(key: &str) -> (r: String)
    ensures
        r@ == key_code_name_spec(key@),
{
    let k = chars_of(key);
    if k.len() == 1 {
        let c = k[0];
        let u = c as u32;
        if u < 128 && ((65 <= u && u <= 90) || (97 <= u && u <= 122)) {
            let up: u32 = if 97 <= u {
                u - 32
            } else {
                u
            };
            let uc = (up as u8) as char;
            proof {
                vstd::utf8::char_u32_cast(uc, up);
                reveal_strlit("Key");
            }
            let mut out = chars_of("Key");
            out.push(uc);
            proof {
                assert(uc == ascii_upper_of(c));
                assert(out@ =~= "Key"@ + seq![ascii_upper_of(k@[0])]);
            }
            return string_of(out.as_slice());
        }
        if u < 128 && 48 <= u && u <= 57 {
            let mut out = chars_of("Digit");
            out.push(c);
            proof {
                assert(out@ =~= "Digit"@ + k@);
            }
            return string_of(out.as_slice());
        }
    }
    let s = k.as_slice();
    if is_lit(s, "Up") {
        return String::from_str("ArrowUp");
    }
    if is_lit(s, "Down") {
        return String::from_str("ArrowDown");
    }
    if is_lit(s, "Left") {
        return String::from_str("ArrowLeft");
    }
    if is_lit(s, "Right") {
        return String::from_str("ArrowRight");
    }
    String::from_str(key)
}


pub open spec fn registration_spec(accelerator: Seq<char>) -> Result<AccelV, Seq<char>> {
    match parse_accel_spec(accelerator) {
        Err(e) => Err(e),
        Ok(a) => if is_reserved_spec(a) {
            Err("hotkey already in use by the system or another app: "@ + accelerator)
        } else {
            Ok(a)
        },
    }
}

/// Whether a config's chord may be registered: it must parse and not be reserved by
/// the system.
pub fn check_registrable(cfg: &HotkeyConfig) -> (r: Result<Accel, String>)
    ensures
        parse_view(r) == registration_spec(cfg.accelerator@),
{
    let a = parse_accelerator(cfg.accelerator.as_str());
    match a {
        Err(e) => Err(e),
        Ok(accel) => {
            if is_reserved(&accel) {
                let mut out = chars_of("hotkey already in use by the system or another app: ");
                let ac = chars_of(cfg.accelerator.as_str());
                append_chars(&mut out, ac.as_slice());
                Err(string_of(out.as_slice()))
            } else {
                Ok(accel)
            }
        },
    }
}

// ─────────────────────────────────────────────────────────────────────────────
// Round trip: parse(to_canonical(a)) == a
// ─────────────────────────────────────────────────────────────────────────────

/// The canonical display forms a parsed key can take.
pub open spec fn key_form(k: Seq<char>) -> bool {
    ||| (k.len() == 1 && ascii_upper_letter(k[0]))
    ||| (k.len() == 1 && ascii_digit(k[0]))
    ||| k == "Space"@
    ||| k == "Tab"@
    ||| k == "Enter"@
    ||| k == "Escape"@
    ||| k == "Delete"@
    ||| k == "Up"@
    ||| k == "Down"@
    ||| k == "Left"@
    ||| k == "Right"@
    ||| exists|n: nat| 1 <= n <= 24 && k == seq!['F'] + decimal(n)
}

pub open spec fn no_ws(s: Seq<char>) -> bool {
    forall|k: int| 0 <= k < s.len() ==> !#[trigger] crate::text::whitespace(s[k])
}

proof fn lemma_trim_noop(s: Seq<char>)
    requires
        no_ws(s),
    ensures
        trim(s) == s,
{
    if s.len() > 0 {
        assert(!crate::text::whitespace(s[0]));
        assert(!crate::text::whitespace(s[s.len() - 1]));
        assert(crate::text::lead_from(s, 0) == 0);
        assert(crate::text::trail_from(s, s.len() as int) == s.len());
        assert(s.subrange(0, s.len() as int) =~= s);
    } else {
        assert(trim(s) =~= s);
    }
}

proof fn lemma_digits_value_decimal(n: nat)
    ensures
        digits_value(decimal(n)) == n,
    decreases n,
{
    if n >= 10 {
        lemma_digits_value_decimal(n / 10);
        let d = decimal(n);
        assert(d.drop_last() =~= decimal(n / 10));
        assert(d.last() == crate::text::digit_char(n % 10));
        let x: u32 = (48 + n % 10) as u32;
        assert((x as char) as u32 == x);
        assert(((d.last() as u32) - 48) as nat == n % 10);
        assert(digits_value(d) == digits_value(decimal(n / 10)) * 10 + n % 10);
    } else {
        let x: u32 = (48 + n % 10) as u32;
        assert((x as char) as u32 == x);
        let d = decimal(n);
        assert(d.drop_last() =~= Seq::<char>::empty());
        assert(d.last() == (x as char));
        assert(digits_value(d) == digits_value(d.drop_last()) * 10 + ((d.last() as u32) - 48) as nat);
        assert(digits_value(Seq::<char>::empty()) == 0);
    }
}

proof fn lemma_parse_u8_decimal(n: nat)
    requires
        n <= 255,
    ensures
        parse_u8_spec(decimal(n)) == Some(n),
{
    crate::text::lemma_decimal_no_dash(n);
    lemma_digits_value_decimal(n);
    let d = decimal(n);
    assert(ascii_digit(d[0]));
    assert(all_digits(d));
}

/// Lowercasing a canonical key and canonicalizing it gives the key back; the key is
/// free of whitespace and `+`, and it names no modifier.
proof fn lemma_key_form_round_trip(k: Seq<char>)
    requires
        key_form(k),
    ensures
        k.len() > 0,
        no_ws(k),
        !k.contains('+'),
        lowercase_of(k).len() > 0,
        lowercase_of(k) != "fn"@,
        modifier_of(lowercase_of(k)) is None,
        canon_key_spec(lowercase_of(k)) == Some(k),
{
    reveal_strlit("ctrl");
    reveal_strlit("control");
    reveal_strlit("alt");
    reveal_strlit("option");
    reveal_strlit("shift");
    reveal_strlit("super");
    reveal_strlit("win");
    reveal_strlit("windows");
    reveal_strlit("meta");
    reveal_strlit("cmd");
    reveal_strlit("command");
    reveal_strlit("fn");
    reveal_strlit("space");
    reveal_strlit("tab");
    reveal_strlit("enter");
    reveal_strlit("return");
    reveal_strlit("esc");
    reveal_strlit("escape");
    reveal_strlit("del");
    reveal_strlit("delete");
    reveal_strlit("up");
    reveal_strlit("down");
    reveal_strlit("left");
    reveal_strlit("right");
    reveal_strlit("Space");
    reveal_strlit("Tab");
    reveal_strlit("Enter");
    reveal_strlit("Escape");
    reveal_strlit("Delete");
    reveal_strlit("Up");
    reveal_strlit("Down");
    reveal_strlit("Left");
    reveal_strlit("Right");
    if k.len() == 1 && ascii_upper_letter(k[0]) {
        assert(all_ascii(k));
        let t = lowercase_of(k);
        assert(t =~= seq![crate::text::ascii_lower_of(k[0])]);
        let u: u32 = k[0] as u32;
        assert(((u + 32) as char) as u32 == u + 32);
        assert(((u as char) as u32) == u);
        assert(crate::text::ascii_lower_of(k[0]) == ((u + 32) as char));
        assert(ascii_upper_of(crate::text::ascii_lower_of(k[0])) == (u as char));
        vstd::utf8::char_u32_cast(k[0], u);
        assert(ascii_upper_of(crate::text::ascii_lower_of(k[0])) == k[0]);
        assert(canon_key_spec(t) == Some(seq![ascii_upper_of(t[0])]));
        assert(seq![ascii_upper_of(t[0])] =~= k);
    } else if k.len() == 1 && ascii_digit(k[0]) {
        assert(all_ascii(k));
        assert(lowercase_of(k) =~= k);
    } else if exists|n: nat| 1 <= n <= 24 && k == seq!['F'] + decimal(n) {
        let n = choose|n: nat| 1 <= n <= 24 && k == seq!['F'] + decimal(n);
        crate::text::lemma_decimal_no_dash(n);
        let d = decimal(n);
        assert forall|j: int| 0 <= j < k.len() implies is_ascii_char(#[trigger] k[j]) && !(k[j] == '+')
            && !crate::text::whitespace(k[j]) && (j > 0 ==> ascii_digit(k[j])) by {
            if j > 0 {
                assert(k[j] == d[j - 1]);
            }
        }
        assert(all_ascii(k));
        let t = lowercase_of(k);
        assert(t =~= seq!['f'] + d) by {
            assert forall|j: int| 0 <= j < t.len() implies t[j] == (seq!['f'] + d)[j] by {
                if j > 0 {
                    assert(k[j] == d[j - 1]);
                    assert(ascii_digit(d[j - 1]));
                }
            }
        }
        assert(t.drop_first() =~= d);
        lemma_parse_u8_decimal(n);
        assert(canon_function_key_spec(t) == Some(seq!['F'] + d));
        assert(t[0] == 'f');
        assert(t.len() >= 2);
        assert(t != "fn"@) by {
            assert(ascii_digit(t[1]));
        }
    } else {
        assert(all_ascii(k));
        let t = lowercase_of(k);
        if k == "Space"@ {
            assert(t =~= "space"@);
        } else if k == "Tab"@ {
            assert(t =~= "tab"@);
        } else if k == "Enter"@ {
            assert(t =~= "enter"@);
        } else if k == "Escape"@ {
            assert(t =~= "escape"@);
        } else if k == "Delete"@ {
            assert(t =~= "delete"@);
        } else if k == "Up"@ {
            assert(t =~= "up"@);
        } else if k == "Down"@ {
            assert(t =~= "down"@);
        } else if k == "Left"@ {
            assert(t =~= "left"@);
        } else {
            assert(t =~= "right"@);
        }
    }
}

/// Every key the parser produces is in canonical form.
proof fn lemma_canon_key_form(t: Seq<char>)
    requires
        canon_key_spec(t) is Some,
    ensures
        key_form(canon_key_spec(t)->0),
{
    let c = canon_key_spec(t)->0;
    if t.len() == 1 && is_ascii_char(t[0]) && ascii_letter(t[0]) {
        let u = t[0] as u32;
        if crate::text::ascii_lower_letter(t[0]) {
            assert(((u - 32) as char) as u32 == u - 32);
        } else {
            vstd::utf8::char_u32_cast(t[0], u);
        }
        assert(ascii_upper_letter(c[0]));
    } else if t.len() == 1 && is_ascii_char(t[0]) && ascii_digit(t[0]) {
    } else if t == "space"@ || t == "tab"@ || t == "enter"@ || t == "return"@ || t == "esc"@ || t
        == "escape"@ || t == "del"@ || t == "delete"@ || t == "up"@ || t == "down"@ || t == "left"@
        || t == "right"@ {
    } else {
        let n = parse_u8_spec(t.drop_first())->0;
        assert(1 <= n <= 24 && c == seq!['F'] + decimal(n));
    }
}

/// A successful parse has a modifier, and its key (if any) is in canonical form.
proof fn lemma_parse_from_result(
    parts: Seq<Seq<char>>,
    i: int,
    mods: Mods,
    key: Option<Seq<char>>,
    input: Seq<char>,
)
    requires
        0 <= i,
        key is Some ==> key_form(key->0),
        parse_from(parts, i, mods, key, input) is Ok,
    ensures
        !mods_empty(parse_from(parts, i, mods, key, input)->Ok_0.0),
        parse_from(parts, i, mods, key, input)->Ok_0.1 is Some ==> key_form(
            parse_from(parts, i, mods, key, input)->Ok_0.1->0,
        ),
    decreases parts.len() - i,
{
    if i < parts.len() {
        let t = norm_token(parts[i]);
        if t.len() == 0 {
            lemma_parse_from_result(parts, i + 1, mods, key, input);
        } else if t == "fn"@ {
        } else if modifier_of(t) is Some {
            lemma_parse_from_result(parts, i + 1, set_modifier(mods, modifier_of(t)->0), key, input);
        } else {
            lemma_canon_key_form(t);
            lemma_parse_from_result(parts, i + 1, mods, Some(canon_key_spec(t)->0), input);
        }
    }
}

proof fn lemma_next_index_prefix(x: Seq<char>, y: Seq<char>, c: char, i: int)
    requires
        0 <= i <= x.len(),
    ensures
        next_index_of(x + seq![c] + y, c, i) == next_index_of(x, c, i),
    decreases x.len() - i,
{
    let s = x + seq![c] + y;
    if i < x.len() {
        assert(s[i] == x[i]);
        if x[i] != c {
            lemma_next_index_prefix(x, y, c, i + 1);
        }
    } else {
        assert(s[i] == c);
    }
}

proof fn lemma_split_whole(s: Seq<char>, c: char, i: int)
    requires
        0 <= i <= s.len(),
        forall|k: int| i <= k < s.len() ==> s[k] != c,
    ensures
        split_from(s, c, i) == seq![s.subrange(i, s.len() as int)],
{
    lemma_next_index_bounds(s, c, i);
}

proof fn lemma_split_from_append(x: Seq<char>, y: Seq<char>, c: char, i: int)
    requires
        0 <= i <= x.len(),
        !y.contains(c),
    ensures
        split_from(x + seq![c] + y, c, i) == split_from(x, c, i) + seq![y],
    decreases x.len() + 1 - i,
{
    let s = x + seq![c] + y;
    lemma_next_index_prefix(x, y, c, i);
    lemma_next_index_bounds(x, c, i);
    let e = next_index_of(x, c, i);
    assert forall|k: int| x.len() + 1 <= k < s.len() implies s[k] != c by {
        assert(s[k] == y[k - x.len() - 1]);
    }
    lemma_split_whole(s, c, x.len() + 1int);
    assert(s.subrange(x.len() + 1int, s.len() as int) =~= y);
    assert(s.subrange(i, e) =~= x.subrange(i, e));
    if e >= x.len() {
        assert(split_from(x, c, i) == seq![x.subrange(i, x.len() as int)]);
        assert(split_from(s, c, i) == seq![s.subrange(i, e)] + split_from(s, c, e + 1));
    } else {
        lemma_split_from_append(x, y, c, e + 1);
        assert(split_from(x, c, i) == seq![x.subrange(i, e)] + split_from(x, c, e + 1));
        assert(split_from(s, c, i) == seq![s.subrange(i, e)] + split_from(s, c, e + 1));
        assert(seq![x.subrange(i, e)] + (split_from(x, c, e + 1) + seq![y]) =~= (seq![x.subrange(i, e)]
            + split_from(x, c, e + 1)) + seq![y]);
    }
}

/// Splitting a `+`-joined list on `+` gives the list back when no piece holds `+`.
proof fn lemma_split_join_plus(ps: Seq<Seq<char>>)
    requires
        ps.len() >= 1,
        forall|k: int| 0 <= k < ps.len() ==> !(#[trigger] ps[k]).contains('+'),
    ensures
        split_on(join(ps, seq!['+']), '+') == ps,
    decreases ps.len(),
{
    if ps.len() == 1 {
        let p = ps[0];
        assert(join(ps, seq!['+']) == p);
        assert forall|k: int| 0 <= k < p.len() implies p[k] != '+' by {
            if p[k] == '+' {
                assert(p.contains('+'));
            }
        }
        lemma_split_whole(p, '+', 0);
        assert(p.subrange(0, p.len() as int) =~= p);
        assert(seq![p] =~= ps);
    } else {
        let init = ps.drop_last();
        assert forall|k: int| 0 <= k < init.len() implies !(#[trigger] init[k]).contains('+') by {
            assert(init[k] == ps[k]);
        }
        lemma_split_join_plus(init);
        let x = join(init, seq!['+']);
        let y = ps.last();
        assert(!ps[ps.len() - 1].contains('+'));
        assert(join(ps, seq!['+']) == x + seq!['+'] + y);
        lemma_split_from_append(x, y, '+', 0);
        assert(init + seq![y] =~= ps);
    }
}

proof fn lemma_join_no_ws(ps: Seq<Seq<char>>, sep: Seq<char>)
    requires
        no_ws(sep),
        forall|k: int| 0 <= k < ps.len() ==> no_ws(#[trigger] ps[k]),
    ensures
        no_ws(join(ps, sep)),
    decreases ps.len(),
{
    if ps.len() == 1 {
        assert(no_ws(ps[0]));
    } else if ps.len() > 1 {
        let init = ps.drop_last();
        assert forall|k: int| 0 <= k < init.len() implies no_ws(#[trigger] init[k]) by {
            assert(init[k] == ps[k]);
        }
        lemma_join_no_ws(init, sep);
        let a = join(init, sep);
        let l = ps.last();
        assert(no_ws(l));
        assert forall|k: int| 0 <= k < join(ps, sep).len() implies !#[trigger] crate::text::whitespace(
            join(ps, sep)[k],
        ) by {
            let j = join(ps, sep);
            assert(j == a + sep + l);
            if k < a.len() {
                assert(j[k] == a[k]);
            } else if k < a.len() + sep.len() {
                assert(j[k] == sep[k - a.len()]);
            } else {
                assert(j[k] == l[k - a.len() - sep.len()]);
            }
        }
    }
}

pub open spec fn is_mod_lit(l: Seq<char>) -> bool {
    l == "Ctrl"@ || l == "Alt"@ || l == "Shift"@ || l == "Super"@
}

pub open spec fn mod_index(l: Seq<char>) -> int {
    if l == "Ctrl"@ {
        0
    } else if l == "Alt"@ {
        1
    } else if l == "Shift"@ {
        2
    } else {
        3
    }
}

/// The modifiers after setting, in order, the bit each literal in `ms[i..]` names.
pub open spec fn fold_mods(m: Mods, ms: Seq<Seq<char>>, i: int) -> Mods
    decreases ms.len() - i,
{
    if i < 0 || i >= ms.len() {
        m
    } else {
        fold_mods(set_modifier(m, mod_index(ms[i])), ms, i + 1)
    }
}

/// A canonical modifier literal parses as its modifier and holds no whitespace or `+`.
proof fn lemma_mod_lit(l: Seq<char>)
    requires
        is_mod_lit(l),
    ensures
        l.len() > 0,
        no_ws(l),
        !l.contains('+'),
        norm_token(l).len() > 0,
        norm_token(l) != "fn"@,
        modifier_of(norm_token(l)) == Some(mod_index(l)),
{
    reveal_strlit("Ctrl");
    reveal_strlit("Alt");
    reveal_strlit("Shift");
    reveal_strlit("Super");
    reveal_strlit("ctrl");
    reveal_strlit("alt");
    reveal_strlit("shift");
    reveal_strlit("super");
    reveal_strlit("control");
    reveal_strlit("option");
    reveal_strlit("fn");
    assert("super"@ != "shift"@) by {
        assert("super"@[1] != "shift"@[1]);
    }
    assert("Super"@ != "Shift"@) by {
        assert("Super"@[1] != "Shift"@[1]);
    }
    assert(all_ascii(l));
    assert(no_ws(l));
    lemma_trim_noop(l);
    if l == "Ctrl"@ {
        assert(lowercase_of(l) =~= "ctrl"@);
    } else if l == "Alt"@ {
        assert(lowercase_of(l) =~= "alt"@);
    } else if l == "Shift"@ {
        assert(lowercase_of(l) =~= "shift"@);
    } else {
        assert(lowercase_of(l) =~= "super"@);
    }
}

/// Parsing a run of modifier literals sets their bits and moves past them.
proof fn lemma_parse_mods(ms: Seq<Seq<char>>, ks: Seq<Seq<char>>, i: int, m: Mods, key: Option<Seq<char>>, input: Seq<char>)
    requires
        0 <= i <= ms.len(),
        forall|j: int| 0 <= j < ms.len() ==> is_mod_lit(#[trigger] ms[j]),
    ensures
        parse_from(ms + ks, i, m, key, input) == parse_from(ms + ks, ms.len() as int, fold_mods(m, ms, i), key, input),
    decreases ms.len() - i,
{
    if i < ms.len() {
        let parts = ms + ks;
        assert(parts[i] == ms[i]);
        assert(is_mod_lit(ms[i]));
        lemma_mod_lit(ms[i]);
        lemma_parse_mods(ms, ks, i + 1, set_modifier(m, mod_index(ms[i])), key, input);
    }
}

proof fn lemma_fold_concat(m: Mods, a: Seq<Seq<char>>, b: Seq<Seq<char>>, i: int)
    requires
        0 <= i <= a.len(),
    ensures
        fold_mods(m, a + b, i) == fold_mods(fold_mods(m, a, i), b, 0),
    decreases a.len() - i,
{
    if i < a.len() {
        assert((a + b)[i] == a[i]);
        lemma_fold_concat(set_modifier(m, mod_index(a[i])), a, b, i + 1);
    } else {
        lemma_fold_shift(m, a, b, 0);
    }
}

proof fn lemma_fold_shift(m: Mods, a: Seq<Seq<char>>, b: Seq<Seq<char>>, j: int)
    requires
        0 <= j <= b.len(),
    ensures
        fold_mods(m, a + b, a.len() + j) == fold_mods(m, b, j),
    decreases b.len() - j,
{
    if j < b.len() {
        assert((a + b)[a.len() + j] == b[j]);
        lemma_fold_shift(set_modifier(m, mod_index(b[j])), a, b, j + 1);
    }
}

proof fn lemma_fold_opt(m: Mods, b: bool, l: Seq<char>)
    ensures
        fold_mods(m, opt_part(b, l), 0) == if b {
            set_modifier(m, mod_index(l))
        } else {
            m
        },
{
    if b {
        assert(opt_part(b, l)[0] == l);
        assert(fold_mods(set_modifier(m, mod_index(l)), opt_part(b, l), 1) == set_modifier(m, mod_index(l)));
    }
}

proof fn lemma_join_nonempty(ps: Seq<Seq<char>>, sep: Seq<char>)
    requires
        ps.len() >= 1,
        ps[0].len() >= 1,
    ensures
        join(ps, sep).len() >= 1,
    decreases ps.len(),
{
    if ps.len() > 1 {
        assert(ps.drop_last()[0] == ps[0]);
        lemma_join_nonempty(ps.drop_last(), sep);
    }
}

pub open spec fn mod_parts(m: Mods) -> Seq<Seq<char>> {
    opt_part(m.ctrl, "Ctrl"@) + opt_part(m.alt, "Alt"@) + opt_part(m.shift, "Shift"@) + opt_part(
        m.sup,
        "Super"@,
    )
}

proof fn lemma_mod_parts(m: Mods)
    ensures
        forall|j: int| 0 <= j < mod_parts(m).len() ==> is_mod_lit(#[trigger] mod_parts(m)[j]),
        !mods_empty(m) ==> mod_parts(m).len() >= 1,
{
    let m1 = opt_part(m.ctrl, "Ctrl"@);
    let m2 = m1 + opt_part(m.alt, "Alt"@);
    let m3 = m2 + opt_part(m.shift, "Shift"@);
    assert forall|j: int| 0 <= j < mod_parts(m).len() implies is_mod_lit(#[trigger] mod_parts(m)[j]) by {
        if j < m1.len() {
        } else if j < m2.len() {
        } else if j < m3.len() {
        } else {
        }
    }
}

proof fn lemma_fold_canonical(m: Mods)
    ensures
        fold_mods(no_mods(), mod_parts(m), 0) == m,
{
    reveal_strlit("Ctrl");
    reveal_strlit("Alt");
    reveal_strlit("Shift");
    reveal_strlit("Super");
    assert("Super"@ != "Shift"@) by {
        assert("Super"@[1] != "Shift"@[1]);
    }
    let m1 = opt_part(m.ctrl, "Ctrl"@);
    let m2 = opt_part(m.alt, "Alt"@);
    let m3 = opt_part(m.shift, "Shift"@);
    let m4 = opt_part(m.sup, "Super"@);
    lemma_fold_concat(no_mods(), m1 + m2 + m3, m4, 0);
    lemma_fold_concat(no_mods(), m1 + m2, m3, 0);
    lemma_fold_concat(no_mods(), m1, m2, 0);
    lemma_fold_opt(no_mods(), m.ctrl, "Ctrl"@);
    lemma_fold_opt(fold_mods(no_mods(), m1, 0), m.alt, "Alt"@);
    lemma_fold_opt(fold_mods(no_mods(), m1 + m2, 0), m.shift, "Shift"@);
    lemma_fold_opt(fold_mods(no_mods(), m1 + m2 + m3, 0), m.sup, "Super"@);
    assert("Alt"@.len() == 3 && "Ctrl"@.len() == 4 && "Shift"@.len() == 5 && "Super"@.len() == 5);
    assert("Alt"@ != "Ctrl"@);
    assert("Shift"@ != "Ctrl"@ && "Shift"@ != "Alt"@);
    assert("Super"@ != "Ctrl"@ && "Super"@ != "Alt"@);
    assert(mod_index("Ctrl"@) == 0);
    assert(mod_index("Alt"@) == 1);
    assert(mod_index("Shift"@) == 2);
    assert(mod_index("Super"@) == 3);
    let f1 = fold_mods(no_mods(), m1, 0);
    assert(f1 == Mods { ctrl: m.ctrl, alt: false, shift: false, sup: false });
    let f2 = fold_mods(no_mods(), m1 + m2, 0);
    assert(f2 == Mods { ctrl: m.ctrl, alt: m.alt, shift: false, sup: false });
    let f3 = fold_mods(no_mods(), m1 + m2 + m3, 0);
    assert(f3 == Mods { ctrl: m.ctrl, alt: m.alt, shift: m.shift, sup: false });
    assert(mod_parts(m) == m1 + m2 + m3 + m4);
}

pub open spec fn key_parts(k: Option<Seq<char>>) -> Seq<Seq<char>> {
    match k {
        Some(x) => seq![x],
        None => Seq::empty(),
    }
}

/// The canonical string is the `+`-join of clean, non-empty pieces.
proof fn lemma_canonical_shape(a: AccelV)
    requires
        !mods_empty(a.0),
        a.1 is Some ==> key_form(a.1->0),
    ensures
        canonical_parts(a) == mod_parts(a.0) + key_parts(a.1),
        trim(canonical_spec(a)) == canonical_spec(a),
        canonical_spec(a).len() >= 1,
        split_on(canonical_spec(a), '+') == canonical_parts(a),
{
    reveal_strlit("+");
    let parts = mod_parts(a.0) + key_parts(a.1);
    assert(parts =~= canonical_parts(a));
    lemma_mod_parts(a.0);
    let ms = mod_parts(a.0);
    let ks = key_parts(a.1);
    if a.1 is Some {
        lemma_key_form_round_trip(a.1->0);
    }
    assert forall|j: int| 0 <= j < parts.len() implies no_ws(#[trigger] parts[j]) && !parts[j].contains('+')
        && parts[j].len() > 0 by {
        if j < ms.len() {
            assert(parts[j] == ms[j]);
            lemma_mod_lit(ms[j]);
        } else {
            assert(parts[j] == ks[j - ms.len()]);
        }
    }
    let sep: Seq<char> = seq!['+'];
    assert("+"@ =~= sep);
    lemma_join_no_ws(parts, sep);
    lemma_trim_noop(join(parts, sep));
    lemma_join_nonempty(parts, sep);
    lemma_split_join_plus(parts);
}

/// The canonical form of any accelerator with a modifier and a canonical key (if
/// any) parses back to that accelerator.
pub proof fn lemma_canonical_parses_back(a: AccelV)
    requires
        !mods_empty(a.0),
        a.1 is Some ==> key_form(a.1->0),
    ensures
        parse_accel_spec(canonical_spec(a)) == Ok::<AccelV, Seq<char>>(a),
{
    lemma_canonical_shape(a);
    lemma_mod_parts(a.0);
    lemma_fold_canonical(a.0);
    let canon = canonical_spec(a);
    let ms = mod_parts(a.0);
    let ks = key_parts(a.1);
    let parts = ms + ks;
    lemma_parse_mods(ms, ks, 0, no_mods(), None, canon);
    match a.1 {
        Some(k) => {
            lemma_key_form_round_trip(k);
            assert(parts[ms.len() as int] == k);
            lemma_trim_noop(k);
            assert(norm_token(k) == lowercase_of(k));
            assert(parse_from(parts, ms.len() as int, a.0, None, canon) == parse_from(
                parts,
                ms.len() + 1int,
                a.0,
                Some(k),
                canon,
            ));
        },
        None => {
            assert(parts.len() == ms.len());
        },
    }
}

/// Parsing the canonical form of a parsed accelerator gives the same accelerator:
/// `parse_accelerator(to_canonical(a)) == a` for every `a` the parser produces.
pub proof fn lemma_canonical_round_trip(input: Seq<char>)
    requires
        parse_accel_spec(input) is Ok,
    ensures
        parse_accel_spec(canonical_spec(parse_accel_spec(input)->Ok_0)) == parse_accel_spec(input),
{
    let t = trim(input);
    lemma_parse_from_result(split_on(t, '+'), 0, no_mods(), None, input);
    lemma_canonical_parses_back(parse_accel_spec(input)->Ok_0);
}


proof fn lemma_parse_from_errors(
    parts: Seq<Seq<char>>,
    i: int,
    mods: Mods,
    key: Option<Seq<char>>,
    input: Seq<char>,
)
    requires
        parse_from(parts, i, mods, key, input) is Err,
    ensures
        parse_from(parts, i, mods, key, input)->Err_0.len() >= 20,
    decreases parts.len() - i,
{
    reveal_strlit("hotkey must include a modifier");
    reveal_strlit("Fn key is not hookable");
    reveal_strlit("unparseable hotkey: ");
    if 0 <= i < parts.len() {
        let t = norm_token(parts[i]);
        if t.len() == 0 {
            lemma_parse_from_errors(parts, i + 1, mods, key, input);
        } else if t == "fn"@ {
        } else if modifier_of(t) is Some {
            lemma_parse_from_errors(parts, i + 1, set_modifier(mods, modifier_of(t)->0), key, input);
        } else {
            match canon_key_spec(t) {
                None => {},
                Some(c) => if key is None {
                    lemma_parse_from_errors(parts, i + 1, mods, Some(c), input);
                },
            }
        }
    }
}

/// A successful parse has at least one modifier, and its key, if any, is one of
/// `A`..`Z`, `0`..`9`, `Space`, `Tab`, `Enter`, `Escape`, `Delete`, `Up`, `Down`,
/// `Left`, `Right` or `F1`..`F24`; the error is "empty hotkey" exactly when the input
/// is blank.
pub proof fn lemma_parse_accelerator_shape(input: Seq<char>)
    ensures
        parse_accel_spec(input) is Ok ==> !mods_empty(parse_accel_spec(input)->Ok_0.0),
        parse_accel_spec(input) is Ok && parse_accel_spec(input)->Ok_0.1 is Some ==> key_form(
            parse_accel_spec(input)->Ok_0.1->0,
        ),
        (parse_accel_spec(input) == Err::<AccelV, Seq<char>>("empty hotkey"@)) <==> trim(input).len()
            == 0,
{
    reveal_strlit("empty hotkey");
    let t = trim(input);
    if t.len() != 0 {
        let r = parse_from(split_on(t, '+'), 0, no_mods(), None, input);
        if r is Ok {
            lemma_parse_from_result(split_on(t, '+'), 0, no_mods(), None, input);
        } else {
            lemma_parse_from_errors(split_on(t, '+'), 0, no_mods(), None, input);
        }
    }
}


/// The reserved chords are exactly Win+L, Alt+Tab, Win+Tab, Win+D and
/// Ctrl+Alt+Delete, each with exactly those modifiers.
pub proof fn lemma_reserved_table(a: AccelV)
    ensures
        is_reserved_spec(a) <==> {
            let win = Mods { ctrl: false, alt: false, shift: false, sup: true };
            let alt = Mods { ctrl: false, alt: true, shift: false, sup: false };
            let ctrl_alt = Mods { ctrl: true, alt: true, shift: false, sup: false };
            ||| a == (win, Some("L"@))
            ||| a == (alt, Some("Tab"@))
            ||| a == (win, Some("Tab"@))
            ||| a == (win, Some("D"@))
            ||| a == (ctrl_alt, Some("Delete"@))
        },
{
}

} // verus!
