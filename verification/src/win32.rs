//! Foreground-window queries used by injection. This build has no Windows foreground
//! window to inspect, so the queries answer as a non-Windows desktop does: no process
//! name, not elevated, and a window is assumed to have focus. What the Windows probes
//! compute from their raw readings (the process name from an image path, and when an
//! elevated target blocks keystrokes) is here too.

use vstd::prelude::*;

use crate::text::{chars_of, ends_with, lowercase_of, string_of, to_lowercase};

verus! {

/// The focused application's executable stem; none where it cannot be known.
pub fn foreground_process_name() -> (r: Option<String>)
    ensures
        r is None,
{
    None
}

/// Whether the focused window runs elevated above this process; never here.
pub fn is_foreground_elevated() -> (b: bool)
    ensures
        !b,
{
    false
}

/// Whether some window has focus; assumed so here.
pub fn has_foreground_window() -> (b: bool)
    ensures
        b,
{
    true
}

/// The index just past the last path separator (`\\` or `/`) before `i`, or 0.
pub open spec fn after_last_sep(p: Seq<char>, i: int) -> int
    decreases i,
{
    if i <= 0 {
        0
    } else if p[i - 1] == '\\' || p[i - 1] == '/' {
        i
    } else {
        after_last_sep(p, i - 1)
    }
}

/// The process name an executable image path stands for: its file name, lowercased,
/// without a trailing `.exe`.
pub open spec fn process_stem_spec(path: Seq<char>) -> Seq<char> {
    let file = lowercase_of(path.subrange(after_last_sep(path, path.len() as int), path.len() as int));
    if ends_with(file, ".exe"@) {
        file.subrange(0, file.len() - 4)
    } else {
        file
    }
}

/// The process name for an executable image path (see `process_stem_spec`).
pub fn process_stem(path: &str) -> (r: String)
    ensures
        r@ == process_stem_spec(path@),
{
    proof {
        reveal_strlit(".exe");
    }
    let p = chars_of(path);
    let mut i: usize = p.len();
    while i > 0
        invariant
            i <= p@.len(),
            after_last_sep(p@, p@.len() as int) == after_last_sep(p@, i as int),
        ensures
            after_last_sep(p@, p@.len() as int) == i,
        decreases i,
    {
        if p[i - 1] == '\\' || p[i - 1] == '/' {
            break;
        }
        i = i - 1;
    }
    let file_chars = crate::text::slice_range(p.as_slice(), i, p.len());
    let file_str = string_of(file_chars.as_slice());
    let lower = to_lowercase(file_str.as_str());
    let lc = chars_of(lower.as_str());
    let ext = chars_of(".exe");
    if crate::text::has_suffix(lc.as_slice(), ext.as_slice()) {
        let stem = crate::text::slice_range(lc.as_slice(), 0, lc.len() - 4);
        string_of(stem.as_slice())
    } else {
        lower
    }
}

/// Keystrokes are silently dropped when the focused window runs elevated and this
/// process does not; an unknown elevation counts as not elevated.
pub fn foreground_outranks(target_elevated: Option<bool>, self_elevated: Option<bool>) -> (b: bool)
    ensures
        b == (target_elevated == Some(true) && self_elevated != Some(true)),
{
    let t = match target_elevated {
        Some(v) => v,
        None => false,
    };
    let s = match self_elevated {
        Some(v) => v,
        None => false,
    };
    t && !s
}

} // verus!
