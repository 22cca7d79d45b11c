//! Per-app writing styles: optional overrides keyed to the focused application's
//! executable name (a language, an injection backend, a trailing period, spoken
//! punctuation on or off). Matching and override resolution only.

use vstd::prelude::*;

use crate::cleanup::{byte_len, CleanupOptions};
use crate::inject::InjectMode;
use crate::settings::DefaultLanguage;
use crate::text::{chars_of, contains, has_substring, lowercase_of, to_lowercase, trim, trim_str};

verus! {

/// One per-app override rule. `match_exe` is a case-insensitive substring of the
/// foreground executable's stem; `None` inherits the global setting.
#[derive(Clone, Debug, PartialEq, Eq)]
pub struct AppStyle {
    pub match_exe: String,
    pub language: Option<DefaultLanguage>,
    pub inject_mode: Option<InjectMode>,
    pub ensure_trailing_period: Option<bool>,
    pub spoken_punctuation: Option<bool>,
}

impl Default for AppStyle {
    fn default() -> (s: Self)
        ensures
            s.match_exe@ == Seq::<char>::empty(),
            s.language is None,
            s.inject_mode is None,
            s.ensure_trailing_period is None,
            s.spoken_punctuation is None,
    {
        AppStyle {
            match_exe: String::new(),
            language: None,
            inject_mode: None,
            ensure_trailing_period: None,
            spoken_punctuation: None,
        }
    }
}

/// An app style as plain values.
pub type AppStyleV = (Seq<char>, Option<DefaultLanguage>, Option<InjectMode>, Option<bool>, Option<bool>);

pub open spec fn style_view(s: AppStyle) -> AppStyleV {
    (s.match_exe@, s.language, s.inject_mode, s.ensure_trailing_period, s.spoken_punctuation)
}

/// The comparison key of a rule: trimmed and lowercased.
pub open spec fn style_key(s: AppStyle) -> Seq<char> {
    lowercase_of(trim(s.match_exe@))
}

pub open spec fn style_matches(s: AppStyle, exe_lower: Seq<char>) -> bool {
    style_key(s).len() != 0 && contains(exe_lower, style_key(s))
}

/// The rule's specificity: the byte length of its trimmed `match_exe`.
pub open spec fn style_weight(s: AppStyle) -> usize {
    byte_len(trim(s.match_exe@))
}

/// Index of the matching rule with the greatest weight among `styles[i..]`, given the
/// best so far; on a tie the later rule wins.
pub open spec fn best_style(styles: Seq<AppStyle>, exe_lower: Seq<char>, i: int, best: Option<int>) -> Option<int>
    decreases styles.len() - i,
{
    if i < 0 || i >= styles.len() {
        best
    } else if style_matches(styles[i], exe_lower) && (best is None || style_weight(styles[i])
        >= style_weight(styles[best->0])) {
        best_style(styles, exe_lower, i + 1, Some(i))
    } else {
        best_style(styles, exe_lower, i + 1, best)
    }
}

pub open spec fn match_style_spec(styles: Seq<AppStyle>, exe: Seq<char>) -> Option<int> {
    best_style(styles, lowercase_of(exe), 0, None)
}

fn key_and_weight(s: &AppStyle) -> (r: (Vec<char>, usize))
    ensures
        r.0@ == style_key(*s),
        r.1 == style_weight(*s),
{
    let t = trim_str(s.match_exe.as_str());
    let w = t.as_str().len();
    let low = to_lowercase(t.as_str());
    (chars_of(low.as_str()), w)
}

/// Index of the rule chosen for `exe`, if any.
pub fn match_style_index(styles: &[AppStyle], exe: &str) -> (r: Option<usize>)
    ensures
        match r {
            Some(i) => i < styles@.len() && match_style_spec(styles@, exe@) == Some(i as int)
                && chosen_style(styles@, lowercase_of(exe@), i as int),
            None => match_style_spec(styles@, exe@) is None && no_style_matches(styles@, lowercase_of(exe@)),
        },
{
    proof {
        lemma_match_style_longest(styles@, exe@);
    }
    let el = to_lowercase(exe);
    let e = chars_of(el.as_str());
    let mut best: Option<usize> = None;
    let mut best_w: usize = 0;
    let mut i: usize = 0;
    while i < styles.len()
        invariant
            i <= styles@.len(),
            e@ == lowercase_of(exe@),
            match best {
                Some(b) => b < i && best_w == style_weight(styles@[b as int]),
                None => true,
            },
            best_style(styles@, e@, i as int, match best {
                Some(b) => Some(b as int),
                None => None,
            }) == match_style_spec(styles@, exe@),
        decreases styles@.len() - i,
    {
        let (k, w) = key_and_weight(&styles[i]);
        if k.len() != 0 && has_substring(e.as_slice(), k.as_slice()) {
            let take = match best {
                None => true,
                Some(_) => w >= best_w,
            };
            if take {
                best = Some(i);
                best_w = w;
            }
        }
        i = i + 1;
    }
    best
}

/// The matching rule for an executable: case-insensitive substring, the longest
/// `match_exe` wins; blank rules never match.
pub fn match_style<'a>(styles: &'a [AppStyle], exe: &str) -> (r: Option<&'a AppStyle>)
    ensures
        match match_style_spec(styles@, exe@) {
            Some(i) => r == Some(&styles@[i]) && chosen_style(styles@, lowercase_of(exe@), i),
            None => r is None && no_style_matches(styles@, lowercase_of(exe@)),
        },
{
    proof {
        lemma_match_style_longest(styles@, exe@);
    }
    match match_style_index(styles, exe) {
        Some(i) => Some(&styles[i]),
        None => None,
    }
}

pub open spec fn resolve_language_spec(base: DefaultLanguage, style: Option<AppStyle>) -> DefaultLanguage {
    match style {
        Some(s) => match s.language {
            Some(l) => l,
            None => base,
        },
        None => base,
    }
}

/// The dictation language: the app override, else the global default.
pub fn resolve_language(base: DefaultLanguage, style: Option<&AppStyle>) -> (l: DefaultLanguage)
    ensures
        l == resolve_language_spec(base, match style {
            Some(s) => Some(*s),
            None => None,
        }),
{
    match style {
        Some(s) => match s.language {
            Some(l) => l,
            None => base,
        },
        None => base,
    }
}

/// The injection backend: the app override, else `Auto`.
pub fn resolve_inject_mode(style: Option<&AppStyle>) -> (m: InjectMode)
    ensures
        m == match style {
            Some(s) => match s.inject_mode {
                Some(x) => x,
                None => InjectMode::Auto,
            },
            None => InjectMode::Auto,
        },
{
    match style {
        Some(s) => match s.inject_mode {
            Some(x) => x,
            None => InjectMode::Auto,
        },
        None => InjectMode::Auto,
    }
}

/// Fold an app style's cleanup overrides onto the global cleanup options: only the
/// fields the style sets change.
pub fn merge_cleanup(base: CleanupOptions, style: Option<&AppStyle>) -> (r: CleanupOptions)
    ensures
        r.ensure_trailing_period == match style {
            Some(s) => match s.ensure_trailing_period {
                Some(v) => v,
                None => base.ensure_trailing_period,
            },
            None => base.ensure_trailing_period,
        },
        r.spoken_punctuation == match style {
            Some(s) => match s.spoken_punctuation {
                Some(v) => v,
                None => base.spoken_punctuation,
            },
            None => base.spoken_punctuation,
        },
        r.remove_fillers == base.remove_fillers,
        r.collapse_repeats == base.collapse_repeats,
        r.fix_capitalization == base.fix_capitalization,
        r.normalize_numbers == base.normalize_numbers,
        r.extra_fillers == base.extra_fillers,
        r.keep_fillers == base.keep_fillers,
{
    let mut base = base;
    if let Some(s) = style {
        if let Some(v) = s.ensure_trailing_period {
            base.ensure_trailing_period = v;
        }
        if let Some(v) = s.spoken_punctuation {
            base.spoken_punctuation = v;
        }
    }
    base
}

/// Rules from `i` on, trimmed, appended to `out` unless blank or a repeat of a key in
/// `seen` (the first rule for a key is kept).
pub open spec fn sanitize_acc(styles: Seq<AppStyle>, i: int, seen: Seq<Seq<char>>, out: Seq<AppStyleV>) -> Seq<AppStyleV>
    decreases styles.len() - i,
{
    if i < 0 || i >= styles.len() {
        out
    } else {
        let s = styles[i];
        let key = lowercase_of(trim(s.match_exe@));
        if key.len() == 0 || seen.contains(key) {
            sanitize_acc(styles, i + 1, seen, out)
        } else {
            sanitize_acc(
                styles,
                i + 1,
                seen.push(key),
                out.push((trim(s.match_exe@), s.language, s.inject_mode, s.ensure_trailing_period, s.spoken_punctuation)),
            )
        }
    }
}

pub open spec fn styles_view(v: Seq<AppStyle>) -> Seq<AppStyleV> {
    v.map_values(|s: AppStyle| style_view(s))
}

/// Drop blank rules and de-duplicate by trimmed, lowercased `match_exe`, keeping the
/// first; `match_exe` is stored trimmed.
pub fn sanitize(styles: Vec<AppStyle>) -> (r: Vec<AppStyle>)
    ensures
        styles_view(r@) == sanitize_acc(styles@, 0, Seq::empty(), Seq::empty()),
        styles_view(r@) == surviving_styles(styles@, styles@.len() as int),
        forall|i: int| 0 <= i < r@.len() ==> lowercase_of(#[trigger] r@[i].match_exe@).len() != 0,
        forall|i: int, j: int|
            0 <= i < j < r@.len() ==> lowercase_of(#[trigger] r@[i].match_exe@) != lowercase_of(
                #[trigger] r@[j].match_exe@,
            ),
{
    proof {
        lemma_sanitize_keeps_first_of_each_key(styles@);
    }
    let mut seen: Vec<Vec<char>> = Vec::new();
    let mut out: Vec<AppStyle> = Vec::new();
    let mut i: usize = 0;
    assert(styles_view(out@) =~= Seq::<AppStyleV>::empty());
    assert(crate::cleanup::char_seqs(seen@) =~= Seq::<Seq<char>>::empty());
    while i < styles.len()
        invariant
            i <= styles@.len(),
            sanitize_acc(styles@, i as int, crate::cleanup::char_seqs(seen@), styles_view(out@))
                == sanitize_acc(styles@, 0, Seq::empty(), Seq::empty()),
            seen@.len() == out@.len(),
            forall|k: int| 0 <= k < out@.len() ==> (#[trigger] seen@[k])@ == lowercase_of(out@[k].match_exe@),
            forall|k: int| 0 <= k < out@.len() ==> lowercase_of(#[trigger] out@[k].match_exe@).len() != 0,
            forall|a: int, b: int|
                0 <= a < b < out@.len() ==> lowercase_of(#[trigger] out@[a].match_exe@) != lowercase_of(
                    #[trigger] out@[b].match_exe@,
                ),
        decreases styles@.len() - i,
    {
        let s = &styles[i];
        let t = trim_str(s.match_exe.as_str());
        let low = to_lowercase(t.as_str());
        let key = chars_of(low.as_str());
        let ghost sv = crate::cleanup::char_seqs(seen@);
        let ghost pre = styles_view(out@);
        let dup = crate::cleanup::contains_chars(&seen, key.as_slice());
        if key.len() != 0 && !dup {
            proof {
                assert forall|k: int| 0 <= k < out@.len() implies lowercase_of(out@[k].match_exe@) != key@ by {
                    assert(sv[k] == seen@[k]@);
                }
            }
            let kept = AppStyle {
                match_exe: t,
                language: s.language,
                inject_mode: s.inject_mode,
                ensure_trailing_period: s.ensure_trailing_period,
                spoken_punctuation: s.spoken_punctuation,
            };
            out.push(kept);
            seen.push(key);
            assert(styles_view(out@) =~= pre.push(
                (trim(s.match_exe@), s.language, s.inject_mode, s.ensure_trailing_period, s.spoken_punctuation),
            ));
            assert(crate::cleanup::char_seqs(seen@) =~= sv.push(lowercase_of(trim(s.match_exe@))));
        }
        i = i + 1;
    }
    out
}

// ─────────────────────────────────────────────────────────────────────────────
// Laws
// ─────────────────────────────────────────────────────────────────────────────

/// Rule `b` is the one to apply for `exe_lower`: it matches, no matching rule is
/// longer, and every later matching rule is shorter (on a tie the later rule wins).
pub open spec fn chosen_style(styles: Seq<AppStyle>, exe_lower: Seq<char>, b: int) -> bool {
    &&& 0 <= b < styles.len()
    &&& style_matches(styles[b], exe_lower)
    &&& forall|j: int|
        0 <= j < styles.len() && style_matches(styles[j], exe_lower) ==> #[trigger] style_weight(styles[j])
            <= style_weight(styles[b])
    &&& forall|j: int|
        b < j < styles.len() && style_matches(styles[j], exe_lower) ==> #[trigger] style_weight(styles[j])
            < style_weight(styles[b])
}

/// No rule matches `exe_lower`.
pub open spec fn no_style_matches(styles: Seq<AppStyle>, exe_lower: Seq<char>) -> bool {
    forall|j: int| 0 <= j < styles.len() ==> !#[trigger] style_matches(styles[j], exe_lower)
}

proof fn lemma_best_style(styles: Seq<AppStyle>, exe_lower: Seq<char>, i: int, best: Option<int>)
    requires
        0 <= i <= styles.len(),
        match best {
            Some(b) => 0 <= b < i && style_matches(styles[b], exe_lower) && (forall|j: int|
                0 <= j < i && style_matches(styles[j], exe_lower) ==> #[trigger] style_weight(styles[j])
                    <= style_weight(styles[b])) && (forall|j: int|
                b < j < i && style_matches(styles[j], exe_lower) ==> #[trigger] style_weight(styles[j])
                    < style_weight(styles[b])),
            None => forall|j: int| 0 <= j < i ==> !#[trigger] style_matches(styles[j], exe_lower),
        },
    ensures
        match best_style(styles, exe_lower, i, best) {
            Some(b) => chosen_style(styles, exe_lower, b),
            None => no_style_matches(styles, exe_lower),
        },
    decreases styles.len() - i,
{
    if i < styles.len() {
        if style_matches(styles[i], exe_lower) && (best is None || style_weight(styles[i]) >= style_weight(
            styles[best->0],
        )) {
            lemma_best_style(styles, exe_lower, i + 1, Some(i));
        } else {
            lemma_best_style(styles, exe_lower, i + 1, best);
        }
    }
}

/// The chosen rule matches the executable, no matching rule is longer, and on a tie
/// the later rule wins; when none is chosen, no rule matches (a blank rule never
/// matches).
pub proof fn lemma_match_style_longest(styles: Seq<AppStyle>, exe: Seq<char>)
    ensures
        match match_style_spec(styles, exe) {
            Some(b) => chosen_style(styles, lowercase_of(exe), b),
            None => no_style_matches(styles, lowercase_of(exe)),
        },
{
    lemma_best_style(styles, lowercase_of(exe), 0, None);
}


/// Rule `i` survives sanitizing: its key is not blank and no earlier rule has the
/// same key.
pub open spec fn first_of_its_key(styles: Seq<AppStyle>, i: int) -> bool {
    style_key(styles[i]).len() != 0 && forall|j: int| 0 <= j < i ==> #[trigger] style_key(styles[j]) != style_key(styles[i])
}

/// The rule as sanitizing stores it: `match_exe` trimmed, the rest as it was.
pub open spec fn trimmed_style(s: AppStyle) -> AppStyleV {
    (trim(s.match_exe@), s.language, s.inject_mode, s.ensure_trailing_period, s.spoken_punctuation)
}

/// The surviving rules among the first `n`, in order, each trimmed.
pub open spec fn surviving_styles(styles: Seq<AppStyle>, n: int) -> Seq<AppStyleV>
    decreases n,
{
    if n <= 0 {
        Seq::empty()
    } else if first_of_its_key(styles, n - 1) {
        surviving_styles(styles, n - 1).push(trimmed_style(styles[n - 1]))
    } else {
        surviving_styles(styles, n - 1)
    }
}

/// The keys of the surviving rules among the first `n`.
spec fn kept_keys(styles: Seq<AppStyle>, n: int) -> Seq<Seq<char>>
    decreases n,
{
    if n <= 0 {
        Seq::empty()
    } else if first_of_its_key(styles, n - 1) {
        kept_keys(styles, n - 1).push(style_key(styles[n - 1]))
    } else {
        kept_keys(styles, n - 1)
    }
}

proof fn lemma_kept_keys(styles: Seq<AppStyle>, n: int, k: Seq<char>)
    requires
        0 <= n <= styles.len(),
    ensures
        kept_keys(styles, n).contains(k) <==> (k.len() != 0 && exists|j: int| 0 <= j < n && #[trigger] style_key(styles[j]) == k),
    decreases n,
{
    if n > 0 {
        lemma_kept_keys(styles, n - 1, k);
        let prev = kept_keys(styles, n - 1);
        let last = style_key(styles[n - 1]);
        if first_of_its_key(styles, n - 1) {
            assert(kept_keys(styles, n) == prev.push(last));
            if k == last {
                assert(prev.push(last)[prev.len() as int] == k);
            } else {
                assert forall|x: Seq<char>| prev.push(last).contains(x) && x != last implies prev.contains(x) by {
                    let i = choose|i: int| 0 <= i < prev.push(last).len() && prev.push(last)[i] == x;
                    assert(prev[i] == x);
                }
                if prev.contains(k) {
                    let i = choose|i: int| 0 <= i < prev.len() && prev[i] == k;
                    assert(prev.push(last)[i] == k);
                }
            }
        } else {
            if k.len() != 0 && style_key(styles[n - 1]) == k {
                if last.len() != 0 {
                    let j = choose|j: int| 0 <= j < n - 1 && #[trigger] style_key(styles[j]) == last;
                    assert(style_key(styles[j]) == k);
                }
            }
        }
    }
}

proof fn lemma_sanitize_direct(styles: Seq<AppStyle>, i: int)
    requires
        0 <= i <= styles.len(),
    ensures
        sanitize_acc(styles, i, kept_keys(styles, i), surviving_styles(styles, i)) == surviving_styles(
            styles,
            styles.len() as int,
        ),
    decreases styles.len() - i,
{
    if i < styles.len() {
        let key = style_key(styles[i]);
        lemma_kept_keys(styles, i, key);
        lemma_sanitize_direct(styles, i + 1);
        if key.len() != 0 && !kept_keys(styles, i).contains(key) {
            assert(first_of_its_key(styles, i));
        } else {
            assert(!first_of_its_key(styles, i));
        }
    }
}

/// Sanitizing keeps, in order, exactly the rules whose trimmed, lowercased
/// `match_exe` is not blank and not shared with an earlier rule, each stored with
/// `match_exe` trimmed.
pub proof fn lemma_sanitize_keeps_first_of_each_key(styles: Seq<AppStyle>)
    ensures
        sanitize_acc(styles, 0, Seq::empty(), Seq::empty()) == surviving_styles(styles, styles.len() as int),
{
    lemma_sanitize_direct(styles, 0);
}

} // verus!
