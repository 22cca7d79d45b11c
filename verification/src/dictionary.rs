//! Custom dictionary (personal vocabulary): deterministic post-transcription
//! replacement. Token-based whole-word matching of each entry's canonical form and
//! its sounds-like variants, with case carrying, optional bounded fuzzy matching,
//! longest-span-wins, and no cascading; plus the bias-prompt composer.

use std::collections::HashMap;
use vstd::prelude::*;

use crate::text::{
    append_chars, chars_eq, chars_of, char_to_uppercase, is_blank, is_uppercase, join, join_chars,
    lowercase_of, slice_range, split_whitespace, string_of, to_lowercase, trim, uppercase,
    uppercase_of, words,
};
use crate::text_match::{
    lemma_empty_plan_identity, plan_ok, plan_view, rebuild, reconstruct, tokenize_chars, tokens,
    toks_view, words_of, Plan, Tok, TokV,
};

verus! {

broadcast use vstd::std_specs::hash::group_hash_axioms;

/// Fuzzy matching is skipped for variants this short or shorter.
pub const FUZZY_MIN_LEN: usize = 3;

/// Cap on a replacement's length, in characters.
pub const MAX_REPLACEMENT_CHARS: usize = 200;

/// One personal-vocabulary entry.
#[derive(Clone, Debug, PartialEq, Eq)]
pub struct DictEntry {
    pub id: String,
    pub replacement: String,
    pub sounds_like: Vec<String>,
    pub case_sensitive: bool,
    pub whole_word: bool,
    pub fuzzy: bool,
    pub bias_prompt: bool,
    pub enabled: bool,
}

impl Default for DictEntry {
    fn default() -> (e: Self)
        ensures
            e.id@ == Seq::<char>::empty(),
            e.replacement@ == Seq::<char>::empty(),
            e.sounds_like@.len() == 0,
            !e.case_sensitive,
            e.whole_word,
            !e.fuzzy,
            e.bias_prompt,
            e.enabled,
    {
        DictEntry {
            id: String::new(),
            replacement: String::new(),
            sounds_like: Vec::new(),
            case_sensitive: false,
            whole_word: true,
            fuzzy: false,
            bias_prompt: true,
            enabled: true,
        }
    }
}

/// Global dictionary toggles.
#[derive(Clone, Copy, Debug, PartialEq, Eq, Structural)]
pub struct DictSettings {
    pub fuzzy_enabled_globally: bool,
    pub fuzzy_max_distance: u8,
    pub bias_enabled: bool,
    pub bias_max_terms: u16,
}

impl Default for DictSettings {
    fn default() -> (s: Self)
        ensures
            s.fuzzy_enabled_globally,
            s.fuzzy_max_distance == 1,
            s.bias_enabled,
            s.bias_max_terms == 64,
    {
        DictSettings {
            fuzzy_enabled_globally: true,
            fuzzy_max_distance: 1,
            bias_enabled: true,
            bias_max_terms: 64,
        }
    }
}

pub open spec fn validate_entry_spec(e: DictEntry) -> Result<(), Seq<char>> {
    if trim(e.replacement@).len() == 0 {
        Err("entry must have a non-empty replacement"@)
    } else if e.replacement@.len() > MAX_REPLACEMENT_CHARS {
        Err("replacement too long"@)
    } else {
        Ok(())
    }
}

pub open spec fn unit_result_view(r: Result<(), String>) -> Result<(), Seq<char>> {
    match r {
        Ok(()) => Ok(()),
        Err(e) => Err(e@),
    }
}

/// Reject an entry with a blank replacement, or one longer than 200 characters.
pub fn validate_entry(entry: &DictEntry) -> (r: Result<(), String>)
    ensures
        unit_result_view(r) == validate_entry_spec(*entry),
{
    if is_blank(entry.replacement.as_str()) {
        return Err(String::from_str("entry must have a non-empty replacement"));
    }
    let c = chars_of(entry.replacement.as_str());
    if c.len() > MAX_REPLACEMENT_CHARS {
        return Err(String::from_str("replacement too long"));
    }
    Ok(())
}

// ─────────────────────────────────────────────────────────────────────────────
// Casing
// ─────────────────────────────────────────────────────────────────────────────

pub open spec fn any_upper(s: Seq<char>) -> bool {
    exists|i: int| 0 <= i < s.len() && uppercase(#[trigger] s[i])
}

/// Case-sensitive entries and replacements holding an uppercase letter are used
/// verbatim; otherwise a match starting with an uppercase letter capitalizes the
/// replacement's first character.
pub open spec fn match_case_spec(matched: Seq<char>, rep: Seq<char>, case_sensitive: bool) -> Seq<
    char,
> {
    if case_sensitive || any_upper(rep) {
        rep
    } else if matched.len() > 0 && uppercase(matched[0]) && rep.len() > 0 {
        uppercase_of(rep[0]) + rep.drop_first()
    } else {
        rep
    }
}

fn has_upper(s: &[char]) -> (b: bool)
    ensures
        b == any_upper(s@),
{
    let mut i: usize = 0;
    while i < s.len()
        invariant
            i <= s@.len(),
            forall|k: int| 0 <= k < i ==> !uppercase(#[trigger] s@[k]),
        decreases s@.len() - i,
    {
        if is_uppercase(s[i]) {
            return true;
        }
        i = i + 1;
    }
    false
}

fn match_case_chars(matched: &[char], rep: &[char], case_sensitive: bool) -> (r: Vec<char>)
    ensures
        r@ == match_case_spec(matched@, rep@, case_sensitive),
{
    if case_sensitive || has_upper(rep) {
        return slice_range(rep, 0, rep.len());
    }
    if matched.len() > 0 && is_uppercase(matched[0]) && rep.len() > 0 {
        let first = char_to_uppercase(rep[0]);
        let mut out = chars_of(first.as_str());
        let rest = slice_range(rep, 1, rep.len());
        append_chars(&mut out, rest.as_slice());
        assert(rest@ =~= rep@.drop_first());
        return out;
    }
    slice_range(rep, 0, rep.len())
}

/// Carry casing onto the replacement: case-sensitive or mixed-case replacements are
/// verbatim; an all-lowercase replacement matched at a capitalized token keeps the
/// leading capital.
pub fn match_case(matched: &str, replacement: &str, case_sensitive: bool) -> (r: String)
    ensures
        r@ == match_case_spec(matched@, replacement@, case_sensitive),
{
    let m = chars_of(matched);
    let rep = chars_of(replacement);
    let out = match_case_chars(m.as_slice(), rep.as_slice(), case_sensitive);
    string_of(out.as_slice())
}

// ─────────────────────────────────────────────────────────────────────────────
// Fuzzy matching
// ─────────────────────────────────────────────────────────────────────────────

pub open spec fn min2(x: int, y: int) -> int {
    if x <= y {
        x
    } else {
        y
    }
}

/// Optimal string alignment distance between `a[..i]` and `b[..j]` (edit distance with
/// adjacent transpositions, each substring edited at most once).
pub open spec fn osa(a: Seq<char>, b: Seq<char>, i: int, j: int) -> int
    decreases i + j,
{
    if i <= 0 {
        if j <= 0 {
            0
        } else {
            j
        }
    } else if j <= 0 {
        i
    } else {
        let cost: int = if a[i - 1] == b[j - 1] {
            0
        } else {
            1
        };
        let best = min2(
            min2(osa(a, b, i - 1, j) + 1, osa(a, b, i, j - 1) + 1),
            osa(a, b, i - 1, j - 1) + cost,
        );
        if i > 1 && j > 1 && a[i - 1] == b[j - 2] && a[i - 2] == b[j - 1] {
            min2(best, osa(a, b, i - 2, j - 2) + 1)
        } else {
            best
        }
    }
}

/// The edit distance of two prefixes is at most the longer prefix's length.
pub proof fn lemma_osa_bounds(a: Seq<char>, b: Seq<char>, i: int, j: int)
    requires
        0 <= i,
        0 <= j,
    ensures
        0 <= osa(a, b, i, j) <= if i >= j {
            i
        } else {
            j
        },
    decreases i + j,
{
    if i > 0 && j > 0 {
        lemma_osa_bounds(a, b, i - 1, j);
        lemma_osa_bounds(a, b, i, j - 1);
        lemma_osa_bounds(a, b, i - 1, j - 1);
        if i > 1 && j > 1 {
            lemma_osa_bounds(a, b, i - 2, j - 2);
        }
    }
}

fn inc_sat(x: usize) -> (r: usize)
    ensures
        r == if x < usize::MAX {
            x + 1
        } else {
            x as int
        },
{
    if x < usize::MAX {
        x + 1
    } else {
        x
    }
}

/// Optimal string alignment distance (Levenshtein plus adjacent transposition),
/// counted in characters.
pub fn osa_distance(a: &str, b: &str) -> (d: usize)
    ensures
        d == osa(a@, b@, a@.len() as int, b@.len() as int),
{
    let ac = chars_of(a);
    let bc = chars_of(b);
    osa_distance_chars(ac.as_slice(), bc.as_slice())
}

/// Optimal string alignment distance, computed row by row.
fn osa_distance_chars(a: &[char], b: &[char]) -> (d: usize)
    ensures
        d == osa(a@, b@, a@.len() as int, b@.len() as int),
{
    let n = a.len();
    let m = b.len();
    if n == 0 {
        return m;
    }
    if m == 0 {
        return n;
    }
    let mut prev: Vec<usize> = Vec::new();
    let mut j0: usize = 0;
    while j0 < m
        invariant
            j0 <= m,
            m == b@.len(),
            prev@.len() == j0,
            forall|k: int| 0 <= k < j0 ==> #[trigger] prev@[k] == osa(a@, b@, 0, k),
        decreases m - j0,
    {
        prev.push(j0);
        j0 = j0 + 1;
    }
    prev.push(m);
    let mut prev2: Vec<usize> = Vec::new();
    let mut ii: usize = 0;
    while ii < n
        invariant
            ii <= n,
            n == a@.len(),
            m == b@.len(),
            m >= 1,
            prev@.len() == m + 1,
            forall|k: int| 0 <= k <= m ==> #[trigger] prev@[k] == osa(a@, b@, ii as int, k),
            ii >= 1 ==> prev2@.len() == m + 1,
            ii >= 1 ==> forall|k: int| 0 <= k <= m ==> #[trigger] prev2@[k] == osa(a@, b@, ii - 1, k),
        decreases n - ii,
    {
        let i = ii + 1;
        let mut cur: Vec<usize> = Vec::new();
        cur.push(i);
        let mut jj: usize = 0;
        while jj < m
            invariant
                ii < n,
                i == ii + 1,
                n == a@.len(),
                m == b@.len(),
                jj <= m,
                prev@.len() == m + 1,
                forall|k: int| 0 <= k <= m ==> #[trigger] prev@[k] == osa(a@, b@, ii as int, k),
                ii >= 1 ==> prev2@.len() == m + 1,
                ii >= 1 ==> forall|k: int|
                    0 <= k <= m ==> #[trigger] prev2@[k] == osa(a@, b@, ii - 1, k),
                cur@.len() == jj + 1,
                forall|k: int| 0 <= k <= jj ==> #[trigger] cur@[k] == osa(a@, b@, i as int, k),
            decreases m - jj,
        {
            let j = jj + 1;
            proof {
                lemma_osa_bounds(a@, b@, ii as int, j - 1);
                lemma_osa_bounds(a@, b@, ii as int, j as int);
                lemma_osa_bounds(a@, b@, i as int, jj as int);
                if i > 1 && j > 1 {
                    lemma_osa_bounds(a@, b@, i - 2, j - 2);
                }
            }
            let cost: usize = if a[i - 1] == b[j - 1] {
                0
            } else {
                1
            };
            let up = inc_sat(prev[j]);
            let left = inc_sat(cur[j - 1]);
            let diag = prev[j - 1] + cost;
            let mut best = if up <= left {
                up
            } else {
                left
            };
            if diag < best {
                best = diag;
            }
            if i > 1 && j > 1 && a[i - 1] == b[j - 2] && a[i - 2] == b[j - 1] {
                let t = prev2[j - 2] + 1;
                if t < best {
                    best = t;
                }
            }
            cur.push(best);
            jj = j;
        }
        prev2 = prev;
        prev = cur;
        ii = i;
    }
    prev[m]
}

/// The bounded near-miss test: the variant is longer than the short-word floor and
/// the lowercased forms are within `max_distance`.
pub open spec fn fuzzy_spec(token: Seq<char>, variant: Seq<char>, max_distance: u8) -> bool {
    variant.len() > FUZZY_MIN_LEN && osa(
        lowercase_of(token),
        lowercase_of(variant),
        lowercase_of(token).len() as int,
        lowercase_of(variant).len() as int,
    ) <= max_distance
}

/// Bounded near-miss test: distance ≤ `max_distance`, and only for variants longer
/// than the short-word floor.
pub fn fuzzy_match(token: &str, variant: &str, max_distance: u8) -> (b: bool)
    ensures
        b == fuzzy_spec(token@, variant@, max_distance),
{
    let v = chars_of(variant);
    if v.len() <= FUZZY_MIN_LEN {
        return false;
    }
    let tl = to_lowercase(token);
    let vl = to_lowercase(variant);
    let tc = chars_of(tl.as_str());
    let vc = chars_of(vl.as_str());
    osa_distance_chars(tc.as_slice(), vc.as_slice()) <= max_distance as usize
}

// ─────────────────────────────────────────────────────────────────────────────
// Variants and matching
// ─────────────────────────────────────────────────────────────────────────────

/// A matchable variant as a value: its words and the index of its entry.
pub type VarV = (Seq<Seq<char>>, int);

/// A match candidate: (word count, replacement, all words exact, entry order).
pub type Cand = (int, Seq<char>, bool, int);

/// The forms an entry matches: its canonical replacement, then each sounds-like.
pub open spec fn entry_forms(e: DictEntry) -> Seq<Seq<char>> {
    seq![e.replacement@] + e.sounds_like@.map_values(|s: String| s@)
}

pub open spec fn entry_active(e: DictEntry) -> bool {
    e.enabled && trim(e.replacement@).len() != 0
}

/// The variants of the forms from `f` on that have at least one word.
pub open spec fn forms_variants(forms: Seq<Seq<char>>, f: int, order: int) -> Seq<VarV>
    decreases forms.len() - f,
{
    if f < 0 || f >= forms.len() {
        Seq::empty()
    } else if words(forms[f]).len() > 0 {
        seq![(words(forms[f]), order)] + forms_variants(forms, f + 1, order)
    } else {
        forms_variants(forms, f + 1, order)
    }
}

/// All variants of the active entries from index `e` on, in entry order.
pub open spec fn variants_from(entries: Seq<DictEntry>, e: int) -> Seq<VarV>
    decreases entries.len() - e,
{
    if e < 0 || e >= entries.len() {
        Seq::empty()
    } else if entry_active(entries[e]) {
        forms_variants(entry_forms(entries[e]), 0, e) + variants_from(entries, e + 1)
    } else {
        variants_from(entries, e + 1)
    }
}

pub open spec fn variants(entries: Seq<DictEntry>) -> Seq<VarV> {
    variants_from(entries, 0)
}

/// One token against one variant word: `Some(true)` exact, `Some(false)` fuzzy,
/// `None` no match.
pub open spec fn word_eq_spec(word: Seq<char>, vw: Seq<char>, e: DictEntry, s: DictSettings) -> Option<
    bool,
> {
    let exact = if e.case_sensitive {
        word == vw
    } else {
        lowercase_of(word) == lowercase_of(vw)
    };
    if exact {
        Some(true)
    } else if s.fuzzy_enabled_globally && e.fuzzy && fuzzy_spec(word, vw, s.fuzzy_max_distance) {
        Some(false)
    } else {
        None
    }
}

/// Whether the variant words from `off` on match the text words at `p + off`, and
/// whether every such match was exact.
pub open spec fn match_from(
    ws: Seq<Seq<char>>,
    p: int,
    vw: Seq<Seq<char>>,
    off: int,
    e: DictEntry,
    s: DictSettings,
) -> Option<bool>
    decreases vw.len() - off,
{
    if off < 0 || off >= vw.len() {
        Some(true)
    } else {
        match word_eq_spec(ws[p + off], vw[off], e, s) {
            None => None,
            Some(x) => match match_from(ws, p, vw, off + 1, e, s) {
                None => None,
                Some(rest) => Some(x && rest),
            },
        }
    }
}

/// Longest span wins; ties break exact-over-fuzzy, then earlier entry.
pub open spec fn pick_better_spec(a: Cand, b: Cand) -> Cand {
    if a.0 != b.0 {
        if a.0 > b.0 {
            a
        } else {
            b
        }
    } else if a.2 != b.2 {
        if a.2 {
            a
        } else {
            b
        }
    } else if a.3 <= b.3 {
        a
    } else {
        b
    }
}

/// The candidate variant `v` yields at word `p`, if it matches there.
pub open spec fn cand_at(
    ws: Seq<Seq<char>>,
    p: int,
    v: VarV,
    entries: Seq<DictEntry>,
    s: DictSettings,
) -> Option<Cand> {
    let k = v.0.len() as int;
    let e = entries[v.1];
    if p + k > ws.len() {
        None
    } else {
        match match_from(ws, p, v.0, 0, e, s) {
            None => None,
            Some(all_exact) => Some((k, match_case_spec(ws[p], e.replacement@, e.case_sensitive), all_exact, v.1)),
        }
    }
}

/// The best candidate over the variants from `vi` on, given the best so far.
pub open spec fn best_from(
    ws: Seq<Seq<char>>,
    p: int,
    vars: Seq<VarV>,
    vi: int,
    best: Option<Cand>,
    entries: Seq<DictEntry>,
    s: DictSettings,
) -> Option<Cand>
    decreases vars.len() - vi,
{
    if vi < 0 || vi >= vars.len() {
        best
    } else {
        let next = match cand_at(ws, p, vars[vi], entries, s) {
            None => best,
            Some(c) => match best {
                None => Some(c),
                Some(prev) => Some(pick_better_spec(prev, c)),
            },
        };
        best_from(ws, p, vars, vi + 1, next, entries, s)
    }
}

pub open spec fn best_match_spec(
    ws: Seq<Seq<char>>,
    p: int,
    vars: Seq<VarV>,
    entries: Seq<DictEntry>,
    s: DictSettings,
) -> Option<Cand> {
    best_from(ws, p, vars, 0, None, entries, s)
}

/// The replacement plan, placed left to right; a placed match consumes its span.
pub open spec fn plan_acc(
    ws: Seq<Seq<char>>,
    p: int,
    acc: Map<usize, (usize, Seq<char>)>,
    vars: Seq<VarV>,
    entries: Seq<DictEntry>,
    s: DictSettings,
) -> Map<usize, (usize, Seq<char>)>
    decreases ws.len() - p,
{
    if p < 0 || p >= ws.len() {
        acc
    } else {
        match best_match_spec(ws, p, vars, entries, s) {
            None => plan_acc(ws, p + 1, acc, vars, entries, s),
            Some(c) => if c.0 < 1 || p + c.0 > ws.len() {
                acc
            } else {
                plan_acc(ws, p + c.0, acc.insert(p as usize, (c.0 as usize, c.1)), vars, entries, s)
            },
        }
    }
}

/// One scan of `text`: the best variant match at each word is replaced and its span
/// consumed, left to right.
pub open spec fn scan_spec(text: Seq<char>, entries: Seq<DictEntry>, s: DictSettings) -> Seq<char> {
    let vars = variants(entries);
    let toks = tokens(text);
    let ws = words_of(toks, 0);
    if vars.len() == 0 || ws.len() == 0 {
        text
    } else {
        rebuild(toks, plan_acc(ws, 0, Map::empty(), vars, entries, s))
    }
}

/// Exec-side variant: its words and its entry's index.
struct Variant {
    words: Vec<Vec<char>>,
    order: usize,
}

spec fn variant_view(v: Variant) -> VarV {
    (v.words@.map_values(|w: Vec<char>| w@), v.order as int)
}

spec fn variants_view(vs: Seq<Variant>) -> Seq<VarV> {
    vs.map_values(|v: Variant| variant_view(v))
}

fn forms_of(entry: &DictEntry) -> (forms: Vec<Vec<char>>)
    ensures
        forms@.map_values(|f: Vec<char>| f@) == entry_forms(*entry),
{
    let mut forms: Vec<Vec<char>> = Vec::new();
    forms.push(chars_of(entry.replacement.as_str()));
    let ghost sl = entry.sounds_like@.map_values(|s: String| s@);
    let mut i: usize = 0;
    while i < entry.sounds_like.len()
        invariant
            i <= entry.sounds_like@.len(),
            sl == entry.sounds_like@.map_values(|s: String| s@),
            forms@.map_values(|f: Vec<char>| f@) == seq![entry.replacement@] + sl.take(i as int),
        decreases entry.sounds_like@.len() - i,
    {
        let ghost pre = forms@.map_values(|f: Vec<char>| f@);
        forms.push(chars_of(entry.sounds_like[i].as_str()));
        assert(forms@.map_values(|f: Vec<char>| f@) =~= pre.push(sl[i as int]));
        assert(sl.take(i + 1) =~= sl.take(i as int).push(sl[i as int]));
        i = i + 1;
    }
    assert(sl.take(i as int) =~= sl);
    forms
}

fn build_variants(entries: &[DictEntry]) -> (vs: Vec<Variant>)
    ensures
        variants_view(vs@) == variants(entries@),
        forall|k: int|
            0 <= k < vs@.len() ==> (#[trigger] vs@[k]).order < entries@.len() && vs@[k].words@.len()
                >= 1,
{
    let mut vs: Vec<Variant> = Vec::new();
    let mut e: usize = 0;
    while e < entries.len()
        invariant
            e <= entries@.len(),
            variants_view(vs@) + variants_from(entries@, e as int) == variants(entries@),
            forall|k: int|
                0 <= k < vs@.len() ==> (#[trigger] vs@[k]).order < entries@.len()
                    && vs@[k].words@.len() >= 1,
        decreases entries@.len() - e,
    {
        let entry = &entries[e];
        if !entry.enabled || is_blank(entry.replacement.as_str()) {
            e = e + 1;
            continue ;
        }
        let forms = forms_of(entry);
        let ghost fv = forms@.map_values(|f: Vec<char>| f@);
        let ghost before = variants_view(vs@);
        let mut f: usize = 0;
        while f < forms.len()
            invariant
                e < entries@.len(),
                f <= forms@.len(),
                fv == forms@.map_values(|f: Vec<char>| f@),
                fv == entry_forms(entries@[e as int]),
                variants_view(vs@) + forms_variants(fv, f as int, e as int) == before
                    + forms_variants(fv, 0, e as int),
                forall|k: int|
                    0 <= k < vs@.len() ==> (#[trigger] vs@[k]).order < entries@.len()
                        && vs@[k].words@.len() >= 1,
            decreases forms@.len() - f,
        {
            let ws = split_whitespace(forms[f].as_slice());
            assert(ws@.map_values(|w: Vec<char>| w@) =~= words(fv[f as int]));
            if ws.len() > 0 {
                let ghost pre = variants_view(vs@);
                vs.push(Variant { words: ws, order: e });
                assert(variants_view(vs@) =~= pre.push((words(fv[f as int]), e as int)));
                assert(variants_view(vs@) + forms_variants(fv, f + 1, e as int) =~= pre
                    + forms_variants(fv, f as int, e as int));
            }
            f = f + 1;
        }
        assert(variants_from(entries@, e as int) == forms_variants(fv, 0, e as int)
            + variants_from(entries@, e + 1));
        assert(variants_view(vs@) + variants_from(entries@, e + 1) =~= before + variants_from(
            entries@,
            e as int,
        ));
        e = e + 1;
    }
    assert(variants_view(vs@) =~= variants(entries@));
    vs
}

fn word_eq(word: &[char], vw: &[char], entry: &DictEntry, settings: &DictSettings) -> (r: Option<
    bool,
>)
    ensures
        r == word_eq_spec(word@, vw@, *entry, *settings),
{
    let exact = if entry.case_sensitive {
        chars_eq(word, vw)
    } else {
        let ws = string_of(word);
        let vs = string_of(vw);
        let wl = to_lowercase(ws.as_str());
        let vl = to_lowercase(vs.as_str());
        let wc = chars_of(wl.as_str());
        let vc = chars_of(vl.as_str());
        chars_eq(wc.as_slice(), vc.as_slice())
    };
    if exact {
        return Some(true);
    }
    if settings.fuzzy_enabled_globally && entry.fuzzy {
        let ws = string_of(word);
        let vs = string_of(vw);
        if fuzzy_match(ws.as_str(), vs.as_str(), settings.fuzzy_max_distance) {
            return Some(false);
        }
    }
    None
}

fn pick_better(a: (usize, Vec<char>, bool, usize), b: (usize, Vec<char>, bool, usize)) -> (r: (
    usize,
    Vec<char>,
    bool,
    usize,
))
    ensures
        (r.0 as int, r.1@, r.2, r.3 as int) == pick_better_spec(
            (a.0 as int, a.1@, a.2, a.3 as int),
            (b.0 as int, b.1@, b.2, b.3 as int),
        ),
{
    if a.0 != b.0 {
        return if a.0 > b.0 {
            a
        } else {
            b
        };
    }
    if a.2 != b.2 {
        return if a.2 {
            a
        } else {
            b
        };
    }
    if a.3 <= b.3 {
        a
    } else {
        b
    }
}

spec fn cand_view(c: Option<(usize, Vec<char>, bool, usize)>) -> Option<Cand> {
    match c {
        Some(x) => Some((x.0 as int, x.1@, x.2, x.3 as int)),
        None => None,
    }
}

spec fn vec_words(ws: Seq<Vec<char>>) -> Seq<Seq<char>> {
    ws.map_values(|w: Vec<char>| w@)
}

fn match_variant(
    words: &Vec<Vec<char>>,
    p: usize,
    v: &Variant,
    entry: &DictEntry,
    settings: &DictSettings,
) -> (r: Option<bool>)
    requires
        p + v.words@.len() <= words@.len(),
    ensures
        r == match_from(vec_words(words@), p as int, vec_words(v.words@), 0, *entry, *settings),
{
    let ghost ws = vec_words(words@);
    let ghost vw = vec_words(v.words@);
    let k = v.words.len();
    let n = words.len();
    let mut off: usize = 0;
    let mut all_exact = true;
    while off < k
        invariant
            off <= k,
            k == v.words@.len(),
            n == words@.len(),
            p + k <= n,
            ws == vec_words(words@),
            vw == vec_words(v.words@),
            match_from(ws, p as int, vw, 0, *entry, *settings) == match match_from(
                ws,
                p as int,
                vw,
                off as int,
                *entry,
                *settings,
            ) {
                None => None,
                Some(rest) => Some(all_exact && rest),
            },
        decreases k - off,
    {
        assert(ws[p + off] == words@[p + off]@);
        assert(vw[off as int] == v.words@[off as int]@);
        match word_eq(words[p + off].as_slice(), v.words[off].as_slice(), entry, settings) {
            None => {
                return None;
            },
            Some(x) => {
                if !x {
                    all_exact = false;
                }
            },
        }
        off = off + 1;
    }
    Some(all_exact)
}

fn best_match_at(
    words: &Vec<Vec<char>>,
    p: usize,
    vars: &Vec<Variant>,
    entries: &[DictEntry],
    settings: &DictSettings,
) -> (r: Option<(usize, Vec<char>, bool, usize)>)
    requires
        p < words@.len(),
        forall|k: int|
            0 <= k < vars@.len() ==> (#[trigger] vars@[k]).order < entries@.len()
                && vars@[k].words@.len() >= 1,
    ensures
        cand_view(r) == best_match_spec(
            vec_words(words@),
            p as int,
            variants_view(vars@),
            entries@,
            *settings,
        ),
        r matches Some(c) ==> 1 <= c.0 && p + c.0 <= words@.len(),
{
    let ghost ws = vec_words(words@);
    let ghost vv = variants_view(vars@);
    let mut best: Option<(usize, Vec<char>, bool, usize)> = None;
    let mut vi: usize = 0;
    while vi < vars.len()
        invariant
            vi <= vars@.len(),
            p < words@.len(),
            ws == vec_words(words@),
            vv == variants_view(vars@),
            forall|k: int|
                0 <= k < vars@.len() ==> (#[trigger] vars@[k]).order < entries@.len()
                    && vars@[k].words@.len() >= 1,
            best_from(ws, p as int, vv, vi as int, cand_view(best), entries@, *settings)
                == best_match_spec(ws, p as int, vv, entries@, *settings),
            best matches Some(c) ==> 1 <= c.0 && p + c.0 <= words@.len(),
        decreases vars@.len() - vi,
    {
        let v = &vars[vi];
        let k = v.words.len();
        assert(vv[vi as int] == variant_view(*v));
        if k <= words.len() - p {
            let entry = &entries[v.order];
            match match_variant(words, p, v, entry, settings) {
                None => {},
                Some(all_exact) => {
                    let m = words[p].as_slice();
                    let rep = chars_of(entry.replacement.as_str());
                    let repl = match_case_chars(m, rep.as_slice(), entry.case_sensitive);
                    assert(ws[p as int] == words@[p as int]@);
                    let cand = (k, repl, all_exact, v.order);
                    best = match best {
                        None => Some(cand),
                        Some(prev) => Some(pick_better(prev, cand)),
                    };
                },
            }
        }
        vi = vi + 1;
    }
    best
}

fn words_vec(toks: &Vec<Tok>) -> (ws: Vec<Vec<char>>)
    ensures
        vec_words(ws@) == words_of(toks_view(toks@), 0),
{
    let ghost tv = toks_view(toks@);
    let mut ws: Vec<Vec<char>> = Vec::new();
    let mut i: usize = 0;
    while i < toks.len()
        invariant
            i <= toks@.len(),
            tv == toks_view(toks@),
            vec_words(ws@) + words_of(tv, i as int) == words_of(tv, 0),
        decreases toks@.len() - i,
    {
        let ghost pre = vec_words(ws@);
        match &toks[i] {
            Tok::Word(w) => {
                ws.push(chars_of(w.as_str()));
                assert(vec_words(ws@) =~= pre.push(tv[i as int].1));
                assert(vec_words(ws@) + words_of(tv, i + 1) =~= pre + words_of(tv, i as int));
            },
            Tok::Sep(_) => {},
        }
        i = i + 1;
    }
    assert(vec_words(ws@) =~= words_of(tv, 0));
    ws
}

/// One scan of `text` (see `scan_spec`).
fn dictionary_scan(text: &str, entries: &[DictEntry], settings: &DictSettings) -> (r: String)
    ensures
        r@ == scan_spec(text@, entries@, *settings),
{
    let vars = build_variants(entries);
    if vars.len() == 0 {
        return String::from_str(text);
    }
    let chars = chars_of(text);
    let toks = tokenize_chars(chars.as_slice());
    let words = words_vec(&toks);
    if words.len() == 0 {
        return String::from_str(text);
    }
    let ghost ws = vec_words(words@);
    let ghost vv = variants_view(vars@);
    let mut plan: Plan = HashMap::new();
    assert(plan_view(plan@) =~= Map::<usize, (usize, Seq<char>)>::empty());
    let mut placed = false;
    let mut p: usize = 0;
    while p < words.len()
        invariant
            p <= words@.len(),
            ws == vec_words(words@),
            vv == variants_view(vars@),
            vv == variants(entries@),
            forall|k: int|
                0 <= k < vars@.len() ==> (#[trigger] vars@[k]).order < entries@.len()
                    && vars@[k].words@.len() >= 1,
            plan_acc(ws, p as int, plan_view(plan@), vv, entries@, *settings) == plan_acc(
                ws,
                0,
                Map::empty(),
                vv,
                entries@,
                *settings,
            ),
            forall|q: usize|
                #[trigger] plan_view(plan@).contains_key(q) ==> 1 <= plan_view(plan@)[q].0 && q
                    + plan_view(plan@)[q].0 <= words@.len(),
            !placed ==> plan_view(plan@) == Map::<usize, (usize, Seq<char>)>::empty(),
        decreases words@.len() - p,
    {
        match best_match_at(&words, p, &vars, entries, settings) {
            Some(c) => {
                let k = c.0;
                let repl = string_of(c.1.as_slice());
                let ghost before = plan_view(plan@);
                plan.insert(p, (k, repl));
                assert(plan_view(plan@) =~= before.insert(p, (k, c.1@)));
                placed = true;
                p = p + k;
            },
            None => {
                p = p + 1;
            },
        }
    }
    assert(plan_acc(ws, p as int, plan_view(plan@), vv, entries@, *settings) == plan_view(plan@));
    if !placed {
        proof {
            lemma_empty_plan_identity(text@);
        }
        return String::from_str(text);
    }
    reconstruct(toks.as_slice(), &plan)
}

/// What `apply_dictionary` makes of `text`: the scan's result when a second scan
/// leaves it as it is; a rewrite that a second scan would change again is not
/// applied, and the text stays as it was.
pub open spec fn apply_spec(text: Seq<char>, entries: Seq<DictEntry>, s: DictSettings) -> Seq<char> {
    let once = scan_spec(text, entries, s);
    if scan_spec(once, entries, s) == once {
        once
    } else {
        text
    }
}

/// Enforce the dictionary on `text`: left to right, the best variant match at each
/// word (longest span, then exact over fuzzy, then earlier entry) is replaced and its
/// span consumed, and replacements are never re-scanned. The pass is idempotent: its
/// rewrite is applied only when a second scan would change nothing.
pub fn apply_dictionary(text: &str, entries: &[DictEntry], settings: &DictSettings) -> (r: String)
    ensures
        r@ == apply_spec(text@, entries@, *settings),
        (forall|i: int| 0 <= i < entries@.len() ==> !entry_active(#[trigger] entries@[i])) || (forall|k: int|
            0 <= k < text@.len() ==> !crate::text::alphanumeric(#[trigger] text@[k])) ==> r@ == text@,
{
    proof {
        if (forall|i: int| 0 <= i < entries@.len() ==> !entry_active(#[trigger] entries@[i])) || (forall|k: int|
            0 <= k < text@.len() ==> !crate::text::alphanumeric(#[trigger] text@[k])) {
            lemma_dictionary_inert(text@, entries@, *settings);
        }
    }
    let once = dictionary_scan(text, entries, settings);
    let twice = dictionary_scan(once.as_str(), entries, settings);
    let oc = chars_of(once.as_str());
    let tc = chars_of(twice.as_str());
    if crate::text::chars_eq(oc.as_slice(), tc.as_slice()) {
        once
    } else {
        String::from_str(text)
    }
}

/// Applying the dictionary twice is applying it once.
pub proof fn lemma_apply_idempotent(text: Seq<char>, entries: Seq<DictEntry>, s: DictSettings)
    ensures
        apply_spec(apply_spec(text, entries, s), entries, s) == apply_spec(text, entries, s),
{
    let once = scan_spec(text, entries, s);
    if scan_spec(once, entries, s) == once {
        assert(apply_spec(once, entries, s) == once);
    }
}

// ─────────────────────────────────────────────────────────────────────────────
// Bias prompt
// ─────────────────────────────────────────────────────────────────────────────

pub open spec fn bias_candidate(e: DictEntry) -> bool {
    e.enabled && e.bias_prompt && trim(e.replacement@).len() != 0
}

/// The canonical forms of the bias-prompt entries from index `i` on.
pub open spec fn bias_terms(entries: Seq<DictEntry>, i: int) -> Seq<Seq<char>>
    decreases entries.len() - i,
{
    if i < 0 || i >= entries.len() {
        Seq::empty()
    } else if bias_candidate(entries[i]) {
        seq![entries[i].replacement@] + bias_terms(entries, i + 1)
    } else {
        bias_terms(entries, i + 1)
    }
}

pub open spec fn bias_prompt_spec(entries: Seq<DictEntry>, s: DictSettings) -> Seq<char> {
    if !s.bias_enabled {
        Seq::empty()
    } else {
        let terms = bias_terms(entries, 0);
        let n = if terms.len() <= s.bias_max_terms {
            terms.len() as int
        } else {
            s.bias_max_terms as int
        };
        join(terms.take(n), ", "@)
    }
}

/// Whether an entry goes into the bias prompt, as a predicate.
pub open spec fn bias_pred() -> spec_fn(DictEntry) -> bool {
    |e: DictEntry| bias_candidate(e)
}

/// The canonical forms of the bias-prompt entries, in input order.
pub open spec fn bias_forms(entries: Seq<DictEntry>) -> Seq<Seq<char>> {
    entries.filter(bias_pred()).map_values(|e: DictEntry| e.replacement@)
}

proof fn lemma_bias_terms_filter(entries: Seq<DictEntry>, i: int)
    requires
        0 <= i <= entries.len(),
    ensures
        bias_terms(entries, i) == entries.skip(i).filter(bias_pred()).map_values(
            |e: DictEntry| e.replacement@,
        ),
    decreases entries.len() - i,
{
    reveal(Seq::filter);
    let rest = entries.skip(i);
    if i == entries.len() {
        assert(rest =~= Seq::<DictEntry>::empty());
        assert(rest.filter(bias_pred()) =~= Seq::<DictEntry>::empty());
    } else {
        lemma_bias_terms_filter(entries, i + 1);
        let x = entries[i];
        let one = seq![x];
        assert(rest =~= one + entries.skip(i + 1));
        Seq::filter_distributes_over_add(one, entries.skip(i + 1), bias_pred());
        assert(one.drop_last() =~= Seq::<DictEntry>::empty());
        assert(Seq::<DictEntry>::empty().filter(bias_pred()) =~= Seq::<DictEntry>::empty());
        assert(one.last() == x);
        let fo = one.filter(bias_pred());
        if bias_candidate(x) {
            assert(fo =~= one);
        } else {
            assert(fo =~= Seq::<DictEntry>::empty());
        }
        let ft = entries.skip(i + 1).filter(bias_pred());
        assert((fo + ft).map_values(|e: DictEntry| e.replacement@) =~= fo.map_values(
            |e: DictEntry| e.replacement@,
        ) + ft.map_values(|e: DictEntry| e.replacement@));
        if bias_candidate(x) {
            assert(fo.map_values(|e: DictEntry| e.replacement@) =~= seq![x.replacement@]);
        } else {
            assert(fo.map_values(|e: DictEntry| e.replacement@) =~= Seq::<Seq<char>>::empty());
        }
    }
}

/// The bias prompt is empty when biasing is off; otherwise it is the canonical forms
/// of the first `bias_max_terms` entries that are enabled, flagged for the prompt and
/// have a non-blank replacement, in input order, joined by ", ".
pub proof fn lemma_bias_prompt_direct(entries: Seq<DictEntry>, s: DictSettings)
    ensures
        bias_prompt_spec(entries, s) == (if !s.bias_enabled {
            Seq::<char>::empty()
        } else {
            join(
                bias_forms(entries).take(
                    if bias_forms(entries).len() <= s.bias_max_terms {
                        bias_forms(entries).len() as int
                    } else {
                        s.bias_max_terms as int
                    },
                ),
                ", "@,
            )
        }),
{
    lemma_bias_terms_filter(entries, 0);
    assert(entries.skip(0) =~= entries);
}

/// Compose the speech-recognition bias prompt: the enabled, bias-flagged entries'
/// canonical forms, capped at `bias_max_terms`, joined with ", ". Empty when biasing
/// is off.
pub fn build_bias_prompt(entries: &[DictEntry], settings: &DictSettings) -> (r: String)
    ensures
        r@ == bias_prompt_spec(entries@, *settings),
{
    if !settings.bias_enabled {
        return String::new();
    }
    let max = settings.bias_max_terms as usize;
    let ghost all = bias_terms(entries@, 0);
    let mut terms: Vec<Vec<char>> = Vec::new();
    let mut i: usize = 0;
    while i < entries.len() && terms.len() < max
        invariant
            i <= entries@.len(),
            all == bias_terms(entries@, 0),
            terms@.len() <= max,
            max == settings.bias_max_terms as usize,
            vec_words(terms@) + bias_terms(entries@, i as int) == all,
        decreases entries@.len() - i,
    {
        let e = &entries[i];
        let ghost pre = vec_words(terms@);
        if e.enabled && e.bias_prompt && !is_blank(e.replacement.as_str()) {
            terms.push(chars_of(e.replacement.as_str()));
            assert(vec_words(terms@) =~= pre.push(entries@[i as int].replacement@));
            assert(vec_words(terms@) + bias_terms(entries@, i + 1) =~= pre + bias_terms(
                entries@,
                i as int,
            ));
        }
        i = i + 1;
    }
    proof {
        let n = if all.len() <= settings.bias_max_terms {
            all.len() as int
        } else {
            settings.bias_max_terms as int
        };
        if terms@.len() < max {
            assert(bias_terms(entries@, i as int) =~= Seq::<Seq<char>>::empty());
            assert(vec_words(terms@) =~= all);
        }
        assert(vec_words(terms@) =~= all.take(n));
    }
    let sep = chars_of(", ");
    let joined = join_chars(&terms, sep.as_slice());
    assert(terms@.map_values(|p: Vec<char>| p@) =~= vec_words(terms@));
    string_of(joined.as_slice())
}

// ─────────────────────────────────────────────────────────────────────────────
// Laws
// ─────────────────────────────────────────────────────────────────────────────

proof fn lemma_inactive_no_variants(entries: Seq<DictEntry>, e: int)
    requires
        0 <= e,
        forall|i: int| 0 <= i < entries.len() ==> !entry_active(#[trigger] entries[i]),
    ensures
        variants_from(entries, e).len() == 0,
    decreases entries.len() - e,
{
    if e < entries.len() {
        assert(!entry_active(entries[e]));
        lemma_inactive_no_variants(entries, e + 1);
    }
}

/// Disabled (or blank-replacement) entries, and no entries at all, leave the text
/// exactly as it was.
pub proof fn lemma_inactive_entries_inert(text: Seq<char>, entries: Seq<DictEntry>, s: DictSettings)
    requires
        forall|i: int| 0 <= i < entries.len() ==> !entry_active(#[trigger] entries[i]),
    ensures
        apply_spec(text, entries, s) == text,
{
    lemma_inactive_no_variants(entries, 0);
    assert(scan_spec(text, entries, s) == text);
}

/// The dictionary leaves the text exactly as it was when no entry is active (each is
/// disabled or has a blank replacement, or there are none) or when the text holds no
/// alphanumeric character.
pub proof fn lemma_dictionary_inert(text: Seq<char>, entries: Seq<DictEntry>, s: DictSettings)
    requires
        (forall|i: int| 0 <= i < entries.len() ==> !entry_active(#[trigger] entries[i])) || (forall|k: int|
            0 <= k < text.len() ==> !crate::text::alphanumeric(#[trigger] text[k])),
    ensures
        apply_spec(text, entries, s) == text,
{
    if forall|i: int| 0 <= i < entries.len() ==> !entry_active(#[trigger] entries[i]) {
        lemma_inactive_entries_inert(text, entries, s);
    } else {
        crate::text_match::lemma_no_alphanumeric_no_words(text);
        assert(scan_spec(text, entries, s) == text);
    }
}


/// Candidate `a` is at least as good as `b`: a longer span, else an exact match over
/// a fuzzy one, else an entry at least as early.
pub open spec fn cand_at_least(a: Cand, b: Cand) -> bool {
    ||| a.0 > b.0
    ||| (a.0 == b.0 && a.2 && !b.2)
    ||| (a.0 == b.0 && a.2 == b.2 && a.3 <= b.3)
}

/// `c` is what variant `vars[k]` yields at word `p`, for some `k`.
pub open spec fn cand_of_some_variant(
    ws: Seq<Seq<char>>,
    p: int,
    vars: Seq<VarV>,
    entries: Seq<DictEntry>,
    s: DictSettings,
    c: Cand,
    upto: int,
) -> bool {
    exists|k: int| 0 <= k < upto && #[trigger] cand_at(ws, p, vars[k], entries, s) == Some(c)
}

proof fn lemma_best_from_is_best(
    ws: Seq<Seq<char>>,
    p: int,
    vars: Seq<VarV>,
    vi: int,
    best: Option<Cand>,
    entries: Seq<DictEntry>,
    s: DictSettings,
)
    requires
        0 <= vi <= vars.len(),
        match best {
            Some(b) => cand_of_some_variant(ws, p, vars, entries, s, b, vi) && forall|j: int|
                0 <= j < vi && (#[trigger] cand_at(ws, p, vars[j], entries, s)) is Some ==> cand_at_least(
                    b,
                    cand_at(ws, p, vars[j], entries, s)->0,
                ),
            None => forall|j: int| 0 <= j < vi ==> (#[trigger] cand_at(ws, p, vars[j], entries, s)) is None,
        },
    ensures
        match best_from(ws, p, vars, vi, best, entries, s) {
            Some(b) => cand_of_some_variant(ws, p, vars, entries, s, b, vars.len() as int) && forall|j: int|
                0 <= j < vars.len() && (#[trigger] cand_at(ws, p, vars[j], entries, s)) is Some ==> cand_at_least(
                    b,
                    cand_at(ws, p, vars[j], entries, s)->0,
                ),
            None => forall|j: int| 0 <= j < vars.len() ==> (#[trigger] cand_at(ws, p, vars[j], entries, s)) is None,
        },
    decreases vars.len() - vi,
{
    if vi < vars.len() {
        let next = match cand_at(ws, p, vars[vi], entries, s) {
            None => best,
            Some(c) => match best {
                None => Some(c),
                Some(prev) => Some(pick_better_spec(prev, c)),
            },
        };
        match best {
            Some(b) => {
                let k0 = choose|k: int| 0 <= k < vi && #[trigger] cand_at(ws, p, vars[k], entries, s) == Some(b);
                assert(cand_at(ws, p, vars[k0], entries, s) == Some(b));
            },
            None => {},
        }
        match cand_at(ws, p, vars[vi], entries, s) {
            Some(c) => {
                assert(cand_at(ws, p, vars[vi], entries, s) == Some(c));
            },
            None => {},
        }
        lemma_best_from_is_best(ws, p, vars, vi + 1, next, entries, s);
    }
}

/// The candidate chosen at a word is one that some variant yields there, and it is at
/// least as good as every candidate there: longest span, then exact over fuzzy, then
/// earliest entry. None is chosen exactly when no variant matches at that word.
pub proof fn lemma_best_match_is_best(
    ws: Seq<Seq<char>>,
    p: int,
    vars: Seq<VarV>,
    entries: Seq<DictEntry>,
    s: DictSettings,
)
    ensures
        match best_match_spec(ws, p, vars, entries, s) {
            Some(b) => cand_of_some_variant(ws, p, vars, entries, s, b, vars.len() as int) && forall|j: int|
                0 <= j < vars.len() && (#[trigger] cand_at(ws, p, vars[j], entries, s)) is Some ==> cand_at_least(
                    b,
                    cand_at(ws, p, vars[j], entries, s)->0,
                ),
            None => forall|j: int| 0 <= j < vars.len() ==> (#[trigger] cand_at(ws, p, vars[j], entries, s)) is None,
        },
{
    lemma_best_from_is_best(ws, p, vars, 0, None, entries, s);
}


proof fn lemma_forms_variants_nonempty(forms: Seq<Seq<char>>, f: int, order: int)
    requires
        0 <= f,
    ensures
        forall|k: int| 0 <= k < forms_variants(forms, f, order).len() ==> (#[trigger] forms_variants(
            forms,
            f,
            order,
        )[k]).0.len() >= 1,
    decreases forms.len() - f,
{
    if f < forms.len() {
        lemma_forms_variants_nonempty(forms, f + 1, order);
        let rest = forms_variants(forms, f + 1, order);
        if words(forms[f]).len() > 0 {
            let all = seq![(words(forms[f]), order)] + rest;
            assert forall|k: int| 0 <= k < all.len() implies (#[trigger] all[k]).0.len() >= 1 by {
                if k > 0 {
                    assert(all[k] == rest[k - 1]);
                }
            }
        }
    }
}

proof fn lemma_variants_nonempty(entries: Seq<DictEntry>, e: int)
    requires
        0 <= e,
    ensures
        forall|k: int| 0 <= k < variants_from(entries, e).len() ==> (#[trigger] variants_from(entries, e)[k]).0.len() >= 1,
    decreases entries.len() - e,
{
    if e < entries.len() {
        lemma_variants_nonempty(entries, e + 1);
        let rest = variants_from(entries, e + 1);
        if entry_active(entries[e]) {
            let mine = forms_variants(entry_forms(entries[e]), 0, e);
            lemma_forms_variants_nonempty(entry_forms(entries[e]), 0, e);
            let all = mine + rest;
            assert forall|k: int| 0 <= k < all.len() implies (#[trigger] all[k]).0.len() >= 1 by {
                if k < mine.len() {
                    assert(all[k] == mine[k]);
                } else {
                    assert(all[k] == rest[k - mine.len()]);
                }
            }
        }
    }
}

/// Position `q` lies inside a span the plan replaces.
pub open spec fn in_placed_span(plan: Map<usize, (usize, Seq<char>)>, q: int) -> bool {
    exists|p: usize| #[trigger] plan.contains_key(p) && p <= q < p + plan[p].0
}

/// What the scan's plan is, directly: every placed span starts where the best match
/// is and has its length and replacement; spans are disjoint and lie among the words
/// seen (`upto`); and every word position before `upto` where some variant matches
/// lies inside a placed span.
pub open spec fn plan_placed(
    ws: Seq<Seq<char>>,
    vars: Seq<VarV>,
    entries: Seq<DictEntry>,
    s: DictSettings,
    plan: Map<usize, (usize, Seq<char>)>,
    upto: int,
) -> bool {
    &&& forall|p: usize|
        #[trigger] plan.contains_key(p) ==> p + plan[p].0 <= upto && match best_match_spec(
            ws,
            p as int,
            vars,
            entries,
            s,
        ) {
            Some(c) => plan[p] == (c.0 as usize, c.1) && c.0 >= 1,
            None => false,
        }
    &&& forall|p: usize, q: usize|
        #[trigger] plan.contains_key(p) && #[trigger] plan.contains_key(q) && p < q ==> p + plan[p].0 <= q
    &&& forall|q: int|
        0 <= q < upto && (#[trigger] best_match_spec(ws, q, vars, entries, s)) is Some ==> in_placed_span(plan, q)
}

proof fn lemma_best_match_fits(ws: Seq<Seq<char>>, p: int, vars: Seq<VarV>, entries: Seq<DictEntry>, s: DictSettings)
    requires
        forall|k: int| 0 <= k < vars.len() ==> (#[trigger] vars[k]).0.len() >= 1,
        best_match_spec(ws, p, vars, entries, s) is Some,
    ensures
        (best_match_spec(ws, p, vars, entries, s)->0).0 >= 1,
        p + (best_match_spec(ws, p, vars, entries, s)->0).0 <= ws.len(),
{
    lemma_best_match_is_best(ws, p, vars, entries, s);
    let c = best_match_spec(ws, p, vars, entries, s)->0;
    let k = choose|k: int| 0 <= k < vars.len() && #[trigger] cand_at(ws, p, vars[k], entries, s) == Some(c);
    assert(vars[k].0.len() >= 1);
}

proof fn lemma_plan_acc_placed(
    ws: Seq<Seq<char>>,
    p: int,
    acc: Map<usize, (usize, Seq<char>)>,
    vars: Seq<VarV>,
    entries: Seq<DictEntry>,
    s: DictSettings,
)
    requires
        0 <= p <= ws.len(),
        ws.len() <= usize::MAX,
        forall|k: int| 0 <= k < vars.len() ==> (#[trigger] vars[k]).0.len() >= 1,
        plan_placed(ws, vars, entries, s, acc, p),
    ensures
        plan_placed(ws, vars, entries, s, plan_acc(ws, p, acc, vars, entries, s), ws.len() as int),
    decreases ws.len() - p,
{
    if p < ws.len() {
        match best_match_spec(ws, p, vars, entries, s) {
            None => {
                assert forall|q: int|
                    0 <= q < p + 1 && (#[trigger] best_match_spec(ws, q, vars, entries, s)) is Some implies in_placed_span(acc, q) by {
                    if q < p {
                    }
                }
                lemma_plan_acc_placed(ws, p + 1, acc, vars, entries, s);
            },
            Some(c) => {
                lemma_best_match_fits(ws, p, vars, entries, s);
                let pu = p as usize;
                let acc2 = acc.insert(pu, (c.0 as usize, c.1));
                let up2 = p + c.0;
                assert forall|x: usize| #[trigger] acc2.contains_key(x) implies x + acc2[x].0 <= up2 && match best_match_spec(
                    ws,
                    x as int,
                    vars,
                    entries,
                    s,
                ) {
                    Some(d) => acc2[x] == (d.0 as usize, d.1) && d.0 >= 1,
                    None => false,
                } by {
                    if x != pu {
                        assert(acc.contains_key(x));
                    }
                }
                assert forall|x: usize, y: usize|
                    #[trigger] acc2.contains_key(x) && #[trigger] acc2.contains_key(y) && x < y implies x + acc2[x].0 <= y by {
                    if x != pu && y != pu {
                        assert(acc.contains_key(x) && acc.contains_key(y));
                    } else if x != pu {
                        assert(acc.contains_key(x));
                    } else {
                        assert(acc.contains_key(y));
                    }
                }
                assert forall|q: int|
                    0 <= q < up2 && (#[trigger] best_match_spec(ws, q, vars, entries, s)) is Some implies in_placed_span(acc2, q) by {
                    if q < p {
                        assert(in_placed_span(acc, q));
                        let w = choose|w: usize| #[trigger] acc.contains_key(w) && w <= q < w + acc[w].0;
                        assert(acc2.contains_key(w) && acc2[w] == acc[w]);
                    } else {
                        assert(acc2.contains_key(pu) && pu <= q < pu + acc2[pu].0);
                    }
                }
                lemma_plan_acc_placed(ws, up2, acc2, vars, entries, s);
            },
        }
    }
}

/// The scan's plan, stated directly: a span is placed where the best match begins
/// (longest span, then exact over fuzzy, then earlier entry), with that match's
/// length and cased replacement; placed spans never overlap (a match inside a placed
/// span is not applied, so nothing cascades); and every word where some form matches
/// lies inside a placed span.
pub proof fn lemma_scan_plan(ws: Seq<Seq<char>>, entries: Seq<DictEntry>, s: DictSettings)
    requires
        ws.len() <= usize::MAX,
    ensures
        plan_placed(
            ws,
            variants(entries),
            entries,
            s,
            plan_acc(ws, 0, Map::empty(), variants(entries), entries, s),
            ws.len() as int,
        ),
{
    lemma_variants_nonempty(entries, 0);
    lemma_plan_acc_placed(ws, 0, Map::empty(), variants(entries), entries, s);
}


/// A token matches a variant word fuzzily only when fuzzy matching is on both
/// globally and for the entry; with it off globally, a token matches exactly when it
/// equals the variant word (compared without case unless the entry is
/// case-sensitive), and every match is exact.
pub proof fn lemma_fuzzy_needs_both_switches(word: Seq<char>, vw: Seq<char>, e: DictEntry, s: DictSettings)
    ensures
        word_eq_spec(word, vw, e, s) == Some(false) ==> s.fuzzy_enabled_globally && e.fuzzy,
        !s.fuzzy_enabled_globally ==> (word_eq_spec(word, vw, e, s) is Some <==> (if e.case_sensitive {
            word == vw
        } else {
            lowercase_of(word) == lowercase_of(vw)
        })),
        !s.fuzzy_enabled_globally && word_eq_spec(word, vw, e, s) is Some ==> word_eq_spec(word, vw, e, s)
            == Some(true),
        (word_eq_spec(word, vw, e, s) == Some(true)) <==> (if e.case_sensitive {
            word == vw
        } else {
            lowercase_of(word) == lowercase_of(vw)
        }),
        word_eq_spec(word, vw, e, s) == Some(false) ==> fuzzy_spec(word, vw, s.fuzzy_max_distance),
        s.fuzzy_enabled_globally && e.fuzzy && fuzzy_spec(word, vw, s.fuzzy_max_distance) ==> word_eq_spec(
            word,
            vw,
            e,
            s,
        ) is Some,
{
}


/// The entries with every entry's own fuzzy switch turned off.
pub open spec fn without_fuzzy(entries: Seq<DictEntry>) -> Seq<DictEntry> {
    entries.map_values(|e: DictEntry| DictEntry { fuzzy: false, ..e })
}

proof fn lemma_match_from_unfuzzy(
    ws: Seq<Seq<char>>,
    p: int,
    vw: Seq<Seq<char>>,
    off: int,
    e: DictEntry,
    e2: DictEntry,
    s: DictSettings,
)
    requires
        !s.fuzzy_enabled_globally,
        e2.case_sensitive == e.case_sensitive,
    ensures
        match_from(ws, p, vw, off, e2, s) == match_from(ws, p, vw, off, e, s),
    decreases vw.len() - off,
{
    if 0 <= off < vw.len() {
        lemma_match_from_unfuzzy(ws, p, vw, off + 1, e, e2, s);
    }
}

proof fn lemma_forms_variants_order(forms: Seq<Seq<char>>, f: int, order: int)
    ensures
        forall|k: int| 0 <= k < forms_variants(forms, f, order).len() ==> (#[trigger] forms_variants(forms, f, order)[k]).1
            == order,
    decreases forms.len() - f,
{
    if 0 <= f < forms.len() {
        lemma_forms_variants_order(forms, f + 1, order);
        let rest = forms_variants(forms, f + 1, order);
        if words(forms[f]).len() > 0 {
            let all = seq![(words(forms[f]), order)] + rest;
            assert forall|k: int| 0 <= k < all.len() implies (#[trigger] all[k]).1 == order by {
                if k > 0 {
                    assert(all[k] == rest[k - 1]);
                }
            }
        }
    }
}

proof fn lemma_variants_unfuzzy(entries: Seq<DictEntry>, e: int)
    requires
        0 <= e,
    ensures
        variants_from(without_fuzzy(entries), e) == variants_from(entries, e),
        forall|k: int| 0 <= k < variants_from(entries, e).len() ==> e <= (#[trigger] variants_from(entries, e)[k]).1
            < entries.len(),
    decreases entries.len() - e,
{
    if e < entries.len() {
        lemma_variants_unfuzzy(entries, e + 1);
        let w = without_fuzzy(entries);
        assert(w[e] == DictEntry { fuzzy: false, ..entries[e] });
        assert(entry_active(w[e]) == entry_active(entries[e]));
        assert(entry_forms(w[e]) == entry_forms(entries[e]));
        let rest = variants_from(entries, e + 1);
        if entry_active(entries[e]) {
            let mine = forms_variants(entry_forms(entries[e]), 0, e);
            lemma_forms_variants_order(entry_forms(entries[e]), 0, e);
            let all = mine + rest;
            assert forall|k: int| 0 <= k < all.len() implies e <= (#[trigger] all[k]).1 < entries.len() by {
                if k < mine.len() {
                    assert(all[k] == mine[k]);
                } else {
                    assert(all[k] == rest[k - mine.len()]);
                }
            }
        }
    }
}

proof fn lemma_best_from_unfuzzy(
    ws: Seq<Seq<char>>,
    p: int,
    vars: Seq<VarV>,
    vi: int,
    best: Option<Cand>,
    entries: Seq<DictEntry>,
    s: DictSettings,
)
    requires
        forall|k: int| 0 <= k < vars.len() ==> cand_at(ws, p, #[trigger] vars[k], without_fuzzy(entries), s) == cand_at(
            ws,
            p,
            vars[k],
            entries,
            s,
        ),
    ensures
        best_from(ws, p, vars, vi, best, without_fuzzy(entries), s) == best_from(ws, p, vars, vi, best, entries, s),
    decreases vars.len() - vi,
{
    if 0 <= vi < vars.len() {
        assert(cand_at(ws, p, vars[vi], without_fuzzy(entries), s) == cand_at(ws, p, vars[vi], entries, s));
        let next = match cand_at(ws, p, vars[vi], entries, s) {
            None => best,
            Some(c) => match best {
                None => Some(c),
                Some(prev) => Some(pick_better_spec(prev, c)),
            },
        };
        lemma_best_from_unfuzzy(ws, p, vars, vi + 1, next, entries, s);
    }
}

proof fn lemma_plan_acc_unfuzzy(
    ws: Seq<Seq<char>>,
    p: int,
    acc: Map<usize, (usize, Seq<char>)>,
    vars: Seq<VarV>,
    entries: Seq<DictEntry>,
    s: DictSettings,
)
    requires
        !s.fuzzy_enabled_globally,
        forall|k: int| 0 <= k < vars.len() ==> 0 <= (#[trigger] vars[k]).1 < entries.len(),
    ensures
        plan_acc(ws, p, acc, vars, without_fuzzy(entries), s) == plan_acc(ws, p, acc, vars, entries, s),
    decreases ws.len() - p,
{
    if 0 <= p < ws.len() {
        let w = without_fuzzy(entries);
        assert forall|k: int| 0 <= k < vars.len() implies cand_at(ws, p, #[trigger] vars[k], w, s) == cand_at(
            ws,
            p,
            vars[k],
            entries,
            s,
        ) by {
            let i = vars[k].1;
            assert(w[i] == DictEntry { fuzzy: false, ..entries[i] });
            lemma_match_from_unfuzzy(ws, p, vars[k].0, 0, entries[i], w[i], s);
        }
        lemma_best_from_unfuzzy(ws, p, vars, 0, None, entries, s);
        match best_match_spec(ws, p, vars, entries, s) {
            None => {
                lemma_plan_acc_unfuzzy(ws, p + 1, acc, vars, entries, s);
            },
            Some(c) => {
                if c.0 >= 1 && p + c.0 <= ws.len() {
                    lemma_plan_acc_unfuzzy(
                        ws,
                        p + c.0,
                        acc.insert(p as usize, (c.0 as usize, c.1)),
                        vars,
                        entries,
                        s,
                    );
                }
            },
        }
    }
}

proof fn lemma_scan_unfuzzy(text: Seq<char>, entries: Seq<DictEntry>, s: DictSettings)
    requires
        !s.fuzzy_enabled_globally,
    ensures
        scan_spec(text, without_fuzzy(entries), s) == scan_spec(text, entries, s),
{
    lemma_variants_unfuzzy(entries, 0);
    let ws = words_of(tokens(text), 0);
    lemma_plan_acc_unfuzzy(ws, 0, Map::empty(), variants(entries), entries, s);
}

/// With fuzzy matching switched off globally, the entries' own fuzzy switches make no
/// difference: applying the dictionary gives what it gives with every entry's fuzzy
/// switch off, so only exact matches are replaced.
pub proof fn lemma_global_fuzzy_off_is_exact_only(text: Seq<char>, entries: Seq<DictEntry>, s: DictSettings)
    requires
        !s.fuzzy_enabled_globally,
    ensures
        apply_spec(text, entries, s) == apply_spec(text, without_fuzzy(entries), s),
{
    lemma_scan_unfuzzy(text, entries, s);
    lemma_scan_unfuzzy(scan_spec(text, entries, s), entries, s);
}


/// A replacement is inserted as written unless the entry is case-insensitive, the
/// replacement has no uppercase letter, and the matched word starts with an
/// uppercase letter; then only its first character is uppercased.
pub proof fn lemma_replacement_casing(matched: Seq<char>, rep: Seq<char>, case_sensitive: bool)
    ensures
        case_sensitive || any_upper(rep) || matched.len() == 0 || !uppercase(matched[0]) ==> match_case_spec(
            matched,
            rep,
            case_sensitive,
        ) == rep,
        !case_sensitive && !any_upper(rep) && matched.len() > 0 && uppercase(matched[0]) && rep.len() > 0
            ==> match_case_spec(matched, rep, case_sensitive) == uppercase_of(rep[0]) + rep.subrange(1, rep.len() as int),
{
}

} // verus!
