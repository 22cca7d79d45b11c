//! Snippets: voice-triggered text expansion. A spoken trigger expands to canned
//! text; matching is whole-phrase, word-boundary, case- and accent-insensitive,
//! longest trigger first, and an inserted expansion is never re-scanned.

use std::collections::HashMap;
use unicode_normalization::UnicodeNormalization;
use vstd::prelude::*;

use crate::text::{
    append_chars, chars_eq, chars_of, char_to_uppercase, is_blank, join, join_chars, lowercase_of,
    slice_range, split_whitespace, string_of, to_lowercase, trim, uppercase_of, words,
};
use crate::text_match::{
    lemma_empty_plan_identity, plan_view, rebuild, reconstruct, tokenize_chars, tokens, toks_view,
    words_of, Plan, Tok,
};
use crate::hotkey::split_on;

verus! {

broadcast use vstd::std_specs::hash::group_hash_axioms;

/// Where a trigger may match within an utterance.
#[derive(Clone, Copy, Debug, PartialEq, Eq, Default, Structural)]
pub enum SnippetAnchor {
    #[default]
    Anywhere,
    StartOnly,
}

/// Optional case transform on insert.
#[derive(Clone, Copy, Debug, PartialEq, Eq, Default, Structural)]
pub enum SnippetCase {
    #[default]
    Verbatim,
    MatchSentence,
}

/// A user-defined expansion.
#[derive(Clone, Debug, PartialEq, Eq)]
pub struct Snippet {
    pub id: String,
    pub trigger: String,
    pub expansion: String,
    pub anchor: SnippetAnchor,
    pub case: SnippetCase,
    pub enabled: bool,
}

impl Default for Snippet {
    fn default() -> (s: Self)
        ensures
            s.id@ == Seq::<char>::empty(),
            s.trigger@ == Seq::<char>::empty(),
            s.expansion@ == Seq::<char>::empty(),
            s.anchor == SnippetAnchor::Anywhere,
            s.case == SnippetCase::Verbatim,
            s.enabled,
    {
        Snippet {
            id: String::new(),
            trigger: String::new(),
            expansion: String::new(),
            anchor: SnippetAnchor::Anywhere,
            case: SnippetCase::Verbatim,
            enabled: true,
        }
    }
}

/// The result of expanding an utterance: the new text and the triggers that fired.
#[derive(Clone, Debug, PartialEq, Eq)]
pub struct ExpansionResult {
    pub output: String,
    pub applied_triggers: Vec<String>,
}

pub open spec fn strings_view(v: Seq<String>) -> Seq<Seq<char>> {
    v.map_values(|s: String| s@)
}

pub open spec fn validate_snippet_spec(s: Snippet) -> Result<(), Seq<char>> {
    if trim(s.trigger@).len() == 0 {
        Err("trigger cannot be empty"@)
    } else if trim(s.expansion@).len() == 0 {
        Err("expansion cannot be empty"@)
    } else {
        Ok(())
    }
}

/// Reject a blank trigger or a blank expansion.
pub fn validate_snippet(snippet: &Snippet) -> (r: Result<(), String>)
    ensures
        crate::dictionary::unit_result_view(r) == validate_snippet_spec(*snippet),
{
    if is_blank(snippet.trigger.as_str()) {
        return Err(String::from_str("trigger cannot be empty"));
    }
    if is_blank(snippet.expansion.as_str()) {
        return Err(String::from_str("expansion cannot be empty"));
    }
    Ok(())
}

// ─────────────────────────────────────────────────────────────────────────────
// Folding
// ─────────────────────────────────────────────────────────────────────────────

/// The canonical decomposition (NFD) of a string, as `unicode_normalization` yields it.
pub uninterp spec fn nfd_of(s: Seq<char>) -> Seq<char>;

/// `UnicodeNormalization::nfd`, collected. Claims: the result is the named canonical
/// decomposition of `s`, and an all-ASCII string is its own decomposition (7-bit
/// ASCII never decomposes and has combining class 0, so nothing is reordered).
#[verifier::external_body]
fn nfd(s: &str) -> (r: String)
    ensures
        r@ == nfd_of(s@),
        crate::text::all_ascii(s@) ==> r@ == s@,
{
    s.nfd().collect()
}

pub open spec fn is_combining_mark(c: char) -> bool {
    0x0300 <= (c as u32) <= 0x036F
}

/// The characters of `s` that are not combining diacritical marks (U+0300..=U+036F).
pub open spec fn strip_marks(s: Seq<char>) -> Seq<char>
    decreases s.len(),
{
    if s.len() == 0 {
        Seq::empty()
    } else if is_combining_mark(s.last()) {
        strip_marks(s.drop_last())
    } else {
        strip_marks(s.drop_last()).push(s.last())
    }
}

/// A token's match key: decompose, drop combining marks, lowercase.
pub open spec fn fold_spec(s: Seq<char>) -> Seq<char> {
    lowercase_of(strip_marks(nfd_of(s)))
}

/// The match key of text that is already decomposed: drop the combining marks, then
/// lowercase what is left.
pub fn fold_decomposed(decomposed: &str) -> (r: String)
    ensures
        r@ == lowercase_of(strip_marks(decomposed@)),
{
    let dc = chars_of(decomposed);
    let mut kept: Vec<char> = Vec::new();
    let mut i: usize = 0;
    while i < dc.len()
        invariant
            i <= dc@.len(),
            dc@ == decomposed@,
            kept@ == strip_marks(dc@.take(i as int)),
        decreases dc@.len() - i,
    {
        let c = dc[i];
        let cu = c as u32;
        assert(dc@.take(i + 1).drop_last() =~= dc@.take(i as int));
        if !(0x0300 <= cu && cu <= 0x036F) {
            kept.push(c);
        }
        i = i + 1;
    }
    assert(dc@.take(dc@.len() as int) =~= dc@);
    let ks = string_of(kept.as_slice());
    to_lowercase(ks.as_str())
}

fn fold(token: &str) -> (r: Vec<char>)
    ensures
        r@ == fold_spec(token@),
{
    let d = nfd(token);
    let f = fold_decomposed(d.as_str());
    chars_of(f.as_str())
}

/// The comparison key for a trigger phrase: fold, then collapse whitespace runs to
/// single spaces (trimming the ends).
pub open spec fn normalize_trigger_spec(t: Seq<char>) -> Seq<char> {
    join(words(fold_spec(t)), " "@)
}

fn normalize_trigger_chars(trigger: &str) -> (r: Vec<char>)
    ensures
        r@ == normalize_trigger_spec(trigger@),
{
    let f = fold(trigger);
    let ws = split_whitespace(f.as_slice());
    assert(ws@.map_values(|w: Vec<char>| w@) =~= words(f@));
    let sp = chars_of(" ");
    join_chars(&ws, sp.as_slice())
}

/// The comparison key for a trigger phrase: fold + collapse internal whitespace.
pub fn normalize_trigger(trigger: &str) -> (r: String)
    ensures
        r@ == normalize_trigger_spec(trigger@),
{
    let v = normalize_trigger_chars(trigger);
    string_of(v.as_slice())
}

pub open spec fn duplicate_trigger_spec(snippets: Seq<Snippet>, candidate: Snippet, exclude_id: Seq<
    char,
>) -> bool {
    exists|i: int|
        0 <= i < snippets.len() && snippets[i].id@ != exclude_id && #[trigger] normalize_trigger_spec(
            snippets[i].trigger@,
        ) == normalize_trigger_spec(candidate.trigger@)
}

/// True if another snippet (any id but `exclude_id`) already uses `candidate`'s
/// normalized trigger.
pub fn duplicate_trigger(snippets: &[Snippet], candidate: &Snippet, exclude_id: &str) -> (b: bool)
    ensures
        b == duplicate_trigger_spec(snippets@, *candidate, exclude_id@),
{
    let key = normalize_trigger_chars(candidate.trigger.as_str());
    let ex = chars_of(exclude_id);
    let mut i: usize = 0;
    while i < snippets.len()
        invariant
            i <= snippets@.len(),
            key@ == normalize_trigger_spec(candidate.trigger@),
            ex@ == exclude_id@,
            forall|k: int|
                0 <= k < i ==> !(snippets@[k].id@ != exclude_id@ && #[trigger] normalize_trigger_spec(
                    snippets@[k].trigger@,
                ) == normalize_trigger_spec(candidate.trigger@)),
        decreases snippets@.len() - i,
    {
        let id = chars_of(snippets[i].id.as_str());
        if !chars_eq(id.as_slice(), ex.as_slice()) {
            let k2 = normalize_trigger_chars(snippets[i].trigger.as_str());
            if chars_eq(k2.as_slice(), key.as_slice()) {
                return true;
            }
        }
        i = i + 1;
    }
    false
}

// ─────────────────────────────────────────────────────────────────────────────
// Compiled set
// ─────────────────────────────────────────────────────────────────────────────

/// A compiled snippet as a value: (folded trigger words, trigger, expansion, anchor, case).
pub type CompiledV = (Seq<Seq<char>>, Seq<char>, Seq<char>, SnippetAnchor, SnippetCase);

struct Compiled {
    words: Vec<Vec<char>>,
    trigger: String,
    expansion: String,
    anchor: SnippetAnchor,
    case: SnippetCase,
}

spec fn compiled_view(c: Compiled) -> CompiledV {
    (c.words@.map_values(|w: Vec<char>| w@), c.trigger@, c.expansion@, c.anchor, c.case)
}

/// The in-memory snippet set, longest trigger first so the most specific wins.
pub struct SnippetSet {
    compiled: Vec<Compiled>,
}

impl SnippetSet {
    /// The compiled entries, in match order.
    pub closed spec fn view(self) -> Seq<CompiledV> {
        self.compiled@.map_values(|c: Compiled| compiled_view(c))
    }

    /// Every compiled trigger has at least one word.
    pub closed spec fn wf(self) -> bool {
        forall|k: int| 0 <= k < self.compiled@.len() ==> (#[trigger] self.compiled@[k]).words@.len() >= 1
    }
}

/// The non-empty pieces of `s` split on single spaces.
pub open spec fn nonempty_pieces(ps: Seq<Seq<char>>) -> Seq<Seq<char>>
    decreases ps.len(),
{
    if ps.len() == 0 {
        Seq::empty()
    } else if ps.last().len() == 0 {
        nonempty_pieces(ps.drop_last())
    } else {
        nonempty_pieces(ps.drop_last()).push(ps.last())
    }
}

pub open spec fn snippet_usable(s: Snippet) -> bool {
    s.enabled && trim(s.trigger@).len() != 0 && trim(s.expansion@).len() != 0
}

pub open spec fn compile_one(s: Snippet) -> CompiledV {
    (nonempty_pieces(split_on(normalize_trigger_spec(s.trigger@), ' ')), s.trigger@, s.expansion@, s.anchor, s.case)
}

/// The usable snippets with a non-empty key, in input order.
pub open spec fn compiled_unsorted(snips: Seq<Snippet>) -> Seq<CompiledV>
    decreases snips.len(),
{
    if snips.len() == 0 {
        Seq::empty()
    } else {
        let rest = compiled_unsorted(snips.drop_last());
        let s = snips.last();
        if snippet_usable(s) && compile_one(s).0.len() > 0 {
            rest.push(compile_one(s))
        } else {
            rest
        }
    }
}

/// Index before which `x` is placed in the descending-by-word-count sequence `s`:
/// after every element with at least as many words.
pub open spec fn insert_pos(s: Seq<CompiledV>, n: nat, i: int) -> int
    decreases s.len() - i,
{
    if 0 <= i < s.len() && s[i].0.len() >= n {
        insert_pos(s, n, i + 1)
    } else {
        i
    }
}

/// Stable sort by trigger word count, descending (insertion order breaks ties).
pub open spec fn sort_desc(s: Seq<CompiledV>) -> Seq<CompiledV>
    decreases s.len(),
{
    if s.len() == 0 {
        Seq::empty()
    } else {
        let sorted = sort_desc(s.drop_last());
        let x = s.last();
        let p = insert_pos(sorted, x.0.len(), 0);
        sorted.insert(p, x)
    }
}

pub open spec fn compile_spec(snips: Seq<Snippet>) -> Seq<CompiledV> {
    sort_desc(compiled_unsorted(snips))
}

proof fn lemma_insert_pos_bounds(s: Seq<CompiledV>, n: nat, i: int)
    requires
        0 <= i <= s.len(),
    ensures
        i <= insert_pos(s, n, i) <= s.len(),
    decreases s.len() - i,
{
    if i < s.len() && s[i].0.len() >= n {
        lemma_insert_pos_bounds(s, n, i + 1);
    }
}

fn nonempty_words(ps: &Vec<Vec<char>>) -> (r: Vec<Vec<char>>)
    ensures
        r@.map_values(|w: Vec<char>| w@) == nonempty_pieces(ps@.map_values(|w: Vec<char>| w@)),
{
    let ghost pv = ps@.map_values(|w: Vec<char>| w@);
    let mut out: Vec<Vec<char>> = Vec::new();
    let mut i: usize = 0;
    while i < ps.len()
        invariant
            i <= ps@.len(),
            pv == ps@.map_values(|w: Vec<char>| w@),
            out@.map_values(|w: Vec<char>| w@) == nonempty_pieces(pv.take(i as int)),
        decreases ps@.len() - i,
    {
        let ghost pre = out@.map_values(|w: Vec<char>| w@);
        assert(pv.take(i + 1).drop_last() =~= pv.take(i as int));
        assert(pv.take(i + 1).last() == pv[i as int]);
        if ps[i].len() > 0 {
            let w = slice_range(ps[i].as_slice(), 0, ps[i].len());
            assert(w@ =~= pv[i as int]);
            out.push(w);
            assert(out@.map_values(|w: Vec<char>| w@) =~= pre.push(pv[i as int]));
        }
        i = i + 1;
    }
    assert(pv.take(ps@.len() as int) =~= pv);
    out
}

fn copy_compiled(c: &Compiled) -> (r: Compiled)
    ensures
        compiled_view(r) == compiled_view(*c),
{
    let mut ws: Vec<Vec<char>> = Vec::new();
    let mut i: usize = 0;
    while i < c.words.len()
        invariant
            i <= c.words@.len(),
            ws@.map_values(|w: Vec<char>| w@) == c.words@.map_values(|w: Vec<char>| w@).take(
                i as int,
            ),
        decreases c.words@.len() - i,
    {
        let ghost pre = ws@.map_values(|w: Vec<char>| w@);
        let w = slice_range(c.words[i].as_slice(), 0, c.words[i].len());
        assert(w@ =~= c.words@[i as int]@);
        ws.push(w);
        assert(ws@.map_values(|w: Vec<char>| w@) =~= pre.push(c.words@[i as int]@));
        i = i + 1;
        assert(c.words@.map_values(|w: Vec<char>| w@).take(i as int) =~= pre.push(
            c.words@[i - 1]@,
        ));
    }
    assert(c.words@.map_values(|w: Vec<char>| w@).take(c.words@.len() as int) =~= c.words@.map_values(
        |w: Vec<char>| w@,
    ));
    Compiled {
        words: ws,
        trigger: String::from_str(c.trigger.as_str()),
        expansion: String::from_str(c.expansion.as_str()),
        anchor: c.anchor,
        case: c.case,
    }
}

/// Filter enabled snippets, fold triggers, sort longest-trigger-first (stable).
pub fn compile_snippets(snippets: &[Snippet]) -> (set: SnippetSet)
    ensures
        set@ == compile_spec(snippets@),
        set.wf(),
{
    let mut unsorted: Vec<Compiled> = Vec::new();
    let mut i: usize = 0;
    while i < snippets.len()
        invariant
            i <= snippets@.len(),
            unsorted@.map_values(|c: Compiled| compiled_view(c)) == compiled_unsorted(
                snippets@.take(i as int),
            ),
            forall|k: int| 0 <= k < unsorted@.len() ==> (#[trigger] unsorted@[k]).words@.len() >= 1,
        decreases snippets@.len() - i,
    {
        let s = &snippets[i];
        let ghost pre = unsorted@.map_values(|c: Compiled| compiled_view(c));
        assert(snippets@.take(i + 1).drop_last() =~= snippets@.take(i as int));
        assert(snippets@.take(i + 1).last() == snippets@[i as int]);
        if s.enabled && !is_blank(s.trigger.as_str()) && !is_blank(s.expansion.as_str()) {
            let key = normalize_trigger_chars(s.trigger.as_str());
            let pieces = crate::hotkey::split_char(key.as_slice(), ' ');
            assert(pieces@.map_values(|w: Vec<char>| w@) =~= split_on(key@, ' '));
            let ws = nonempty_words(&pieces);
            if ws.len() > 0 {
                let c = Compiled {
                    words: ws,
                    trigger: String::from_str(s.trigger.as_str()),
                    expansion: String::from_str(s.expansion.as_str()),
                    anchor: s.anchor,
                    case: s.case,
                };
                assert(compiled_view(c) == compile_one(snippets@[i as int]));
                unsorted.push(c);
                assert(unsorted@.map_values(|c: Compiled| compiled_view(c)) =~= pre.push(
                    compile_one(snippets@[i as int]),
                ));
            }
        }
        i = i + 1;
    }
    assert(snippets@.take(snippets@.len() as int) =~= snippets@);
    let ghost uv = unsorted@.map_values(|c: Compiled| compiled_view(c));
    let mut sorted: Vec<Compiled> = Vec::new();
    let mut j: usize = 0;
    while j < unsorted.len()
        invariant
            j <= unsorted@.len(),
            uv == unsorted@.map_values(|c: Compiled| compiled_view(c)),
            sorted@.map_values(|c: Compiled| compiled_view(c)) == sort_desc(uv.take(j as int)),
            forall|k: int| 0 <= k < unsorted@.len() ==> (#[trigger] unsorted@[k]).words@.len() >= 1,
            forall|k: int| 0 <= k < sorted@.len() ==> (#[trigger] sorted@[k]).words@.len() >= 1,
        decreases unsorted@.len() - j,
    {
        let ghost sv = sorted@.map_values(|c: Compiled| compiled_view(c));
        let n = unsorted[j].words.len();
        let mut pos: usize = 0;
        while pos < sorted.len() && sorted[pos].words.len() >= n
            invariant
                pos <= sorted@.len(),
                sv == sorted@.map_values(|c: Compiled| compiled_view(c)),
                n == unsorted@[j as int].words@.len(),
                insert_pos(sv, n as nat, pos as int) == insert_pos(sv, n as nat, 0),
            decreases sorted@.len() - pos,
        {
            assert(sv[pos as int].0.len() == sorted@[pos as int].words@.len());
            pos = pos + 1;
        }
        proof {
            if pos < sorted@.len() {
                assert(sv[pos as int].0.len() == sorted@[pos as int].words@.len());
            }
        }
        let c = copy_compiled(&unsorted[j]);
        sorted.insert(pos, c);
        proof {
            assert(uv.take(j + 1).drop_last() =~= uv.take(j as int));
            assert(uv.take(j + 1).last() == uv[j as int]);
            assert(uv[j as int] == compiled_view(unsorted@[j as int]));
            assert(sorted@.map_values(|c: Compiled| compiled_view(c)) =~= sv.insert(
                pos as int,
                uv[j as int],
            ));
            assert forall|k: int| 0 <= k < sorted@.len() implies (#[trigger] sorted@[k]).words@.len()
                >= 1 by {
                if k < pos {
                } else if k == pos {
                    assert(compiled_view(sorted@[k]).0.len() == sorted@[k].words@.len());
                } else {
                }
            }
        }
        j = j + 1;
    }
    assert(uv.take(unsorted@.len() as int) =~= uv);
    SnippetSet { compiled: sorted }
}

// ─────────────────────────────────────────────────────────────────────────────
// Expansion
// ─────────────────────────────────────────────────────────────────────────────

/// `MatchSentence` capitalizes the first character when the match begins the
/// utterance; otherwise the expansion is inserted verbatim.
pub open spec fn apply_case_spec(e: Seq<char>, case: SnippetCase, at_start: bool) -> Seq<char> {
    if case == SnippetCase::Verbatim || !at_start {
        e
    } else if e.len() == 0 {
        Seq::empty()
    } else {
        uppercase_of(e[0]) + e.drop_first()
    }
}

fn apply_case(expansion: &str, case: SnippetCase, at_start: bool) -> (r: Vec<char>)
    ensures
        r@ == apply_case_spec(expansion@, case, at_start),
{
    let e = chars_of(expansion);
    if case == SnippetCase::Verbatim || !at_start {
        return e;
    }
    if e.len() == 0 {
        return Vec::new();
    }
    let first = char_to_uppercase(e[0]);
    let mut out = chars_of(first.as_str());
    let rest = slice_range(e.as_slice(), 1, e.len());
    append_chars(&mut out, rest.as_slice());
    assert(rest@ =~= e@.drop_first());
    out
}

/// Whether compiled snippet `c` matches the folded words at `p`.
pub open spec fn matches_at_spec(folded: Seq<Seq<char>>, p: int, c: CompiledV) -> bool {
    !(c.3 == SnippetAnchor::StartOnly && p != 0) && p + c.0.len() <= folded.len()
        && folded.subrange(p, p + c.0.len()) == c.0
}

/// The first compiled snippet (from index `ci` on) that matches at `p`.
pub open spec fn find_from(folded: Seq<Seq<char>>, p: int, set: Seq<CompiledV>, ci: int) -> Option<
    CompiledV,
>
    decreases set.len() - ci,
{
    if ci < 0 || ci >= set.len() {
        None
    } else if matches_at_spec(folded, p, set[ci]) {
        Some(set[ci])
    } else {
        find_from(folded, p, set, ci + 1)
    }
}

/// The plan and the fired triggers, placed left to right.
pub open spec fn expand_acc(
    folded: Seq<Seq<char>>,
    p: int,
    acc: (Map<usize, (usize, Seq<char>)>, Seq<Seq<char>>),
    set: Seq<CompiledV>,
) -> (Map<usize, (usize, Seq<char>)>, Seq<Seq<char>>)
    decreases folded.len() - p,
{
    if p < 0 || p >= folded.len() {
        acc
    } else {
        match find_from(folded, p, set, 0) {
            None => expand_acc(folded, p + 1, acc, set),
            Some(c) => if c.0.len() < 1 || p + c.0.len() > folded.len() {
                acc
            } else {
                expand_acc(
                    folded,
                    p + c.0.len(),
                    (
                        acc.0.insert(p as usize, (c.0.len() as usize, apply_case_spec(c.2, c.4, p == 0))),
                        acc.1.push(c.1),
                    ),
                    set,
                )
            },
        }
    }
}

/// What `expand_snippets` makes of `text`: (output, applied triggers).
pub open spec fn expand_spec(text: Seq<char>, set: Seq<CompiledV>) -> (Seq<char>, Seq<Seq<char>>) {
    let toks = tokens(text);
    let ws = words_of(toks, 0);
    if set.len() == 0 || ws.len() == 0 {
        (text, Seq::empty())
    } else {
        let folded = ws.map_values(|w: Seq<char>| fold_spec(w));
        let r = expand_acc(folded, 0, (Map::empty(), Seq::empty()), set);
        (rebuild(toks, r.0), r.1)
    }
}

/// Whether the words `cw` occur in `folded` starting at `p`.
fn words_at(folded: &Vec<Vec<char>>, p: usize, cw: &Vec<Vec<char>>) -> (ok: bool)
    ensures
        ok == (p + cw@.len() <= folded@.len() && folded@.map_values(|w: Vec<char>| w@).subrange(
            p as int,
            p + cw@.len(),
        ) == cw@.map_values(|w: Vec<char>| w@)),
{
    let ghost fv = folded@.map_values(|w: Vec<char>| w@);
    let ghost cv = cw@.map_values(|w: Vec<char>| w@);
    let k = cw.len();
    if p > folded.len() || k > folded.len() - p {
        return false;
    }
    let mut off: usize = 0;
    while off < k
        invariant
            off <= k,
            k == cw@.len(),
            p + k <= folded@.len() <= usize::MAX,
            fv == folded@.map_values(|w: Vec<char>| w@),
            cv == cw@.map_values(|w: Vec<char>| w@),
            forall|m: int| 0 <= m < off ==> fv[p + m] == cv[m],
        decreases k - off,
    {
        if !chars_eq(folded[p + off].as_slice(), cw[off].as_slice()) {
            assert(fv.subrange(p as int, p + k)[off as int] != cv[off as int]);
            return false;
        }
        off = off + 1;
    }
    assert(fv.subrange(p as int, p + k) =~= cv);
    true
}

proof fn lemma_find_from_some(folded: Seq<Seq<char>>, p: int, set: Seq<CompiledV>, ci: int)
    requires
        find_from(folded, p, set, ci) is Some,
    ensures
        matches_at_spec(folded, p, find_from(folded, p, set, ci)->0),
    decreases set.len() - ci,
{
    if ci < 0 || ci >= set.len() {
    } else if matches_at_spec(folded, p, set[ci]) {
    } else {
        lemma_find_from_some(folded, p, set, ci + 1);
    }
}

fn find_match(folded: &Vec<Vec<char>>, p: usize, set: &SnippetSet) -> (r: Option<usize>)
    requires
        set.wf(),
    ensures
        match r {
            Some(ci) => ci < set@.len() && find_from(
                folded@.map_values(|w: Vec<char>| w@),
                p as int,
                set@,
                0,
            ) == Some(set@[ci as int]) && matches_at_spec(
                folded@.map_values(|w: Vec<char>| w@),
                p as int,
                set@[ci as int],
            ),
            None => find_from(folded@.map_values(|w: Vec<char>| w@), p as int, set@, 0) is None,
        },
{
    let ghost fv = folded@.map_values(|w: Vec<char>| w@);
    let ghost sv = set@;
    let mut ci: usize = 0;
    while ci < set.compiled.len()
        invariant
            ci <= set.compiled@.len(),
            fv == folded@.map_values(|w: Vec<char>| w@),
            sv == set@,
            sv == set.compiled@.map_values(|c: Compiled| compiled_view(c)),
            find_from(fv, p as int, sv, ci as int) == find_from(fv, p as int, sv, 0),
        decreases set.compiled@.len() - ci,
    {
        let c = &set.compiled[ci];
        assert(sv[ci as int] == compiled_view(*c));
        let anchored_out = c.anchor == SnippetAnchor::StartOnly && p != 0;
        if !anchored_out && words_at(folded, p, &c.words) {
            proof {
                lemma_find_from_some(fv, p as int, sv, 0);
            }
            return Some(ci);
        }
        ci = ci + 1;
    }
    None
}

/// Expand snippet triggers in `text`: whole-phrase, word-boundary, longest-first; the
/// expansion is inserted and not re-scanned. Returns the new text and the triggers
/// that fired, in order.
pub fn expand_snippets(text: &str, set: &SnippetSet) -> (r: ExpansionResult)
    requires
        set.wf(),
    ensures
        (r.output@, strings_view(r.applied_triggers@)) == expand_spec(text@, set@),
{
    if set.compiled.len() == 0 {
        return ExpansionResult { output: String::from_str(text), applied_triggers: Vec::new() };
    }
    let chars = chars_of(text);
    let toks = tokenize_chars(chars.as_slice());
    let ghost tv = toks_view(toks@);
    let ghost ws = words_of(tv, 0);
    let mut words: Vec<Vec<char>> = Vec::new();
    let mut i: usize = 0;
    while i < toks.len()
        invariant
            i <= toks@.len(),
            tv == toks_view(toks@),
            ws == words_of(tv, 0),
            words@.map_values(|w: Vec<char>| w@) + words_of(tv, i as int) == ws,
        decreases toks@.len() - i,
    {
        let ghost pre = words@.map_values(|w: Vec<char>| w@);
        match &toks[i] {
            Tok::Word(w) => {
                words.push(chars_of(w.as_str()));
                assert(words@.map_values(|w: Vec<char>| w@) + words_of(tv, i + 1) =~= pre
                    + words_of(tv, i as int));
            },
            Tok::Sep(_) => {},
        }
        i = i + 1;
    }
    assert(words@.map_values(|w: Vec<char>| w@) =~= ws);
    if words.len() == 0 {
        return ExpansionResult { output: String::from_str(text), applied_triggers: Vec::new() };
    }
    let ghost fws = ws.map_values(|w: Seq<char>| fold_spec(w));
    let mut folded: Vec<Vec<char>> = Vec::new();
    let mut j: usize = 0;
    while j < words.len()
        invariant
            j <= words@.len(),
            words@.map_values(|w: Vec<char>| w@) == ws,
            fws == ws.map_values(|w: Seq<char>| fold_spec(w)),
            folded@.map_values(|w: Vec<char>| w@) == fws.take(j as int),
        decreases words@.len() - j,
    {
        let ws_j = string_of(words[j].as_slice());
        assert(words@[j as int]@ == ws[j as int]);
        let f = fold(ws_j.as_str());
        let ghost pre = folded@.map_values(|w: Vec<char>| w@);
        folded.push(f);
        assert(fws.take(j + 1) =~= fws.take(j as int).push(fws[j as int]));
        assert(folded@.map_values(|w: Vec<char>| w@) =~= fws.take(j + 1));
        j = j + 1;
    }
    assert(fws.take(words@.len() as int) =~= fws);
    let ghost sv = set@;
    let mut plan: Plan = HashMap::new();
    assert(plan_view(plan@) =~= Map::<usize, (usize, Seq<char>)>::empty());
    let mut applied: Vec<String> = Vec::new();
    assert(strings_view(applied@) =~= Seq::<Seq<char>>::empty());
    let mut placed = false;
    let mut p: usize = 0;
    while p < folded.len()
        invariant
            p <= folded@.len(),
            folded@.map_values(|w: Vec<char>| w@) == fws,
            sv == set@,
            set.wf(),
            sv == set.compiled@.map_values(|c: Compiled| compiled_view(c)),
            expand_acc(fws, p as int, (plan_view(plan@), strings_view(applied@)), sv)
                == expand_acc(fws, 0, (Map::empty(), Seq::empty()), sv),
            forall|q: usize|
                #[trigger] plan_view(plan@).contains_key(q) ==> 1 <= plan_view(plan@)[q].0 && q
                    + plan_view(plan@)[q].0 <= folded@.len(),
            !placed ==> plan_view(plan@) == Map::<usize, (usize, Seq<char>)>::empty(),
            !placed ==> applied@.len() == 0,
        decreases folded@.len() - p,
    {
        match find_match(&folded, p, set) {
            Some(ci) => {
                let c = &set.compiled[ci];
                assert(sv[ci as int] == compiled_view(*c));
                assert(set.compiled@[ci as int].words@.len() >= 1);
                let k = c.words.len();
                let repl_chars = apply_case(c.expansion.as_str(), c.case, p == 0);
                let repl = string_of(repl_chars.as_slice());
                let ghost before = plan_view(plan@);
                let ghost before_applied = strings_view(applied@);
                plan.insert(p, (k, repl));
                assert(plan_view(plan@) =~= before.insert(p, (k, repl_chars@)));
                applied.push(String::from_str(c.trigger.as_str()));
                assert(strings_view(applied@) =~= before_applied.push(c.trigger@));
                placed = true;
                p = p + k;
            },
            None => {
                p = p + 1;
            },
        }
    }
    if !placed {
        proof {
            lemma_empty_plan_identity(text@);
        }
        return ExpansionResult { output: String::from_str(text), applied_triggers: applied };
    }
    let output = reconstruct(toks.as_slice(), &plan);
    ExpansionResult { output, applied_triggers: applied }
}

// ─────────────────────────────────────────────────────────────────────────────
// The snippet list (create, update, delete)
// ─────────────────────────────────────────────────────────────────────────────

/// A snippet as plain values: (id, trigger, expansion, anchor, case, enabled).
pub type SnippetV = (Seq<char>, Seq<char>, Seq<char>, SnippetAnchor, SnippetCase, bool);

pub open spec fn snippet_view(s: Snippet) -> SnippetV {
    (s.id@, s.trigger@, s.expansion@, s.anchor, s.case, s.enabled)
}

pub open spec fn snippets_view(v: Seq<Snippet>) -> Seq<SnippetV> {
    v.map_values(|s: Snippet| snippet_view(s))
}

fn copy_snippet(s: &Snippet) -> (r: Snippet)
    ensures
        snippet_view(r) == snippet_view(*s),
{
    Snippet {
        id: String::from_str(s.id.as_str()),
        trigger: String::from_str(s.trigger.as_str()),
        expansion: String::from_str(s.expansion.as_str()),
        anchor: s.anchor,
        case: s.case,
        enabled: s.enabled,
    }
}

/// The first index holding a snippet with this id.
pub open spec fn index_of_id(v: Seq<Snippet>, id: Seq<char>, i: int) -> Option<int>
    decreases v.len() - i,
{
    if i < 0 || i >= v.len() {
        None
    } else if v[i].id@ == id {
        Some(i)
    } else {
        index_of_id(v, id, i + 1)
    }
}

pub open spec fn with_id(s: SnippetV, id: Seq<char>) -> SnippetV {
    (id, s.1, s.2, s.3, s.4, s.5)
}

/// Create (blank id: `fresh_id` is assigned and the snippet appended) or update (the
/// first snippet with that id is replaced) a snippet, after validation and the
/// duplicate-trigger check; the outcome and the new list.
pub open spec fn upsert_spec(list: Seq<Snippet>, s: Snippet, fresh_id: Seq<char>) -> (Result<SnippetV, Seq<char>>, Seq<SnippetV>) {
    let lv = snippets_view(list);
    match validate_snippet_spec(s) {
        Err(e) => (Err(e), lv),
        Ok(()) => if duplicate_trigger_spec(list, s, s.id@) {
            (Err("a snippet with this trigger already exists"@), lv)
        } else if trim(s.id@).len() == 0 {
            let saved = with_id(snippet_view(s), fresh_id);
            (Ok(saved), lv.push(saved))
        } else {
            match index_of_id(list, s.id@, 0) {
                Some(i) => (Ok(snippet_view(s)), lv.update(i, snippet_view(s))),
                None => (Err("snippet not found"@), lv),
            }
        },
    }
}

pub open spec fn delete_snippet_spec(v: Seq<SnippetV>, id: Seq<char>) -> Seq<SnippetV>
    decreases v.len(),
{
    if v.len() == 0 {
        Seq::empty()
    } else if v.last().0 == id {
        delete_snippet_spec(v.drop_last(), id)
    } else {
        delete_snippet_spec(v.drop_last(), id).push(v.last())
    }
}

/// The in-memory snippet list.
pub struct SnippetState {
    snippets: Vec<Snippet>,
}

impl SnippetState {
    pub closed spec fn view(&self) -> Seq<SnippetV> {
        snippets_view(self.snippets@)
    }

    pub closed spec fn items(&self) -> Seq<Snippet> {
        self.snippets@
    }

    /// The state's view is the view of its items.
    pub proof fn lemma_view_items(&self)
        ensures
            self.view() == snippets_view(self.items()),
    {
    }

    /// Start from the loaded list.
    pub fn new(snippets: Vec<Snippet>) -> (st: Self)
        ensures
            st.items() == snippets@,
    {
        SnippetState { snippets }
    }

    /// A copy of the list.
    pub fn snapshot(&self) -> (r: Vec<Snippet>)
        ensures
            snippets_view(r@) == self.view(),
    {
        let mut out: Vec<Snippet> = Vec::new();
        let mut i: usize = 0;
        while i < self.snippets.len()
            invariant
                i <= self.snippets@.len(),
                snippets_view(out@) == snippets_view(self.snippets@).take(i as int),
            decreases self.snippets@.len() - i,
        {
            let ghost pre = snippets_view(out@);
            out.push(copy_snippet(&self.snippets[i]));
            assert(snippets_view(out@) =~= pre.push(snippet_view(self.snippets@[i as int])));
            i = i + 1;
            assert(snippets_view(self.snippets@).take(i as int) =~= snippets_view(self.snippets@).take(
                i - 1,
            ).push(snippets_view(self.snippets@)[i - 1]));
        }
        assert(snippets_view(self.snippets@).take(self.snippets@.len() as int) =~= snippets_view(
            self.snippets@,
        ));
        out
    }

    /// Create or update a snippet; `fresh_id` names a new one.
    pub fn upsert(&mut self, snippet: Snippet, fresh_id: String) -> (r: Result<Snippet, String>)
        ensures
            (match r {
                Ok(s) => Ok(snippet_view(s)),
                Err(e) => Err(e@),
            }, final(self).view()) == upsert_spec(old(self).items(), snippet, fresh_id@),
    {
        let ghost lv = snippets_view(self.snippets@);
        match validate_snippet(&snippet) {
            Err(e) => {
                return Err(e);
            },
            Ok(()) => {},
        }
        let sid = String::from_str(snippet.id.as_str());
        if duplicate_trigger(self.snippets.as_slice(), &snippet, sid.as_str()) {
            return Err(String::from_str("a snippet with this trigger already exists"));
        }
        if is_blank(snippet.id.as_str()) {
            let saved = Snippet { id: fresh_id, ..snippet };
            let kept = copy_snippet(&saved);
            self.snippets.push(saved);
            assert(snippets_view(self.snippets@) =~= lv.push(snippet_view(kept)));
            return Ok(kept);
        }
        let idc = chars_of(snippet.id.as_str());
        let mut i: usize = 0;
        while i < self.snippets.len()
            invariant
                i <= self.snippets@.len(),
                self.snippets@ == old(self).snippets@,
                lv == snippets_view(old(self).snippets@),
                validate_snippet_spec(snippet) is Ok,
                !duplicate_trigger_spec(old(self).snippets@, snippet, snippet.id@),
                trim(snippet.id@).len() != 0,
                idc@ == snippet.id@,
                index_of_id(self.snippets@, snippet.id@, i as int) == index_of_id(
                    self.snippets@,
                    snippet.id@,
                    0,
                ),
            decreases self.snippets@.len() - i,
        {
            let c = chars_of(self.snippets[i].id.as_str());
            if chars_eq(c.as_slice(), idc.as_slice()) {
                let kept = copy_snippet(&snippet);
                self.snippets.set(i, snippet);
                assert(snippets_view(self.snippets@) =~= lv.update(i as int, snippet_view(kept)));
                return Ok(kept);
            }
            i = i + 1;
        }
        Err(String::from_str("snippet not found"))
    }

    /// Delete every snippet with this id (idempotent).
    pub fn delete(&mut self, id: &str)
        ensures
            final(self).view() == delete_snippet_spec(old(self).view(), id@),
    {
        let ghost v = snippets_view(self.snippets@);
        let idc = chars_of(id);
        let mut out: Vec<Snippet> = Vec::new();
        let mut i: usize = 0;
        assert(snippets_view(out@) =~= delete_snippet_spec(v.take(0), id@));
        while i < self.snippets.len()
            invariant
                i <= self.snippets@.len(),
                v == snippets_view(self.snippets@),
                idc@ == id@,
                snippets_view(out@) == delete_snippet_spec(v.take(i as int), id@),
            decreases self.snippets@.len() - i,
        {
            let ghost pre = snippets_view(out@);
            assert(v.take(i + 1).drop_last() =~= v.take(i as int));
            assert(v.take(i + 1).last() == v[i as int]);
            let c = chars_of(self.snippets[i].id.as_str());
            if !chars_eq(c.as_slice(), idc.as_slice()) {
                out.push(copy_snippet(&self.snippets[i]));
                assert(snippets_view(out@) =~= pre.push(v[i as int]));
            }
            i = i + 1;
        }
        assert(v.take(self.snippets@.len() as int) =~= v);
        self.snippets = out;
    }
}

// ─────────────────────────────────────────────────────────────────────────────
// Laws
// ─────────────────────────────────────────────────────────────────────────────

proof fn lemma_unsorted_empty_when_unusable(snips: Seq<Snippet>)
    requires
        forall|i: int| 0 <= i < snips.len() ==> !snippet_usable(#[trigger] snips[i]),
    ensures
        compiled_unsorted(snips).len() == 0,
    decreases snips.len(),
{
    if snips.len() > 0 {
        assert(!snippet_usable(snips[snips.len() - 1]));
        lemma_unsorted_empty_when_unusable(snips.drop_last());
    }
}

/// With no usable snippet (each one disabled or with a blank trigger or expansion; or
/// none at all), compiling yields an empty set and expansion hands the text back
/// unchanged with no trigger reported.
pub proof fn lemma_unusable_snippets_inert(snips: Seq<Snippet>, text: Seq<char>)
    requires
        forall|i: int| 0 <= i < snips.len() ==> !snippet_usable(#[trigger] snips[i]),
    ensures
        compile_spec(snips).len() == 0,
        expand_spec(text, compile_spec(snips)) == (text, Seq::<Seq<char>>::empty()),
{
    lemma_unsorted_empty_when_unusable(snips);
    assert(sort_desc(compiled_unsorted(snips)) =~= Seq::<CompiledV>::empty());
}

pub open spec fn longest_first(s: Seq<CompiledV>) -> bool {
    forall|i: int, j: int| 0 <= i < j < s.len() ==> (#[trigger] s[i]).0.len() >= (#[trigger] s[j]).0.len()
}

proof fn lemma_insert_pos_props(s: Seq<CompiledV>, n: nat, i: int)
    requires
        0 <= i <= s.len(),
    ensures
        i <= insert_pos(s, n, i) <= s.len(),
        forall|k: int| i <= k < insert_pos(s, n, i) ==> (#[trigger] s[k]).0.len() >= n,
        insert_pos(s, n, i) < s.len() ==> s[insert_pos(s, n, i)].0.len() < n,
    decreases s.len() - i,
{
    if i < s.len() && s[i].0.len() >= n {
        lemma_insert_pos_props(s, n, i + 1);
    }
}

proof fn lemma_sort_desc(s: Seq<CompiledV>)
    ensures
        sort_desc(s).len() == s.len(),
        longest_first(sort_desc(s)),
    decreases s.len(),
{
    if s.len() > 0 {
        let sorted = sort_desc(s.drop_last());
        lemma_sort_desc(s.drop_last());
        let x = s.last();
        let n = x.0.len();
        let p = insert_pos(sorted, n, 0);
        lemma_insert_pos_props(sorted, n, 0);
        let t = sorted.insert(p, x);
        assert forall|i: int, j: int| 0 <= i < j < t.len() implies (#[trigger] t[i]).0.len() >= (
        #[trigger] t[j]).0.len() by {
            if j < p {
                assert(t[i] == sorted[i] && t[j] == sorted[j]);
            } else if j == p {
                assert(t[i] == sorted[i]);
            } else if i < p {
                assert(t[i] == sorted[i] && t[j] == sorted[j - 1]);
                assert(sorted[i].0.len() >= sorted[j - 1].0.len());
            } else if i == p {
                assert(t[j] == sorted[j - 1]);
                assert(sorted[p].0.len() >= sorted[j - 1].0.len() || j - 1 == p);
            } else {
                assert(t[i] == sorted[i - 1] && t[j] == sorted[j - 1]);
            }
        }
    }
}

/// The compiled set is ordered longest trigger (in words) first, so the most specific
/// trigger is always tried before a shorter one.
pub proof fn lemma_compile_longest_first(snips: Seq<Snippet>)
    ensures
        longest_first(compile_spec(snips)),
{
    lemma_sort_desc(compiled_unsorted(snips));
}


proof fn lemma_find_from_member(folded: Seq<Seq<char>>, p: int, set: Seq<CompiledV>, ci: int)
    requires
        find_from(folded, p, set, ci) is Some,
    ensures
        exists|k: int| 0 <= k < set.len() && set[k] == find_from(folded, p, set, ci)->0,
    decreases set.len() - ci,
{
    if ci < 0 || ci >= set.len() {
    } else if matches_at_spec(folded, p, set[ci]) {
    } else {
        lemma_find_from_member(folded, p, set, ci + 1);
    }
}

proof fn lemma_expand_acc_reports(
    folded: Seq<Seq<char>>,
    p: int,
    acc: (Map<usize, (usize, Seq<char>)>, Seq<Seq<char>>),
    set: Seq<CompiledV>,
)
    ensures
        expand_acc(folded, p, acc, set).1.len() >= acc.1.len(),
        expand_acc(folded, p, acc, set).1.subrange(0, acc.1.len() as int) == acc.1,
        expand_acc(folded, p, acc, set).1.len() == acc.1.len() ==> expand_acc(folded, p, acc, set).0
            == acc.0,
        forall|i: int|
            acc.1.len() <= i < expand_acc(folded, p, acc, set).1.len() ==> exists|k: int|
                0 <= k < set.len() && set[k].1 == #[trigger] expand_acc(folded, p, acc, set).1[i],
    decreases folded.len() - p,
{
    let r = expand_acc(folded, p, acc, set);
    if p < 0 || p >= folded.len() {
        assert(r.1.subrange(0, acc.1.len() as int) =~= acc.1);
    } else {
        match find_from(folded, p, set, 0) {
            None => {
                lemma_expand_acc_reports(folded, p + 1, acc, set);
            },
            Some(c) => {
                if c.0.len() < 1 || p + c.0.len() > folded.len() {
                    assert(r.1.subrange(0, acc.1.len() as int) =~= acc.1);
                } else {
                    let acc2 = (
                        acc.0.insert(p as usize, (c.0.len() as usize, apply_case_spec(c.2, c.4, p == 0))),
                        acc.1.push(c.1),
                    );
                    lemma_expand_acc_reports(folded, p + c.0.len(), acc2, set);
                    lemma_find_from_member(folded, p, set, 0);
                    let k0 = choose|k: int| 0 <= k < set.len() && set[k] == c;
                    assert(r.1[acc.1.len() as int] == r.1.subrange(0, acc2.1.len() as int)[acc.1.len() as int]);
                    assert(r.1.subrange(0, acc.1.len() as int) =~= acc2.1.subrange(0, acc.1.len() as int));
                    assert(acc2.1.subrange(0, acc.1.len() as int) =~= acc.1);
                    assert forall|i: int| acc.1.len() <= i < r.1.len() implies exists|k: int|
                        0 <= k < set.len() && set[k].1 == #[trigger] r.1[i] by {
                        if i == acc.1.len() {
                            assert(set[k0].1 == r.1[i]);
                        }
                    }
                }
            },
        }
    }
}

proof fn lemma_sort_desc_members(s: Seq<CompiledV>)
    ensures
        forall|k: int|
            0 <= k < sort_desc(s).len() ==> exists|j: int| 0 <= j < s.len() && s[j] == #[trigger] sort_desc(s)[k],
    decreases s.len(),
{
    lemma_sort_desc(s);
    if s.len() > 0 {
        let d = s.drop_last();
        let sorted = sort_desc(d);
        lemma_sort_desc_members(d);
        lemma_sort_desc(d);
        let x = s.last();
        let p = insert_pos(sorted, x.0.len(), 0);
        lemma_insert_pos_bounds(sorted, x.0.len(), 0);
        let t = sorted.insert(p, x);
        assert forall|k: int| 0 <= k < t.len() implies exists|j: int| 0 <= j < s.len() && s[j] == #[trigger] t[k] by {
            if k < p {
                let j = choose|j: int| 0 <= j < d.len() && d[j] == sorted[k];
                assert(s[j] == t[k]);
            } else if k == p {
                assert(s[s.len() - 1] == t[k]);
            } else {
                let j = choose|j: int| 0 <= j < d.len() && d[j] == sorted[k - 1];
                assert(s[j] == t[k]);
            }
        }
    }
}

/// `c` is the compiled form of a usable snippet of `snips`.
pub open spec fn compiled_from(snips: Seq<Snippet>, c: CompiledV) -> bool {
    exists|j: int| 0 <= j < snips.len() && snippet_usable(snips[j]) && c == #[trigger] compile_one(snips[j])
}

proof fn lemma_unsorted_members(snips: Seq<Snippet>)
    ensures
        forall|k: int|
            0 <= k < compiled_unsorted(snips).len() ==> compiled_from(snips, #[trigger] compiled_unsorted(snips)[k]),
    decreases snips.len(),
{
    if snips.len() > 0 {
        let d = snips.drop_last();
        lemma_unsorted_members(d);
        let rest = compiled_unsorted(d);
        let u = compiled_unsorted(snips);
        assert forall|k: int| 0 <= k < u.len() implies compiled_from(snips, #[trigger] u[k]) by {
            if k < rest.len() {
                assert(compiled_from(d, rest[k]));
                let j = choose|j: int| 0 <= j < d.len() && snippet_usable(d[j]) && rest[k] == #[trigger] compile_one(d[j]);
                assert(snips[j] == d[j]);
                assert(u[k] == compile_one(snips[j]));
            } else {
                let j = snips.len() - 1;
                assert(u[k] == compile_one(snips[j]));
            }
        }
    }
}

/// Expansion reports what it did: when no trigger fired the text comes back
/// unchanged, and every reported trigger is, verbatim, the trigger of a usable
/// snippet of the list the set was compiled from.
pub proof fn lemma_expansion_reports_triggers(snips: Seq<Snippet>, text: Seq<char>)
    ensures
        expand_spec(text, compile_spec(snips)).1.len() == 0 ==> expand_spec(text, compile_spec(snips)).0
            == text,
        forall|i: int|
            0 <= i < expand_spec(text, compile_spec(snips)).1.len() ==> exists|j: int|
                0 <= j < snips.len() && snippet_usable(snips[j]) && snips[j].trigger@
                    == #[trigger] expand_spec(text, compile_spec(snips)).1[i],
{
    let set = compile_spec(snips);
    let toks = tokens(text);
    let ws = words_of(toks, 0);
    lemma_sort_desc_members(compiled_unsorted(snips));
    lemma_unsorted_members(snips);
    if set.len() == 0 || ws.len() == 0 {
    } else {
        let folded = ws.map_values(|w: Seq<char>| fold_spec(w));
        let acc0 = (Map::<usize, (usize, Seq<char>)>::empty(), Seq::<Seq<char>>::empty());
        lemma_expand_acc_reports(folded, 0, acc0, set);
        let r = expand_acc(folded, 0, acc0, set);
        if r.1.len() == 0 {
            lemma_empty_plan_identity(text);
        }
        assert forall|i: int| 0 <= i < r.1.len() implies exists|j: int|
            0 <= j < snips.len() && snippet_usable(snips[j]) && snips[j].trigger@ == #[trigger] r.1[i] by {
            let k = choose|k: int| 0 <= k < set.len() && set[k].1 == r.1[i];
            let m = choose|m: int| 0 <= m < compiled_unsorted(snips).len() && compiled_unsorted(snips)[m] == set[k];
            assert(compiled_from(snips, compiled_unsorted(snips)[m]));
            let j = choose|j: int| 0 <= j < snips.len() && snippet_usable(snips[j]) && compiled_unsorted(snips)[m] == #[trigger] compile_one(snips[j]);
            assert(snips[j].trigger@ == r.1[i]);
        }
    }
}


/// Whether a compiled entry's trigger has `n` words.
pub open spec fn has_words(n: nat) -> spec_fn(CompiledV) -> bool {
    |c: CompiledV| c.0.len() == n
}

/// Whether a snippet makes it into the compiled set.
pub open spec fn compiles(s: Snippet) -> bool {
    snippet_usable(s) && compile_one(s).0.len() > 0
}

proof fn lemma_filter_none(s: Seq<CompiledV>, pred: spec_fn(CompiledV) -> bool)
    requires
        forall|i: int| 0 <= i < s.len() ==> !pred(#[trigger] s[i]),
    ensures
        s.filter(pred) == Seq::<CompiledV>::empty(),
    decreases s.len(),
{
    reveal(Seq::filter);
    if s.len() > 0 {
        lemma_filter_none(s.drop_last(), pred);
        assert(!pred(s[s.len() - 1]));
    }
}

proof fn lemma_filter_single(x: CompiledV, pred: spec_fn(CompiledV) -> bool)
    ensures
        seq![x].filter(pred) == (if pred(x) { seq![x] } else { Seq::<CompiledV>::empty() }),
{
    reveal(Seq::filter);
    let e = seq![x];
    assert(e.len() == 1);
    assert(e.last() == x);
    assert(e.drop_last() =~= Seq::<CompiledV>::empty());
    assert(Seq::<CompiledV>::empty().filter(pred) =~= Seq::<CompiledV>::empty());
    assert(Seq::<CompiledV>::empty().push(x) =~= e);
}

proof fn lemma_sort_desc_stable(s: Seq<CompiledV>, n: nat)
    ensures
        sort_desc(s).filter(has_words(n)) == s.filter(has_words(n)),
    decreases s.len(),
{
    let pred = has_words(n);
    if s.len() == 0 {
        reveal(Seq::filter);
    } else {
        let d = s.drop_last();
        let sorted = sort_desc(d);
        lemma_sort_desc_stable(d, n);
        lemma_sort_desc(d);
        let x = s.last();
        let m = x.0.len();
        let p = insert_pos(sorted, m, 0);
        lemma_insert_pos_props(sorted, m, 0);
        let t = sorted.insert(p, x);
        let head = sorted.take(p);
        let tail = sorted.skip(p);
        assert(t =~= head + seq![x] + tail);
        assert(sorted =~= head + tail);
        Seq::filter_distributes_over_add(head + seq![x], tail, pred);
        Seq::filter_distributes_over_add(head, seq![x], pred);
        Seq::filter_distributes_over_add(head, tail, pred);
        lemma_filter_single(x, pred);
        assert(s.filter(pred) == (if pred(x) { d.filter(pred).push(x) } else { d.filter(pred) })) by {
            reveal(Seq::filter);
        }
        if m == n {
            assert forall|i: int| 0 <= i < tail.len() implies !pred(#[trigger] tail[i]) by {
                if p + i < sorted.len() {
                    assert(tail[i] == sorted[p + i]);
                    if i > 0 {
                        assert(sorted[p].0.len() >= sorted[p + i].0.len());
                    }
                }
            }
            lemma_filter_none(tail, pred);
            assert(tail.filter(pred) =~= Seq::<CompiledV>::empty());
            assert(head.filter(pred) + seq![x] =~= head.filter(pred).push(x));
            assert(sorted.filter(pred) =~= head.filter(pred) + Seq::<CompiledV>::empty());
        } else {
            assert(seq![x].filter(pred) =~= Seq::<CompiledV>::empty());
            assert(head.filter(pred) + Seq::<CompiledV>::empty() =~= head.filter(pred));
        }
    }
}

proof fn lemma_unsorted_is_filter(snips: Seq<Snippet>)
    ensures
        compiled_unsorted(snips) == snips.filter(|s: Snippet| compiles(s)).map_values(
            |s: Snippet| compile_one(s),
        ),
    decreases snips.len(),
{
    reveal(Seq::filter);
    if snips.len() > 0 {
        lemma_unsorted_is_filter(snips.drop_last());
        let f = snips.drop_last().filter(|s: Snippet| compiles(s));
        assert(f.push(snips.last()).map_values(|s: Snippet| compile_one(s)) =~= f.map_values(
            |s: Snippet| compile_one(s),
        ).push(compile_one(snips.last())));
    }
}

/// The compiled set holds exactly the snippets that are enabled, have a non-blank
/// trigger and expansion and a non-empty folded key, each as its compiled form; it is
/// ordered longest trigger first, and among triggers of one length the input order
/// is kept.
pub proof fn lemma_compile_exact_and_stable(snips: Seq<Snippet>, n: nat)
    ensures
        compiled_unsorted(snips) == snips.filter(|s: Snippet| compiles(s)).map_values(
            |s: Snippet| compile_one(s),
        ),
        longest_first(compile_spec(snips)),
        compile_spec(snips).filter(has_words(n)) == compiled_unsorted(snips).filter(has_words(n)),
{
    lemma_unsorted_is_filter(snips);
    lemma_sort_desc(compiled_unsorted(snips));
    lemma_sort_desc_stable(compiled_unsorted(snips), n);
}


proof fn lemma_find_from_first(folded: Seq<Seq<char>>, p: int, set: Seq<CompiledV>, ci: int)
    requires
        0 <= ci <= set.len(),
    ensures
        match find_from(folded, p, set, ci) {
            Some(c) => exists|k: int|
                ci <= k < set.len() && set[k] == c && matches_at_spec(folded, p, set[k]) && forall|m: int|
                    ci <= m < k ==> !#[trigger] matches_at_spec(folded, p, set[m]),
            None => forall|m: int| ci <= m < set.len() ==> !#[trigger] matches_at_spec(folded, p, set[m]),
        },
    decreases set.len() - ci,
{
    if ci < set.len() {
        lemma_find_from_first(folded, p, set, ci + 1);
        if !matches_at_spec(folded, p, set[ci]) {
            match find_from(folded, p, set, ci + 1) {
                Some(c) => {
                    let k = choose|k: int|
                        ci + 1 <= k < set.len() && set[k] == c && matches_at_spec(folded, p, set[k])
                            && forall|m: int| ci + 1 <= m < k ==> !#[trigger] matches_at_spec(folded, p, set[m]);
                    assert(forall|m: int| ci <= m < k ==> !#[trigger] matches_at_spec(folded, p, set[m]));
                },
                None => {},
            }
        } else {
            assert(forall|m: int| ci <= m < ci ==> !#[trigger] matches_at_spec(folded, p, set[m]));
        }
    }
}

/// At a word position, the snippet applied is the first entry of the set, in its
/// longest-first order, whose trigger words occur there (and whose anchor allows the
/// position); none is applied when no entry matches.
pub proof fn lemma_first_match_applies(folded: Seq<Seq<char>>, p: int, set: Seq<CompiledV>)
    ensures
        match find_from(folded, p, set, 0) {
            Some(c) => exists|k: int|
                0 <= k < set.len() && set[k] == c && matches_at_spec(folded, p, set[k]) && forall|m: int|
                    0 <= m < k ==> !#[trigger] matches_at_spec(folded, p, set[m]),
            None => forall|m: int| 0 <= m < set.len() ==> !#[trigger] matches_at_spec(folded, p, set[m]),
        },
{
    lemma_find_from_first(folded, p, set, 0);
}


/// Position `q` lies inside a span the expansion replaces.
pub open spec fn in_expanded_span(plan: Map<usize, (usize, Seq<char>)>, q: int) -> bool {
    exists|p: usize| #[trigger] plan.contains_key(p) && p <= q < p + plan[p].0
}

/// What the expansion's plan is, directly: every replaced span starts where the first
/// matching entry of the set matches, spans its trigger's words and holds its
/// (cased) expansion; spans are disjoint and lie among the words seen (`upto`); and
/// every position before `upto` where some entry matches lies inside a replaced span.
pub open spec fn expansion_placed(
    folded: Seq<Seq<char>>,
    set: Seq<CompiledV>,
    plan: Map<usize, (usize, Seq<char>)>,
    upto: int,
) -> bool {
    &&& forall|p: usize|
        #[trigger] plan.contains_key(p) ==> p + plan[p].0 <= upto && match find_from(folded, p as int, set, 0) {
            Some(c) => plan[p] == (c.0.len() as usize, apply_case_spec(c.2, c.4, p == 0)) && c.0.len() >= 1,
            None => false,
        }
    &&& forall|p: usize, q: usize|
        #[trigger] plan.contains_key(p) && #[trigger] plan.contains_key(q) && p < q ==> p + plan[p].0 <= q
    &&& forall|q: int|
        0 <= q < upto && (#[trigger] find_from(folded, q, set, 0)) is Some ==> in_expanded_span(plan, q)
}

proof fn lemma_expand_acc_placed(
    folded: Seq<Seq<char>>,
    p: int,
    acc: (Map<usize, (usize, Seq<char>)>, Seq<Seq<char>>),
    set: Seq<CompiledV>,
)
    requires
        0 <= p <= folded.len(),
        folded.len() <= usize::MAX,
        forall|k: int| 0 <= k < set.len() ==> (#[trigger] set[k]).0.len() >= 1,
        expansion_placed(folded, set, acc.0, p),
    ensures
        expansion_placed(folded, set, expand_acc(folded, p, acc, set).0, folded.len() as int),
    decreases folded.len() - p,
{
    if p < folded.len() {
        match find_from(folded, p, set, 0) {
            None => {
                lemma_expand_acc_placed(folded, p + 1, acc, set);
            },
            Some(c) => {
                lemma_find_from_some(folded, p, set, 0);
                lemma_find_from_member(folded, p, set, 0);
                let k0 = choose|k: int| 0 <= k < set.len() && set[k] == c;
                assert(set[k0].0.len() >= 1);
                let pu = p as usize;
                let m = acc.0;
                let m2 = m.insert(pu, (c.0.len() as usize, apply_case_spec(c.2, c.4, p == 0)));
                let up2 = p + c.0.len();
                assert forall|x: usize| #[trigger] m2.contains_key(x) implies x + m2[x].0 <= up2 && match find_from(
                    folded,
                    x as int,
                    set,
                    0,
                ) {
                    Some(d) => m2[x] == (d.0.len() as usize, apply_case_spec(d.2, d.4, x == 0)) && d.0.len() >= 1,
                    None => false,
                } by {
                    if x != pu {
                        assert(m.contains_key(x));
                    }
                }
                assert forall|x: usize, y: usize|
                    #[trigger] m2.contains_key(x) && #[trigger] m2.contains_key(y) && x < y implies x + m2[x].0 <= y by {
                    if x != pu && y != pu {
                        assert(m.contains_key(x) && m.contains_key(y));
                    } else if x != pu {
                        assert(m.contains_key(x));
                    } else {
                        assert(m.contains_key(y));
                    }
                }
                assert forall|q: int| 0 <= q < up2 && (#[trigger] find_from(folded, q, set, 0)) is Some implies in_expanded_span(
                    m2,
                    q,
                ) by {
                    if q < p {
                        assert(in_expanded_span(m, q));
                        let w = choose|w: usize| #[trigger] m.contains_key(w) && w <= q < w + m[w].0;
                        assert(m2.contains_key(w) && m2[w] == m[w]);
                    } else {
                        assert(m2.contains_key(pu) && pu <= q < pu + m2[pu].0);
                    }
                }
                lemma_expand_acc_placed(folded, up2, (m2, acc.1.push(c.1)), set);
            },
        }
    }
}

/// The expansion's plan, stated directly: a span is replaced where the first entry
/// of the set (longest trigger first) matches, with that trigger's length and the
/// cased expansion; replaced spans never overlap (an expansion is never re-scanned);
/// and every word where some trigger matches lies inside a replaced span.
pub proof fn lemma_expansion_plan(folded: Seq<Seq<char>>, snips: Seq<Snippet>)
    requires
        folded.len() <= usize::MAX,
    ensures
        expansion_placed(
            folded,
            compile_spec(snips),
            expand_acc(folded, 0, (Map::empty(), Seq::empty()), compile_spec(snips)).0,
            folded.len() as int,
        ),
{
    let set = compile_spec(snips);
    lemma_sort_desc_members(compiled_unsorted(snips));
    assert forall|k: int| 0 <= k < set.len() implies (#[trigger] set[k]).0.len() >= 1 by {
        let m = choose|m: int| 0 <= m < compiled_unsorted(snips).len() && compiled_unsorted(snips)[m] == set[k];
        lemma_compiled_keys_nonempty(snips, m);
    }
    lemma_expand_acc_placed(folded, 0, (Map::empty(), Seq::empty()), set);
}

proof fn lemma_compiled_keys_nonempty(snips: Seq<Snippet>, m: int)
    requires
        0 <= m < compiled_unsorted(snips).len(),
    ensures
        compiled_unsorted(snips)[m].0.len() >= 1,
    decreases snips.len(),
{
    if snips.len() > 0 {
        let rest = compiled_unsorted(snips.drop_last());
        if m < rest.len() {
            lemma_compiled_keys_nonempty(snips.drop_last(), m);
        }
    }
}


/// A trigger fires at word `p` only when every one of its folded words equals the
/// folded text word at the same offset (the whole trigger lies inside the text), and
/// a start-only trigger only at the first word; what fires is an entry of the set.
pub proof fn lemma_fired_trigger_words_match(folded: Seq<Seq<char>>, p: int, set: Seq<CompiledV>)
    requires
        0 <= p,
    ensures
        match find_from(folded, p, set, 0) {
            Some(c) => p + c.0.len() <= folded.len() && folded.subrange(p, p + c.0.len()) == c.0 && (forall|m: int|
                0 <= m < c.0.len() ==> #[trigger] folded[p + m] == c.0[m]) && (c.3 == SnippetAnchor::StartOnly
                ==> p == 0) && exists|k: int| 0 <= k < set.len() && set[k] == c,
            None => true,
        },
{
    if find_from(folded, p, set, 0) is Some {
        let c = find_from(folded, p, set, 0)->0;
        lemma_find_from_some(folded, p, set, 0);
        lemma_find_from_member(folded, p, set, 0);
        assert forall|m: int| 0 <= m < c.0.len() implies #[trigger] folded[p + m] == c.0[m] by {
            assert(folded.subrange(p, p + c.0.len())[m] == folded[p + m]);
        }
    }
}

/// Every span the expansion replaces spells, word for word after folding, the
/// trigger of an entry of the compiled set, and is replaced by that entry's
/// (cased) expansion.
pub proof fn lemma_replaced_spans_spell_triggers(folded: Seq<Seq<char>>, snips: Seq<Snippet>)
    requires
        folded.len() <= usize::MAX,
    ensures
        forall|p: usize|
            #[trigger] expand_acc(folded, 0, (Map::empty(), Seq::empty()), compile_spec(snips)).0.contains_key(p)
                ==> exists|k: int|
                0 <= k < compile_spec(snips).len() && folded.subrange(
                    p as int,
                    p + expand_acc(folded, 0, (Map::empty(), Seq::empty()), compile_spec(snips)).0[p].0,
                ) == compile_spec(snips)[k].0 && expand_acc(
                    folded,
                    0,
                    (Map::empty(), Seq::empty()),
                    compile_spec(snips),
                ).0[p].1 == apply_case_spec(compile_spec(snips)[k].2, compile_spec(snips)[k].4, p == 0),
{
    let set = compile_spec(snips);
    let plan = expand_acc(folded, 0, (Map::empty(), Seq::empty()), set).0;
    lemma_expansion_plan(folded, snips);
    assert forall|p: usize| #[trigger] plan.contains_key(p) implies exists|k: int|
        0 <= k < set.len() && folded.subrange(p as int, p + plan[p].0) == set[k].0 && plan[p].1 == apply_case_spec(
            set[k].2,
            set[k].4,
            p == 0,
        ) by {
        lemma_fired_trigger_words_match(folded, p as int, set);
        let c = find_from(folded, p as int, set, 0)->0;
        let k = choose|k: int| 0 <= k < set.len() && set[k] == c;
        assert(plan[p].0 == c.0.len());
        assert(folded.subrange(p as int, p + plan[p].0) == c.0);
    }
}


/// An expansion is inserted as written, except that a sentence-cased snippet firing
/// at the start of the utterance gets its first character uppercased.
pub proof fn lemma_expansion_casing(e: Seq<char>, case: SnippetCase, at_start: bool)
    ensures
        case == SnippetCase::Verbatim || !at_start || e.len() == 0 ==> apply_case_spec(e, case, at_start) == e,
        case != SnippetCase::Verbatim && at_start && e.len() > 0 ==> apply_case_spec(e, case, at_start)
            == uppercase_of(e[0]) + e.subrange(1, e.len() as int),
{
    assert(e.len() == 0 ==> Seq::<char>::empty() =~= e);
}

} // verus!
