//! Whole-word token machinery for the text stage. The dictionary and the snippets
//! both match whole words and rebuild the string keeping the punctuation of the input:
//! the input is split into alternating word/separator runs, and a plan of
//! word-position → (words consumed, replacement) is replayed over them.

use std::collections::HashMap;
use vstd::prelude::*;

use crate::text::{alphanumeric, append_chars, chars_of, is_alphanumeric, slice_range, string_of};

verus! {

broadcast use vstd::std_specs::hash::group_hash_axioms;

/// One run of the input: an alphanumeric `Word` or a `Sep` (everything else).
pub enum Tok {
    Word(String),
    Sep(String),
}

/// A replacement plan keyed by word index: `word_pos -> (words_consumed, replacement)`.
pub type Plan = HashMap<usize, (usize, String)>;

/// A token as a mathematical value: (is it a word, its characters).
pub type TokV = (bool, Seq<char>);

impl Tok {
    pub open spec fn view(self) -> TokV {
        match self {
            Tok::Word(w) => (true, w@),
            Tok::Sep(s) => (false, s@),
        }
    }
}

pub open spec fn toks_view(toks: Seq<Tok>) -> Seq<TokV> {
    toks.map_values(|t: Tok| t.view())
}

pub open spec fn plan_view(plan: Map<usize, (usize, String)>) -> Map<usize, (usize, Seq<char>)> {
    Map::new(|k: usize| plan.contains_key(k), |k: usize| (plan[k].0, plan[k].1@))
}

/// Every entry consumes at least one word and its end position fits a `usize`.
pub open spec fn plan_ok(plan: Map<usize, (usize, Seq<char>)>) -> bool {
    forall|p: usize|
        #[trigger] plan.contains_key(p) ==> 1 <= plan[p].0 && p + plan[p].0 <= usize::MAX
}

// ─────────────────────────────────────────────────────────────────────────────
// Tokenization
// ─────────────────────────────────────────────────────────────────────────────

/// First index at or after `i` whose character class differs from `cls`.
pub open spec fn run_end(s: Seq<char>, i: int, cls: bool) -> int
    decreases s.len() - i,
{
    if 0 <= i < s.len() && alphanumeric(s[i]) == cls {
        run_end(s, i + 1, cls)
    } else {
        i
    }
}

/// The maximal same-class runs of `s` from index `i` on.
pub open spec fn toks_from(s: Seq<char>, i: int) -> Seq<TokV>
    decreases s.len() - i,
{
    if i < 0 || i >= s.len() {
        Seq::empty()
    } else {
        let cls = alphanumeric(s[i]);
        let e = run_end(s, i, cls);
        if e <= i || e > s.len() {
            Seq::empty()
        } else {
            seq![(cls, s.subrange(i, e))] + toks_from(s, e)
        }
    }
}

/// `s` split into maximal runs of alphanumeric (`Word`) and other (`Sep`) characters.
pub open spec fn tokens(s: Seq<char>) -> Seq<TokV> {
    toks_from(s, 0)
}

/// The characters of all tokens from index `i` on, concatenated.
pub open spec fn concat_from(toks: Seq<TokV>, i: int) -> Seq<char>
    decreases toks.len() - i,
{
    if i < 0 || i >= toks.len() {
        Seq::empty()
    } else {
        toks[i].1 + concat_from(toks, i + 1)
    }
}

/// The word texts among `toks` from index `i` on, in order.
pub open spec fn words_of(toks: Seq<TokV>, i: int) -> Seq<Seq<char>>
    decreases toks.len() - i,
{
    if i < 0 || i >= toks.len() {
        Seq::empty()
    } else if toks[i].0 {
        seq![toks[i].1] + words_of(toks, i + 1)
    } else {
        words_of(toks, i + 1)
    }
}

/// `run_end` ends exactly the run of one character class starting at `i`.
pub proof fn lemma_run_end_bounds(s: Seq<char>, i: int, cls: bool)
    requires
        0 <= i <= s.len(),
    ensures
        i <= run_end(s, i, cls) <= s.len(),
        forall|k: int| i <= k < run_end(s, i, cls) ==> alphanumeric(#[trigger] s[k]) == cls,
        run_end(s, i, cls) < s.len() ==> alphanumeric(s[run_end(s, i, cls)]) != cls,
    decreases s.len() - i,
{
    if i < s.len() && alphanumeric(s[i]) == cls {
        lemma_run_end_bounds(s, i + 1, cls);
    }
}

/// Concatenating the runs gives back the text.
pub proof fn lemma_toks_concat(s: Seq<char>, i: int)
    requires
        0 <= i <= s.len(),
    ensures
        concat_from(toks_from(s, i), 0) == s.subrange(i, s.len() as int),
    decreases s.len() - i,
{
    if i < s.len() {
        let cls = alphanumeric(s[i]);
        lemma_run_end_bounds(s, i, cls);
        let e = run_end(s, i, cls);
        lemma_toks_concat(s, e);
        let t = toks_from(s, i);
        lemma_concat_cons(seq![(cls, s.subrange(i, e))], toks_from(s, e));
        assert(s.subrange(i, e) + s.subrange(e, s.len() as int) =~= s.subrange(i, s.len() as int));
    } else {
        assert(s.subrange(i, s.len() as int) =~= Seq::<char>::empty());
    }
}

/// Concatenation of a one-token head and a tail.
pub proof fn lemma_concat_cons(head: Seq<TokV>, tail: Seq<TokV>)
    requires
        head.len() == 1,
    ensures
        concat_from(head + tail, 0) == head[0].1 + concat_from(tail, 0),
{
    lemma_concat_shift(head + tail, tail, 1);
}

/// `concat_from` on a sequence that agrees with `b` shifted by `d`.
pub proof fn lemma_concat_shift(a: Seq<TokV>, b: Seq<TokV>, d: int)
    requires
        0 <= d <= a.len(),
        a.len() == b.len() + d,
        forall|k: int| 0 <= k < b.len() ==> a[k + d] == b[k],
    ensures
        concat_from(a, d) == concat_from(b, 0),
{
    lemma_concat_shift_from(a, b, d, 0);
}

proof fn lemma_concat_shift_from(a: Seq<TokV>, b: Seq<TokV>, d: int, j: int)
    requires
        0 <= d <= a.len(),
        a.len() == b.len() + d,
        0 <= j <= b.len(),
        forall|k: int| 0 <= k < b.len() ==> a[k + d] == b[k],
    ensures
        concat_from(a, d + j) == concat_from(b, j),
    decreases b.len() - j,
{
    if j < b.len() {
        lemma_concat_shift_from(a, b, d, j + 1);
        assert(a[d + j] == b[j]);
    }
}

/// The shape of a tokenization: every token is non-empty, a `Word` holds only
/// alphanumeric characters and a `Sep` none, and no two neighbours are of one kind.
pub open spec fn well_tokenized(t: Seq<TokV>) -> bool {
    &&& forall|k: int| 0 <= k < t.len() ==> (#[trigger] t[k]).1.len() > 0
    &&& forall|k: int, m: int|
        0 <= k < t.len() && 0 <= m < t[k].1.len() ==> alphanumeric(#[trigger] t[k].1[m]) == t[k].0
    &&& forall|k: int| 0 <= k < t.len() - 1 ==> (#[trigger] t[k]).0 != t[k + 1].0
}

proof fn lemma_toks_from_shape(s: Seq<char>, i: int)
    requires
        0 <= i <= s.len(),
    ensures
        well_tokenized(toks_from(s, i)),
        i < s.len() ==> toks_from(s, i).len() > 0 && toks_from(s, i)[0].0 == alphanumeric(s[i]),
        i == s.len() ==> toks_from(s, i).len() == 0,
    decreases s.len() - i,
{
    if i < s.len() {
        let cls = alphanumeric(s[i]);
        lemma_run_end_bounds(s, i, cls);
        let e = run_end(s, i, cls);
        lemma_toks_from_shape(s, e);
        let head = (cls, s.subrange(i, e));
        let rest = toks_from(s, e);
        let t = seq![head] + rest;
        assert(toks_from(s, i) == t);
        assert forall|k: int| 0 <= k < t.len() implies (#[trigger] t[k]).1.len() > 0 by {
            if k > 0 {
                assert(t[k] == rest[k - 1]);
            }
        }
        assert forall|k: int, m: int| 0 <= k < t.len() && 0 <= m < t[k].1.len() implies alphanumeric(
            #[trigger] t[k].1[m],
        ) == t[k].0 by {
            if k > 0 {
                assert(t[k] == rest[k - 1]);
            } else {
                assert(t[k].1[m] == s[i + m]);
            }
        }
        assert forall|k: int| 0 <= k < t.len() - 1 implies (#[trigger] t[k]).0 != t[k + 1].0 by {
            assert(t[k + 1] == rest[k]);
            if k > 0 {
                assert(t[k] == rest[k - 1]);
            }
        }
    }
}

/// Tokenizing splits `s` into runs that spell `s` in order, each non-empty, words
/// wholly alphanumeric and separators wholly not, alternating; the empty text has no
/// tokens.
pub proof fn lemma_token_structure(s: Seq<char>)
    ensures
        concat_from(tokens(s), 0) == s,
        well_tokenized(tokens(s)),
        s.len() == 0 <==> tokens(s).len() == 0,
{
    lemma_toks_concat(s, 0);
    lemma_toks_from_shape(s, 0);
    assert(s.subrange(0, s.len() as int) =~= s);
}

proof fn lemma_toks_from_all_sep(s: Seq<char>, i: int)
    requires
        0 <= i <= s.len(),
        forall|k: int| 0 <= k < s.len() ==> !alphanumeric(#[trigger] s[k]),
    ensures
        forall|k: int| 0 <= k < toks_from(s, i).len() ==> !(#[trigger] toks_from(s, i)[k]).0,
    decreases s.len() - i,
{
    if i < s.len() {
        let cls = alphanumeric(s[i]);
        lemma_run_end_bounds(s, i, cls);
        let e = run_end(s, i, cls);
        lemma_toks_from_all_sep(s, e);
        let rest = toks_from(s, e);
        let t = seq![(cls, s.subrange(i, e))] + rest;
        assert(toks_from(s, i) == t);
        assert forall|k: int| 0 <= k < t.len() implies !(#[trigger] t[k]).0 by {
            if k > 0 {
                assert(t[k] == rest[k - 1]);
            }
        }
    }
}

proof fn lemma_words_of_none(t: Seq<TokV>, i: int)
    requires
        forall|k: int| 0 <= k < t.len() ==> !(#[trigger] t[k]).0,
    ensures
        words_of(t, i).len() == 0,
    decreases t.len() - i,
{
    if 0 <= i < t.len() {
        lemma_words_of_none(t, i + 1);
    }
}

/// Text without an alphanumeric character has no words.
pub proof fn lemma_no_alphanumeric_no_words(s: Seq<char>)
    requires
        forall|k: int| 0 <= k < s.len() ==> !alphanumeric(#[trigger] s[k]),
    ensures
        words_of(tokens(s), 0).len() == 0,
{
    lemma_toks_from_all_sep(s, 0);
    lemma_words_of_none(tokens(s), 0);
}

/// Index one past the run of class `cls` that starts at `i`.
fn scan_run(s: &[char], i: usize, cls: bool) -> (r: usize)
    requires
        i <= s@.len(),
    ensures
        r == run_end(s@, i as int, cls),
{
    let mut k = i;
    while k < s.len() && is_alphanumeric(s[k]) == cls
        invariant
            i <= k <= s@.len(),
            run_end(s@, k as int, cls) == run_end(s@, i as int, cls),
        decreases s@.len() - k,
    {
        k = k + 1;
    }
    k
}

/// Split a character sequence into alternating word / separator runs.
pub fn tokenize_chars(s: &[char]) -> (toks: Vec<Tok>)
    ensures
        toks_view(toks@) == tokens(s@),
{
    let mut toks: Vec<Tok> = Vec::new();
    let mut i: usize = 0;
    while i < s.len()
        invariant
            i <= s@.len(),
            toks_view(toks@) + toks_from(s@, i as int) == tokens(s@),
        decreases s@.len() - i,
    {
        let cls = is_alphanumeric(s[i]);
        let e = scan_run(s, i, cls);
        proof {
            lemma_run_end_bounds(s@, i as int, cls);
        }
        let run = slice_range(s, i, e);
        let text = string_of(run.as_slice());
        let tok = if cls {
            Tok::Word(text)
        } else {
            Tok::Sep(text)
        };
        let ghost before = toks_view(toks@);
        toks.push(tok);
        proof {
            assert(toks_view(toks@) =~= before.push((cls, s@.subrange(i as int, e as int))));
            assert(toks_from(s@, i as int) == seq![(cls, s@.subrange(i as int, e as int))]
                + toks_from(s@, e as int));
            assert(toks_view(toks@) + toks_from(s@, e as int) =~= before + toks_from(
                s@,
                i as int,
            ));
        }
        i = e;
    }
    proof {
        assert(toks_from(s@, i as int) =~= Seq::<TokV>::empty());
        assert(toks_view(toks@) =~= tokens(s@));
    }
    toks
}

/// Split `s` into alternating word (Unicode alphanumeric) and separator runs.
pub fn tokenize(s: &str) -> (toks: Vec<Tok>)
    ensures
        toks_view(toks@) == tokens(s@),
        concat_from(toks_view(toks@), 0) == s@,
        well_tokenized(toks_view(toks@)),
{
    proof {
        lemma_token_structure(s@);
    }
    let v = chars_of(s);
    tokenize_chars(v.as_slice())
}

// ─────────────────────────────────────────────────────────────────────────────
// Reconstruction
// ─────────────────────────────────────────────────────────────────────────────

/// The token index reached after stepping past `k` words (and the separators between
/// them) from token `i`; stops at the end of the tokens.
pub open spec fn consume(toks: Seq<TokV>, i: int, k: int) -> int
    decreases toks.len() - i,
{
    if i < 0 || i >= toks.len() || k <= 0 {
        i
    } else if toks[i].0 {
        if k == 1 {
            i + 1
        } else {
            consume(toks, i + 1, k - 1)
        }
    } else {
        consume(toks, i + 1, k)
    }
}

/// The text rebuilt from token `i` on, with `wpos` words already behind: a planned
/// word is replaced (consuming its span, interior separators included), everything
/// else is re-emitted verbatim.
pub open spec fn recon(
    toks: Seq<TokV>,
    plan: Map<usize, (usize, Seq<char>)>,
    i: int,
    wpos: int,
) -> Seq<char>
    decreases toks.len() - i,
{
    if i < 0 || i >= toks.len() {
        Seq::empty()
    } else if !toks[i].0 {
        toks[i].1 + recon(toks, plan, i + 1, wpos)
    } else if 0 <= wpos <= usize::MAX && plan.contains_key(wpos as usize) {
        let k = plan[wpos as usize].0;
        let r = plan[wpos as usize].1;
        let j = consume(toks, i, k as int);
        if j <= i || j > toks.len() {
            r
        } else {
            r + recon(toks, plan, j, wpos + k)
        }
    } else {
        toks[i].1 + recon(toks, plan, i + 1, wpos + 1)
    }
}

/// The text `plan` makes of `toks`.
pub open spec fn rebuild(toks: Seq<TokV>, plan: Map<usize, (usize, Seq<char>)>) -> Seq<char> {
    recon(toks, plan, 0, 0)
}

/// Consuming `k` words from word token `i` moves forward and stays within the tokens.
pub proof fn lemma_consume_bounds(toks: Seq<TokV>, i: int, k: int)
    requires
        0 <= i < toks.len(),
        toks[i].0,
        k >= 1,
    ensures
        i < consume(toks, i, k) <= toks.len(),
        consume(toks, i, k) < toks.len() ==> consume(toks, i, k) >= i + k,
    decreases toks.len() - i,
{
    lemma_consume_general(toks, i, k);
}

proof fn lemma_consume_general(toks: Seq<TokV>, i: int, k: int)
    requires
        0 <= i <= toks.len(),
    ensures
        i <= consume(toks, i, k) <= toks.len(),
        k >= 1 && i < toks.len() && toks[i].0 ==> consume(toks, i, k) > i,
        consume(toks, i, k) < toks.len() ==> consume(toks, i, k) >= i + k,
    decreases toks.len() - i,
{
    if i < toks.len() && k > 0 {
        if toks[i].0 {
            if k != 1 {
                lemma_consume_general(toks, i + 1, k - 1);
            }
        } else {
            lemma_consume_general(toks, i + 1, k);
        }
    }
}

/// Advance past `k` words (and the separators between them) starting at token `i`.
fn consume_words(toks: &[Tok], i: usize, k: usize) -> (r: usize)
    requires
        i <= toks@.len(),
    ensures
        r == consume(toks_view(toks@), i as int, k as int),
{
    let ghost tv = toks_view(toks@);
    let mut j = i;
    let mut consumed: usize = 0;
    while j < toks.len() && consumed < k
        invariant
            i <= j <= toks@.len(),
            consumed <= k,
            tv == toks_view(toks@),
            consume(tv, j as int, (k - consumed) as int) == consume(tv, i as int, k as int),
        decreases toks@.len() - j,
    {
        let is_word = match &toks[j] {
            Tok::Word(_) => true,
            Tok::Sep(_) => false,
        };
        assert(tv[j as int].0 == is_word);
        if is_word {
            consumed = consumed + 1;
        }
        j = j + 1;
        if consumed == k {
            return j;
        }
    }
    j
}

/// Replay `plan` over `toks`, dropping the interior separators of a multi-word match.
/// Untouched words and separators are re-emitted verbatim.
pub fn reconstruct(toks: &[Tok], plan: &Plan) -> (out: String)
    requires
        plan_ok(plan_view(plan@)),
    ensures
        out@ == rebuild(toks_view(toks@), plan_view(plan@)),
{
    let ghost tv = toks_view(toks@);
    let ghost pv = plan_view(plan@);
    let mut out: Vec<char> = Vec::new();
    let mut wpos: usize = 0;
    let mut i: usize = 0;
    while i < toks.len()
        invariant
            i <= toks@.len(),
            tv == toks_view(toks@),
            pv == plan_view(plan@),
            plan_ok(pv),
            i < toks@.len() ==> wpos <= i,
            out@ + recon(tv, pv, i as int, wpos as int) == rebuild(tv, pv),
        decreases toks@.len() - i,
    {
        match &toks[i] {
            Tok::Sep(s) => {
                let c = chars_of(s.as_str());
                let ghost before = out@;
                append_chars(&mut out, c.as_slice());
                assert(out@ + recon(tv, pv, i + 1, wpos as int) =~= before + recon(
                    tv,
                    pv,
                    i as int,
                    wpos as int,
                ));
                i = i + 1;
            },
            Tok::Word(w) => {
                match plan.get(&wpos) {
                    Some(entry) => {
                        let k = entry.0;
                        assert(pv.contains_key(wpos));
                        let c = chars_of(entry.1.as_str());
                        let ghost before = out@;
                        append_chars(&mut out, c.as_slice());
                        let j = consume_words(toks, i, k);
                        proof {
                            lemma_consume_bounds(tv, i as int, k as int);
                            assert(out@ + recon(tv, pv, j as int, wpos + k) =~= before + recon(
                                tv,
                                pv,
                                i as int,
                                wpos as int,
                            ));
                        }
                        wpos = wpos + k;
                        i = j;
                    },
                    None => {
                        assert(!pv.contains_key(wpos));
                        let c = chars_of(w.as_str());
                        let ghost before = out@;
                        append_chars(&mut out, c.as_slice());
                        assert(out@ + recon(tv, pv, i + 1, wpos + 1) =~= before + recon(
                            tv,
                            pv,
                            i as int,
                            wpos as int,
                        ));
                        wpos = wpos + 1;
                        i = i + 1;
                    },
                }
            },
        }
    }
    assert(out@ =~= rebuild(tv, pv));
    string_of(out.as_slice())
}

// ─────────────────────────────────────────────────────────────────────────────
// Laws
// ─────────────────────────────────────────────────────────────────────────────

proof fn lemma_recon_empty(toks: Seq<TokV>, i: int, wpos: int)
    requires
        0 <= i <= toks.len(),
    ensures
        recon(toks, Map::empty(), i, wpos) == concat_from(toks, i),
    decreases toks.len() - i,
{
    if i < toks.len() {
        lemma_recon_empty(toks, i + 1, if toks[i].0 { wpos + 1 } else { wpos });
    }
}

/// Rebuilding the tokens of any text with an empty plan gives the text back:
/// tokenization loses nothing and reconstruction re-emits every run verbatim.
pub proof fn lemma_empty_plan_identity(s: Seq<char>)
    ensures
        rebuild(tokens(s), Map::empty()) == s,
{
    lemma_recon_empty(tokens(s), 0, 0);
    lemma_toks_concat(s, 0);
    assert(s.subrange(0, s.len() as int) =~= s);
}

} // verus!
