//! Deterministic, always-on text cleanup: raw transcript to polished text without a
//! model. Stages, in a fixed order: spoken-punctuation substitution, filler removal,
//! stutter collapse, whitespace normalization (always on), sentence case, light
//! number spacing and an optional trailing period. Every stage is a function of its
//! inputs; the regular-expression stages go through the `regex` crate.

use vstd::prelude::*;

use crate::hotkey::{is_lit, split_char, split_on};
use crate::snippets::strings_view;
use crate::text::{
    alphabetic, alphanumeric, append_chars, char_to_uppercase, chars_eq, chars_of, is_alphabetic,
    is_alphanumeric, is_blank, join, join_chars, lowercase_of, split_whitespace, string_of,
    to_lowercase, trim, uppercase_of, words,
};

verus! {

/// Sequence view of a vector of character vectors.
pub open spec fn char_seqs(v: Seq<Vec<char>>) -> Seq<Seq<char>> {
    v.map_values(|w: Vec<char>| w@)
}

proof fn lemma_split_nonempty(s: Seq<char>, c: char)
    ensures
        split_on(s, c).len() >= 1,
{
    crate::hotkey::lemma_next_index_bounds(s, c, 0);
}

fn words_of_str(s: &str) -> (r: Vec<Vec<char>>)
    ensures
        char_seqs(r@) == words(s@),
{
    let cs = chars_of(s);
    let r = split_whitespace(cs.as_slice());
    assert(char_seqs(r@) =~= words(s@));
    r
}

fn lit_words(lit: &str) -> (r: Vec<Vec<char>>)
    ensures
        char_seqs(r@) == split_on(lit@, ' '),
        r@.len() >= 1,
{
    let cs = chars_of(lit);
    let r = split_char(cs.as_slice(), ' ');
    assert(char_seqs(r@) =~= split_on(lit@, ' '));
    proof {
        lemma_split_nonempty(lit@, ' ');
    }
    r
}

// ─────────────────────────────────────────────────────────────────────────────
// Language
// ─────────────────────────────────────────────────────────────────────────────

/// Detected or user-forced language, selecting the rule set. `Other` gets only the
/// language-agnostic core (whitespace + sentence case).
#[derive(Clone, Copy, PartialEq, Eq, Debug, Structural)]
pub enum Lang {
    PtBr,
    En,
    Other,
}

pub open spec fn lang_of_lower(c: Seq<char>) -> Lang {
    if c == "pt"@ || c == "pt-br"@ || c == "pt_br"@ || c == "por"@ || c == "pt-pt"@ {
        Lang::PtBr
    } else if c == "en"@ || c == "en-us"@ || c == "en_us"@ || c == "en-gb"@ || c == "eng"@ {
        Lang::En
    } else {
        Lang::Other
    }
}

/// Map an STT language code (e.g. "pt", "en-US") to a rule set, case-insensitively.
pub fn lang_from_code(code: &str) -> (l: Lang)
    ensures
        l == lang_of_lower(lowercase_of(code@)),
{
    let lc = to_lowercase(code);
    let c = chars_of(lc.as_str());
    let s = c.as_slice();
    if is_lit(s, "pt") || is_lit(s, "pt-br") || is_lit(s, "pt_br") || is_lit(s, "por") || is_lit(
        s,
        "pt-pt",
    ) {
        Lang::PtBr
    } else if is_lit(s, "en") || is_lit(s, "en-us") || is_lit(s, "en_us") || is_lit(s, "en-gb")
        || is_lit(s, "eng") {
        Lang::En
    } else {
        Lang::Other
    }
}

/// Which cleanup stages are enabled.
#[derive(Clone, Debug)]
pub struct CleanupOptions {
    pub remove_fillers: bool,
    pub spoken_punctuation: bool,
    pub collapse_repeats: bool,
    pub fix_capitalization: bool,
    pub normalize_numbers: bool,
    pub ensure_trailing_period: bool,
    /// User-added stoplist entries (lowercased, whole-token); always removed.
    pub extra_fillers: Vec<String>,
    /// User allow-list; never stripped, overrides the built-in stoplist.
    pub keep_fillers: Vec<String>,
}

impl Default for CleanupOptions {
    fn default() -> (o: Self)
        ensures
            o.remove_fillers,
            o.spoken_punctuation,
            o.collapse_repeats,
            o.fix_capitalization,
            o.normalize_numbers,
            !o.ensure_trailing_period,
            o.extra_fillers@.len() == 0,
            o.keep_fillers@.len() == 0,
    {
        CleanupOptions {
            remove_fillers: true,
            spoken_punctuation: true,
            collapse_repeats: true,
            fix_capitalization: true,
            normalize_numbers: true,
            ensure_trailing_period: false,
            extra_fillers: Vec::new(),
            keep_fillers: Vec::new(),
        }
    }
}

// ─────────────────────────────────────────────────────────────────────────────
// Whole-token phrase matching
// ─────────────────────────────────────────────────────────────────────────────

/// How a token is normalized before it is compared with a phrase word.
#[derive(Clone, Copy, PartialEq, Eq, Debug, Structural)]
pub enum TokenNorm {
    /// `str::to_lowercase`.
    Lowercase,
    /// Strip surrounding non-alphanumerics (apostrophes kept), then lowercase.
    Word,
}

pub open spec fn keep_char(c: char) -> bool {
    alphanumeric(c) || c == '\''
}

pub open spec fn keep_lead(s: Seq<char>, i: int) -> int
    decreases s.len() - i,
{
    if 0 <= i < s.len() && !keep_char(s[i]) {
        keep_lead(s, i + 1)
    } else {
        i
    }
}

pub open spec fn keep_trail(s: Seq<char>, j: int) -> int
    decreases j,
{
    if 0 < j <= s.len() && !keep_char(s[j - 1]) {
        keep_trail(s, j - 1)
    } else {
        j
    }
}

/// `t` with its leading and trailing non-alphanumerics (apostrophes kept) removed.
pub open spec fn strip_nonword(t: Seq<char>) -> Seq<char> {
    let a = keep_lead(t, 0);
    let b = keep_trail(t, t.len() as int);
    if a < b {
        t.subrange(a, b)
    } else {
        Seq::empty()
    }
}

pub open spec fn norm_word_spec(t: Seq<char>) -> Seq<char> {
    lowercase_of(strip_nonword(t))
}

pub open spec fn norm_spec(norm: TokenNorm, t: Seq<char>) -> Seq<char> {
    match norm {
        TokenNorm::Lowercase => lowercase_of(t),
        TokenNorm::Word => norm_word_spec(t),
    }
}

proof fn lemma_keep_lead(s: Seq<char>, i: int)
    requires
        0 <= i <= s.len(),
    ensures
        i <= keep_lead(s, i) <= s.len(),
    decreases s.len() - i,
{
    if i < s.len() && !keep_char(s[i]) {
        lemma_keep_lead(s, i + 1);
    }
}

proof fn lemma_keep_trail(s: Seq<char>, j: int)
    requires
        0 <= j <= s.len(),
    ensures
        0 <= keep_trail(s, j) <= j,
    decreases j,
{
    if j > 0 && !keep_char(s[j - 1]) {
        lemma_keep_trail(s, j - 1);
    }
}

fn norm_word_chars(t: &[char]) -> (r: Vec<char>)
    ensures
        r@ == norm_word_spec(t@),
{
    let mut a: usize = 0;
    while a < t.len() && !(is_alphanumeric(t[a]) || t[a] == '\'')
        invariant
            a <= t@.len(),
            keep_lead(t@, a as int) == keep_lead(t@, 0),
        decreases t@.len() - a,
    {
        a = a + 1;
    }
    let mut b: usize = t.len();
    while b > 0 && !(is_alphanumeric(t[b - 1]) || t[b - 1] == '\'')
        invariant
            b <= t@.len(),
            keep_trail(t@, b as int) == keep_trail(t@, t@.len() as int),
        decreases b,
    {
        b = b - 1;
    }
    let core = if a < b {
        crate::text::slice_range(t, a, b)
    } else {
        Vec::new()
    };
    assert(core@ =~= strip_nonword(t@));
    let cs = string_of(core.as_slice());
    let low = to_lowercase(cs.as_str());
    chars_of(low.as_str())
}

fn norm_chars(norm: TokenNorm, t: &[char]) -> (r: Vec<char>)
    ensures
        r@ == norm_spec(norm, t@),
{
    match norm {
        TokenNorm::Lowercase => {
            let s = string_of(t);
            let low = to_lowercase(s.as_str());
            chars_of(low.as_str())
        },
        TokenNorm::Word => norm_word_chars(t),
    }
}

/// Whether the phrase `ws` occurs in `tokens` at `i`, token by token through `norm`.
pub open spec fn phrase_at(tokens: Seq<Seq<char>>, i: int, ws: Seq<Seq<char>>, norm: TokenNorm) -> bool {
    i + ws.len() <= tokens.len() && forall|k: int|
        0 <= k < ws.len() ==> #[trigger] norm_spec(norm, tokens[i + k]) == ws[k]
}

fn phrase_at_chars(tokens: &Vec<Vec<char>>, i: usize, ws: &Vec<Vec<char>>, norm: TokenNorm) -> (b:
    bool)
    ensures
        b == phrase_at(char_seqs(tokens@), i as int, char_seqs(ws@), norm),
{
    let ghost tv = char_seqs(tokens@);
    let ghost wv = char_seqs(ws@);
    if i > tokens.len() || ws.len() > tokens.len() - i {
        return false;
    }
    let mut k: usize = 0;
    while k < ws.len()
        invariant
            k <= ws@.len(),
            i + ws@.len() <= tokens@.len() <= usize::MAX,
            tv == char_seqs(tokens@),
            wv == char_seqs(ws@),
            forall|m: int| 0 <= m < k ==> #[trigger] norm_spec(norm, tv[i + m]) == wv[m],
        decreases ws@.len() - k,
    {
        let n = norm_chars(norm, tokens[i + k].as_slice());
        assert(tokens@[i + k]@ == tv[i + k]);
        if !chars_eq(n.as_slice(), ws[k].as_slice()) {
            assert(norm_spec(norm, tv[i + k]) != wv[k as int]);
            return false;
        }
        k = k + 1;
    }
    true
}

pub open spec fn strs_view(v: Seq<&str>) -> Seq<Seq<char>> {
    v.map_values(|s: &str| s@)
}

fn strs_to_chars(v: &[&str]) -> (r: Vec<Vec<char>>)
    ensures
        char_seqs(r@) == strs_view(v@),
{
    let mut out: Vec<Vec<char>> = Vec::new();
    let mut i: usize = 0;
    while i < v.len()
        invariant
            i <= v@.len(),
            char_seqs(out@) == strs_view(v@).take(i as int),
        decreases v@.len() - i,
    {
        let ghost pre = char_seqs(out@);
        let c = chars_of(v[i]);
        out.push(c);
        assert(char_seqs(out@) =~= pre.push(v@[i as int]@));
        i = i + 1;
        assert(strs_view(v@).take(i as int) =~= strs_view(v@).take(i - 1).push(v@[i - 1]@));
    }
    assert(strs_view(v@).take(v@.len() as int) =~= strs_view(v@));
    out
}

/// True when the phrase `ws` matches `tokens` starting at `i`, comparing each token
/// through `norm`; whole-token and bounds-checked.
pub fn phrase_matches_at(tokens: &[&str], i: usize, ws: &[&str], norm: TokenNorm) -> (b: bool)
    ensures
        b == phrase_at(strs_view(tokens@), i as int, strs_view(ws@), norm),
{
    let t = strs_to_chars(tokens);
    let w = strs_to_chars(ws);
    phrase_at_chars(&t, i, &w, norm)
}

// ─────────────────────────────────────────────────────────────────────────────
// Spoken-punctuation substitution
// ─────────────────────────────────────────────────────────────────────────────

/// How a recognized punctuation word renders, with its spacing semantics.
#[derive(Clone, Copy, Debug)]
pub enum Punct {
    /// Hugs the previous word; a space follows. `. , ; : ? ! …`
    Trailing(&'static str),
    /// Space before, hugs the next token. `(` and an opening quote.
    Open(&'static str),
    /// Hugs the previous token; a space follows. `)` and a closing quote.
    Close(&'static str),
    /// Spaces on both sides. `—` `-`
    Spaced(&'static str),
    /// A line or paragraph break; no surrounding spaces.
    Break(&'static str),
}

/// The per-language spoken-punctuation table, longest phrase first so the first
/// match wins.
pub open spec fn punct_table(lang: Lang) -> Seq<(&'static str, Punct)> {
    match lang {
        Lang::PtBr => seq![
            ("ponto de interrogação", Punct::Trailing("?")),
            ("ponto de exclamação", Punct::Trailing("!")),
            ("ponto e vírgula", Punct::Trailing(";")),
            ("dois pontos", Punct::Trailing(":")),
            ("novo parágrafo", Punct::Break("\n\n")),
            ("nova linha", Punct::Break("\n")),
            ("abre parênteses", Punct::Open("(")),
            ("fecha parênteses", Punct::Close(")")),
            ("abre aspas", Punct::Open("\"")),
            ("fecha aspas", Punct::Close("\"")),
            ("ponto", Punct::Trailing(".")),
            ("vírgula", Punct::Trailing(",")),
            ("virgula", Punct::Trailing(",")),
            ("interrogação", Punct::Trailing("?")),
            ("exclamação", Punct::Trailing("!")),
            ("reticências", Punct::Trailing("…")),
            ("travessão", Punct::Spaced("—")),
            ("hífen", Punct::Spaced("-")),
        ],
        Lang::En => seq![
            ("exclamation mark", Punct::Trailing("!")),
            ("exclamation point", Punct::Trailing("!")),
            ("question mark", Punct::Trailing("?")),
            ("full stop", Punct::Trailing(".")),
            ("new paragraph", Punct::Break("\n\n")),
            ("new line", Punct::Break("\n")),
            ("open parenthesis", Punct::Open("(")),
            ("close parenthesis", Punct::Close(")")),
            ("open paren", Punct::Open("(")),
            ("close paren", Punct::Close(")")),
            ("open quote", Punct::Open("\"")),
            ("close quote", Punct::Close("\"")),
            ("period", Punct::Trailing(".")),
            ("comma", Punct::Trailing(",")),
            ("semicolon", Punct::Trailing(";")),
            ("colon", Punct::Trailing(":")),
            ("ellipsis", Punct::Trailing("…")),
            ("dash", Punct::Spaced("—")),
            ("hyphen", Punct::Spaced("-")),
        ],
        Lang::Other => seq![],
    }
}

/// The per-language spoken-punctuation map, ordered longest phrase first.
pub fn punctuation_map(lang: Lang) -> (m: Vec<(&'static str, Punct)>)
    ensures
        m@ == punct_table(lang),
{
    let mut m: Vec<(&'static str, Punct)> = Vec::new();
    match lang {
        Lang::PtBr => {
            m.push(("ponto de interrogação", Punct::Trailing("?")));
            m.push(("ponto de exclamação", Punct::Trailing("!")));
            m.push(("ponto e vírgula", Punct::Trailing(";")));
            m.push(("dois pontos", Punct::Trailing(":")));
            m.push(("novo parágrafo", Punct::Break("\n\n")));
            m.push(("nova linha", Punct::Break("\n")));
            m.push(("abre parênteses", Punct::Open("(")));
            m.push(("fecha parênteses", Punct::Close(")")));
            m.push(("abre aspas", Punct::Open("\"")));
            m.push(("fecha aspas", Punct::Close("\"")));
            m.push(("ponto", Punct::Trailing(".")));
            m.push(("vírgula", Punct::Trailing(",")));
            m.push(("virgula", Punct::Trailing(",")));
            m.push(("interrogação", Punct::Trailing("?")));
            m.push(("exclamação", Punct::Trailing("!")));
            m.push(("reticências", Punct::Trailing("…")));
            m.push(("travessão", Punct::Spaced("—")));
            m.push(("hífen", Punct::Spaced("-")));
        },
        Lang::En => {
            m.push(("exclamation mark", Punct::Trailing("!")));
            m.push(("exclamation point", Punct::Trailing("!")));
            m.push(("question mark", Punct::Trailing("?")));
            m.push(("full stop", Punct::Trailing(".")));
            m.push(("new paragraph", Punct::Break("\n\n")));
            m.push(("new line", Punct::Break("\n")));
            m.push(("open parenthesis", Punct::Open("(")));
            m.push(("close parenthesis", Punct::Close(")")));
            m.push(("open paren", Punct::Open("(")));
            m.push(("close paren", Punct::Close(")")));
            m.push(("open quote", Punct::Open("\"")));
            m.push(("close quote", Punct::Close("\"")));
            m.push(("period", Punct::Trailing(".")));
            m.push(("comma", Punct::Trailing(",")));
            m.push(("semicolon", Punct::Trailing(";")));
            m.push(("colon", Punct::Trailing(":")));
            m.push(("ellipsis", Punct::Trailing("…")));
            m.push(("dash", Punct::Spaced("—")));
            m.push(("hyphen", Punct::Spaced("-")));
        },
        Lang::Other => {},
    }
    assert(m@ =~= punct_table(lang));
    m
}

/// A spoken phrase as the table holds it: lowercase letters (accented ones included)
/// and single spaces, with no space at either end.
pub open spec fn phrase_shape(p: Seq<char>) -> bool {
    &&& p.len() > 0
    &&& p[0] != ' '
    &&& p.last() != ' '
    &&& forall|k: int| 0 <= k < p.len() ==> #[trigger] phrase_char(p[k])
    &&& forall|k: int| 0 <= k < p.len() - 1 ==> !(#[trigger] p[k] == ' ' && p[k + 1] == ' ')
}

pub open spec fn phrase_char(c: char) -> bool {
    ||| ('a' <= c && c <= 'z')
    ||| c == ' '
    ||| c == 'á' || c == 'â' || c == 'ã' || c == 'ç' || c == 'é' || c == 'ê' || c == 'í'
    ||| c == 'ó' || c == 'ô' || c == 'õ' || c == 'ú'
}

/// `longer` is `shorter` followed by one or more further words.
pub open spec fn extends_phrase(longer: Seq<char>, shorter: Seq<char>) -> bool {
    crate::text::starts_with(longer, shorter + " "@)
}

/// The spoken-punctuation table is empty only for a language without rules; every
/// phrase is lowercase with single spaces; and no phrase comes before a longer phrase
/// that extends it, so the first match is always the longest.
pub proof fn lemma_punctuation_table_shape(lang: Lang)
    ensures
        (punct_table(lang).len() == 0) <==> lang == Lang::Other,
        forall|i: int| 0 <= i < punct_table(lang).len() ==> phrase_shape((#[trigger] punct_table(lang)[i]).0@),
        forall|i: int, j: int|
            0 <= i < j < punct_table(lang).len() ==> !extends_phrase(
                (#[trigger] punct_table(lang)[j]).0@,
                (#[trigger] punct_table(lang)[i]).0@,
            ),
{
    reveal_strlit(" ");
    match lang {
        Lang::PtBr => {
        reveal_strlit("ponto de interrogação");
        reveal_strlit("ponto de exclamação");
        reveal_strlit("ponto e vírgula");
        reveal_strlit("dois pontos");
        reveal_strlit("novo parágrafo");
        reveal_strlit("nova linha");
        reveal_strlit("abre parênteses");
        reveal_strlit("fecha parênteses");
        reveal_strlit("abre aspas");
        reveal_strlit("fecha aspas");
        reveal_strlit("ponto");
        reveal_strlit("vírgula");
        reveal_strlit("virgula");
        reveal_strlit("interrogação");
        reveal_strlit("exclamação");
        reveal_strlit("reticências");
        reveal_strlit("travessão");
        reveal_strlit("hífen");
            let t = punct_table(lang);
            assert forall|i: int, j: int| 0 <= i < j < t.len() implies !extends_phrase(
                (#[trigger] t[j]).0@,
                (#[trigger] t[i]).0@,
            ) by {
                let a = t[j].0@;
                let b = t[i].0@ + " "@;
                if b.len() <= a.len() {
                    assert(a.subrange(0, b.len() as int)[0] == a[0]);
                }
            }
        },
        Lang::En => {
        reveal_strlit("exclamation mark");
        reveal_strlit("exclamation point");
        reveal_strlit("question mark");
        reveal_strlit("full stop");
        reveal_strlit("new paragraph");
        reveal_strlit("new line");
        reveal_strlit("open parenthesis");
        reveal_strlit("close parenthesis");
        reveal_strlit("open paren");
        reveal_strlit("close paren");
        reveal_strlit("open quote");
        reveal_strlit("close quote");
        reveal_strlit("period");
        reveal_strlit("comma");
        reveal_strlit("semicolon");
        reveal_strlit("colon");
        reveal_strlit("ellipsis");
        reveal_strlit("dash");
        reveal_strlit("hyphen");
            let t = punct_table(lang);
            assert forall|i: int, j: int| 0 <= i < j < t.len() implies !extends_phrase(
                (#[trigger] t[j]).0@,
                (#[trigger] t[i]).0@,
            ) by {
                let a = t[j].0@;
                let b = t[i].0@ + " "@;
                if b.len() <= a.len() {
                    if i == 0 && j == 1 {
                        assert(a.subrange(0, b.len() as int)[12] == a[12]);
                    } else {
                        assert(a.subrange(0, b.len() as int)[0] == a[0]);
                    }
                }
            }
        },
        Lang::Other => {},
    }
}

/// A piece of the substituted utterance: a word or a punctuation mark.
pub enum PieceV {
    Word(Seq<char>),
    P(Punct),
}

enum Piece {
    Word(Vec<char>),
    P(Punct),
}

spec fn piece_view(p: Piece) -> PieceV {
    match p {
        Piece::Word(w) => PieceV::Word(w@),
        Piece::P(q) => PieceV::P(q),
    }
}

spec fn pieces_view(v: Seq<Piece>) -> Seq<PieceV> {
    v.map_values(|p: Piece| piece_view(p))
}

/// Each table phrase split into its words.
pub open spec fn punct_rules(lang: Lang) -> Seq<(Seq<Seq<char>>, Punct)> {
    punct_table(lang).map_values(|e: (&'static str, Punct)| (split_on(e.0@, ' '), e.1))
}

/// Index of the first rule (from `ri` on) whose phrase matches at token `i`.
pub open spec fn first_rule(tokens: Seq<Seq<char>>, i: int, rules: Seq<(Seq<Seq<char>>, Punct)>, ri: int) -> Option<int>
    decreases rules.len() - ri,
{
    if ri < 0 || ri >= rules.len() {
        None
    } else if phrase_at(tokens, i, rules[ri].0, TokenNorm::Lowercase) {
        Some(ri)
    } else {
        first_rule(tokens, i, rules, ri + 1)
    }
}

/// The pieces from token `i` on, appended to `acc`.
pub open spec fn pieces_acc(
    tokens: Seq<Seq<char>>,
    i: int,
    acc: Seq<PieceV>,
    rules: Seq<(Seq<Seq<char>>, Punct)>,
) -> Seq<PieceV>
    decreases tokens.len() - i,
{
    if i < 0 || i >= tokens.len() {
        acc
    } else {
        match first_rule(tokens, i, rules, 0) {
            Some(ri) => if 0 <= ri < rules.len() && rules[ri].0.len() >= 1 && i + rules[ri].0.len()
                <= tokens.len() {
                pieces_acc(tokens, i + rules[ri].0.len(), acc.push(PieceV::P(rules[ri].1)), rules)
            } else {
                acc
            },
            None => pieces_acc(tokens, i + 1, acc.push(PieceV::Word(tokens[i])), rules),
        }
    }
}

/// Spacing before a word, an opening mark or a spaced mark: one space unless attached.
pub open spec fn lead_space(out: Seq<char>, attach: bool) -> Seq<char> {
    if attach {
        out
    } else {
        out.push(' ')
    }
}

/// Pieces from `i` on assembled onto `out`; `attach` means the next word hugs `out`.
pub open spec fn join_acc(pieces: Seq<PieceV>, i: int, out: Seq<char>, attach: bool) -> Seq<char>
    decreases pieces.len() - i,
{
    if i < 0 || i >= pieces.len() {
        out
    } else {
        match pieces[i] {
            PieceV::Word(w) => join_acc(pieces, i + 1, lead_space(out, attach) + w, false),
            PieceV::P(Punct::Trailing(g)) => join_acc(pieces, i + 1, out + g@, false),
            PieceV::P(Punct::Open(g)) => join_acc(pieces, i + 1, lead_space(out, attach) + g@, true),
            PieceV::P(Punct::Close(g)) => join_acc(pieces, i + 1, out + g@, false),
            PieceV::P(Punct::Spaced(g)) => join_acc(pieces, i + 1, lead_space(out, attach) + g@, false),
            PieceV::P(Punct::Break(b)) => join_acc(pieces, i + 1, out + b@, true),
        }
    }
}

pub open spec fn join_pieces_spec(pieces: Seq<PieceV>) -> Seq<char> {
    join_acc(pieces, 0, Seq::empty(), true)
}

/// What spoken-punctuation substitution makes of `s`.
pub open spec fn substitute_spec(s: Seq<char>, lang: Lang) -> Seq<char> {
    if punct_table(lang).len() == 0 {
        s
    } else {
        join_pieces_spec(pieces_acc(words(s), 0, Seq::empty(), punct_rules(lang)))
    }
}

struct PunctRule {
    words: Vec<Vec<char>>,
    punct: Punct,
}

spec fn rules_view(v: Seq<PunctRule>) -> Seq<(Seq<Seq<char>>, Punct)> {
    v.map_values(|r: PunctRule| (char_seqs(r.words@), r.punct))
}

fn build_punct_rules(lang: Lang) -> (r: Vec<PunctRule>)
    ensures
        rules_view(r@) == punct_rules(lang),
        forall|k: int| 0 <= k < r@.len() ==> (#[trigger] r@[k]).words@.len() >= 1,
{
    let table = punctuation_map(lang);
    let ghost want = punct_rules(lang);
    let mut out: Vec<PunctRule> = Vec::new();
    let mut i: usize = 0;
    while i < table.len()
        invariant
            i <= table@.len(),
            table@ == punct_table(lang),
            want == punct_rules(lang),
            rules_view(out@) == want.take(i as int),
            forall|k: int| 0 <= k < out@.len() ==> (#[trigger] out@[k]).words@.len() >= 1,
        decreases table@.len() - i,
    {
        let ghost pre = rules_view(out@);
        let (phrase, punct) = table[i];
        let ws = lit_words(phrase);
        out.push(PunctRule { words: ws, punct });
        assert(rules_view(out@) =~= pre.push(want[i as int]));
        i = i + 1;
        assert(want.take(i as int) =~= want.take(i - 1).push(want[i - 1]));
    }
    assert(want.take(table@.len() as int) =~= want);
    out
}

fn first_rule_at(tokens: &Vec<Vec<char>>, i: usize, rules: &Vec<PunctRule>) -> (r: Option<usize>)
    ensures
        match r {
            Some(ri) => ri < rules@.len() && first_rule(char_seqs(tokens@), i as int, rules_view(rules@), 0)
                == Some(ri as int) && phrase_at(
                char_seqs(tokens@),
                i as int,
                char_seqs(rules@[ri as int].words@),
                TokenNorm::Lowercase,
            ),
            None => first_rule(char_seqs(tokens@), i as int, rules_view(rules@), 0) is None,
        },
{
    let ghost tv = char_seqs(tokens@);
    let ghost rv = rules_view(rules@);
    let mut ri: usize = 0;
    while ri < rules.len()
        invariant
            ri <= rules@.len(),
            tv == char_seqs(tokens@),
            rv == rules_view(rules@),
            first_rule(tv, i as int, rv, ri as int) == first_rule(tv, i as int, rv, 0),
        decreases rules@.len() - ri,
    {
        assert(rv[ri as int].0 == char_seqs(rules@[ri as int].words@));
        if phrase_at_chars(tokens, i, &rules[ri].words, TokenNorm::Lowercase) {
            return Some(ri);
        }
        ri = ri + 1;
    }
    None
}

fn copy_chars(v: &Vec<char>) -> (r: Vec<char>)
    ensures
        r@ == v@,
{
    crate::text::slice_range(v.as_slice(), 0, v.len())
}

/// Assemble pieces into a string, applying each mark's spacing semantics.
fn join_pieces(pieces: &Vec<Piece>) -> (r: Vec<char>)
    ensures
        r@ == join_pieces_spec(pieces_view(pieces@)),
{
    let ghost pv = pieces_view(pieces@);
    let mut out: Vec<char> = Vec::new();
    let mut attach = true;
    let mut i: usize = 0;
    while i < pieces.len()
        invariant
            i <= pieces@.len(),
            pv == pieces_view(pieces@),
            join_acc(pv, i as int, out@, attach) == join_pieces_spec(pv),
        decreases pieces@.len() - i,
    {
        assert(pv[i as int] == piece_view(pieces@[i as int]));
        match &pieces[i] {
            Piece::Word(w) => {
                if !attach {
                    out.push(' ');
                }
                append_chars(&mut out, w.as_slice());
                attach = false;
            },
            Piece::P(Punct::Trailing(g)) => {
                let gc = chars_of(g);
                append_chars(&mut out, gc.as_slice());
                attach = false;
            },
            Piece::P(Punct::Open(g)) => {
                if !attach {
                    out.push(' ');
                }
                let gc = chars_of(g);
                append_chars(&mut out, gc.as_slice());
                attach = true;
            },
            Piece::P(Punct::Close(g)) => {
                let gc = chars_of(g);
                append_chars(&mut out, gc.as_slice());
                attach = false;
            },
            Piece::P(Punct::Spaced(g)) => {
                if !attach {
                    out.push(' ');
                }
                let gc = chars_of(g);
                append_chars(&mut out, gc.as_slice());
                attach = false;
            },
            Piece::P(Punct::Break(b)) => {
                let bc = chars_of(b);
                append_chars(&mut out, bc.as_slice());
                attach = true;
            },
        }
        i = i + 1;
    }
    out
}

fn substitute_chars(s: &str, lang: Lang) -> (r: Vec<char>)
    ensures
        r@ == substitute_spec(s@, lang),
{
    let rules = build_punct_rules(lang);
    if rules.len() == 0 {
        assert(punct_rules(lang).len() == 0);
        return chars_of(s);
    }
    let tokens = words_of_str(s);
    let ghost tv = char_seqs(tokens@);
    let ghost rv = rules_view(rules@);
    let mut pieces: Vec<Piece> = Vec::new();
    assert(pieces_view(pieces@) =~= Seq::<PieceV>::empty());
    let mut i: usize = 0;
    while i < tokens.len()
        invariant
            i <= tokens@.len(),
            tv == char_seqs(tokens@),
            tv == words(s@),
            rv == rules_view(rules@),
            rv == punct_rules(lang),
            forall|k: int| 0 <= k < rules@.len() ==> (#[trigger] rules@[k]).words@.len() >= 1,
            pieces_acc(tv, i as int, pieces_view(pieces@), rv) == pieces_acc(tv, 0, Seq::empty(), rv),
        decreases tokens@.len() - i,
    {
        let ghost pre = pieces_view(pieces@);
        match first_rule_at(&tokens, i, &rules) {
            Some(ri) => {
                assert(rv[ri as int] == (char_seqs(rules@[ri as int].words@), rules@[ri as int].punct));
                assert(rules@[ri as int].words@.len() >= 1);
                pieces.push(Piece::P(rules[ri].punct));
                assert(pieces_view(pieces@) =~= pre.push(PieceV::P(rv[ri as int].1)));
                i = i + rules[ri].words.len();
            },
            None => {
                assert(tokens@[i as int]@ == tv[i as int]);
                pieces.push(Piece::Word(copy_chars(&tokens[i])));
                assert(pieces_view(pieces@) =~= pre.push(PieceV::Word(tv[i as int])));
                i = i + 1;
            },
        }
    }
    join_pieces(&pieces)
}

/// Replace spoken punctuation words ("ponto", "comma", ...) with the marks they name,
/// whole-token and case-insensitively, longest phrase first.
pub fn substitute_spoken_punctuation(s: &str, lang: Lang) -> (r: String)
    ensures
        r@ == substitute_spec(s@, lang),
{
    let v = substitute_chars(s, lang);
    string_of(v.as_slice())
}

// ─────────────────────────────────────────────────────────────────────────────
// Filler-word removal (context-guarded)
// ─────────────────────────────────────────────────────────────────────────────

/// The per-language filler stoplist (single words and phrases).
pub open spec fn filler_table(lang: Lang) -> Seq<&'static str> {
    match lang {
        Lang::PtBr => seq![
            "eh",
            "ah",
            "hum",
            "hã",
            "ahn",
            "é",
            "né",
            "sabe",
            "então",
            "tipo",
            "tipo assim",
            "assim",
            "meio que",
        ],
        Lang::En => seq![
            "um",
            "uh",
            "er",
            "erm",
            "hmm",
            "like",
            "you know",
            "i mean",
            "kind of",
            "sort of",
            "basically",
            "actually",
        ],
        Lang::Other => seq![],
    }
}

/// The per-language filler stoplist.
pub fn filler_set(lang: Lang) -> (v: Vec<&'static str>)
    ensures
        v@ == filler_table(lang),
{
    let mut v: Vec<&'static str> = Vec::new();
    match lang {
        Lang::PtBr => {
            v.push("eh");
            v.push("ah");
            v.push("hum");
            v.push("hã");
            v.push("ahn");
            v.push("é");
            v.push("né");
            v.push("sabe");
            v.push("então");
            v.push("tipo");
            v.push("tipo assim");
            v.push("assim");
            v.push("meio que");
        },
        Lang::En => {
            v.push("um");
            v.push("uh");
            v.push("er");
            v.push("erm");
            v.push("hmm");
            v.push("like");
            v.push("you know");
            v.push("i mean");
            v.push("kind of");
            v.push("sort of");
            v.push("basically");
            v.push("actually");
        },
        Lang::Other => {},
    }
    assert(v@ =~= filler_table(lang));
    v
}

/// How aggressively a filler may be removed. Content-ambiguous words are stripped
/// only with a clear discourse-marker signal; when unsure, keep.
#[derive(Clone, Copy, PartialEq, Eq, Debug, Structural)]
pub enum GuardKind {
    /// Unambiguous filler (um, uh, eh, ah, ...).
    Always,
    /// Strip only when comma-delimited (é, like, actually, ...).
    Comma,
    /// Strip when sentence-initial or comma-delimited (então).
    InitialOrComma,
}

pub open spec fn guard_kind_spec(p: Seq<char>) -> GuardKind {
    if p == "então"@ {
        GuardKind::InitialOrComma
    } else if p == "é"@ || p == "né"@ || p == "sabe"@ || p == "tipo"@ || p == "tipo assim"@ || p
        == "assim"@ || p == "meio que"@ || p == "like"@ || p == "you know"@ || p == "i mean"@ || p
        == "kind of"@ || p == "sort of"@ || p == "basically"@ || p == "actually"@ {
        GuardKind::Comma
    } else {
        GuardKind::Always
    }
}

fn guard_kind(p: &[char]) -> (g: GuardKind)
    ensures
        g == guard_kind_spec(p@),
{
    if is_lit(p, "então") {
        GuardKind::InitialOrComma
    } else if is_lit(p, "é") || is_lit(p, "né") || is_lit(p, "sabe") || is_lit(p, "tipo") || is_lit(
        p,
        "tipo assim",
    ) || is_lit(p, "assim") || is_lit(p, "meio que") || is_lit(p, "like") || is_lit(p, "you know")
        || is_lit(p, "i mean") || is_lit(p, "kind of") || is_lit(p, "sort of") || is_lit(
        p,
        "basically",
    ) || is_lit(p, "actually") {
        GuardKind::Comma
    } else {
        GuardKind::Always
    }
}

pub open spec fn is_terminator(c: char) -> bool {
    c == '.' || c == '?' || c == '!' || c == '…'
}

pub open spec fn ends_with_char(s: Seq<char>, c: char) -> bool {
    s.len() > 0 && s.last() == c
}

pub open spec fn ends_with_terminator(s: Seq<char>) -> bool {
    s.len() > 0 && is_terminator(s.last())
}

/// May the phrase occupying `tokens[i..i+n]` be removed given its guard?
pub open spec fn should_remove_spec(kind: GuardKind, tokens: Seq<Seq<char>>, i: int, n: int) -> bool {
    let comma_delimited = ends_with_char(tokens[i + n - 1], ',') || (i > 0 && ends_with_char(
        tokens[i - 1],
        ',',
    ));
    let sentence_initial = i == 0 || ends_with_terminator(tokens[i - 1]);
    match kind {
        GuardKind::Always => true,
        GuardKind::Comma => comma_delimited,
        GuardKind::InitialOrComma => sentence_initial || comma_delimited,
    }
}

fn last_is(t: &Vec<char>, c: char) -> (b: bool)
    ensures
        b == ends_with_char(t@, c),
{
    t.len() > 0 && t[t.len() - 1] == c
}

fn last_is_terminator(t: &Vec<char>) -> (b: bool)
    ensures
        b == ends_with_terminator(t@),
{
    if t.len() == 0 {
        return false;
    }
    let c = t[t.len() - 1];
    c == '.' || c == '?' || c == '!' || c == '…'
}

fn should_remove_chars(kind: GuardKind, tokens: &Vec<Vec<char>>, i: usize, n: usize) -> (b: bool)
    requires
        1 <= i + n <= tokens@.len(),
    ensures
        b == should_remove_spec(kind, char_seqs(tokens@), i as int, n as int),
{
    let ghost tv = char_seqs(tokens@);
    let _len = tokens.len();
    assert(tokens@[i + n - 1]@ == tv[i + n - 1]);
    let comma_delimited = last_is(&tokens[i + n - 1], ',') || (i > 0 && last_is(
        &tokens[i - 1],
        ',',
    ));
    proof {
        if i > 0 {
            assert(tokens@[i - 1]@ == tv[i - 1]);
        }
    }
    let sentence_initial = i == 0 || last_is_terminator(&tokens[i - 1]);
    match kind {
        GuardKind::Always => true,
        GuardKind::Comma => comma_delimited,
        GuardKind::InitialOrComma => sentence_initial || comma_delimited,
    }
}

/// The guard decision for the phrase occupying `tokens[i..i+n]`: content-ambiguous
/// fillers need a comma (or, for `InitialOrComma`, a sentence-initial position).
pub fn should_remove(kind: GuardKind, tokens: &[&str], i: usize, n: usize) -> (b: bool)
    requires
        1 <= i + n <= tokens@.len(),
    ensures
        b == should_remove_spec(kind, strs_view(tokens@), i as int, n as int),
{
    let t = strs_to_chars(tokens);
    assert(char_seqs(t@).len() == strs_view(tokens@).len());
    should_remove_chars(kind, &t, i, n)
}

/// A filler phrase: its lowercased words and its guard.
pub type FillerPhrase = (Seq<Seq<char>>, GuardKind);

pub open spec fn builtin_phrases(table: Seq<&'static str>, keep: Seq<Seq<char>>) -> Seq<FillerPhrase>
    decreases table.len(),
{
    if table.len() == 0 {
        Seq::empty()
    } else {
        let rest = builtin_phrases(table.drop_last(), keep);
        let f = table.last()@;
        if keep.contains(f) {
            rest
        } else {
            rest.push((split_on(f, ' '), guard_kind_spec(f)))
        }
    }
}

pub open spec fn extra_phrases(extras: Seq<Seq<char>>, keep: Seq<Seq<char>>) -> Seq<FillerPhrase>
    decreases extras.len(),
{
    if extras.len() == 0 {
        Seq::empty()
    } else {
        let rest = extra_phrases(extras.drop_last(), keep);
        let fl = lowercase_of(extras.last());
        if fl.len() != 0 && !keep.contains(fl) {
            rest.push((split_on(fl, ' '), GuardKind::Always))
        } else {
            rest
        }
    }
}

pub open spec fn phrase_insert_pos(s: Seq<FillerPhrase>, n: nat, i: int) -> int
    decreases s.len() - i,
{
    if 0 <= i < s.len() && s[i].0.len() >= n {
        phrase_insert_pos(s, n, i + 1)
    } else {
        i
    }
}

/// Stable sort by word count, descending.
pub open spec fn sort_phrases(s: Seq<FillerPhrase>) -> Seq<FillerPhrase>
    decreases s.len(),
{
    if s.len() == 0 {
        Seq::empty()
    } else {
        let sorted = sort_phrases(s.drop_last());
        let x = s.last();
        sorted.insert(phrase_insert_pos(sorted, x.0.len(), 0), x)
    }
}

/// The active filler phrases: the stoplist minus `keeps`, plus the user's extras,
/// longest first.
pub open spec fn filler_phrases(lang: Lang, extras: Seq<Seq<char>>, keeps: Seq<Seq<char>>) -> Seq<
    FillerPhrase,
> {
    let keep = keeps.map_values(|k: Seq<char>| lowercase_of(k));
    sort_phrases(builtin_phrases(filler_table(lang), keep) + extra_phrases(extras, keep))
}

/// The first phrase (from `pi` on) that matches at `i` and may be removed there.
pub open spec fn first_filler(tokens: Seq<Seq<char>>, i: int, phrases: Seq<FillerPhrase>, pi: int) -> Option<int>
    decreases phrases.len() - pi,
{
    if pi < 0 || pi >= phrases.len() {
        None
    } else if phrase_at(tokens, i, phrases[pi].0, TokenNorm::Word) && should_remove_spec(
        phrases[pi].1,
        tokens,
        i,
        phrases[pi].0.len() as int,
    ) {
        Some(pi)
    } else {
        first_filler(tokens, i, phrases, pi + 1)
    }
}

/// The tokens kept from `i` on, appended to `out`.
pub open spec fn remove_acc(tokens: Seq<Seq<char>>, i: int, out: Seq<Seq<char>>, phrases: Seq<FillerPhrase>) -> Seq<Seq<char>>
    decreases tokens.len() - i,
{
    if i < 0 || i >= tokens.len() {
        out
    } else {
        match first_filler(tokens, i, phrases, 0) {
            Some(pi) => if 0 <= pi < phrases.len() && phrases[pi].0.len() >= 1 && i + phrases[pi].0.len()
                <= tokens.len() {
                remove_acc(tokens, i + phrases[pi].0.len(), out, phrases)
            } else {
                out
            },
            None => remove_acc(tokens, i + 1, out.push(tokens[i]), phrases),
        }
    }
}

pub open spec fn remove_fillers_spec(s: Seq<char>, lang: Lang, extras: Seq<Seq<char>>, keeps: Seq<Seq<char>>) -> Seq<char> {
    let ph = filler_phrases(lang, extras, keeps);
    if ph.len() == 0 {
        s
    } else {
        join(remove_acc(words(s), 0, Seq::empty(), ph), " "@)
    }
}

struct FillerRule {
    words: Vec<Vec<char>>,
    kind: GuardKind,
}

spec fn filler_view(r: FillerRule) -> FillerPhrase {
    (char_seqs(r.words@), r.kind)
}

spec fn fillers_view(v: Seq<FillerRule>) -> Seq<FillerPhrase> {
    v.map_values(|r: FillerRule| filler_view(r))
}

pub fn contains_chars(v: &Vec<Vec<char>>, x: &[char]) -> (b: bool)
    ensures
        b == char_seqs(v@).contains(x@),
{
    let ghost vv = char_seqs(v@);
    let mut i: usize = 0;
    while i < v.len()
        invariant
            i <= v@.len(),
            vv == char_seqs(v@),
            forall|k: int| 0 <= k < i ==> vv[k] != x@,
        decreases v@.len() - i,
    {
        assert(vv[i as int] == v@[i as int]@);
        if chars_eq(v[i].as_slice(), x) {
            return true;
        }
        i = i + 1;
    }
    false
}

fn copy_words(v: &Vec<Vec<char>>) -> (r: Vec<Vec<char>>)
    ensures
        char_seqs(r@) == char_seqs(v@),
{
    let mut out: Vec<Vec<char>> = Vec::new();
    let mut i: usize = 0;
    while i < v.len()
        invariant
            i <= v@.len(),
            char_seqs(out@) == char_seqs(v@).take(i as int),
        decreases v@.len() - i,
    {
        let ghost pre = char_seqs(out@);
        out.push(copy_chars(&v[i]));
        assert(char_seqs(out@) =~= pre.push(v@[i as int]@));
        i = i + 1;
        assert(char_seqs(v@).take(i as int) =~= char_seqs(v@).take(i - 1).push(v@[i - 1]@));
    }
    assert(char_seqs(v@).take(v@.len() as int) =~= char_seqs(v@));
    out
}

fn lowercase_all(v: &Vec<String>) -> (r: Vec<Vec<char>>)
    ensures
        char_seqs(r@) == strings_view(v@).map_values(|k: Seq<char>| lowercase_of(k)),
{
    let ghost want = strings_view(v@).map_values(|k: Seq<char>| lowercase_of(k));
    let mut out: Vec<Vec<char>> = Vec::new();
    let mut i: usize = 0;
    while i < v.len()
        invariant
            i <= v@.len(),
            want == strings_view(v@).map_values(|k: Seq<char>| lowercase_of(k)),
            char_seqs(out@) == want.take(i as int),
        decreases v@.len() - i,
    {
        let ghost pre = char_seqs(out@);
        let low = to_lowercase(v[i].as_str());
        out.push(chars_of(low.as_str()));
        assert(char_seqs(out@) =~= pre.push(want[i as int]));
        i = i + 1;
        assert(want.take(i as int) =~= want.take(i - 1).push(want[i - 1]));
    }
    assert(want.take(v@.len() as int) =~= want);
    out
}

fn build_filler_phrases(lang: Lang, opts: &CleanupOptions) -> (r: Vec<FillerRule>)
    ensures
        fillers_view(r@) == filler_phrases(
            lang,
            strings_view(opts.extra_fillers@),
            strings_view(opts.keep_fillers@),
        ),
        forall|k: int| 0 <= k < r@.len() ==> (#[trigger] r@[k]).words@.len() >= 1,
{
    let keep = lowercase_all(&opts.keep_fillers);
    let ghost kv = char_seqs(keep@);
    let table = filler_set(lang);
    let mut unsorted: Vec<FillerRule> = Vec::new();
    let mut i: usize = 0;
    while i < table.len()
        invariant
            i <= table@.len(),
            table@ == filler_table(lang),
            kv == char_seqs(keep@),
            fillers_view(unsorted@) == builtin_phrases(table@.take(i as int), kv),
            forall|k: int| 0 <= k < unsorted@.len() ==> (#[trigger] unsorted@[k]).words@.len() >= 1,
        decreases table@.len() - i,
    {
        let ghost pre = fillers_view(unsorted@);
        assert(table@.take(i + 1).drop_last() =~= table@.take(i as int));
        let f = table[i];
        let fc = chars_of(f);
        if !contains_chars(&keep, fc.as_slice()) {
            let ws = lit_words(f);
            let g = guard_kind(fc.as_slice());
            unsorted.push(FillerRule { words: ws, kind: g });
            assert(fillers_view(unsorted@) =~= pre.push((split_on(f@, ' '), guard_kind_spec(f@))));
        }
        i = i + 1;
    }
    assert(table@.take(table@.len() as int) =~= table@);
    let ghost base = fillers_view(unsorted@);
    let mut e: usize = 0;
    while e < opts.extra_fillers.len()
        invariant
            e <= opts.extra_fillers@.len(),
            kv == char_seqs(keep@),
            base == builtin_phrases(filler_table(lang), kv),
            fillers_view(unsorted@) == base + extra_phrases(
                strings_view(opts.extra_fillers@).take(e as int),
                kv,
            ),
            forall|k: int| 0 <= k < unsorted@.len() ==> (#[trigger] unsorted@[k]).words@.len() >= 1,
        decreases opts.extra_fillers@.len() - e,
    {
        let ghost xs = strings_view(opts.extra_fillers@);
        let ghost pre = fillers_view(unsorted@);
        assert(xs.take(e + 1).drop_last() =~= xs.take(e as int));
        assert(xs.take(e + 1).last() == opts.extra_fillers@[e as int]@);
        let low = to_lowercase(opts.extra_fillers[e].as_str());
        let fl = chars_of(low.as_str());
        if fl.len() != 0 && !contains_chars(&keep, fl.as_slice()) {
            let ws = split_char(fl.as_slice(), ' ');
            assert(char_seqs(ws@) =~= split_on(fl@, ' '));
            proof {
                lemma_split_nonempty(fl@, ' ');
            }
            unsorted.push(FillerRule { words: ws, kind: GuardKind::Always });
            assert(fillers_view(unsorted@) =~= pre.push((split_on(fl@, ' '), GuardKind::Always)));
        }
        e = e + 1;
    }
    assert(strings_view(opts.extra_fillers@).take(opts.extra_fillers@.len() as int)
        =~= strings_view(opts.extra_fillers@));
    let ghost uv = fillers_view(unsorted@);
    let mut sorted: Vec<FillerRule> = Vec::new();
    let mut j: usize = 0;
    while j < unsorted.len()
        invariant
            j <= unsorted@.len(),
            uv == fillers_view(unsorted@),
            fillers_view(sorted@) == sort_phrases(uv.take(j as int)),
            forall|k: int| 0 <= k < unsorted@.len() ==> (#[trigger] unsorted@[k]).words@.len() >= 1,
            forall|k: int| 0 <= k < sorted@.len() ==> (#[trigger] sorted@[k]).words@.len() >= 1,
        decreases unsorted@.len() - j,
    {
        let ghost sv = fillers_view(sorted@);
        let n = unsorted[j].words.len();
        let mut pos: usize = 0;
        while pos < sorted.len() && sorted[pos].words.len() >= n
            invariant
                pos <= sorted@.len(),
                sv == fillers_view(sorted@),
                n == unsorted@[j as int].words@.len(),
                phrase_insert_pos(sv, n as nat, pos as int) == phrase_insert_pos(sv, n as nat, 0),
            decreases sorted@.len() - pos,
        {
            assert(sv[pos as int].0.len() == sorted@[pos as int].words@.len());
            pos = pos + 1;
        }
        proof {
            if pos < sorted@.len() {
                assert(sv[pos as int].0.len() == sorted@[pos as int].words@.len());
            }
        }
        let c = FillerRule { words: copy_words(&unsorted[j].words), kind: unsorted[j].kind };
        sorted.insert(pos, c);
        proof {
            assert(uv.take(j + 1).drop_last() =~= uv.take(j as int));
            assert(uv.take(j + 1).last() == uv[j as int]);
            assert(uv[j as int] == filler_view(unsorted@[j as int]));
            assert(fillers_view(sorted@) =~= sv.insert(pos as int, uv[j as int]));
            assert forall|k: int| 0 <= k < sorted@.len() implies (#[trigger] sorted@[k]).words@.len()
                >= 1 by {
                if k == pos {
                    assert(char_seqs(sorted@[k].words@).len() == sorted@[k].words@.len());
                }
            }
        }
        j = j + 1;
    }
    assert(uv.take(unsorted@.len() as int) =~= uv);
    sorted
}

fn first_filler_at(tokens: &Vec<Vec<char>>, i: usize, phrases: &Vec<FillerRule>) -> (r: Option<usize>)
    requires
        forall|k: int| 0 <= k < phrases@.len() ==> (#[trigger] phrases@[k]).words@.len() >= 1,
    ensures
        match r {
            Some(pi) => pi < phrases@.len() && first_filler(char_seqs(tokens@), i as int, fillers_view(phrases@), 0)
                == Some(pi as int) && phrase_at(
                char_seqs(tokens@),
                i as int,
                char_seqs(phrases@[pi as int].words@),
                TokenNorm::Word,
            ),
            None => first_filler(char_seqs(tokens@), i as int, fillers_view(phrases@), 0) is None,
        },
{
    let ghost tv = char_seqs(tokens@);
    let ghost pv = fillers_view(phrases@);
    let mut pi: usize = 0;
    while pi < phrases.len()
        invariant
            pi <= phrases@.len(),
            tv == char_seqs(tokens@),
            pv == fillers_view(phrases@),
            forall|k: int| 0 <= k < phrases@.len() ==> (#[trigger] phrases@[k]).words@.len() >= 1,
            first_filler(tv, i as int, pv, pi as int) == first_filler(tv, i as int, pv, 0),
        decreases phrases@.len() - pi,
    {
        assert(pv[pi as int] == filler_view(phrases@[pi as int]));
        let n = phrases[pi].words.len();
        if phrase_at_chars(tokens, i, &phrases[pi].words, TokenNorm::Word) {
            assert(phrases@[pi as int].words@.len() >= 1);
            if should_remove_chars(phrases[pi].kind, tokens, i, n) {
                return Some(pi);
            }
        }
        pi = pi + 1;
    }
    None
}

fn remove_fillers_chars(s: &str, lang: Lang, opts: &CleanupOptions) -> (r: Vec<char>)
    ensures
        r@ == remove_fillers_spec(
            s@,
            lang,
            strings_view(opts.extra_fillers@),
            strings_view(opts.keep_fillers@),
        ),
{
    let phrases = build_filler_phrases(lang, opts);
    if phrases.len() == 0 {
        return chars_of(s);
    }
    let ghost pv = fillers_view(phrases@);
    let tokens = words_of_str(s);
    let ghost tv = char_seqs(tokens@);
    let mut out: Vec<Vec<char>> = Vec::new();
    assert(char_seqs(out@) =~= Seq::<Seq<char>>::empty());
    let mut i: usize = 0;
    while i < tokens.len()
        invariant
            i <= tokens@.len(),
            tv == char_seqs(tokens@),
            pv == fillers_view(phrases@),
            forall|k: int| 0 <= k < phrases@.len() ==> (#[trigger] phrases@[k]).words@.len() >= 1,
            remove_acc(tv, i as int, char_seqs(out@), pv) == remove_acc(tv, 0, Seq::empty(), pv),
        decreases tokens@.len() - i,
    {
        let ghost pre = char_seqs(out@);
        match first_filler_at(&tokens, i, &phrases) {
            Some(pi) => {
                assert(pv[pi as int] == filler_view(phrases@[pi as int]));
                assert(phrases@[pi as int].words@.len() >= 1);
                i = i + phrases[pi].words.len();
            },
            None => {
                out.push(copy_chars(&tokens[i]));
                assert(char_seqs(out@) =~= pre.push(tv[i as int]));
                i = i + 1;
            },
        }
    }
    let sp = chars_of(" ");
    join_chars(&out, sp.as_slice())
}

/// Remove filler words and phrases: the built-in stoplist minus the user's keep-list,
/// plus the user's extras; ambiguous fillers only where their guard allows.
pub fn remove_fillers(s: &str, lang: Lang, opts: &CleanupOptions) -> (r: String)
    ensures
        r@ == remove_fillers_spec(
            s@,
            lang,
            strings_view(opts.extra_fillers@),
            strings_view(opts.keep_fillers@),
        ),
{
    let v = remove_fillers_chars(s, lang, opts);
    string_of(v.as_slice())
}

// ─────────────────────────────────────────────────────────────────────────────
// Stutter / repeat collapse
// ─────────────────────────────────────────────────────────────────────────────

pub open spec fn all_alphabetic(s: Seq<char>) -> bool {
    forall|k: int| 0 <= k < s.len() ==> #[trigger] alphabetic(s[k])
}

/// UTF-8 length in bytes, as `str::len` reports it.
pub open spec fn byte_len(s: Seq<char>) -> usize {
    vstd::utf8::encode_utf8(s).len() as usize
}

/// `th-the` becomes `the` when the part before the first hyphen is a shorter,
/// case-insensitive prefix of the (hyphen-free) part after it; both all letters.
pub open spec fn destutter_spec(t: Seq<char>) -> Seq<char> {
    let idx = crate::hotkey::next_index_of(t, '-', 0);
    if idx < t.len() {
        let l = t.subrange(0, idx);
        let r = t.subrange(idx + 1, t.len() as int);
        if l.len() > 0 && r.len() > 0 && !r.contains('-') && byte_len(l) < byte_len(r)
            && all_alphabetic(l) && all_alphabetic(r) && crate::text::starts_with(
            lowercase_of(r),
            lowercase_of(l),
        ) {
            r
        } else {
            t
        }
    } else {
        t
    }
}

fn all_alphabetic_chars(s: &[char]) -> (b: bool)
    ensures
        b == all_alphabetic(s@),
{
    let mut i: usize = 0;
    while i < s.len()
        invariant
            i <= s@.len(),
            forall|k: int| 0 <= k < i ==> #[trigger] alphabetic(s@[k]),
        decreases s@.len() - i,
    {
        if !is_alphabetic(s[i]) {
            assert(!alphabetic(s@[i as int]));
            return false;
        }
        i = i + 1;
    }
    true
}

fn has_char(s: &[char], c: char) -> (b: bool)
    ensures
        b == s@.contains(c),
{
    let mut i: usize = 0;
    while i < s.len()
        invariant
            i <= s@.len(),
            forall|k: int| 0 <= k < i ==> s@[k] != c,
        decreases s@.len() - i,
    {
        if s[i] == c {
            return true;
        }
        i = i + 1;
    }
    false
}

fn lower_chars(s: &[char]) -> (r: Vec<char>)
    ensures
        r@ == lowercase_of(s@),
{
    let st = string_of(s);
    let low = to_lowercase(st.as_str());
    chars_of(low.as_str())
}

fn destutter_token(t: &[char]) -> (r: Vec<char>)
    ensures
        r@ == destutter_spec(t@),
{
    let idx = crate::hotkey::find_char(t, '-', 0);
    proof {
        crate::hotkey::lemma_next_index_bounds(t@, '-', 0);
    }
    if idx < t.len() {
        let l = crate::text::slice_range(t, 0, idx);
        let r = crate::text::slice_range(t, idx + 1, t.len());
        if l.len() > 0 && r.len() > 0 && !has_char(r.as_slice(), '-') {
            let ls = string_of(l.as_slice());
            let rs = string_of(r.as_slice());
            if ls.as_str().len() < rs.as_str().len() && all_alphabetic_chars(l.as_slice())
                && all_alphabetic_chars(r.as_slice()) {
                let ll = lower_chars(l.as_slice());
                let rl = lower_chars(r.as_slice());
                if crate::text::has_prefix(rl.as_slice(), ll.as_slice()) {
                    return r;
                }
            }
        }
    }
    copy_chars_slice(t)
}

fn copy_chars_slice(t: &[char]) -> (r: Vec<char>)
    ensures
        r@ == t@,
{
    crate::text::slice_range(t, 0, t.len())
}

/// Whether `tok` repeats `prev` (same normalized word, not empty).
pub open spec fn same_word(prev: Seq<char>, tok: Seq<char>) -> bool {
    norm_word_spec(prev) == norm_word_spec(tok) && norm_word_spec(tok).len() != 0
}

/// Tokens from `i` on, de-stuttered, appended to `out` unless they repeat the kept
/// token before them within a sentence.
pub open spec fn collapse_acc(tokens: Seq<Seq<char>>, i: int, out: Seq<Seq<char>>) -> Seq<Seq<char>>
    decreases tokens.len() - i,
{
    if i < 0 || i >= tokens.len() {
        out
    } else {
        let tok = destutter_spec(tokens[i]);
        if out.len() > 0 && same_word(out.last(), tok) && !ends_with_terminator(out.last()) {
            collapse_acc(tokens, i + 1, out)
        } else {
            collapse_acc(tokens, i + 1, out.push(tok))
        }
    }
}

pub open spec fn collapse_spec(s: Seq<char>) -> Seq<char> {
    join(collapse_acc(words(s), 0, Seq::empty()), " "@)
}

fn collapse_chars(s: &str) -> (r: Vec<char>)
    ensures
        r@ == collapse_spec(s@),
{
    let tokens = words_of_str(s);
    let ghost tv = char_seqs(tokens@);
    let mut out: Vec<Vec<char>> = Vec::new();
    assert(char_seqs(out@) =~= Seq::<Seq<char>>::empty());
    let mut i: usize = 0;
    while i < tokens.len()
        invariant
            i <= tokens@.len(),
            tv == char_seqs(tokens@),
            collapse_acc(tv, i as int, char_seqs(out@)) == collapse_acc(tv, 0, Seq::empty()),
        decreases tokens@.len() - i,
    {
        let ghost pre = char_seqs(out@);
        assert(tokens@[i as int]@ == tv[i as int]);
        let tok = destutter_token(tokens[i].as_slice());
        let mut drop = false;
        if out.len() > 0 {
            let last = out.len() - 1;
            assert(out@[last as int]@ == pre.last());
            let prev_terminates = last_is_terminator(&out[last]);
            let np = norm_word_chars(out[last].as_slice());
            let nt = norm_word_chars(tok.as_slice());
            let same = chars_eq(np.as_slice(), nt.as_slice()) && nt.len() != 0;
            drop = same && !prev_terminates;
        }
        if !drop {
            out.push(tok);
            assert(char_seqs(out@) =~= pre.push(destutter_spec(tv[i as int])));
        }
        i = i + 1;
    }
    let sp = chars_of(" ");
    join_chars(&out, sp.as_slice())
}

/// Collapse stutters: `th-the` becomes `the`, and an adjacent repeat of the same word
/// within a sentence is dropped (the first occurrence is kept).
pub fn collapse_repeats(s: &str) -> (r: String)
    ensures
        r@ == collapse_spec(s@),
{
    let v = collapse_chars(s);
    string_of(v.as_slice())
}

// ─────────────────────────────────────────────────────────────────────────────
// Regular-expression rewriting (the `regex` crate)
// ─────────────────────────────────────────────────────────────────────────────

/// `s` without the characters at the indices `drop` picks, the rest in order
/// (the first `n` characters considered).
pub open spec fn keep_prefix(s: Seq<char>, n: int, drop: spec_fn(int) -> bool) -> Seq<char>
    decreases n,
{
    if n <= 0 {
        Seq::empty()
    } else if drop(n - 1) {
        keep_prefix(s, n - 1, drop)
    } else {
        keep_prefix(s, n - 1, drop).push(s[n - 1])
    }
}

/// `s` without the characters at the indices `drop` picks.
pub open spec fn drop_where(s: Seq<char>, drop: spec_fn(int) -> bool) -> Seq<char> {
    keep_prefix(s, s.len() as int, drop)
}

/// A terminator or closing bracket that hugs the text before it.
pub open spec fn is_close_mark(c: char) -> bool {
    c == '.' || c == ',' || c == ';' || c == ':' || c == '?' || c == '!' || c == '…' || c == ')' || c == ']'
}

pub open spec fn is_open_bracket(c: char) -> bool {
    c == '(' || c == '['
}

/// `s[i]` is a space in a run of spaces that a closing mark ends.
pub open spec fn space_before_mark(s: Seq<char>, i: int) -> bool {
    s[i] == ' ' && exists|j: int|
        i < j < s.len() && #[trigger] is_close_mark(s[j]) && forall|m: int| i <= m < j ==> s[m] == ' '
}

/// `s[i]` is a space in a run of spaces that an opening bracket begins.
pub open spec fn space_after_open(s: Seq<char>, i: int) -> bool {
    s[i] == ' ' && exists|j: int|
        0 <= j < i && #[trigger] is_open_bracket(s[j]) && forall|m: int| j < m <= i ==> s[m] == ' '
}

/// Spaces before terminators and closing brackets removed.
pub open spec fn close_up_marks(s: Seq<char>) -> Seq<char> {
    drop_where(s, |i: int| space_before_mark(s, i))
}

/// Spaces after opening brackets removed.
pub open spec fn close_up_openers(s: Seq<char>) -> Seq<char> {
    drop_where(s, |i: int| space_after_open(s, i))
}

/// Every run of spaces cut to its first space.
pub open spec fn single_spaces(s: Seq<char>) -> Seq<char> {
    drop_where(s, |i: int| i > 0 && s[i] == ' ' && s[i - 1] == ' ')
}

/// Every run of newlines cut to at most two.
pub open spec fn at_most_two_newlines(s: Seq<char>) -> Seq<char> {
    drop_where(s, |i: int| i > 1 && s[i] == '\n' && s[i - 1] == '\n' && s[i - 2] == '\n')
}

/// A character of the regex class `\w` within ASCII: a letter, a digit or `_`.
pub open spec fn ascii_word_char(c: char) -> bool {
    crate::text::ascii_letter(c) || crate::text::ascii_digit(c) || c == '_'
}

/// Each `i` standing alone as a word (no word character on either side) becomes `I`;
/// ASCII text.
pub open spec fn pronoun_i_ascii(s: Seq<char>) -> Seq<char> {
    Seq::new(
        s.len(),
        |k: int|
            if s[k] == 'i' && (k == 0 || !ascii_word_char(s[k - 1])) && (k == s.len() - 1 || !ascii_word_char(
                s[k + 1],
            )) {
                'I'
            } else {
                s[k]
            },
    )
}

/// The first index at or after `i` that is not a space (or the end).
pub open spec fn skip_spaces(s: Seq<char>, i: int) -> int
    decreases s.len() - i,
{
    if 0 <= i < s.len() && s[i] == ' ' {
        skip_spaces(s, i + 1)
    } else {
        i
    }
}

/// Where a decimal written `d *sep *d` starting at `i` ends (one past its second
/// digit), if one starts there; ASCII digits.
pub open spec fn decimal_end(s: Seq<char>, i: int, sep: char) -> Option<int> {
    if 0 <= i < s.len() && crate::text::ascii_digit(s[i]) {
        let j = skip_spaces(s, i + 1);
        if j < s.len() && s[j] == sep {
            let k = skip_spaces(s, j + 1);
            if k < s.len() && crate::text::ascii_digit(s[k]) {
                Some(k + 1)
            } else {
                None
            }
        } else {
            None
        }
    } else {
        None
    }
}

/// From index `i` on, left to right: each decimal `d *sep *d` that starts where the
/// previous one ended (or later) is closed up to `d sep d`; everything else is kept.
pub open spec fn close_up_decimals(s: Seq<char>, i: int, sep: char) -> Seq<char>
    decreases s.len() - i,
{
    if i < 0 || i >= s.len() {
        Seq::empty()
    } else {
        match decimal_end(s, i, sep) {
            Some(e) => if i < e <= s.len() {
                seq![s[i], sep, s[e - 1]] + close_up_decimals(s, e, sep)
            } else {
                Seq::empty()
            },
            None => seq![s[i]] + close_up_decimals(s, i + 1, sep),
        }
    }
}

/// What `regex::Regex::new(pattern)` followed by `replace_all(haystack, replacement)`
/// yields: `None` when the pattern does not compile, else the rewritten text
/// (`$n` in `replacement` expands to capture group `n`).
pub uninterp spec fn regex_replaced(pattern: Seq<char>, haystack: Seq<char>, replacement: Seq<char>) -> Option<Seq<char>>;

/// `regex::Regex::new` then `Regex::replace_all` (leftmost-first, non-overlapping
/// matches, each replaced by `replacement` with `$n` expanded). Claims: the outcome is
/// the named result of the three arguments; and for the library's fixed patterns,
/// which compile, what the rewrite is: the four spacing patterns delete exactly the
/// spaces or newlines their matches drop; `\bi\b` → `I` changes only lone `i`s to
/// `I` (exactly those with no ASCII word character beside them on ASCII text); and
/// on ASCII text the decimal patterns close up `d *sep *d` left to right. The
/// Unicode classes `\b` and `\d` on other text are left to the name.
#[verifier::external_body]
fn regex_replace_all(pattern: &str, haystack: &str, replacement: &str) -> (r: Option<String>)
    ensures
        match r {
            Some(x) => regex_replaced(pattern@, haystack@, replacement@) == Some(x@),
            None => regex_replaced(pattern@, haystack@, replacement@) is None,
        },
        pattern@ == SPACE_BEFORE_CLOSE@ && replacement@ == "$1"@ ==> r is Some && r->0@ == close_up_marks(
            haystack@,
        ),
        pattern@ == SPACE_AFTER_OPEN@ && replacement@ == "$1"@ ==> r is Some && r->0@ == close_up_openers(
            haystack@,
        ),
        pattern@ == MULTISPACE@ && replacement@ == " "@ ==> r is Some && r->0@ == single_spaces(haystack@),
        pattern@ == MULTINEWLINE@ && replacement@ == "\n\n"@ ==> r is Some && r->0@ == at_most_two_newlines(
            haystack@,
        ),
        pattern@ == PRONOUN_I@ && replacement@ == "I"@ ==> r is Some && r->0@.len() == haystack@.len() && (forall|k: int|
            0 <= k < haystack@.len() ==> #[trigger] r->0@[k] == haystack@[k] || (haystack@[k] == 'i' && r->0@[k]
                == 'I')) && (crate::text::all_ascii(haystack@) ==> r->0@ == pronoun_i_ascii(haystack@)),
        pattern@ == PT_DECIMAL@ && replacement@ == "$1,$2"@ && crate::text::all_ascii(haystack@) ==> r is Some
            && r->0@ == close_up_decimals(haystack@, 0, ','),
        pattern@ == EN_DECIMAL@ && replacement@ == "$1.$2"@ && crate::text::all_ascii(haystack@) ==> r is Some
            && r->0@ == close_up_decimals(haystack@, 0, '.'),
{
    match regex::Regex::new(pattern) {
        Ok(re) => Some(re.replace_all(haystack, replacement).into_owned()),
        Err(_) => None,
    }
}

/// One rewriting stage: the rewritten text, or `s` itself should the (fixed) pattern
/// ever fail to compile.
pub open spec fn regex_step(pattern: Seq<char>, s: Seq<char>, replacement: Seq<char>) -> Seq<char> {
    match regex_replaced(pattern, s, replacement) {
        Some(x) => x,
        None => s,
    }
}

/// Apply one rewriting stage: every match of `pattern` in `s` replaced by
/// `replacement`, or `s` unchanged should the pattern not compile; for the library's
/// fixed patterns, the rewrite stated above.
pub fn rewrite(pattern: &str, s: &str, replacement: &str) -> (r: String)
    ensures
        r@ == regex_step(pattern@, s@, replacement@),
        pattern@ == SPACE_BEFORE_CLOSE@ && replacement@ == "$1"@ ==> r@ == close_up_marks(s@),
        pattern@ == SPACE_AFTER_OPEN@ && replacement@ == "$1"@ ==> r@ == close_up_openers(s@),
        pattern@ == MULTISPACE@ && replacement@ == " "@ ==> r@ == single_spaces(s@),
        pattern@ == MULTINEWLINE@ && replacement@ == "\n\n"@ ==> r@ == at_most_two_newlines(s@),
        pattern@ == PRONOUN_I@ && replacement@ == "I"@ && crate::text::all_ascii(s@) ==> r@ == pronoun_i_ascii(s@),
        pattern@ == PT_DECIMAL@ && replacement@ == "$1,$2"@ && crate::text::all_ascii(s@) ==> r@
            == close_up_decimals(s@, 0, ','),
        pattern@ == EN_DECIMAL@ && replacement@ == "$1.$2"@ && crate::text::all_ascii(s@) ==> r@
            == close_up_decimals(s@, 0, '.'),
{
    match regex_replace_all(pattern, s, replacement) {
        Some(x) => x,
        None => String::from_str(s),
    }
}

/// Spaces before a terminator or closing bracket.
pub const SPACE_BEFORE_CLOSE: &'static str = " +([.,;:?!…)\\]])";

/// Spaces right after an opening bracket.
pub const SPACE_AFTER_OPEN: &'static str = "([(\\[]) +";

/// Two or more spaces.
pub const MULTISPACE: &'static str = "  +";

/// Three or more newlines.
pub const MULTINEWLINE: &'static str = "\\n{3,}";

/// A standalone English `i`.
pub const PRONOUN_I: &'static str = "\\bi\\b";

/// A pt-BR decimal comma with stray spaces: `3 , 14`.
pub const PT_DECIMAL: &'static str = "(\\d) *, *(\\d)";

/// An English decimal point with stray spaces: `3 . 14`.
pub const EN_DECIMAL: &'static str = "(\\d) *\\. *(\\d)";

// ─────────────────────────────────────────────────────────────────────────────
// Whitespace normalization (always on)
// ─────────────────────────────────────────────────────────────────────────────

pub open spec fn detab(s: Seq<char>) -> Seq<char> {
    s.map_values(|c: char| if c == '\t' { ' ' } else { c })
}

/// Each line trimmed, lines rejoined with `\n`.
pub open spec fn trim_lines(s: Seq<char>) -> Seq<char> {
    join(split_on(s, '\n').map_values(|l: Seq<char>| trim(l)), "\n"@)
}

pub open spec fn normalize_ws_spec(s: Seq<char>) -> Seq<char> {
    trim(at_most_two_newlines(trim_lines(single_spaces(close_up_openers(close_up_marks(detab(s)))))))
}

/// Tabs turned into spaces, every other character kept.
pub fn detab_chars(s: &str) -> (r: Vec<char>)
    ensures
        r@ == detab(s@),
{
    let cs = chars_of(s);
    let mut out: Vec<char> = Vec::new();
    let mut i: usize = 0;
    while i < cs.len()
        invariant
            i <= cs@.len(),
            cs@ == s@,
            out@ == detab(s@).take(i as int),
        decreases cs@.len() - i,
    {
        let c = cs[i];
        out.push(if c == '\t' { ' ' } else { c });
        i = i + 1;
        assert(out@ =~= detab(s@).take(i as int));
    }
    assert(detab(s@).take(cs@.len() as int) =~= detab(s@));
    out
}

/// Each line trimmed of surrounding whitespace, lines rejoined with `\n`.
pub fn trim_lines_chars(s: &str) -> (r: Vec<char>)
    ensures
        r@ == trim_lines(s@),
{
    let cs = chars_of(s);
    let lines = split_char(cs.as_slice(), '\n');
    let ghost want = split_on(s@, '\n').map_values(|l: Seq<char>| trim(l));
    let mut trimmed: Vec<Vec<char>> = Vec::new();
    let mut i: usize = 0;
    while i < lines.len()
        invariant
            i <= lines@.len(),
            lines@.len() == split_on(s@, '\n').len(),
            forall|k: int| 0 <= k < lines@.len() ==> (#[trigger] lines@[k])@ == split_on(s@, '\n')[k],
            want == split_on(s@, '\n').map_values(|l: Seq<char>| trim(l)),
            char_seqs(trimmed@) == want.take(i as int),
        decreases lines@.len() - i,
    {
        let ghost pre = char_seqs(trimmed@);
        let t = crate::text::trim_chars(lines[i].as_slice());
        trimmed.push(t);
        assert(char_seqs(trimmed@) =~= pre.push(want[i as int]));
        i = i + 1;
        assert(want.take(i as int) =~= want.take(i - 1).push(want[i - 1]));
    }
    assert(want.take(lines@.len() as int) =~= want);
    let nl = chars_of("\n");
    join_chars(&trimmed, nl.as_slice())
}

/// Normalize spacing: tabs to spaces, no space before terminators and closing
/// brackets or after opening ones, single spaces, trimmed lines, at most one blank
/// line, trimmed ends.
pub fn normalize_whitespace(s: &str) -> (r: String)
    ensures
        r@ == normalize_ws_spec(s@),
{
    let d = detab_chars(s);
    let s0 = string_of(d.as_slice());
    let s1 = rewrite(SPACE_BEFORE_CLOSE, s0.as_str(), "$1");
    let s2 = rewrite(SPACE_AFTER_OPEN, s1.as_str(), "$1");
    let s3 = rewrite(MULTISPACE, s2.as_str(), " ");
    let tl = trim_lines_chars(s3.as_str());
    let tls = string_of(tl.as_slice());
    let s4 = rewrite(MULTINEWLINE, tls.as_str(), "\n\n");
    crate::text::trim_str(s4.as_str())
}

// ─────────────────────────────────────────────────────────────────────────────
// Capitalization
// ─────────────────────────────────────────────────────────────────────────────

pub open spec fn starts_sentence_after(c: char) -> bool {
    c == '.' || c == '?' || c == '!' || c == '…' || c == '\n'
}

/// Characters from `i` on appended to `out`; `cap` means the next letter is
/// capitalized. Non-letters (spaces, digits, openers) leave `cap` as it is.
pub open spec fn cap_acc(s: Seq<char>, i: int, out: Seq<char>, cap: bool) -> Seq<char>
    decreases s.len() - i,
{
    if i < 0 || i >= s.len() {
        out
    } else if cap && alphabetic(s[i]) {
        cap_acc(s, i + 1, out + uppercase_of(s[i]), false)
    } else {
        cap_acc(s, i + 1, out.push(s[i]), cap || starts_sentence_after(s[i]))
    }
}

pub open spec fn fix_cap_spec(s: Seq<char>, lang: Lang) -> Seq<char> {
    let o = cap_acc(s, 0, Seq::empty(), true);
    if lang == Lang::En {
        if crate::text::all_ascii(o) {
            pronoun_i_ascii(o)
        } else {
            regex_step(PRONOUN_I@, o, "I"@)
        }
    } else {
        o
    }
}

/// Sentence case without the pronoun rule: the first letter of the text and the first
/// letter after each `.`, `?`, `!`, `…` or newline is uppercased; everything else is
/// kept as it is.
pub fn capitalize_sentences(s: &str) -> (r: String)
    ensures
        r@ == cap_acc(s@, 0, Seq::empty(), true),
{
    let cs = chars_of(s);
    let mut out: Vec<char> = Vec::new();
    let mut cap = true;
    let mut i: usize = 0;
    while i < cs.len()
        invariant
            i <= cs@.len(),
            cs@ == s@,
            cap_acc(s@, i as int, out@, cap) == cap_acc(s@, 0, Seq::empty(), true),
        decreases cs@.len() - i,
    {
        let c = cs[i];
        if cap && is_alphabetic(c) {
            let up = char_to_uppercase(c);
            let uc = chars_of(up.as_str());
            append_chars(&mut out, uc.as_slice());
            cap = false;
        } else {
            out.push(c);
            if c == '.' || c == '?' || c == '!' || c == '…' || c == '\n' {
                cap = true;
            }
        }
        i = i + 1;
    }
    string_of(out.as_slice())
}

/// Sentence case: the first letter of the text and of each sentence is uppercased;
/// interior case is preserved. In English a standalone `i` becomes `I`.
pub fn fix_capitalization(s: &str, lang: Lang) -> (r: String)
    ensures
        r@ == fix_cap_spec(s@, lang),
{
    let o = capitalize_sentences(s);
    if lang == Lang::En {
        rewrite(PRONOUN_I, o.as_str(), "I")
    } else {
        o
    }
}

// ─────────────────────────────────────────────────────────────────────────────
// Light number normalization and the trailing period
// ─────────────────────────────────────────────────────────────────────────────

pub open spec fn normalize_numbers_spec(s: Seq<char>, lang: Lang) -> Seq<char> {
    match lang {
        Lang::PtBr => if crate::text::all_ascii(s) {
            close_up_decimals(s, 0, ',')
        } else {
            regex_step(PT_DECIMAL@, s, "$1,$2"@)
        },
        Lang::En => if crate::text::all_ascii(s) {
            close_up_decimals(s, 0, '.')
        } else {
            regex_step(EN_DECIMAL@, s, "$1.$2"@)
        },
        Lang::Other => s,
    }
}

/// Close up stray spaces around a decimal separator between digits (pt-BR comma,
/// English point); never rewrites number words.
pub fn normalize_numbers(s: &str, lang: Lang) -> (r: String)
    ensures
        r@ == normalize_numbers_spec(s@, lang),
{
    match lang {
        Lang::PtBr => rewrite(PT_DECIMAL, s, "$1,$2"),
        Lang::En => rewrite(EN_DECIMAL, s, "$1.$2"),
        Lang::Other => String::from_str(s),
    }
}

pub open spec fn trim_end(s: Seq<char>) -> Seq<char> {
    s.subrange(0, crate::text::trail_from(s, s.len() as int))
}

pub open spec fn is_closing(c: char) -> bool {
    c == '.' || c == '?' || c == '!' || c == '…' || c == ')' || c == ']' || c == '}' || c == '"'
        || c == '\''
}

pub open spec fn ensure_period_spec(s: Seq<char>) -> Seq<char> {
    let t = trim_end(s);
    if t.len() == 0 {
        s
    } else if is_closing(t.last()) {
        s
    } else {
        t.push('.')
    }
}

/// Append a period unless the text (trailing whitespace aside) already ends with a
/// terminator, closing bracket or quote; blank text is returned as is.
pub fn ensure_trailing_period(s: &str) -> (r: String)
    ensures
        r@ == ensure_period_spec(s@),
{
    let cs = chars_of(s);
    let b = crate::text::trailing_end(cs.as_slice(), cs.len());
    proof {
        crate::text::lemma_trail_from_bounds(s@, s@.len() as int);
    }
    if b == 0 {
        return String::from_str(s);
    }
    let last = cs[b - 1];
    if last == '.' || last == '?' || last == '!' || last == '…' || last == ')' || last == ']' || last
        == '}' || last == '"' || last == '\'' {
        return String::from_str(s);
    }
    let mut t = crate::text::slice_range(cs.as_slice(), 0, b);
    t.push('.');
    string_of(t.as_slice())
}

// ─────────────────────────────────────────────────────────────────────────────
// The pipeline
// ─────────────────────────────────────────────────────────────────────────────

/// The cleanup pipeline over plain values: stages in their fixed order.
pub open spec fn clean_spec(
    text: Seq<char>,
    lang: Lang,
    spoken_punctuation: bool,
    remove_fillers: bool,
    collapse_repeats: bool,
    fix_capitalization: bool,
    normalize_numbers: bool,
    ensure_trailing_period: bool,
    extras: Seq<Seq<char>>,
    keeps: Seq<Seq<char>>,
) -> Seq<char> {
    if trim(text).len() == 0 {
        Seq::empty()
    } else {
        let s1 = if spoken_punctuation { substitute_spec(text, lang) } else { text };
        let s2 = if remove_fillers { remove_fillers_spec(s1, lang, extras, keeps) } else { s1 };
        let s3 = if collapse_repeats { collapse_spec(s2) } else { s2 };
        let s4 = normalize_ws_spec(s3);
        let s5 = if fix_capitalization { fix_cap_spec(s4, lang) } else { s4 };
        let s6 = if normalize_numbers { normalize_numbers_spec(s5, lang) } else { s5 };
        let s7 = if ensure_trailing_period { ensure_period_spec(s6) } else { s6 };
        if trim(s7).len() == 0 {
            Seq::empty()
        } else {
            s7
        }
    }
}

pub open spec fn clean_opts_spec(text: Seq<char>, lang: Lang, opts: CleanupOptions) -> Seq<char> {
    clean_spec(
        text,
        lang,
        opts.spoken_punctuation,
        opts.remove_fillers,
        opts.collapse_repeats,
        opts.fix_capitalization,
        opts.normalize_numbers,
        opts.ensure_trailing_period,
        strings_view(opts.extra_fillers@),
        strings_view(opts.keep_fillers@),
    )
}

/// Raw transcript to polished text. Total and deterministic; blank input gives "".
pub fn clean(text: &str, lang: Lang, opts: &CleanupOptions) -> (r: String)
    ensures
        r@ == clean_opts_spec(text@, lang, *opts),
        trim(text@).len() == 0 ==> r@.len() == 0,
{
    if is_blank(text) {
        return String::new();
    }
    let mut s = String::from_str(text);
    if opts.spoken_punctuation {
        s = substitute_spoken_punctuation(s.as_str(), lang);
    }
    if opts.remove_fillers {
        s = remove_fillers(s.as_str(), lang, opts);
    }
    if opts.collapse_repeats {
        s = collapse_repeats(s.as_str());
    }
    s = normalize_whitespace(s.as_str());
    if opts.fix_capitalization {
        s = fix_capitalization(s.as_str(), lang);
    }
    if opts.normalize_numbers {
        s = normalize_numbers(s.as_str(), lang);
    }
    if opts.ensure_trailing_period {
        s = ensure_trailing_period(s.as_str());
    }
    if is_blank(s.as_str()) {
        return String::new();
    }
    s
}

// ─────────────────────────────────────────────────────────────────────────────
// Laws
// ─────────────────────────────────────────────────────────────────────────────

/// With every optional stage switched off, cleanup is whitespace normalization alone
/// (blank results collapse to "").
pub proof fn lemma_clean_all_off_is_whitespace_only(text: Seq<char>, lang: Lang, extras: Seq<Seq<char>>, keeps: Seq<Seq<char>>)
    requires
        trim(text).len() != 0,
        trim(normalize_ws_spec(text)).len() != 0,
    ensures
        clean_spec(text, lang, false, false, false, false, false, false, extras, keeps)
            == normalize_ws_spec(text),
{
}

/// A language without rules (`Other`) gets no punctuation substitution, no built-in
/// filler removal and no number rewriting.
pub proof fn lemma_other_lang_rule_free(s: Seq<char>, keeps: Seq<Seq<char>>)
    ensures
        substitute_spec(s, Lang::Other) == s,
        remove_fillers_spec(s, Lang::Other, Seq::empty(), keeps) == s,
        normalize_numbers_spec(s, Lang::Other) == s,
{
    let keep = keeps.map_values(|k: Seq<char>| lowercase_of(k));
    assert(builtin_phrases(filler_table(Lang::Other), keep) =~= Seq::<FillerPhrase>::empty());
    assert(extra_phrases(Seq::<Seq<char>>::empty(), keep) =~= Seq::<FillerPhrase>::empty());
    assert(builtin_phrases(filler_table(Lang::Other), keep) + extra_phrases(Seq::empty(), keep)
        =~= Seq::<FillerPhrase>::empty());
}


/// The text of a piece: the word itself, or the mark's glyph.
pub open spec fn piece_text(p: PieceV) -> Seq<char> {
    match p {
        PieceV::Word(w) => w,
        PieceV::P(Punct::Trailing(g)) => g@,
        PieceV::P(Punct::Open(g)) => g@,
        PieceV::P(Punct::Close(g)) => g@,
        PieceV::P(Punct::Spaced(g)) => g@,
        PieceV::P(Punct::Break(g)) => g@,
    }
}

/// Words, opening marks and spaced marks take a space before them.
pub open spec fn wants_space_before(p: PieceV) -> bool {
    match p {
        PieceV::Word(_) => true,
        PieceV::P(Punct::Open(_)) => true,
        PieceV::P(Punct::Spaced(_)) => true,
        _ => false,
    }
}

/// Opening marks and breaks let the next piece hug them.
pub open spec fn hugs_next(p: PieceV) -> bool {
    match p {
        PieceV::P(Punct::Open(_)) => true,
        PieceV::P(Punct::Break(_)) => true,
        _ => false,
    }
}

/// The space put before piece `i`: one space exactly when the piece wants one and
/// there is a previous piece that does not hug it; never before the first piece.
pub open spec fn gap_before(ps: Seq<PieceV>, i: int) -> Seq<char> {
    if i > 0 && wants_space_before(ps[i]) && !hugs_next(ps[i - 1]) {
        " "@
    } else {
        Seq::empty()
    }
}

/// Each piece's text, in order, preceded by its gap.
pub open spec fn spaced_concat(ps: Seq<PieceV>) -> Seq<char>
    decreases ps.len(),
{
    if ps.len() == 0 {
        Seq::empty()
    } else {
        spaced_concat(ps.drop_last()) + gap_before(ps, ps.len() - 1) + piece_text(ps.last())
    }
}

proof fn lemma_join_acc_spaced(ps: Seq<PieceV>, i: int)
    requires
        0 <= i <= ps.len(),
    ensures
        join_acc(ps, i, spaced_concat(ps.take(i)), i == 0 || hugs_next(ps[i - 1])) == spaced_concat(ps),
    decreases ps.len() - i,
{
    reveal_strlit(" ");
    if i == ps.len() {
        assert(ps.take(i) =~= ps);
    } else {
        let attach = i == 0 || hugs_next(ps[i - 1]);
        let out = spaced_concat(ps.take(i));
        let t = ps.take(i + 1);
        assert(t.drop_last() =~= ps.take(i));
        assert(t.last() == ps[i]);
        assert(gap_before(t, i) == gap_before(ps, i));
        let next = spaced_concat(t);
        assert(next == out + gap_before(ps, i) + piece_text(ps[i]));
        lemma_join_acc_spaced(ps, i + 1);
        match ps[i] {
            PieceV::Word(w) => {
                assert(lead_space(out, attach) + w =~= next);
            },
            PieceV::P(Punct::Trailing(g)) => {
                assert(out + g@ =~= next);
            },
            PieceV::P(Punct::Open(g)) => {
                assert(lead_space(out, attach) + g@ =~= next);
            },
            PieceV::P(Punct::Close(g)) => {
                assert(out + g@ =~= next);
            },
            PieceV::P(Punct::Spaced(g)) => {
                assert(lead_space(out, attach) + g@ =~= next);
            },
            PieceV::P(Punct::Break(g)) => {
                assert(out + g@ =~= next);
            },
        }
    }
}

/// Joining spoken-punctuation pieces writes each piece's text in order and puts one
/// space before a word, an opening mark or a spaced mark that follows a piece other
/// than an opening mark or a break; no other space is added, and none before the
/// first piece.
pub proof fn lemma_join_pieces_spacing(ps: Seq<PieceV>)
    ensures
        join_pieces_spec(ps) == spaced_concat(ps),
        ps.len() > 0 ==> gap_before(ps, 0) == Seq::<char>::empty(),
{
    lemma_join_acc_spaced(ps, 0);
    assert(ps.take(0) =~= Seq::<PieceV>::empty());
}


/// No whitespace at either end.
pub open spec fn edges_clean(s: Seq<char>) -> bool {
    s.len() == 0 || (!crate::text::whitespace(s[0]) && !crate::text::whitespace(s.last()))
}

proof fn lemma_trim_of_clean(s: Seq<char>)
    requires
        edges_clean(s),
    ensures
        trim(s) == s,
        crate::text::trail_from(s, s.len() as int) == s.len(),
{
    if s.len() > 0 {
        assert(crate::text::lead_from(s, 0) == 0);
        assert(crate::text::trail_from(s, s.len() as int) == s.len());
        assert(s.subrange(0, s.len() as int) =~= s);
    } else {
        assert(trim(s) =~= s);
    }
}

proof fn lemma_trim_edges(s: Seq<char>)
    ensures
        edges_clean(trim(s)),
{
    crate::text::lemma_lead_from_bounds(s, 0);
    crate::text::lemma_trail_from_bounds(s, s.len() as int);
}

/// With the capitalization and number stages off (the two whose rewriting is a named
/// regex result), the cleaned text has no whitespace at either end: trimming it
/// changes nothing.
pub proof fn lemma_clean_is_trimmed(
    text: Seq<char>,
    lang: Lang,
    spoken_punctuation: bool,
    remove_fillers: bool,
    collapse_repeats: bool,
    ensure_trailing_period: bool,
    extras: Seq<Seq<char>>,
    keeps: Seq<Seq<char>>,
)
    ensures
        trim(
            clean_spec(
                text,
                lang,
                spoken_punctuation,
                remove_fillers,
                collapse_repeats,
                false,
                false,
                ensure_trailing_period,
                extras,
                keeps,
            ),
        ) == clean_spec(
            text,
            lang,
            spoken_punctuation,
            remove_fillers,
            collapse_repeats,
            false,
            false,
            ensure_trailing_period,
            extras,
            keeps,
        ),
{
    let r = clean_spec(
        text,
        lang,
        spoken_punctuation,
        remove_fillers,
        collapse_repeats,
        false,
        false,
        ensure_trailing_period,
        extras,
        keeps,
    );
    if trim(text).len() == 0 {
        lemma_trim_of_clean(r);
    } else {
        let s1 = if spoken_punctuation { substitute_spec(text, lang) } else { text };
        let s2 = if remove_fillers { remove_fillers_spec(s1, lang, extras, keeps) } else { s1 };
        let s3 = if collapse_repeats { collapse_spec(s2) } else { s2 };
        let s4 = normalize_ws_spec(s3);
        let before = at_most_two_newlines(trim_lines(single_spaces(close_up_openers(close_up_marks(detab(s3))))));
        assert(s4 == trim(before));
        lemma_trim_edges(before);
        lemma_trim_of_clean(s4);
        let s7 = if ensure_trailing_period { ensure_period_spec(s4) } else { s4 };
        if ensure_trailing_period {
            assert(trim_end(s4) =~= s4);
            if s4.len() > 0 && !is_closing(s4.last()) {
                let t = s4.push('.');
                assert(t[0] == s4[0]);
                assert(t.last() == '.');
                assert(edges_clean(t));
            }
        }
        assert(edges_clean(s7));
        lemma_trim_of_clean(s7);
        lemma_trim_of_clean(r);
    }
}


/// Position `i` opens a sentence: every letter before it is followed, still before
/// `i`, by a sentence end (`.`, `?`, `!`, `…` or a newline).
pub open spec fn opens_sentence(s: Seq<char>, i: int) -> bool {
    forall|j: int|
        0 <= j < i && #[trigger] alphabetic(s[j]) ==> exists|k: int| j < k < i && #[trigger] starts_sentence_after(s[k])
}

/// Character `i` after sentence casing: a letter that opens a sentence is
/// uppercased, everything else is kept.
pub open spec fn cased_char(s: Seq<char>, i: int) -> Seq<char> {
    if alphabetic(s[i]) && opens_sentence(s, i) {
        uppercase_of(s[i])
    } else {
        seq![s[i]]
    }
}

/// The first `n` characters after sentence casing.
pub open spec fn cased_prefix(s: Seq<char>, n: int) -> Seq<char>
    decreases n,
{
    if n <= 0 {
        Seq::empty()
    } else {
        cased_prefix(s, n - 1) + cased_char(s, n - 1)
    }
}

proof fn lemma_cap_acc_cased(s: Seq<char>, i: int)
    requires
        0 <= i <= s.len(),
        forall|k: int| 0 <= k < s.len() && #[trigger] starts_sentence_after(s[k]) ==> crate::text::is_ascii_char(s[k]),
    ensures
        cap_acc(s, i, cased_prefix(s, i), opens_sentence(s, i)) == cased_prefix(s, s.len() as int),
    decreases s.len() - i,
{
    if i < s.len() {
        let c = s[i];
        let cap = opens_sentence(s, i);
        let out = cased_prefix(s, i);
        if starts_sentence_after(c) {
            assert(crate::text::is_ascii_char(c));
            assert(!alphabetic(c));
        }
        if alphabetic(c) {
            assert(!opens_sentence(s, i + 1)) by {
                assert(0 <= i < i + 1 && alphabetic(s[i]));
                if exists|k: int| i < k < i + 1 && #[trigger] starts_sentence_after(s[k]) {
                    let k = choose|k: int| i < k < i + 1 && #[trigger] starts_sentence_after(s[k]);
                    assert(false);
                }
            }
        } else if starts_sentence_after(c) {
            assert forall|j: int| 0 <= j < i + 1 && #[trigger] alphabetic(s[j]) implies exists|k: int|
                j < k < i + 1 && #[trigger] starts_sentence_after(s[k]) by {
                assert(starts_sentence_after(s[i]));
            }
        } else {
            assert(opens_sentence(s, i + 1) == cap) by {
                if cap {
                    assert forall|j: int| 0 <= j < i + 1 && #[trigger] alphabetic(s[j]) implies exists|k: int|
                        j < k < i + 1 && #[trigger] starts_sentence_after(s[k]) by {
                        let k = choose|k: int| j < k < i && #[trigger] starts_sentence_after(s[k]);
                        assert(j < k < i + 1);
                    }
                }
                if opens_sentence(s, i + 1) {
                    assert forall|j: int| 0 <= j < i && #[trigger] alphabetic(s[j]) implies exists|k: int|
                        j < k < i && #[trigger] starts_sentence_after(s[k]) by {
                        let k = choose|k: int| j < k < i + 1 && #[trigger] starts_sentence_after(s[k]);
                        assert(k != i);
                    }
                }
            }
        }
        assert(cased_prefix(s, i + 1) == out + cased_char(s, i));
        if cap && alphabetic(c) {
            assert(cased_char(s, i) == uppercase_of(c));
        } else {
            assert(out.push(c) =~= out + cased_char(s, i));
        }
        lemma_cap_acc_cased(s, i + 1);
    }
}

/// Sentence casing, stated directly: each letter that opens a sentence (no letter
/// since the text began or since the last sentence end) is uppercased and every other
/// character is kept. Stated for texts whose sentence ends are ASCII, that is, without
/// the ellipsis character, whose letter property is a named Unicode fact.
pub proof fn lemma_sentence_casing(s: Seq<char>)
    requires
        forall|k: int| 0 <= k < s.len() && #[trigger] starts_sentence_after(s[k]) ==> crate::text::is_ascii_char(s[k]),
    ensures
        cap_acc(s, 0, Seq::empty(), true) == cased_prefix(s, s.len() as int),
{
    assert(opens_sentence(s, 0));
    lemma_cap_acc_cased(s, 0);
}


/// The built-in fillers that are also ordinary words are guarded: "então" is removed
/// only sentence-initially or comma-delimited, and "é", "né", "sabe", "tipo",
/// "tipo assim", "assim", "meio que", "like", "you know", "i mean", "kind of",
/// "sort of", "basically" and "actually" only when comma-delimited (the phrase ends
/// with a comma, or the token before it does).
pub proof fn lemma_content_fillers_guarded(p: Seq<char>, tokens: Seq<Seq<char>>, i: int, n: int)
    requires
        p == "é"@ || p == "né"@ || p == "sabe"@ || p == "tipo"@ || p == "tipo assim"@ || p == "assim"@ || p
            == "meio que"@ || p == "like"@ || p == "you know"@ || p == "i mean"@ || p == "kind of"@ || p
            == "sort of"@ || p == "basically"@ || p == "actually"@ || p == "então"@,
    ensures
        guard_kind_spec(p) != GuardKind::Always,
        should_remove_spec(guard_kind_spec(p), tokens, i, n) ==> ends_with_char(tokens[i + n - 1], ',') || (i > 0
            && ends_with_char(tokens[i - 1], ',')) || (p == "então"@ && (i == 0 || ends_with_terminator(
            tokens[i - 1],
        ))),
{
    reveal_strlit("então");
    reveal_strlit("é");
    reveal_strlit("né");
    reveal_strlit("sabe");
    reveal_strlit("tipo");
    reveal_strlit("tipo assim");
    reveal_strlit("assim");
    reveal_strlit("meio que");
    reveal_strlit("like");
    reveal_strlit("you know");
    reveal_strlit("i mean");
    reveal_strlit("kind of");
    reveal_strlit("sort of");
    reveal_strlit("basically");
    reveal_strlit("actually");
}


/// Every other filler phrase (um, uh, hmm, ...) is unguarded and always removed; a
/// sentence-initial "então" is removed; a comma-delimited guarded phrase is removed.
pub proof fn lemma_filler_guard_table(p: Seq<char>, tokens: Seq<Seq<char>>, i: int, n: int)
    ensures
        !(p == "é"@ || p == "né"@ || p == "sabe"@ || p == "tipo"@ || p == "tipo assim"@ || p == "assim"@ || p
            == "meio que"@ || p == "like"@ || p == "you know"@ || p == "i mean"@ || p == "kind of"@ || p
            == "sort of"@ || p == "basically"@ || p == "actually"@ || p == "então"@) ==> guard_kind_spec(p)
            == GuardKind::Always && should_remove_spec(guard_kind_spec(p), tokens, i, n),
        p == "então"@ && (i == 0 || ends_with_terminator(tokens[i - 1])) ==> should_remove_spec(
            guard_kind_spec(p),
            tokens,
            i,
            n,
        ),
        ends_with_char(tokens[i + n - 1], ',') || (i > 0 && ends_with_char(tokens[i - 1], ',')) ==> should_remove_spec(
            guard_kind_spec(p),
            tokens,
            i,
            n,
        ),
{
}

} // verus!
