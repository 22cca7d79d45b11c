//! Character-level text primitives shared by every text stage: Unicode character
//! classes and case mappings (from `core`/`alloc`), conversions between `&str` and
//! character vectors, and verified whitespace trimming, splitting and joining.

use vstd::prelude::*;

verus! {

// ─────────────────────────────────────────────────────────────────────────────
// ASCII helpers (plain definitions)
// ─────────────────────────────────────────────────────────────────────────────

pub open spec fn is_ascii_char(c: char) -> bool {
    (c as u32) < 128
}

pub open spec fn ascii_upper_letter(c: char) -> bool {
    65 <= (c as u32) <= 90
}

pub open spec fn ascii_lower_letter(c: char) -> bool {
    97 <= (c as u32) <= 122
}

pub open spec fn ascii_letter(c: char) -> bool {
    ascii_upper_letter(c) || ascii_lower_letter(c)
}

pub open spec fn ascii_digit(c: char) -> bool {
    48 <= (c as u32) <= 57
}

/// ASCII whitespace as `char::is_whitespace` sees it: U+0009..=U+000D and U+0020.
pub open spec fn ascii_space(c: char) -> bool {
    (9 <= (c as u32) <= 13) || (c as u32) == 32
}

pub open spec fn ascii_lower_of(c: char) -> char {
    if ascii_upper_letter(c) {
        ((c as u32) + 32) as char
    } else {
        c
    }
}

pub open spec fn ascii_upper_of(c: char) -> char {
    if ascii_lower_letter(c) {
        ((c as u32) - 32) as char
    } else {
        c
    }
}

pub open spec fn all_ascii(s: Seq<char>) -> bool {
    forall|i: int| 0 <= i < s.len() ==> is_ascii_char(#[trigger] s[i])
}

// ─────────────────────────────────────────────────────────────────────────────
// Unicode character classes and case maps (std)
// ─────────────────────────────────────────────────────────────────────────────

/// The Unicode `Alphabetic || Numeric` class of a non-ASCII character, as
/// `char::is_alphanumeric` computes it.
pub uninterp spec fn unicode_alphanumeric(c: char) -> bool;

/// The Unicode `Alphabetic` property of a non-ASCII character, as `char::is_alphabetic`
/// computes it.
pub uninterp spec fn unicode_alphabetic(c: char) -> bool;

/// The Unicode `White_Space` property of a non-ASCII character, as
/// `char::is_whitespace` computes it.
pub uninterp spec fn unicode_white_space(c: char) -> bool;

/// The Unicode `Uppercase` property of a non-ASCII character, as `char::is_uppercase`
/// computes it.
pub uninterp spec fn unicode_uppercase(c: char) -> bool;

/// The full Unicode lowercase mapping of a string that is not all ASCII, as
/// `str::to_lowercase` computes it.
pub uninterp spec fn unicode_lowercase(s: Seq<char>) -> Seq<char>;

/// The full Unicode uppercase mapping of a non-ASCII character, as
/// `char::to_uppercase` yields it.
pub uninterp spec fn unicode_uppercase_of(c: char) -> Seq<char>;

/// `char::is_alphanumeric`: `[A-Za-z0-9]` on ASCII.
pub open spec fn alphanumeric(c: char) -> bool {
    if is_ascii_char(c) {
        ascii_letter(c) || ascii_digit(c)
    } else {
        unicode_alphanumeric(c)
    }
}

/// `char::is_alphabetic`: `[A-Za-z]` on ASCII.
pub open spec fn alphabetic(c: char) -> bool {
    if is_ascii_char(c) {
        ascii_letter(c)
    } else {
        unicode_alphabetic(c)
    }
}

/// `char::is_whitespace`: U+0009..=U+000D and U+0020 on ASCII.
pub open spec fn whitespace(c: char) -> bool {
    if is_ascii_char(c) {
        ascii_space(c)
    } else {
        unicode_white_space(c)
    }
}

/// `char::is_uppercase`: `[A-Z]` on ASCII.
pub open spec fn uppercase(c: char) -> bool {
    if is_ascii_char(c) {
        ascii_upper_letter(c)
    } else {
        unicode_uppercase(c)
    }
}

/// `str::to_lowercase`: character by character ASCII lowercasing on an all-ASCII
/// string.
pub open spec fn lowercase_of(s: Seq<char>) -> Seq<char> {
    if all_ascii(s) {
        s.map_values(|c: char| ascii_lower_of(c))
    } else {
        unicode_lowercase(s)
    }
}

/// `char::to_uppercase`, collected: the one ASCII uppercase character on ASCII.
pub open spec fn uppercase_of(c: char) -> Seq<char> {
    if is_ascii_char(c) {
        seq![ascii_upper_of(c)]
    } else {
        unicode_uppercase_of(c)
    }
}

/// `char::is_alphanumeric`. Claims: on ASCII exactly `[A-Za-z0-9]`, otherwise the
/// (named) Unicode class of `c`.
#[verifier::external_body]
pub(crate) fn is_alphanumeric(c: char) -> (b: bool)
    ensures
        b == (if is_ascii_char(c) {
            ascii_letter(c) || ascii_digit(c)
        } else {
            unicode_alphanumeric(c)
        }),
{
    c.is_alphanumeric()
}

/// `char::is_alphabetic`. Claims: on ASCII exactly `[A-Za-z]`, otherwise the (named)
/// Unicode property of `c`.
#[verifier::external_body]
pub(crate) fn is_alphabetic(c: char) -> (b: bool)
    ensures
        b == (if is_ascii_char(c) {
            ascii_letter(c)
        } else {
            unicode_alphabetic(c)
        }),
{
    c.is_alphabetic()
}

/// `char::is_whitespace`. Claims: on ASCII exactly U+0009..=U+000D and U+0020,
/// otherwise the (named) `White_Space` property of `c`.
#[verifier::external_body]
pub(crate) fn is_whitespace(c: char) -> (b: bool)
    ensures
        b == (if is_ascii_char(c) {
            ascii_space(c)
        } else {
            unicode_white_space(c)
        }),
{
    c.is_whitespace()
}

/// `char::is_uppercase`. Claims: on ASCII exactly `[A-Z]`, otherwise the (named)
/// `Uppercase` property of `c`.
#[verifier::external_body]
pub(crate) fn is_uppercase(c: char) -> (b: bool)
    ensures
        b == (if is_ascii_char(c) {
            ascii_upper_letter(c)
        } else {
            unicode_uppercase(c)
        }),
{
    c.is_uppercase()
}

/// `str::to_lowercase`. Claims: an all-ASCII string maps character by character
/// through ASCII lowercasing; any other string maps to its (named) Unicode lowercase.
#[verifier::external_body]
pub(crate) fn to_lowercase(s: &str) -> (r: String)
    ensures
        r@ == (if all_ascii(s@) {
            s@.map_values(|c: char| ascii_lower_of(c))
        } else {
            unicode_lowercase(s@)
        }),
{
    s.to_lowercase()
}

/// `char::to_uppercase`, collected into a string. Claims: an ASCII `c` maps to its one
/// ASCII uppercase character; any other to its (named) Unicode uppercase mapping.
#[verifier::external_body]
pub(crate) fn char_to_uppercase(c: char) -> (r: String)
    ensures
        r@ == (if is_ascii_char(c) {
            seq![ascii_upper_of(c)]
        } else {
            unicode_uppercase_of(c)
        }),
{
    c.to_uppercase().collect()
}

/// The characters of `s`, in order.
pub fn chars_of(s: &str) -> (v: Vec<char>)
    ensures
        v@ == s@,
{
    let mut v: Vec<char> = Vec::new();
    for c in it: s.chars()
        invariant
            it.seq() == s@,
            v@ == it.seq().take(it.index() as int),
    {
        v.push(c);
    }
    v
}

/// `String: FromIterator<&char>`. Claims: the string made of exactly these characters.
#[verifier::external_body]
pub(crate) fn string_of(v: &[char]) -> (s: String)
    ensures
        s@ == v@,
{
    v.iter().collect()
}

/// `String::push`. Claims: appends exactly `c`.
#[verifier::external_body]
pub(crate) fn push_char(s: &mut String, c: char)
    ensures
        final(s)@ == old(s)@.push(c),
{
    s.push(c)
}

// ─────────────────────────────────────────────────────────────────────────────
// Whitespace trimming (str::trim semantics, over `char::is_whitespace`)
// ─────────────────────────────────────────────────────────────────────────────

/// First index at or after `i` that is not whitespace (or `s.len()`).
pub open spec fn lead_from(s: Seq<char>, i: int) -> int
    decreases s.len() - i,
{
    if 0 <= i < s.len() && whitespace(s[i]) {
        lead_from(s, i + 1)
    } else {
        i
    }
}

/// One past the last non-whitespace index at or before `j` (or 0).
pub open spec fn trail_from(s: Seq<char>, j: int) -> int
    decreases j,
{
    if 0 < j <= s.len() && whitespace(s[j - 1]) {
        trail_from(s, j - 1)
    } else {
        j
    }
}

pub open spec fn trim(s: Seq<char>) -> Seq<char> {
    let a = lead_from(s, 0);
    let b = trail_from(s, s.len() as int);
    if a < b {
        s.subrange(a, b)
    } else {
        Seq::empty()
    }
}

/// `lead_from` skips exactly the whitespace run starting at `i`.
pub proof fn lemma_lead_from_bounds(s: Seq<char>, i: int)
    requires
        0 <= i <= s.len(),
    ensures
        i <= lead_from(s, i) <= s.len(),
        forall|k: int| i <= k < lead_from(s, i) ==> whitespace(#[trigger] s[k]),
        lead_from(s, i) < s.len() ==> !whitespace(s[lead_from(s, i)]),
    decreases s.len() - i,
{
    if i < s.len() && whitespace(s[i]) {
        lemma_lead_from_bounds(s, i + 1);
    }
}

/// `trail_from` backs over exactly the whitespace run ending at `j`.
pub proof fn lemma_trail_from_bounds(s: Seq<char>, j: int)
    requires
        0 <= j <= s.len(),
    ensures
        0 <= trail_from(s, j) <= j,
        forall|k: int| trail_from(s, j) <= k < j ==> whitespace(#[trigger] s[k]),
        trail_from(s, j) > 0 ==> !whitespace(s[trail_from(s, j) - 1]),
    decreases j,
{
    if 0 < j && whitespace(s[j - 1]) {
        lemma_trail_from_bounds(s, j - 1);
    }
}

/// Trimmed text is empty exactly when every character is whitespace.
pub proof fn lemma_trim_empty_iff(s: Seq<char>)
    ensures
        trim(s).len() == 0 <==> (forall|k: int| 0 <= k < s.len() ==> whitespace(#[trigger] s[k])),
{
    lemma_lead_from_bounds(s, 0);
    lemma_trail_from_bounds(s, s.len() as int);
    let a = lead_from(s, 0);
    let b = trail_from(s, s.len() as int);
    if a < b {
        assert(!whitespace(s[a]));
    } else {
        assert forall|k: int| 0 <= k < s.len() implies whitespace(#[trigger] s[k]) by {
            if k >= a && k >= b {
            } else if k < a {
            } else {
            }
        }
    }
}

/// Index of the first non-whitespace character at or after `i`.
pub fn skip_whitespace(s: &[char], i: usize) -> (r: usize)
    requires
        i <= s@.len(),
    ensures
        r == lead_from(s@, i as int),
{
    let mut k = i;
    while k < s.len() && is_whitespace(s[k])
        invariant
            i <= k <= s@.len(),
            lead_from(s@, k as int) == lead_from(s@, i as int),
        decreases s@.len() - k,
    {
        k = k + 1;
    }
    k
}

/// One past the last non-whitespace character at or before `j`.
pub fn trailing_end(s: &[char], j: usize) -> (r: usize)
    requires
        j <= s@.len(),
    ensures
        r == trail_from(s@, j as int),
{
    let mut k = j;
    while k > 0 && is_whitespace(s[k - 1])
        invariant
            0 <= k <= j,
            j <= s@.len(),
            trail_from(s@, k as int) == trail_from(s@, j as int),
        decreases k,
    {
        k = k - 1;
    }
    k
}

/// `str::trim` over a character slice.
pub fn trim_chars(s: &[char]) -> (r: Vec<char>)
    ensures
        r@ == trim(s@),
{
    let a = skip_whitespace(s, 0);
    let b = trailing_end(s, s.len());
    proof {
        lemma_lead_from_bounds(s@, 0);
        lemma_trail_from_bounds(s@, s@.len() as int);
    }
    if a < b {
        slice_range(s, a, b)
    } else {
        Vec::new()
    }
}

/// `str::trim`, reporting only whether anything but whitespace remains.
pub fn is_blank(s: &str) -> (b: bool)
    ensures
        b <==> trim(s@).len() == 0,
{
    let v = chars_of(s);
    let a = skip_whitespace(v.as_slice(), 0);
    let b = trailing_end(v.as_slice(), v.len());
    proof {
        lemma_lead_from_bounds(v@, 0);
        lemma_trail_from_bounds(v@, v@.len() as int);
    }
    a >= b
}

/// `str::trim` of a string.
pub fn trim_str(s: &str) -> (r: String)
    ensures
        r@ == trim(s@),
{
    let v = chars_of(s);
    let t = trim_chars(v.as_slice());
    string_of(t.as_slice())
}

/// A copy of `s[a..b]`.
pub fn slice_range(s: &[char], a: usize, b: usize) -> (r: Vec<char>)
    requires
        a <= b <= s@.len(),
    ensures
        r@ == s@.subrange(a as int, b as int),
{
    let mut out: Vec<char> = Vec::new();
    let mut k = a;
    while k < b
        invariant
            a <= k <= b,
            b <= s@.len(),
            out@ == s@.subrange(a as int, k as int),
        decreases b - k,
    {
        out.push(s[k]);
        k = k + 1;
        assert(out@ =~= s@.subrange(a as int, k as int));
    }
    out
}

// ─────────────────────────────────────────────────────────────────────────────
// Whitespace splitting (str::split_whitespace semantics)
// ─────────────────────────────────────────────────────────────────────────────

/// First index at or after `i` that is whitespace (or `s.len()`).
pub open spec fn word_end(s: Seq<char>, i: int) -> int
    decreases s.len() - i,
{
    if 0 <= i < s.len() && !whitespace(s[i]) {
        word_end(s, i + 1)
    } else {
        i
    }
}

/// The whitespace-separated words of `s` from index `i` on.
pub open spec fn words_from(s: Seq<char>, i: int) -> Seq<Seq<char>>
    decreases s.len() - i,
{
    let a = lead_from(s, i);
    if a < 0 || a >= s.len() {
        Seq::empty()
    } else {
        let b = word_end(s, a);
        if b <= i || b > s.len() {
            Seq::empty()
        } else {
            seq![s.subrange(a, b)] + words_from(s, b)
        }
    }
}

/// `str::split_whitespace`: the maximal runs of non-whitespace characters.
pub open spec fn words(s: Seq<char>) -> Seq<Seq<char>> {
    words_from(s, 0)
}

/// `word_end` ends exactly the non-whitespace run starting at `i`.
pub proof fn lemma_word_end_bounds(s: Seq<char>, i: int)
    requires
        0 <= i <= s.len(),
    ensures
        i <= word_end(s, i) <= s.len(),
        forall|k: int| i <= k < word_end(s, i) ==> !whitespace(#[trigger] s[k]),
        word_end(s, i) < s.len() ==> whitespace(s[word_end(s, i)]),
    decreases s.len() - i,
{
    if i < s.len() && !whitespace(s[i]) {
        lemma_word_end_bounds(s, i + 1);
    }
}

/// Index one past the end of the word starting at `i`.
pub fn scan_word(s: &[char], i: usize) -> (r: usize)
    requires
        i <= s@.len(),
    ensures
        r == word_end(s@, i as int),
{
    let mut k = i;
    while k < s.len() && !is_whitespace(s[k])
        invariant
            i <= k <= s@.len(),
            word_end(s@, k as int) == word_end(s@, i as int),
        decreases s@.len() - k,
    {
        k = k + 1;
    }
    k
}

/// `str::split_whitespace`, collected.
pub fn split_whitespace(s: &[char]) -> (r: Vec<Vec<char>>)
    ensures
        r@.len() == words(s@).len(),
        forall|k: int| 0 <= k < r@.len() ==> (#[trigger] r@[k])@ == words(s@)[k],
{
    let mut out: Vec<Vec<char>> = Vec::new();
    let mut i: usize = 0;
    let ghost done: Seq<Seq<char>> = Seq::empty();
    while i < s.len()
        invariant
            i <= s@.len(),
            done.len() == out@.len(),
            forall|k: int| 0 <= k < out@.len() ==> (#[trigger] out@[k])@ == done[k],
            done + words_from(s@, i as int) == words(s@),
        decreases s@.len() - i,
    {
        let a = skip_whitespace(s, i);
        proof {
            lemma_lead_from_bounds(s@, i as int);
        }
        if a >= s.len() {
            proof {
                assert(words_from(s@, i as int) =~= Seq::<Seq<char>>::empty());
                assert(words_from(s@, a as int) =~= Seq::<Seq<char>>::empty()) by {
                    assert(lead_from(s@, a as int) == a);
                }
            }
            i = a;
        } else {
            let b = scan_word(s, a);
            proof {
                lemma_word_end_bounds(s@, a as int);
            }
            let w = slice_range(s, a, b);
            let ghost old_done = done;
            proof {
                done = done.push(w@);
                assert(words_from(s@, i as int) == seq![s@.subrange(a as int, b as int)]
                    + words_from(s@, b as int));
                assert(done + words_from(s@, b as int) =~= old_done + words_from(s@, i as int));
            }
            out.push(w);
            i = b;
        }
    }
    proof {
        assert(words_from(s@, i as int) =~= Seq::<Seq<char>>::empty());
        assert(done =~= words(s@));
    }
    out
}

// ─────────────────────────────────────────────────────────────────────────────
// Joining
// ─────────────────────────────────────────────────────────────────────────────

/// `parts.join(sep)`.
pub open spec fn join(parts: Seq<Seq<char>>, sep: Seq<char>) -> Seq<char>
    decreases parts.len(),
{
    if parts.len() == 0 {
        Seq::empty()
    } else if parts.len() == 1 {
        parts[0]
    } else {
        join(parts.drop_last(), sep) + sep + parts.last()
    }
}

/// `[&str]::join` over character vectors.
pub fn join_chars(parts: &Vec<Vec<char>>, sep: &[char]) -> (r: Vec<char>)
    ensures
        r@ == join(parts@.map_values(|p: Vec<char>| p@), sep@),
{
    let ghost views = parts@.map_values(|p: Vec<char>| p@);
    let mut out: Vec<char> = Vec::new();
    let mut i: usize = 0;
    while i < parts.len()
        invariant
            i <= parts@.len(),
            views == parts@.map_values(|p: Vec<char>| p@),
            out@ == join(views.take(i as int), sep@),
        decreases parts@.len() - i,
    {
        if i > 0 {
            append_chars(&mut out, sep);
        }
        append_chars(&mut out, parts[i].as_slice());
        proof {
            assert(views.take(i + 1).drop_last() =~= views.take(i as int));
            if i == 0 {
                assert(views.take(1) =~= seq![views[0]]);
            }
        }
        i = i + 1;
    }
    proof {
        assert(views.take(parts@.len() as int) =~= views);
    }
    out
}

/// Append every character of `src` to `dst`.
pub fn append_chars(dst: &mut Vec<char>, src: &[char])
    ensures
        final(dst)@ == old(dst)@ + src@,
{
    let ghost start = dst@;
    let mut k: usize = 0;
    while k < src.len()
        invariant
            k <= src@.len(),
            dst@ == start + src@.take(k as int),
        decreases src@.len() - k,
    {
        dst.push(src[k]);
        k = k + 1;
        assert(dst@ =~= start + src@.take(k as int));
    }
    assert(src@.take(src@.len() as int) =~= src@);
}

// ─────────────────────────────────────────────────────────────────────────────
// Small sequence predicates
// ─────────────────────────────────────────────────────────────────────────────

pub open spec fn starts_with(s: Seq<char>, p: Seq<char>) -> bool {
    p.len() <= s.len() && s.subrange(0, p.len() as int) == p
}

pub open spec fn ends_with(s: Seq<char>, p: Seq<char>) -> bool {
    p.len() <= s.len() && s.subrange(s.len() - p.len(), s.len() as int) == p
}

pub open spec fn contains_at(s: Seq<char>, p: Seq<char>, i: int) -> bool {
    0 <= i && i + p.len() <= s.len() && s.subrange(i, i + p.len()) == p
}

/// `str::contains` for a string needle.
pub open spec fn contains(s: Seq<char>, p: Seq<char>) -> bool {
    exists|i: int| contains_at(s, p, i)
}

/// Whether `p` occurs in `s` at index `i`.
pub fn matches_at(s: &[char], p: &[char], i: usize) -> (b: bool)
    ensures
        b == contains_at(s@, p@, i as int),
{
    if i > s.len() || p.len() > s.len() - i {
        return false;
    }
    let mut k: usize = 0;
    while k < p.len()
        invariant
            k <= p@.len(),
            i + p@.len() <= s@.len(),
            s@.len() == s.len(),
            forall|m: int| 0 <= m < k ==> s@[i + m] == p@[m],
        decreases p@.len() - k,
    {
        if s[i + k] != p[k] {
            assert(s@.subrange(i as int, i + p@.len())[k as int] != p@[k as int]);
            return false;
        }
        k = k + 1;
    }
    assert(s@.subrange(i as int, i + p@.len()) =~= p@);
    true
}

/// `str::starts_with`.
pub fn has_prefix(s: &[char], p: &[char]) -> (b: bool)
    ensures
        b == starts_with(s@, p@),
{
    matches_at(s, p, 0)
}

/// `str::ends_with`.
pub fn has_suffix(s: &[char], p: &[char]) -> (b: bool)
    ensures
        b == ends_with(s@, p@),
{
    if p.len() > s.len() {
        return false;
    }
    matches_at(s, p, s.len() - p.len())
}

/// `str::contains` for a string needle.
pub fn has_substring(s: &[char], p: &[char]) -> (b: bool)
    ensures
        b == contains(s@, p@),
{
    if p.len() > s.len() {
        assert forall|i: int| !contains_at(s@, p@, i) by {}
        return false;
    }
    let limit = s.len() - p.len();
    let mut i: usize = 0;
    loop
        invariant
            p@.len() <= s@.len(),
            limit == s@.len() - p@.len(),
            i <= limit,
            forall|m: int| 0 <= m < i ==> !contains_at(s@, p@, m),
        ensures
            forall|m: int| 0 <= m <= limit ==> !contains_at(s@, p@, m),
        decreases limit - i,
    {
        if matches_at(s, p, i) {
            return true;
        }
        if i == limit {
            break;
        }
        i = i + 1;
    }
    assert forall|m: int| !contains_at(s@, p@, m) by {
        if 0 <= m && m + p@.len() <= s@.len() {
            assert(m <= limit);
        }
    }
    false
}

/// Whether two character slices are equal.
pub fn chars_eq(a: &[char], b: &[char]) -> (r: bool)
    ensures
        r == (a@ == b@),
{
    if a.len() != b.len() {
        return false;
    }
    let r = matches_at(a, b, 0);
    proof {
        if r {
            assert(a@ =~= a@.subrange(0, b@.len() as int));
        } else {
            assert(a@.subrange(0, b@.len() as int) =~= a@);
        }
    }
    r
}

// ─────────────────────────────────────────────────────────────────────────────
// Decimal rendering of integers
// ─────────────────────────────────────────────────────────────────────────────

pub open spec fn digit_char(d: nat) -> char {
    ((48 + d % 10) as u32) as char
}

/// The decimal digits of `n`, most significant first (`0` renders as `"0"`).
pub open spec fn decimal(n: nat) -> Seq<char>
    decreases n,
{
    if n < 10 {
        seq![digit_char(n)]
    } else {
        decimal(n / 10).push(digit_char(n % 10))
    }
}

/// Decimal renderings are non-empty and made of ASCII digits only.
pub proof fn lemma_decimal_no_dash(n: nat)
    ensures
        decimal(n).len() >= 1,
        forall|k: int| 0 <= k < decimal(n).len() ==> ascii_digit(#[trigger] decimal(n)[k]),
    decreases n,
{
    if n >= 10 {
        lemma_decimal_no_dash(n / 10);
        assert forall|k: int| 0 <= k < decimal(n).len() implies ascii_digit(#[trigger] decimal(n)[k]) by {
            if k < decimal(n / 10).len() {
                assert(decimal(n)[k] == decimal(n / 10)[k]);
            } else {
                assert(decimal(n)[k] == digit_char(n % 10));
            }
        }
    }
}

proof fn lemma_digit_char_injective(a: nat, b: nat)
    requires
        a < 10,
        b < 10,
        digit_char(a) == digit_char(b),
    ensures
        a == b,
{
    assert((48 + a % 10) as u32 == (48 + b % 10) as u32);
}

/// Distinct numbers render differently.
pub proof fn lemma_decimal_injective(a: nat, b: nat)
    ensures
        decimal(a) == decimal(b) ==> a == b,
    decreases a + b,
{
    if decimal(a) == decimal(b) {
        if a < 10 && b < 10 {
            assert(decimal(a)[0] == decimal(b)[0]);
            lemma_digit_char_injective(a, b);
        } else if a < 10 {
            lemma_decimal_no_dash(b / 10);
            assert(decimal(b).len() >= 2);
        } else if b < 10 {
            lemma_decimal_no_dash(a / 10);
            assert(decimal(a).len() >= 2);
        } else {
            assert(decimal(a).drop_last() =~= decimal(a / 10));
            assert(decimal(b).drop_last() =~= decimal(b / 10));
            lemma_decimal_injective(a / 10, b / 10);
            assert(decimal(a).last() == decimal(b).last());
            lemma_digit_char_injective(a % 10, b % 10);
        }
    }
}

/// Append the decimal digits of `n` (as `u64::to_string` renders them).
pub fn push_decimal(out: &mut Vec<char>, n: u64)
    ensures
        final(out)@ == old(out)@ + decimal(n as nat),
    decreases n,
{
    if n >= 10 {
        push_decimal(out, n / 10);
    }
    let d = (n % 10) as u32;
    let c = char_from_digit(d);
    out.push(c);
    proof {
        assert(decimal(n as nat) == if n < 10 { seq![digit_char(n as nat)] } else {
            decimal((n / 10) as nat).push(digit_char((n % 10) as nat))
        });
    }
}

/// The ASCII digit character for `d < 10`.
pub fn char_from_digit(d: u32) -> (c: char)
    requires
        d < 10,
    ensures
        c == digit_char(d as nat),
{
    match d {
        0 => '0',
        1 => '1',
        2 => '2',
        3 => '3',
        4 => '4',
        5 => '5',
        6 => '6',
        7 => '7',
        8 => '8',
        _ => '9',
    }
}

} // verus!
