//! Dictation history: a local recovery cache of final dictated text, newest first and
//! capped. Entry creation, ordering, capping, lookup, deletion and the export file
//! name with its UTC stamp; reading and writing the disk is the application's part.

use vstd::prelude::*;

use crate::persist::{id_spec, new_id, now_ms};
use crate::text::{chars_of, decimal, push_decimal, string_of, trim, trim_str, words};

verus! {

/// The most entries kept.
pub const MAX_HISTORY_ITEMS: usize = 100;

#[derive(Clone, Debug, PartialEq, Eq)]
pub struct HistoryEntry {
    pub id: String,
    pub text: String,
    pub created_at_ms: u64,
    pub word_count: u64,
}

/// An entry as plain values: (id, text, created_at_ms, word_count).
pub type EntryV = (Seq<char>, Seq<char>, u64, u64);

pub open spec fn entry_view(e: HistoryEntry) -> EntryV {
    (e.id@, e.text@, e.created_at_ms, e.word_count)
}

pub open spec fn entries_view(v: Seq<HistoryEntry>) -> Seq<EntryV> {
    v.map_values(|e: HistoryEntry| entry_view(e))
}

fn copy_entry(e: &HistoryEntry) -> (r: HistoryEntry)
    ensures
        entry_view(r) == entry_view(*e),
{
    HistoryEntry {
        id: String::from_str(e.id.as_str()),
        text: String::from_str(e.text.as_str()),
        created_at_ms: e.created_at_ms,
        word_count: e.word_count,
    }
}

fn copy_entries(v: &[HistoryEntry]) -> (r: Vec<HistoryEntry>)
    ensures
        entries_view(r@) == entries_view(v@),
{
    let mut out: Vec<HistoryEntry> = Vec::new();
    let mut i: usize = 0;
    while i < v.len()
        invariant
            i <= v@.len(),
            entries_view(out@) == entries_view(v@).take(i as int),
        decreases v@.len() - i,
    {
        let ghost pre = entries_view(out@);
        out.push(copy_entry(&v[i]));
        assert(entries_view(out@) =~= pre.push(entry_view(v@[i as int])));
        i = i + 1;
        assert(entries_view(v@).take(i as int) =~= entries_view(v@).take(i - 1).push(
            entries_view(v@)[i - 1],
        ));
    }
    assert(entries_view(v@).take(v@.len() as int) =~= entries_view(v@));
    out
}

/// The entry for a final text: trimmed; blank text gives none. The id and the time
/// stamp are minted by the caller.
pub open spec fn new_entry_spec(text: Seq<char>, id: Seq<char>, created_at_ms: u64) -> Option<EntryV> {
    let t = trim(text);
    if t.len() == 0 {
        None
    } else {
        Some((id, t, created_at_ms, words(t).len() as u64))
    }
}

/// Build the history entry for a final text, stamped now with a fresh `hist-` id
/// (`counter` is the process-lifetime id counter); blank text gives none.
pub fn new_entry(text: &str, counter: u64) -> (r: Option<HistoryEntry>)
    ensures
        match r {
            Some(e) => trim(text@).len() > 0 && e.text@ == trim(text@) && e.word_count == words(
                trim(text@),
            ).len() as u64 && exists|nanos: u128| e.id@ == id_spec("hist-"@, nanos, counter),
            None => trim(text@).len() == 0,
        },
{
    let t = trim_str(text);
    let tc = chars_of(t.as_str());
    if tc.len() == 0 {
        return None;
    }
    let id = new_id("hist-", counter);
    let ghost idv = id@;
    let created_at_ms = now_ms();
    let r = entry_with(text, id, created_at_ms);
    proof {
        let nanos = choose|nanos: u128| idv == id_spec("hist-"@, nanos, counter);
        assert(r.unwrap().id@ == id_spec("hist-"@, nanos, counter));
    }
    r
}

/// Build the history entry for a final text with a given id and time stamp; blank
/// text gives none.
pub fn entry_with(text: &str, id: String, created_at_ms: u64) -> (r: Option<HistoryEntry>)
    ensures
        match r {
            Some(e) => new_entry_spec(text@, id@, created_at_ms) == Some(entry_view(e)),
            None => new_entry_spec(text@, id@, created_at_ms) is None,
        },
{
    let t = trim_str(text);
    let tc = chars_of(t.as_str());
    if tc.len() == 0 {
        return None;
    }
    let wc = crate::stats::count_words(t.as_str());
    Some(HistoryEntry { id, text: t, created_at_ms, word_count: wc })
}

// ─────────────────────────────────────────────────────────────────────────────
// Ordering and capping
// ─────────────────────────────────────────────────────────────────────────────

/// Where an entry stamped `key` goes in a newest-first list: after every entry at
/// least as new (so equal stamps keep their order).
pub open spec fn newest_insert_pos(s: Seq<EntryV>, key: u64, i: int) -> int
    decreases s.len() - i,
{
    if 0 <= i < s.len() && s[i].2 >= key {
        newest_insert_pos(s, key, i + 1)
    } else {
        i
    }
}

/// Stable sort newest first.
pub open spec fn sort_newest(s: Seq<EntryV>) -> Seq<EntryV>
    decreases s.len(),
{
    if s.len() == 0 {
        Seq::empty()
    } else {
        let sorted = sort_newest(s.drop_last());
        let x = s.last();
        sorted.insert(newest_insert_pos(sorted, x.2, 0), x)
    }
}

pub open spec fn trim_history_spec(s: Seq<EntryV>, max: usize) -> Seq<EntryV> {
    let sorted = sort_newest(s);
    if sorted.len() <= max {
        sorted
    } else {
        sorted.take(max as int)
    }
}

/// Sort newest first (stable) and keep at most `max` entries.
pub fn trim_history(entries: Vec<HistoryEntry>, max: usize) -> (r: Vec<HistoryEntry>)
    ensures
        entries_view(r@) == trim_history_spec(entries_view(entries@), max),
{
    let ghost ev = entries_view(entries@);
    let mut sorted: Vec<HistoryEntry> = Vec::new();
    let mut j: usize = 0;
    assert(entries_view(sorted@) =~= sort_newest(ev.take(0)));
    while j < entries.len()
        invariant
            j <= entries@.len(),
            ev == entries_view(entries@),
            entries_view(sorted@) == sort_newest(ev.take(j as int)),
        decreases entries@.len() - j,
    {
        let ghost sv = entries_view(sorted@);
        let key = entries[j].created_at_ms;
        let mut pos: usize = 0;
        while pos < sorted.len() && sorted[pos].created_at_ms >= key
            invariant
                pos <= sorted@.len(),
                sv == entries_view(sorted@),
                key == ev[j as int].2,
                newest_insert_pos(sv, key, pos as int) == newest_insert_pos(sv, key, 0),
            decreases sorted@.len() - pos,
        {
            pos = pos + 1;
        }
        sorted.insert(pos, copy_entry(&entries[j]));
        proof {
            assert(ev.take(j + 1).drop_last() =~= ev.take(j as int));
            assert(ev.take(j + 1).last() == ev[j as int]);
            assert(entries_view(sorted@) =~= sv.insert(pos as int, ev[j as int]));
        }
        j = j + 1;
    }
    assert(ev.take(entries@.len() as int) =~= ev);
    if sorted.len() > max {
        sorted.truncate(max);
        assert(entries_view(sorted@) =~= sort_newest(ev).take(max as int));
    }
    sorted
}

pub open spec fn delete_spec(s: Seq<EntryV>, id: Seq<char>) -> Seq<EntryV>
    decreases s.len(),
{
    if s.len() == 0 {
        Seq::empty()
    } else if s.last().0 == id {
        delete_spec(s.drop_last(), id)
    } else {
        delete_spec(s.drop_last(), id).push(s.last())
    }
}

/// Every entry but those with this id, in order (idempotent).
pub fn delete_entry(entries: &[HistoryEntry], id: &str) -> (r: Vec<HistoryEntry>)
    ensures
        entries_view(r@) == delete_spec(entries_view(entries@), id@),
{
    let ghost ev = entries_view(entries@);
    let idc = chars_of(id);
    let mut out: Vec<HistoryEntry> = Vec::new();
    let mut i: usize = 0;
    assert(entries_view(out@) =~= delete_spec(ev.take(0), id@));
    while i < entries.len()
        invariant
            i <= entries@.len(),
            ev == entries_view(entries@),
            idc@ == id@,
            entries_view(out@) == delete_spec(ev.take(i as int), id@),
        decreases entries@.len() - i,
    {
        let ghost pre = entries_view(out@);
        assert(ev.take(i + 1).drop_last() =~= ev.take(i as int));
        assert(ev.take(i + 1).last() == ev[i as int]);
        let ec = chars_of(entries[i].id.as_str());
        if !crate::text::chars_eq(ec.as_slice(), idc.as_slice()) {
            out.push(copy_entry(&entries[i]));
            assert(entries_view(out@) =~= pre.push(ev[i as int]));
        }
        i = i + 1;
    }
    assert(ev.take(entries@.len() as int) =~= ev);
    out
}

/// The in-memory history, newest first and capped.
pub struct HistoryState {
    entries: Vec<HistoryEntry>,
}

impl HistoryState {
    pub closed spec fn view(&self) -> Seq<EntryV> {
        entries_view(self.entries@)
    }

    /// Start from loaded entries, sorted and capped.
    pub fn new(entries: Vec<HistoryEntry>) -> (s: Self)
        ensures
            s.view() == trim_history_spec(entries_view(entries@), MAX_HISTORY_ITEMS),
    {
        HistoryState { entries: trim_history(entries, MAX_HISTORY_ITEMS) }
    }

    /// Replace the contents with loaded entries, sorted and capped.
    pub fn hydrate(&mut self, entries: Vec<HistoryEntry>)
        ensures
            final(self).view() == trim_history_spec(entries_view(entries@), MAX_HISTORY_ITEMS),
    {
        self.entries = trim_history(entries, MAX_HISTORY_ITEMS);
    }

    /// A copy of the entries, newest first.
    pub fn list(&self) -> (r: Vec<HistoryEntry>)
        ensures
            entries_view(r@) == self.view(),
    {
        copy_entries(self.entries.as_slice())
    }

    /// Put a new entry in front and drop what falls past the cap.
    pub fn record(&mut self, entry: HistoryEntry)
        ensures
            final(self).view() == {
                let all = seq![entry_view(entry)] + old(self).view();
                if all.len() <= MAX_HISTORY_ITEMS {
                    all
                } else {
                    all.take(MAX_HISTORY_ITEMS as int)
                }
            },
    {
        let ghost pre = entries_view(self.entries@);
        let ghost ev = entry_view(entry);
        self.entries.insert(0, entry);
        assert(entries_view(self.entries@) =~= seq![ev] + pre);
        if self.entries.len() > MAX_HISTORY_ITEMS {
            self.entries.truncate(MAX_HISTORY_ITEMS);
            assert(entries_view(self.entries@) =~= (seq![ev] + pre).take(MAX_HISTORY_ITEMS as int));
        }
    }
}

// ─────────────────────────────────────────────────────────────────────────────
// UTC file stamp
// ─────────────────────────────────────────────────────────────────────────────

/// The civil (proleptic Gregorian) date of a day count since 1970-01-01, as
/// (year, month, day), by days-from-epoch arithmetic.
pub open spec fn civil_from_days(days: int) -> (int, int, int) {
    let z = days + 719468;
    let era = z / 146097;
    let doe = z % 146097;
    let yoe = (doe - doe / 1460 + doe / 36524 - doe / 146096) / 365;
    let doy = doe - (365 * yoe + yoe / 4 - yoe / 100);
    let mp = (5 * doy + 2) / 153;
    let day = doy - (153 * mp + 2) / 5 + 1;
    let month = if mp < 10 {
        mp + 3
    } else {
        mp - 9
    };
    let year = yoe + era * 400 + if month <= 2 {
        1int
    } else {
        0int
    };
    (year, month, day)
}

/// `n` in decimal, left-padded with zeros to at least `width` digits.
pub open spec fn padded(n: nat, width: nat) -> Seq<char> {
    let d = decimal(n);
    if d.len() >= width {
        d
    } else {
        Seq::new((width - d.len()) as nat, |i: int| '0') + d
    }
}

/// `YYYYMMDD-HHMMSS` for a UTC instant in seconds since the epoch.
pub open spec fn utc_stamp_spec(secs: u64) -> Seq<char> {
    let (y, mo, d) = civil_from_days((secs / 86400) as int);
    padded(y as nat, 4) + padded(mo as nat, 2) + padded(d as nat, 2) + "-"@ + padded(
        ((secs / 3600) % 24) as nat,
        2,
    ) + padded(((secs / 60) % 60) as nat, 2) + padded((secs % 60) as nat, 2)
}

fn push_padded(out: &mut Vec<char>, n: u64, width: usize)
    requires
        width <= 8,
    ensures
        final(out)@ == old(out)@ + padded(n as nat, width as nat),
{
    let mut d: Vec<char> = Vec::new();
    push_decimal(&mut d, n);
    assert(d@ =~= decimal(n as nat));
    if d.len() < width {
        let mut k: usize = 0;
        let ghost base = old(out)@;
        while k < width - d.len()
            invariant
                k <= width - d@.len(),
                d@.len() < width,
                out@ == base + Seq::new(k as nat, |i: int| '0'),
            decreases width - d@.len() - k,
        {
            out.push('0');
            k = k + 1;
            assert(out@ =~= base + Seq::new(k as nat, |i: int| '0'));
        }
    }
    let ghost mid = out@;
    crate::text::append_chars(out, d.as_slice());
}

proof fn lemma_civil_bounds(doe: u64)
    requires
        doe < 146097,
    ensures
        ({
            let yoe = (doe - doe / 1460 + doe / 36524 - doe / 146096) / 365;
            let doy = doe - (365 * yoe + yoe / 4 - yoe / 100);
            &&& doe / 1460 <= doe
            &&& 0 <= yoe <= 399
            &&& 365 * yoe + yoe / 4 - yoe / 100 <= doe
            &&& 0 <= doy <= 365
        }),
{
    assert(doe / 1460 <= doe) by (bit_vector)
        requires
            doe < 146097,
    ;
    let a = (doe - doe / 1460 + doe / 36524 - doe / 146096) as u64;
    assert(a / 365 <= 399) by (bit_vector)
        requires
            doe < 146097,
            a == (doe - doe / 1460 + doe / 36524 - doe / 146096),
    ;
    let yoe = a / 365;
    assert(365 * yoe + yoe / 4 - yoe / 100 <= doe && doe - (365 * yoe + yoe / 4 - yoe / 100) <= 365)
        by (bit_vector)
        requires
            doe < 146097,
            a == (doe - doe / 1460 + doe / 36524 - doe / 146096),
            yoe == a / 365,
    ;
}

fn civil_parts(days: u64) -> (r: (u64, u64, u64))
    requires
        days <= u64::MAX / 86400,
    ensures
        civil_from_days(days as int) == (r.0 as int, r.1 as int, r.2 as int),
{
    let z: u64 = days + 719468;
    let era: u64 = z / 146097;
    let doe: u64 = z % 146097;
    proof {
        lemma_civil_bounds(doe);
    }
    let yoe: u64 = (doe - doe / 1460 + doe / 36524 - doe / 146096) / 365;
    let doy: u64 = doe - (365 * yoe + yoe / 4 - yoe / 100);
    let mp: u64 = (5 * doy + 2) / 153;
    assert(mp <= 11);
    assert((153 * mp + 2) / 5 <= doy) by (nonlinear_arith)
        requires
            mp == (5 * doy + 2) / 153,
            doy <= 365,
    ;
    let day: u64 = doy - (153 * mp + 2) / 5 + 1;
    let month: u64 = if mp < 10 {
        mp + 3
    } else {
        mp - 9
    };
    assert(era <= u64::MAX / 146097);
    let year: u64 = yoe + era * 400 + if month <= 2 {
        1
    } else {
        0
    };
    (year, month, day)
}

/// `YYYYMMDD-HHMMSS` (UTC) for seconds since the epoch.
pub fn utc_stamp(secs: u64) -> (r: String)
    ensures
        r@ == utc_stamp_spec(secs),
{
    let h = (secs / 3600) % 24;
    let m = (secs / 60) % 60;
    let s = secs % 60;
    let (year, month, day) = civil_parts(secs / 86400);
    let mut out: Vec<char> = Vec::new();
    push_padded(&mut out, year, 4);
    push_padded(&mut out, month, 2);
    push_padded(&mut out, day, 2);
    out.push('-');
    push_padded(&mut out, h, 2);
    push_padded(&mut out, m, 2);
    push_padded(&mut out, s, 2);
    proof {
        reveal_strlit("-");
        assert(out@ =~= utc_stamp_spec(secs));
    }
    string_of(out.as_slice())
}

/// The text of the first entry with this id, scanning from index `i`.
pub open spec fn text_of_id(es: Seq<EntryV>, id: Seq<char>, i: int) -> Option<Seq<char>>
    decreases es.len() - i,
{
    if i < 0 || i >= es.len() {
        None
    } else if es[i].0 == id {
        Some(es[i].1)
    } else {
        text_of_id(es, id, i + 1)
    }
}

/// The text of the entry with this id (the first one, should ids repeat).
pub fn entry_text(entries: &[HistoryEntry], id: &str) -> (r: Result<String, String>)
    ensures
        match r {
            Ok(t) => text_of_id(entries_view(entries@), id@, 0) == Some(t@),
            Err(e) => text_of_id(entries_view(entries@), id@, 0) is None && e@
                == "history entry not found"@,
        },
{
    let ghost ev = entries_view(entries@);
    let idc = chars_of(id);
    let mut i: usize = 0;
    while i < entries.len()
        invariant
            i <= entries@.len(),
            ev == entries_view(entries@),
            idc@ == id@,
            text_of_id(ev, id@, 0) == text_of_id(ev, id@, i as int),
        decreases entries@.len() - i,
    {
        let ec = chars_of(entries[i].id.as_str());
        if crate::text::chars_eq(ec.as_slice(), idc.as_slice()) {
            return Ok(String::from_str(entries[i].text.as_str()));
        }
        i = i + 1;
    }
    Err(String::from_str("history entry not found"))
}

/// The export file name for a non-empty history exported at `secs`:
/// `mia-history-YYYYMMDD-HHMMSS.json`; an empty history is not exported.
pub fn export_file_name(entry_count: usize, secs: u64) -> (r: Result<String, String>)
    ensures
        entry_count == 0 ==> r is Err && r->Err_0@ == "history is empty"@,
        entry_count > 0 ==> r is Ok && r->Ok_0@ == "mia-history-"@ + utc_stamp_spec(secs) + ".json"@,
{
    if entry_count == 0 {
        return Err(String::from_str("history is empty"));
    }
    let mut out = chars_of("mia-history-");
    let stamp = utc_stamp(secs);
    let sc = chars_of(stamp.as_str());
    crate::text::append_chars(&mut out, sc.as_slice());
    let ext = chars_of(".json");
    crate::text::append_chars(&mut out, ext.as_slice());
    Ok(string_of(out.as_slice()))
}

// ─────────────────────────────────────────────────────────────────────────────
// Laws
// ─────────────────────────────────────────────────────────────────────────────

pub open spec fn newest_first(s: Seq<EntryV>) -> bool {
    forall|i: int, j: int| 0 <= i < j < s.len() ==> (#[trigger] s[i]).2 >= (#[trigger] s[j]).2
}

proof fn lemma_newest_pos(s: Seq<EntryV>, key: u64, i: int)
    requires
        0 <= i <= s.len(),
    ensures
        i <= newest_insert_pos(s, key, i) <= s.len(),
        forall|k: int| i <= k < newest_insert_pos(s, key, i) ==> (#[trigger] s[k]).2 >= key,
        newest_insert_pos(s, key, i) < s.len() ==> s[newest_insert_pos(s, key, i)].2 < key,
    decreases s.len() - i,
{
    if i < s.len() && s[i].2 >= key {
        lemma_newest_pos(s, key, i + 1);
    }
}

proof fn lemma_sort_newest(s: Seq<EntryV>)
    ensures
        sort_newest(s).len() == s.len(),
        newest_first(sort_newest(s)),
    decreases s.len(),
{
    if s.len() > 0 {
        lemma_sort_newest(s.drop_last());
        let sorted = sort_newest(s.drop_last());
        let x = s.last();
        let p = newest_insert_pos(sorted, x.2, 0);
        lemma_newest_pos(sorted, x.2, 0);
        let t = sorted.insert(p, x);
        assert forall|i: int, j: int| 0 <= i < j < t.len() implies (#[trigger] t[i]).2 >= (
        #[trigger] t[j]).2 by {
            if j < p {
                assert(t[i] == sorted[i] && t[j] == sorted[j]);
            } else if j == p {
                assert(t[i] == sorted[i]);
            } else if i < p {
                assert(t[i] == sorted[i] && t[j] == sorted[j - 1]);
            } else if i == p {
                assert(t[j] == sorted[j - 1]);
                assert(sorted[p].2 >= sorted[j - 1].2 || j - 1 == p);
            } else {
                assert(t[i] == sorted[i - 1] && t[j] == sorted[j - 1]);
            }
        }
    }
}

/// Trimmed history is newest first and holds at most `max` entries (all of them when
/// there are no more than `max`).
pub proof fn lemma_trim_history_sorted_and_capped(s: Seq<EntryV>, max: usize)
    ensures
        newest_first(trim_history_spec(s, max)),
        trim_history_spec(s, max).len() == if s.len() <= max {
            s.len()
        } else {
            max as nat
        },
{
    lemma_sort_newest(s);
}

/// Deleting twice is deleting once, and a deleted id is gone.
pub proof fn lemma_delete_idempotent(s: Seq<EntryV>, id: Seq<char>)
    ensures
        delete_spec(delete_spec(s, id), id) == delete_spec(s, id),
        forall|k: int| 0 <= k < delete_spec(s, id).len() ==> (#[trigger] delete_spec(s, id)[k]).0 != id,
    decreases s.len(),
{
    if s.len() > 0 {
        lemma_delete_idempotent(s.drop_last(), id);
        let d = delete_spec(s.drop_last(), id);
        if s.last().0 != id {
            assert(d.push(s.last()).drop_last() =~= d);
        }
    }
}

} // verus!
