//! Local-only usage statistics: words dictated, average words per minute and a day
//! streak. The counters, their update rule, the in-memory state and the derived
//! dashboard view.

use vstd::prelude::*;

use crate::text::{chars_of, split_whitespace, words};

verus! {

/// Persisted counters. `last_dictation_day` is days since the epoch (0 = never).
#[derive(Clone, Copy, Debug, PartialEq, Eq, Structural)]
pub struct UsageStats {
    pub total_words: u64,
    pub total_ms: u64,
    pub day_streak: u32,
    pub best_streak: u32,
    pub last_dictation_day: i64,
}

impl Default for UsageStats {
    fn default() -> (s: Self)
        ensures
            s == (UsageStats {
                total_words: 0,
                total_ms: 0,
                day_streak: 0,
                best_streak: 0,
                last_dictation_day: 0,
            }),
    {
        UsageStats { total_words: 0, total_ms: 0, day_streak: 0, best_streak: 0, last_dictation_day: 0 }
    }
}

/// What the dashboard renders: the counters plus a derived average WPM.
#[derive(Clone, Copy, Debug, PartialEq, Eq, Structural)]
pub struct UsageStatsView {
    pub total_words: u64,
    pub total_ms: u64,
    pub avg_wpm: u32,
    pub day_streak: u32,
    pub best_streak: u32,
}

/// Words per minute over `ms` milliseconds, rounded to the nearest integer (halves
/// up) and saturated to `u32`; zero time gives 0.
pub open spec fn wpm_spec(words: u64, ms: u64) -> u32 {
    if ms == 0 {
        0
    } else {
        let r = (2 * words * 60000 + ms) / (2 * ms as int);
        if r > u32::MAX {
            u32::MAX
        } else {
            r as u32
        }
    }
}

/// Words per minute over `ms` milliseconds. Zero time gives 0.
pub fn wpm(words: u64, ms: u64) -> (r: u32)
    ensures
        r == wpm_spec(words, ms),
{
    if ms == 0 {
        return 0;
    }
    let num: u128 = (words as u128) * 120000 + (ms as u128);
    let den: u128 = (ms as u128) * 2;
    let q: u128 = num / den;
    if q > (u32::MAX as u128) {
        u32::MAX
    } else {
        q as u32
    }
}

/// Count whitespace-delimited words.
pub fn count_words(text: &str) -> (n: u64)
    ensures
        n == words(text@).len(),
{
    let cs = chars_of(text);
    let ws = split_whitespace(cs.as_slice());
    ws.len() as u64
}

/// The day streak after a dictation on `today`: the first ever starts at 1, the same
/// day keeps it (never below 1), the next day extends it, and a gap (or a clock that
/// moved back) restarts at 1.
pub open spec fn next_streak_spec(last_day: i64, today: i64, current: u32) -> u32 {
    if last_day == 0 {
        1
    } else if today - last_day == 0 {
        if current > 1 {
            current
        } else {
            1
        }
    } else if today - last_day == 1 {
        (current + 1) as u32
    } else {
        1
    }
}

pub fn next_streak(last_day: i64, today: i64, current: u32) -> (s: u32)
    requires
        last_day != 0 ==> i64::MIN <= today - last_day <= i64::MAX,
        last_day != 0 && today - last_day == 1 ==> current < u32::MAX,
    ensures
        s == next_streak_spec(last_day, today, current),
{
    if last_day == 0 {
        return 1;
    }
    let d = today - last_day;
    if d == 0 {
        if current > 1 {
            current
        } else {
            1
        }
    } else if d == 1 {
        current + 1
    } else {
        1
    }
}

pub open spec fn record_spec(s: UsageStats, words: u64, ms: u64, today: i64) -> UsageStats {
    let streak = next_streak_spec(s.last_dictation_day, today, s.day_streak);
    UsageStats {
        total_words: (s.total_words + words) as u64,
        total_ms: (s.total_ms + ms) as u64,
        day_streak: streak,
        best_streak: if s.best_streak >= streak {
            s.best_streak
        } else {
            streak
        },
        last_dictation_day: today,
    }
}

/// Fold one successful dictation into the counters.
pub fn record_dictation(stats: UsageStats, words: u64, ms: u64, today: i64) -> (r: UsageStats)
    requires
        stats.total_words + words <= u64::MAX,
        stats.total_ms + ms <= u64::MAX,
        stats.last_dictation_day != 0 ==> i64::MIN <= today - stats.last_dictation_day <= i64::MAX,
        stats.last_dictation_day != 0 && today - stats.last_dictation_day == 1 ==> stats.day_streak
            < u32::MAX,
    ensures
        r == record_spec(stats, words, ms, today),
        r.best_streak >= r.day_streak,
        r.best_streak >= stats.best_streak,
        r.day_streak >= 1,
{
    let mut s = stats;
    s.total_words = s.total_words + words;
    s.total_ms = s.total_ms + ms;
    s.day_streak = next_streak(s.last_dictation_day, today, s.day_streak);
    s.best_streak = if s.best_streak >= s.day_streak {
        s.best_streak
    } else {
        s.day_streak
    };
    s.last_dictation_day = today;
    s
}

/// Project the counters into the dashboard view (adds the derived WPM).
pub fn view(stats: &UsageStats) -> (v: UsageStatsView)
    ensures
        v == (UsageStatsView {
            total_words: stats.total_words,
            total_ms: stats.total_ms,
            avg_wpm: wpm_spec(stats.total_words, stats.total_ms),
            day_streak: stats.day_streak,
            best_streak: stats.best_streak,
        }),
{
    UsageStatsView {
        total_words: stats.total_words,
        total_ms: stats.total_ms,
        avg_wpm: wpm(stats.total_words, stats.total_ms),
        day_streak: stats.day_streak,
        best_streak: stats.best_streak,
    }
}

/// The in-memory counters, loaded once at startup.
pub struct StatsState {
    inner: UsageStats,
}

impl StatsState {
    pub closed spec fn view(&self) -> UsageStats {
        self.inner
    }

    pub fn new(stats: UsageStats) -> (s: Self)
        ensures
            s.view() == stats,
    {
        StatsState { inner: stats }
    }

    /// The current counters.
    pub fn get(&self) -> (r: UsageStats)
        ensures
            r == self.view(),
    {
        self.inner
    }

    /// Replace the counters.
    pub fn set(&mut self, stats: UsageStats)
        ensures
            final(self).view() == stats,
    {
        self.inner = stats;
    }

    /// Fold one dictation into the counters and return the new counters.
    pub fn record(&mut self, words: u64, ms: u64, today: i64) -> (r: UsageStats)
        requires
            old(self).view().total_words + words <= u64::MAX,
            old(self).view().total_ms + ms <= u64::MAX,
            old(self).view().last_dictation_day != 0 ==> i64::MIN <= today - old(
                self,
            ).view().last_dictation_day <= i64::MAX,
            old(self).view().last_dictation_day != 0 && today - old(self).view().last_dictation_day
                == 1 ==> old(self).view().day_streak < u32::MAX,
        ensures
            r == record_spec(old(self).view(), words, ms, today),
            final(self).view() == r,
    {
        let updated = record_dictation(self.inner, words, ms, today);
        self.inner = updated;
        updated
    }
}

/// Recording keeps the best streak at or above the current streak, given it was so
/// before, and never lowers the best streak.
pub proof fn lemma_best_streak_dominates(s: UsageStats, words: u64, ms: u64, today: i64)
    ensures
        record_spec(s, words, ms, today).best_streak >= record_spec(s, words, ms, today).day_streak,
        record_spec(s, words, ms, today).best_streak >= s.best_streak,
        record_spec(s, words, ms, today).last_dictation_day == today,
{
}

/// Two dictations on the same day leave the streak where the first one put it.
pub proof fn lemma_same_day_keeps_streak(s: UsageStats, w1: u64, m1: u64, w2: u64, m2: u64, today: i64)
    requires
        today != 0,
        s.day_streak < u32::MAX,
    ensures
        record_spec(record_spec(s, w1, m1, today), w2, m2, today).day_streak == record_spec(s, w1, m1, today).day_streak,
{
}

} // verus!
