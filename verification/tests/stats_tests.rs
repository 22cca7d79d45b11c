use mia::stats::{count_words, next_streak, record_dictation, view, wpm, StatsState, UsageStats};

#[test]
fn wpm_basic_and_zero() {
    assert_eq!(wpm(150, 60_000), 150);
    assert_eq!(wpm(75, 30_000), 150);
    assert_eq!(wpm(0, 0), 0);
    assert_eq!(wpm(10, 0), 0);
}

#[test]
fn count_words_splits_on_whitespace() {
    assert_eq!(count_words("  olá   mundo bonito \n tchau "), 4);
    assert_eq!(count_words(""), 0);
}

#[test]
fn streak_starts_continues_resets() {
    assert_eq!(next_streak(0, 100, 0), 1);
    assert_eq!(next_streak(100, 100, 3), 3);
    assert_eq!(next_streak(100, 101, 3), 4);
    assert_eq!(next_streak(100, 105, 3), 1);
    assert_eq!(next_streak(100, 90, 3), 1);
}

#[test]
fn record_accumulates_and_tracks_best_streak() {
    let s = UsageStats::default();
    let s = record_dictation(s, 20, 10_000, 100);
    assert_eq!(s.total_words, 20);
    assert_eq!(s.day_streak, 1);
    assert_eq!(s.best_streak, 1);
    let s = record_dictation(s, 30, 10_000, 101);
    assert_eq!(s.total_words, 50);
    assert_eq!(s.day_streak, 2);
    assert_eq!(s.best_streak, 2);
    let s = record_dictation(s, 10, 5_000, 110);
    assert_eq!(s.day_streak, 1);
    assert_eq!(s.best_streak, 2);
}

#[test]
fn view_adds_derived_wpm() {
    let s = record_dictation(UsageStats::default(), 100, 60_000, 1);
    let v = view(&s);
    assert_eq!(v.total_words, 100);
    assert_eq!(v.avg_wpm, 100);
    assert_eq!(v.day_streak, 1);
}

#[test]
fn stats_wpm_rounds_half_up_and_same_day_keeps_streak() {
    assert_eq!(wpm(1, 120_000), 1);
    assert_eq!(wpm(1, 180_000), 0);
    assert_eq!(wpm(u64::MAX, 1), u32::MAX);
    let s = record_dictation(UsageStats::default(), 5, 1_000, 7);
    let t = record_dictation(s, 5, 1_000, 7);
    assert_eq!(t.day_streak, s.day_streak);
    assert_eq!(next_streak(100, 100, 0), 1);
}

#[test]
fn stats_state_records_and_resets() {
    let mut st = StatsState::new(UsageStats::default());
    let r = st.record(150, 60_000, 100);
    assert_eq!(r, UsageStats { total_words: 150, total_ms: 60_000, day_streak: 1, best_streak: 1, last_dictation_day: 100 });
    assert_eq!(st.get(), r);
    let r2 = st.record(50, 30_000, 101);
    assert_eq!(r2.day_streak, 2);
    assert_eq!(view(&st.get()).avg_wpm, 133);
    st.set(UsageStats::default());
    assert_eq!(st.get(), UsageStats::default());
}
