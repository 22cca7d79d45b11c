use mia::history::{delete_entry, entry_text, entry_with, export_file_name, new_entry, trim_history, utc_stamp, HistoryEntry, HistoryState, MAX_HISTORY_ITEMS};
use mia::persist::format_id;
use mia::stats::count_words;

fn entry(id: &str, text: &str, created_at_ms: u64) -> HistoryEntry {
    HistoryEntry {
        id: id.to_string(),
        text: text.to_string(),
        created_at_ms,
        word_count: count_words(text),
    }
}

#[test]
fn new_entry_trims_and_skips_empty_text() {
    assert!(new_entry("   ", 0).is_none());
    let e = new_entry("  ola mundo  ", 1).unwrap();
    assert_eq!(e.text, "ola mundo");
    assert_eq!(e.word_count, 2);
    assert!(e.id.starts_with("hist-"));
    assert!(e.id.ends_with("-1"));
    assert!(e.created_at_ms > 1_700_000_000_000);
}

#[test]
fn entry_with_keeps_the_given_id_and_stamp() {
    assert!(entry_with(" \t ", format_id("hist-", 1, 0), 0).is_none());
    let e = entry_with("  ola  mundo bonito ", format_id("hist-", 9, 2), 5).unwrap();
    assert_eq!(e.id, "hist-9-2");
    assert_eq!(e.text, "ola  mundo bonito");
    assert_eq!(e.created_at_ms, 5);
    assert_eq!(e.word_count, 3);
}

#[test]
fn trim_history_sorts_newest_first_and_caps() {
    let entries = vec![entry("old", "a", 1), entry("new", "b", 3), entry("mid", "c", 2)];
    let trimmed = trim_history(entries, 2);
    assert_eq!(trimmed.iter().map(|e| e.id.as_str()).collect::<Vec<_>>(), vec!["new", "mid"]);
}

#[test]
fn utc_stamp_formats_known_instants() {
    assert_eq!(utc_stamp(0), "19700101-000000");
    assert_eq!(utc_stamp(1_000_000_000), "20010909-014640");
    assert_eq!(utc_stamp(951_825_600), "20000229-120000");
}

#[test]
fn delete_entry_is_idempotent() {
    let entries = vec![entry("a", "one", 1), entry("b", "two", 2)];
    let next = delete_entry(&entries, "a");
    assert_eq!(next.iter().map(|e| e.id.as_str()).collect::<Vec<_>>(), vec!["b"]);
    assert_eq!(delete_entry(&next, "missing"), next);
}

#[test]
fn history_equal_stamps_keep_order_and_state_caps() {
    let entries = vec![entry("x", "a", 5), entry("y", "b", 5), entry("z", "c", 9)];
    let t = trim_history(entries, 10);
    assert_eq!(t.iter().map(|e| e.id.as_str()).collect::<Vec<_>>(), vec!["z", "x", "y"]);
    let many: Vec<HistoryEntry> = (0..150).map(|i| entry(&format!("e{i}"), "t", i)).collect();
    let mut state = HistoryState::new(many);
    assert_eq!(state.list().len(), MAX_HISTORY_ITEMS);
    assert_eq!(state.list()[0].id, "e149");
    state.record(entry("fresh", "t", 1));
    assert_eq!(state.list()[0].id, "fresh");
    assert_eq!(state.list().len(), MAX_HISTORY_ITEMS);
}

#[test]
fn history_utc_stamp_year_boundaries() {
    assert_eq!(utc_stamp(946_684_799), "19991231-235959");
    assert_eq!(utc_stamp(4_102_444_800), "21000101-000000");
}

#[test]
fn entry_text_finds_by_id() {
    let entries = vec![entry("a", "one", 1), entry("b", "two", 2), entry("b", "dup", 3)];
    assert_eq!(entry_text(&entries, "b"), Ok("two".to_string()));
    assert_eq!(entry_text(&entries, "z"), Err("history entry not found".to_string()));
    assert_eq!(entry_text(&[], "a"), Err("history entry not found".to_string()));
}

#[test]
fn export_file_names() {
    assert_eq!(export_file_name(0, 0), Err("history is empty".to_string()));
    assert_eq!(export_file_name(3, 1_000_000_000), Ok("mia-history-20010909-014640.json".to_string()));
}
