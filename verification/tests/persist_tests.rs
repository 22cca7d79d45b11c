use mia::persist::{format_id, new_id, now_ms, now_secs, IdMinter};

#[test]
fn now_helpers_are_post_epoch_and_consistent() {
    // now_secs is read first, now_ms after, so now_ms's instant is >= now_secs's.
    let secs = now_secs();
    assert!(secs > 1_700_000_000);
    assert!(now_ms() >= secs * 1000);
}

#[test]
fn new_id_is_unique_across_rapid_calls_and_keeps_prefix() {
    let mut ids = IdMinter::new();
    let a = ids.mint("dict-");
    let b = ids.mint("dict-");
    assert_ne!(a, b); // distinct even if the clock didn't advance
    assert!(a.starts_with("dict-"));
    assert!(b.starts_with("dict-"));
}

#[test]
fn new_id_ends_with_the_counter() {
    let id = new_id("snip-", 7);
    assert!(id.starts_with("snip-"));
    assert!(id.ends_with("-7"));
    let nanos = &id["snip-".len()..id.len() - 2];
    assert!(!nanos.is_empty() && nanos.chars().all(|c| c.is_ascii_digit()));
}

#[test]
fn persist_id_layout() {
    assert_eq!(format_id("snip-", 42, 7), "snip-42-7");
    assert_eq!(format_id("", 0, 0), "0-0");
    assert_ne!(format_id("a-", 12, 3), format_id("a-", 1, 23));
}

#[test]
fn minter_counter_advances_and_wraps() {
    let mut ids = IdMinter::new();
    assert!(ids.mint("x-").ends_with("-0"));
    assert!(ids.mint("x-").ends_with("-1"));
    assert_eq!(ids.next, 2);
    let mut top = IdMinter { next: u64::MAX };
    assert!(top.mint("y-").ends_with(&format!("-{}", u64::MAX)));
    assert_eq!(top.next, 0);
    assert!(new_id("z-", 5).ends_with("-5"));
}

#[test]
fn take_hands_out_the_counter_and_advances() {
    let mut m = IdMinter { next: 5 };
    assert_eq!(m.take(), 5);
    assert_eq!(m.next, 6);
    let mut top = IdMinter { next: u64::MAX };
    assert_eq!(top.take(), u64::MAX);
    assert_eq!(top.next, 0);
}
