use mia::inject::chunk_graphemes;
use mia::inject::{
    chunk_for_sendinput, pick_backend, redact_for_log, resolved_backend, settle_clipboard,
    should_use_clipboard, Backend, InjectMode, InjectSettings,
};
use mia::inject::{inject, injection_backend, ClipboardInjector, SendInputInjector, TextInjector};
use std::cell::RefCell;
use unicode_segmentation::UnicodeSegmentation;

#[test]
fn should_use_clipboard_boundary() {
    assert!(!should_use_clipboard(999, 1000));
    assert!(should_use_clipboard(1000, 1000));
    assert!(should_use_clipboard(1001, 1000));
    assert!(should_use_clipboard(200, 10));
}

#[test]
fn pick_backend_auto_defaults_to_clipboard() {
    let s = InjectSettings::default();
    assert_eq!(pick_backend(InjectMode::Auto, 10, &s), Backend::Clipboard);
    assert_eq!(pick_backend(InjectMode::Auto, 1000, &s), Backend::Clipboard);
}

#[test]
fn pick_backend_threshold_when_clipboard_is_not_forced() {
    let s = InjectSettings { force_clipboard_mode: false, ..Default::default() };
    assert_eq!(pick_backend(InjectMode::Auto, 10, &s), Backend::SendInput);
    assert_eq!(pick_backend(InjectMode::Auto, 1000, &s), Backend::Clipboard);
}

#[test]
fn pick_backend_explicit_overrides() {
    let s = InjectSettings { force_clipboard_mode: true, ..Default::default() };
    assert_eq!(pick_backend(InjectMode::SendInput, 9999, &s), Backend::SendInput);
    assert_eq!(pick_backend(InjectMode::Clipboard, 1, &InjectSettings::default()), Backend::Clipboard);
}

#[test]
fn chunk_splits_on_size() {
    assert_eq!(chunk_for_sendinput("abcdefgh", 16), vec!["abcdefgh"]);
    let s = "a".repeat(40);
    let chunks = chunk_for_sendinput(&s, 16);
    assert_eq!(chunks.len(), 3);
    assert_eq!(chunks.iter().map(|c| c.len()).sum::<usize>(), 40);
}

#[test]
fn chunk_empty_is_empty() {
    assert!(chunk_for_sendinput("", 64).is_empty());
}

#[test]
fn chunk_never_splits_grapheme() {
    let g = "e\u{301}";
    let s = g.repeat(20);
    for chunk in chunk_for_sendinput(&s, 16) {
        assert!(chunk.graphemes(true).all(|gr| gr == g));
    }
}

#[test]
fn chunk_keeps_emoji_intact() {
    let s = "a😀b😀c";
    let joined: String = chunk_for_sendinput(s, 16).concat();
    assert_eq!(joined, s);
}

#[test]
fn settle_clipboard_surfaces_paste_error_first_restore_always_runs() {
    assert!(settle_clipboard(Ok(()), Ok(())).is_ok());
    assert_eq!(settle_clipboard(Err("paste".into()), Ok(())).unwrap_err(), "paste");
    assert_eq!(settle_clipboard(Ok(()), Err("restore".into())).unwrap_err(), "restore");
    assert_eq!(settle_clipboard(Err("paste".into()), Err("restore".into())).unwrap_err(), "paste");
}

#[test]
fn resolved_backend_names_the_path() {
    let s = InjectSettings::default();
    assert_eq!(resolved_backend(InjectMode::Auto, 10, &s), "clipboard");
    assert_eq!(resolved_backend(InjectMode::Auto, 1000, &s), "clipboard");
    assert_eq!(resolved_backend(InjectMode::Clipboard, 1, &s), "clipboard");
}

#[test]
fn redact_is_length_only() {
    let r = redact_for_log("super secret password");
    assert_eq!(r, "<21 chars>");
    assert!(!r.contains("secret"));
}

// ── Further cases ────────────────────────────────────────────────────────────

#[test]
fn inject_chunks_are_graphemes_and_concatenate() {
    let s = "e\u{301}".repeat(20);
    let chunks = chunk_for_sendinput(&s, 16);
    // 16 characters close a chunk before the next cluster: 8 clusters per chunk.
    assert_eq!(chunks.len(), 3);
    assert_eq!(chunks[0].chars().count(), 16);
    assert_eq!(chunks.concat(), s);
    let long = "b".repeat(2000);
    assert_eq!(chunk_for_sendinput(&long, 10_000).len(), 4);
}

#[test]
fn inject_threshold_clamps_above_and_names_send_input() {
    assert!(!should_use_clipboard(5000 - 1, 9999));
    assert!(should_use_clipboard(5000, 9999));
    let s = InjectSettings { force_clipboard_mode: false, ..Default::default() };
    assert_eq!(resolved_backend(InjectMode::Auto, 10, &s), "send_input");
    assert_eq!(redact_for_log(""), "<0 chars>");
    assert_eq!(redact_for_log("olá"), "<3 chars>");
}

struct Recorder {
    label: &'static str,
    seen: RefCell<Vec<String>>,
    reply: Result<(), String>,
}

impl Recorder {
    fn new(label: &'static str, reply: Result<(), String>) -> Self {
        Recorder { label, seen: RefCell::new(Vec::new()), reply }
    }
}

impl TextInjector for Recorder {
    fn inject(&self, text: &str) -> Result<(), String> {
        self.seen.borrow_mut().push(text.to_string());
        self.reply.clone()
    }
    fn name(&self) -> &'static str {
        self.label
    }
}

#[test]
fn backend_structs_and_names() {
    let s = SendInputInjector { chunk: 16 };
    assert_eq!(s.name(), "send_input");
    assert_eq!(ClipboardInjector.name(), "clipboard");
    let text = "a".repeat(40);
    let pieces = s.pieces(&text);
    assert_eq!(pieces.len(), 3);
    assert_eq!(pieces.concat(), text);
    assert!(s.pieces("").is_empty());
}

#[test]
fn injection_dispatch() {
    let settings = InjectSettings::default();
    assert_eq!(injection_backend("   ", InjectMode::Auto, &settings), None);
    assert_eq!(injection_backend("ola", InjectMode::Auto, &settings), Some(Backend::Clipboard));
    assert_eq!(injection_backend("ola", InjectMode::SendInput, &settings), Some(Backend::SendInput));
    let typist = Recorder::new("t", Ok(()));
    let paster = Recorder::new("p", Err("clipboard unavailable".to_string()));
    assert_eq!(inject(" \n ", InjectMode::SendInput, &settings, &typist, &paster), Ok(()));
    assert!(typist.seen.borrow().is_empty() && paster.seen.borrow().is_empty());
    assert_eq!(inject("oi", InjectMode::SendInput, &settings, &typist, &paster), Ok(()));
    assert_eq!(typist.seen.borrow().as_slice(), ["oi".to_string()]);
    assert_eq!(
        inject("oi", InjectMode::Auto, &settings, &typist, &paster),
        Err("clipboard unavailable".to_string())
    );
    assert_eq!(paster.seen.borrow().as_slice(), ["oi".to_string()]);
}

#[test]
fn chunk_graphemes_closes_a_chunk_once_full() {
    let gs: Vec<String> = std::iter::repeat("a".to_string()).take(20).collect();
    let chunks = chunk_graphemes(&gs, 16);
    assert_eq!(chunks, vec!["a".repeat(16), "a".repeat(4)]);
    let accented: Vec<String> = std::iter::repeat("e\u{301}".to_string()).take(10).collect();
    let chunks = chunk_graphemes(&accented, 1);
    assert_eq!(chunks, vec!["e\u{301}".repeat(8), "e\u{301}".repeat(2)]);
    assert!(chunk_graphemes(&[], 64).is_empty());
}
