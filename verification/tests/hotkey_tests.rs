use mia::hotkey::{
    any_non_modifier_pressed, check_registrable, current_mods_pressed, expected_modifiers_pressed,
    first_pressed_record_key, key_code_name, key_pressed, key_vk, platform_record_sample,
    polled_accel_pressed, polled_chord_down, record_sample_from,
    should_poll_accel, HotkeyRuntime, KeyPoller,
};
use mia::hotkey::{
    expected_modifiers_match, is_bare_key, is_reserved, modifier_count, parse_accelerator, reduce,
    should_self_heal, to_canonical, Accel, ActivationMode, DictationIntent, EdgeState, HotkeyConfig,
    Mods, RawEdge, DEBOUNCE_MS,
};

fn accel(s: &str) -> Accel {
    parse_accelerator(s).unwrap()
}

#[test]
fn parses_canonical_chords() {
    assert_eq!(
        accel("Ctrl+Super"),
        Accel { mods: Mods { ctrl: true, sup: true, ..Default::default() }, key: None }
    );
    assert_eq!(
        accel("Alt+Space"),
        Accel { mods: Mods { alt: true, ..Default::default() }, key: Some("Space".into()) }
    );
    assert_eq!(
        accel("Ctrl+Shift+D"),
        Accel { mods: Mods { ctrl: true, shift: true, ..Default::default() }, key: Some("D".into()) }
    );
}

#[test]
fn parse_is_case_and_alias_insensitive() {
    assert_eq!(accel("control+win"), accel("Ctrl+Super"));
    assert_eq!(accel("ALT+space"), accel("Alt+Space"));
}

#[test]
fn rejects_empty_unparseable_bare_and_fn() {
    assert_eq!(parse_accelerator("   "), Err("empty hotkey".into()));
    assert_eq!(parse_accelerator("Ctrl+Nope"), Err("unparseable hotkey: Ctrl+Nope".into()));
    assert_eq!(parse_accelerator("D"), Err("hotkey must include a modifier".into()));
    assert_eq!(parse_accelerator("F8"), Err("hotkey must include a modifier".into()));
    assert_eq!(parse_accelerator("Fn"), Err("Fn key is not hookable".into()));
    assert_eq!(parse_accelerator("Ctrl+Fn"), Err("Fn key is not hookable".into()));
}

#[test]
fn rejects_two_main_keys() {
    assert!(parse_accelerator("Ctrl+A+B").is_err());
}

#[test]
fn to_canonical_round_trips() {
    for s in ["Ctrl+Super", "Alt+Space", "Ctrl+Shift+D", "Ctrl+Alt+F4"] {
        let a = accel(s);
        assert_eq!(parse_accelerator(&to_canonical(&a)).unwrap(), a);
    }
}

#[test]
fn reserved_chords_flagged() {
    assert!(is_reserved(&accel("Super+L")));
    assert!(is_reserved(&accel("Alt+Tab")));
    assert!(is_reserved(&accel("Ctrl+Alt+Delete")));
    assert!(is_reserved(&accel("Super+D")));
    assert!(!is_reserved(&accel("Ctrl+Super")));
    assert!(!is_reserved(&accel("Ctrl+Shift+D")));
}

#[test]
fn polled_modifier_match_allows_extra_modifiers() {
    let expected = Mods { sup: true, ..Default::default() };
    assert!(expected_modifiers_match(expected, Mods { ctrl: true, sup: true, ..Default::default() }));
    assert!(!expected_modifiers_match(expected, Mods { ctrl: true, ..Default::default() }));
}

#[test]
fn push_to_hold_down_starts_repeat_ignored_release_stops() {
    let s0 = EdgeState::default();
    let (s1, i1) = reduce(s0, RawEdge::Pressed, ActivationMode::PushToHold, 100, DEBOUNCE_MS);
    assert_eq!(i1, Some(DictationIntent::Start));
    assert!(s1.active);
    let (s2, i2) = reduce(s1, RawEdge::Pressed, ActivationMode::PushToHold, 1_000, DEBOUNCE_MS);
    assert_eq!(i2, None);
    assert!(s2.active);
    let (s3, i3) = reduce(s2, RawEdge::Released, ActivationMode::PushToHold, 2_000, DEBOUNCE_MS);
    assert_eq!(i3, Some(DictationIntent::Stop));
    assert!(!s3.active);
    let (_s4, i4) = reduce(s3, RawEdge::Released, ActivationMode::PushToHold, 3_000, DEBOUNCE_MS);
    assert_eq!(i4, None);
}

#[test]
fn press_to_toggle_alternates_and_ignores_release() {
    let mut t = 0;
    let fire = |s: EdgeState, edge: RawEdge, t: u64| reduce(s, edge, ActivationMode::PressToToggle, t, DEBOUNCE_MS);
    let (s1, i1) = fire(EdgeState::default(), RawEdge::Pressed, {
        t += 100;
        t
    });
    assert_eq!(i1, Some(DictationIntent::Start));
    let (s2, i2) = fire(s1, RawEdge::Released, {
        t += 100;
        t
    });
    assert_eq!(i2, None);
    let (s3, i3) = fire(s2, RawEdge::Pressed, {
        t += 100;
        t
    });
    assert_eq!(i3, Some(DictationIntent::Stop));
    let (s4, i4) = fire(s3, RawEdge::Pressed, {
        t += 100;
        t
    });
    assert_eq!(i4, Some(DictationIntent::Start));
    assert!(s4.active);
}

#[test]
fn debounce_collapses_edges_within_window() {
    let s0 = EdgeState::default();
    let (s1, i1) = reduce(s0, RawEdge::Pressed, ActivationMode::PressToToggle, 100, DEBOUNCE_MS);
    assert_eq!(i1, Some(DictationIntent::Start));
    let (s2, i2) = reduce(s1, RawEdge::Pressed, ActivationMode::PressToToggle, 120, DEBOUNCE_MS);
    assert_eq!(i2, None);
    assert!(s2.active);
}

#[test]
fn re_entry_guard_no_stop_while_inactive() {
    let s0 = EdgeState::default();
    let (_s, i) = reduce(s0, RawEdge::Released, ActivationMode::PushToHold, 100, DEBOUNCE_MS);
    assert_eq!(i, None);
}

#[test]
fn self_heal_only_when_idle_and_interval_elapsed() {
    assert!(should_self_heal(false, 30_000, 30_000));
    assert!(should_self_heal(false, 45_000, 30_000));
    assert!(!should_self_heal(true, 60_000, 30_000));
    assert!(!should_self_heal(false, 10_000, 30_000));
}

#[test]
fn default_config_is_ctrl_space_push_to_hold() {
    let c = HotkeyConfig::default();
    assert_eq!(c.accelerator, "Ctrl+Space");
    assert_eq!(c.mode, ActivationMode::PushToHold);
    let parsed = parse_accelerator(&c.accelerator).unwrap();
    assert_eq!(parsed.key.as_deref(), Some("Space"));
}

// ── Further cases ────────────────────────────────────────────────────────────

#[test]
fn hotkey_canonical_order_and_aliases() {
    let a = accel("shift + cmd + ctrl + f12");
    assert_eq!(to_canonical(&a), "Ctrl+Shift+Super+F12");
    assert_eq!(parse_accelerator(&to_canonical(&a)).unwrap(), a);
}

#[test]
fn hotkey_function_key_range() {
    assert!(parse_accelerator("Ctrl+F24").is_ok());
    assert!(parse_accelerator("Ctrl+F25").is_err());
    assert!(parse_accelerator("Ctrl+F0").is_err());
}

#[test]
fn hotkey_bare_key_and_modifier_count() {
    assert!(is_bare_key(&Mods::default()));
    assert!(!is_bare_key(&Mods { alt: true, ..Default::default() }));
    assert_eq!(modifier_count(Mods { ctrl: true, shift: true, ..Default::default() }), 2);
}

#[test]
fn hotkey_recorder_samples() {
    let s = record_sample_from(Mods { ctrl: true, ..Default::default() }, Some("Space".into()));
    assert_eq!(s.accelerator.as_deref(), Some("Ctrl+Space"));
    assert!(!s.released && !s.cancelled);
    let esc = record_sample_from(Mods::default(), Some("Escape".into()));
    assert!(esc.cancelled && esc.accelerator.is_none());
    let idle = record_sample_from(Mods::default(), None);
    assert!(idle.released && idle.accelerator.is_none());
    let one_mod = record_sample_from(Mods { alt: true, ..Default::default() }, None);
    assert!(one_mod.accelerator.is_none());
    let two = record_sample_from(Mods { ctrl: true, sup: true, ..Default::default() }, None);
    assert_eq!(two.accelerator.as_deref(), Some("Ctrl+Super"));
    let bare = record_sample_from(Mods::default(), Some("A".into()));
    assert!(bare.accelerator.is_none());
}

#[test]
fn hotkey_polling_and_virtual_keys() {
    assert!(should_poll_accel(&accel("Ctrl+Win")));
    assert!(should_poll_accel(&accel("Win+Space")));
    assert!(!should_poll_accel(&accel("Ctrl+Space")));
    let chord = accel("Ctrl+Win");
    let mut blocked = false;
    assert!(!polled_chord_down(&chord, &mut blocked, true, true, false));
    assert!(blocked);
    assert!(!polled_chord_down(&chord, &mut blocked, true, false, false));
    assert!(!polled_chord_down(&chord, &mut blocked, false, false, false));
    assert!(!blocked);
    assert!(polled_chord_down(&chord, &mut blocked, true, false, false));
    let keyed = accel("Win+Space");
    assert!(!polled_chord_down(&keyed, &mut blocked, true, false, false));
    assert!(polled_chord_down(&keyed, &mut blocked, true, false, true));
    assert_eq!(key_vk("A"), Some(0x41));
    assert_eq!(key_vk("7"), Some(0x37));
    assert_eq!(key_vk("Space"), Some(0x20));
    assert_eq!(key_vk("F1"), Some(0x70));
    assert_eq!(key_vk("F24"), Some(0x87));
    assert_eq!(key_vk("F25"), None);
    assert_eq!(key_vk("Nope"), None);
}

#[test]
fn hotkey_runtime_sessions_and_watchdog() {
    let mut rt = HotkeyRuntime::new(HotkeyConfig::default());
    assert_eq!(rt.on_edge(true, 100), Some(DictationIntent::Start));
    let armed = rt.generation;
    assert!(rt.watchdog_expired(armed));
    assert!(!rt.edge.active);
    assert_ne!(rt.generation, armed);
    assert_eq!(rt.on_edge(true, 1_000), Some(DictationIntent::Start));
    let armed = rt.generation;
    assert_eq!(rt.on_edge(false, 2_000), Some(DictationIntent::Stop));
    rt.end_session();
    assert!(!rt.watchdog_expired(armed));
    rt.suspended = true;
    assert_eq!(rt.on_edge(true, 5_000), None);
    rt.accept_registration(HotkeyConfig { accelerator: "Alt+F4".into(), mode: ActivationMode::PressToToggle });
    assert!(!rt.suspended);
    assert_eq!(rt.cfg.mode, ActivationMode::PressToToggle);
    rt.cancel_from_escape();
    assert!(!rt.edge.active);
    let bad = HotkeyConfig { accelerator: "Alt+Tab".into(), mode: ActivationMode::PushToHold };
    assert_eq!(
        check_registrable(&bad),
        Err("hotkey already in use by the system or another app: Alt+Tab".to_string())
    );
    assert!(check_registrable(&HotkeyConfig::default()).is_ok());
}

const LCTRL: i32 = 0xA2;
const RCTRL: i32 = 0xA3;
const LWIN: i32 = 0x5B;
const LSHIFT: i32 = 0xA0;

#[test]
fn snapshot_modifiers_and_keys() {
    let m = current_mods_pressed(&[RCTRL, LWIN]);
    assert_eq!(m, Mods { ctrl: true, sup: true, ..Default::default() });
    assert_eq!(current_mods_pressed(&[]), Mods::default());
    assert!(expected_modifiers_pressed(Mods { ctrl: true, ..Default::default() }, &[LCTRL, LSHIFT]));
    assert!(!expected_modifiers_pressed(Mods { alt: true, ..Default::default() }, &[LCTRL]));
    assert!(key_pressed("a", &[0x41]));
    assert!(key_pressed("F12", &[0x7B]));
    assert!(!key_pressed("F12", &[0x7A]));
    assert!(!key_pressed("Nope", &[0x41]));
    assert!(!any_non_modifier_pressed(&[LCTRL, LWIN, LSHIFT]));
    assert!(any_non_modifier_pressed(&[LCTRL, 0x21]));
    assert!(any_non_modifier_pressed(&[0x87]));
    assert!(!any_non_modifier_pressed(&[0x88]));
}

#[test]
fn recorder_key_scan_order() {
    assert_eq!(first_pressed_record_key(&[0x41, 0x20]).as_deref(), Some("Space"));
    assert_eq!(first_pressed_record_key(&[0x26, 0x09]).as_deref(), Some("Tab"));
    assert_eq!(first_pressed_record_key(&[0x42, 0x41]).as_deref(), Some("A"));
    assert_eq!(first_pressed_record_key(&[0x39, 0x31]).as_deref(), Some("1"));
    assert_eq!(first_pressed_record_key(&[0x75, 0x87]).as_deref(), Some("F6"));
    assert_eq!(first_pressed_record_key(&[0x87]).as_deref(), Some("F24"));
    assert_eq!(first_pressed_record_key(&[LCTRL]), None);
    let s = platform_record_sample(&[LCTRL, LWIN]);
    assert_eq!(s.accelerator.as_deref(), Some("Ctrl+Super"));
    let s = platform_record_sample(&[LCTRL, 0x20]);
    assert_eq!(s.accelerator.as_deref(), Some("Ctrl+Space"));
    let idle = platform_record_sample(&[]);
    assert!(idle.released && !idle.cancelled && idle.accelerator.is_none());
    let esc = platform_record_sample(&[0x1B]);
    assert!(esc.cancelled && esc.accelerator.is_none());
}

#[test]
fn polling_a_chord_against_snapshots() {
    let chord = accel("Ctrl+Win");
    let mut blocked = false;
    assert!(polled_accel_pressed(&chord, &mut blocked, &[LCTRL, LWIN]));
    assert!(!polled_accel_pressed(&chord, &mut blocked, &[LCTRL, LWIN, 0x41]));
    assert!(blocked);
    assert!(!polled_accel_pressed(&chord, &mut blocked, &[LCTRL, LWIN]));
    assert!(!polled_accel_pressed(&chord, &mut blocked, &[LCTRL]));
    assert!(!blocked);
    let keyed = accel("Win+Space");
    assert!(!polled_accel_pressed(&keyed, &mut blocked, &[LWIN]));
    assert!(polled_accel_pressed(&keyed, &mut blocked, &[LWIN, 0x20]));
}

#[test]
fn key_poller_emits_edges_only_on_change() {
    let mut p = KeyPoller::new();
    assert_eq!(p.tick(false, "Ctrl+Win", &[LCTRL, LWIN]), Some(true));
    assert_eq!(p.tick(false, "Ctrl+Win", &[LCTRL, LWIN]), None);
    assert_eq!(p.tick(false, "Ctrl+Win", &[LCTRL]), Some(false));
    assert_eq!(p.tick(false, "Ctrl+Win", &[]), None);
    // A chord the plugin hooks itself is never polled.
    assert_eq!(p.tick(false, "Ctrl+Space", &[LCTRL, 0x20]), None);
    assert!(!p.active);
    // Suspended handling idles the poller.
    assert_eq!(p.tick(true, "Ctrl+Win", &[LCTRL, LWIN]), None);
    // An invalid chord idles it too.
    assert_eq!(p.tick(false, "Ctrl+Nope", &[LCTRL]), None);
    // Switching chords restarts from released (no release edge for the old chord).
    assert_eq!(p.tick(false, "Ctrl+Win", &[LCTRL, LWIN]), Some(true));
    assert_eq!(p.tick(false, "Shift+Win", &[LCTRL, LWIN]), None);
    assert_eq!(p.last_accelerator, "Shift+Win");
    assert!(!p.active);
    assert_eq!(p.tick(false, "Shift+Win", &[LSHIFT, LWIN]), Some(true));
}

#[test]
fn reregister_and_suspend() {
    let mut rt = HotkeyRuntime::new(HotkeyConfig::default());
    assert_eq!(rt.on_edge(true, 100), Some(DictationIntent::Start));
    let a = rt.prepare_reregister().unwrap();
    assert_eq!(to_canonical(&a), "Ctrl+Space");
    assert!(rt.edge.active);
    rt.reset_edge();
    assert!(!rt.edge.active);
    rt.cfg.accelerator = "Ctrl+Win".to_string();
    assert_eq!(rt.on_edge(true, 200), Some(DictationIntent::Start));
    assert!(rt.prepare_reregister().is_none());
    assert!(!rt.edge.active);
    rt.cfg.accelerator = "Ctrl+Nope".to_string();
    assert!(rt.prepare_reregister().is_none());
    rt.suspend();
    assert!(rt.suspended);
    assert_eq!(rt.on_edge(true, 300), None);
}

#[test]
fn plugin_key_code_names() {
    assert_eq!(key_code_name("a"), "KeyA");
    assert_eq!(key_code_name("Z"), "KeyZ");
    assert_eq!(key_code_name("7"), "Digit7");
    assert_eq!(key_code_name("Up"), "ArrowUp");
    assert_eq!(key_code_name("Right"), "ArrowRight");
    assert_eq!(key_code_name("Space"), "Space");
    assert_eq!(key_code_name("F8"), "F8");
}

#[test]
fn windows_key_chords_use_polling() {
    assert!(should_poll_accel(&accel("Ctrl+Win")));
    assert!(should_poll_accel(&accel("Win+Space")));
    assert!(!should_poll_accel(&accel("Ctrl+Space")));
}

#[test]
fn reducer_stream_alternates_start_and_stop() {
    let mut state = EdgeState::default();
    let mut intents = Vec::new();
    let edges = [
        (RawEdge::Pressed, 0),
        (RawEdge::Pressed, 100),
        (RawEdge::Released, 110),
        (RawEdge::Released, 300),
        (RawEdge::Pressed, 310),
        (RawEdge::Released, 1000),
    ];
    for (edge, t) in edges {
        let (next, i) = reduce(state, edge, ActivationMode::PushToHold, t, DEBOUNCE_MS);
        if let Some(i) = i {
            intents.push(i);
        }
        state = next;
    }
    assert_eq!(
        intents,
        vec![DictationIntent::Start, DictationIntent::Stop, DictationIntent::Start, DictationIntent::Stop]
    );
    // Chatter inside the debounce window is dropped outright.
    let (next, i) = reduce(state, RawEdge::Released, ActivationMode::PushToHold, 1010, DEBOUNCE_MS);
    assert_eq!((next, i), (state, None));
}

#[test]
fn parse_accelerator_shape() {
    assert_eq!(parse_accelerator("   ").unwrap_err(), "empty hotkey");
    let a = parse_accelerator("ctrl+shift+f13").unwrap();
    assert_eq!(a.key.as_deref(), Some("F13"));
    assert!(a.mods.ctrl && a.mods.shift);
    let e = parse_accelerator("ctrl+f25").unwrap_err();
    assert_ne!(e, "empty hotkey");
    assert!(e.starts_with("unparseable hotkey: "));
}
