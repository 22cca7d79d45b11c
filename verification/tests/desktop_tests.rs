use mia::power_resume::{
    is_recovery_message, PBT_APMRESUMEAUTOMATIC, PBT_APMRESUMESUSPEND, WM_POWERBROADCAST,
    WM_WTSSESSION_CHANGE, WTS_SESSION_UNLOCK,
};
use mia::dictation::Phase;
use mia::hud::bottom_center_pos;
use mia::sounds::{on_end, on_start, Tone};
use mia::tray::{main_window_reaction, phase_badge, phase_tooltip, Badge, WindowEventKind, WindowReaction};
use mia::win32::{
    foreground_outranks, foreground_process_name, has_foreground_window, is_foreground_elevated, process_stem,
};
use mia::window_state::{
    bounds_to_save, clamp_position_to_screen, pick_monitor, rects_intersect, saved_main_state, MainWindowState,
    WindowStateStore,
};

#[test]
fn leaves_a_visible_window_in_place() {
    let pos = mia::tray::clamp_position_to_screen((100, 120), (0, 0), (1920, 1080), (920, 680));
    assert_eq!(pos, (100, 120));
}

#[test]
fn brings_a_window_back_from_outside_the_right_edge() {
    let pos = mia::tray::clamp_position_to_screen((2600, 120), (0, 0), (1920, 1080), (920, 680));
    assert_eq!(pos, (1000, 120));
}

#[test]
fn honors_monitors_with_nonzero_origin() {
    let pos = mia::tray::clamp_position_to_screen((-500, -300), (-1920, 0), (1920, 1080), (920, 680));
    assert_eq!(pos, (-920, 0));
}

#[test]
fn pins_oversized_windows_to_the_monitor_origin() {
    let pos = mia::tray::clamp_position_to_screen((500, 500), (100, 100), (300, 200), (920, 680));
    assert_eq!(pos, (100, 100));
}

#[test]
fn error_tooltip_includes_the_message_when_present() {
    assert_eq!(phase_tooltip(Phase::Listening, None), "MIA — ouvindo…");
    assert_eq!(phase_tooltip(Phase::Error, None), "MIA — erro");
    assert_eq!(phase_tooltip(Phase::Error, Some("microfone bloqueado")), "MIA — erro: microfone bloqueado");
}

#[test]
fn centers_and_offsets_above_the_bottom_edge() {
    let (x, y) = bottom_center_pos((0, 0), (1920, 1080), (200, 48), 64);
    assert_eq!(x, (1920 - 200) / 2);
    assert_eq!(y, 1080 - 48 - 64);
}

#[test]
fn honors_a_nonzero_monitor_origin() {
    let (x, y) = bottom_center_pos((1920, 0), (1280, 720), (200, 48), 64);
    assert_eq!(x, 1920 + (1280 - 200) / 2);
    assert_eq!(y, 720 - 48 - 64);
}

#[test]
fn clamps_to_origin_when_window_exceeds_screen() {
    let (x, y) = bottom_center_pos((100, 100), (300, 200), (400, 400), 64);
    assert_eq!(x, 100);
    assert_eq!(y, 100);
}

#[test]
fn validates_sensible_bounds_only() {
    assert!(MainWindowState { x: 100, y: 120, width: 1070, height: 850, maximized: false }.has_valid_bounds());
    assert!(!MainWindowState { x: 0, y: 0, width: 100, height: 100, maximized: false }.has_valid_bounds());
}

#[test]
fn detects_intersecting_rects() {
    assert!(rects_intersect((100, 100, 800, 600), (0, 0, 1920, 1080)));
    assert!(!rects_intersect((2500, 100, 800, 600), (0, 0, 1920, 1080)));
}

#[test]
fn clamps_to_visible_screen_area() {
    let pos = clamp_position_to_screen((2600, 120), (0, 0), (1920, 1080), (920, 680));
    assert_eq!(pos, (1000, 120));
}

#[test]
fn desktop_tooltips_and_cues() {
    assert_eq!(phase_tooltip(Phase::Idle, None), "MIA — ditado local");
    assert_eq!(phase_tooltip(Phase::Transcribing, Some("ignored")), "MIA — transcrevendo…");
    assert_eq!(on_start(true), Some(Tone { freq_hz: 523, duration_ms: 300 }));
    assert_eq!(on_end(true), Some(Tone { freq_hz: 392, duration_ms: 300 }));
    assert_eq!(on_start(false), None);
    assert_eq!(on_end(false), None);
}

#[test]
fn desktop_window_state_defaults_and_stubs() {
    let s = WindowStateStore::default();
    assert_eq!(s.schema_version, 1);
    assert!(s.main.is_none());
    assert!(foreground_process_name().is_none());
    assert!(!is_foreground_elevated());
    assert!(has_foreground_window());
    assert!(!rects_intersect((1920, 0, 10, 10), (0, 0, 1920, 1080)));
    let b = MainWindowState::from_bounds(1, 2, 800, 600, true);
    assert_eq!(b, MainWindowState { x: 1, y: 2, width: 800, height: 600, maximized: true });
    assert_eq!(bottom_center_pos((0, 0), (101, 500), (200, 48), 0), (0, 452));
}

#[test]
fn recovery_message_matches_resume_and_unlock_only() {
    assert!(is_recovery_message(WM_POWERBROADCAST, PBT_APMRESUMEAUTOMATIC));
    assert!(is_recovery_message(WM_POWERBROADCAST, PBT_APMRESUMESUSPEND));
    assert!(is_recovery_message(WM_WTSSESSION_CHANGE, WTS_SESSION_UNLOCK));
    assert!(!is_recovery_message(WM_POWERBROADCAST, 0));
    assert!(!is_recovery_message(WM_WTSSESSION_CHANGE, 0));
    assert!(!is_recovery_message(0, PBT_APMRESUMEAUTOMATIC));
}

fn bounds(x: i32, y: i32, width: u32, height: u32, maximized: bool) -> MainWindowState {
    MainWindowState { x, y, width, height, maximized }
}

#[test]
fn saving_window_bounds() {
    let cur = bounds(10, 20, 1070, 850, false);
    assert_eq!(bounds_to_save(cur, None), Some(cur));
    // Maximized keeps the previous restored geometry, flagged maximized.
    let prev = bounds(100, 120, 900, 700, false);
    let maxed = bounds(0, 0, 1920, 1040, true);
    assert_eq!(bounds_to_save(maxed, Some(prev)), Some(bounds(100, 120, 900, 700, true)));
    assert_eq!(bounds_to_save(maxed, None), Some(maxed));
    // Too small is not saved.
    assert_eq!(bounds_to_save(bounds(0, 0, 300, 200, false), None), None);
    let store = WindowStateStore { schema_version: 1, main: Some(bounds(0, 0, 100, 100, false)) };
    assert_eq!(saved_main_state(&store), None);
    let store = WindowStateStore { schema_version: 1, main: Some(cur) };
    assert_eq!(saved_main_state(&store), Some(cur));
    assert_eq!(saved_main_state(&WindowStateStore::default()), None);
}

#[test]
fn restoring_picks_the_overlapping_monitor() {
    let monitors = [((0, 0), (1920, 1080)), ((1920, 0), (2560, 1440))];
    assert_eq!(pick_monitor(bounds(2000, 100, 800, 600, false), &monitors), Some(1));
    assert_eq!(pick_monitor(bounds(100, 100, 800, 600, false), &monitors), Some(0));
    assert_eq!(pick_monitor(bounds(9000, 9000, 800, 600, false), &monitors), Some(0));
    assert_eq!(pick_monitor(bounds(0, 0, 800, 600, false), &[]), None);
}

#[test]
fn tray_badges_and_window_events() {
    assert_eq!(phase_badge(Phase::Listening), Badge::Recording);
    assert_eq!(phase_badge(Phase::Transcribing), Badge::Busy);
    assert_eq!(phase_badge(Phase::Inserting), Badge::Busy);
    assert_eq!(phase_badge(Phase::Idle), Badge::Plain);
    assert_eq!(phase_badge(Phase::Error), Badge::Plain);
    assert_eq!(main_window_reaction("main", WindowEventKind::CloseRequested), WindowReaction::HideToTray);
    assert_eq!(main_window_reaction("main", WindowEventKind::Focused(true)), WindowReaction::Reregister);
    assert_eq!(main_window_reaction("main", WindowEventKind::Focused(false)), WindowReaction::Ignore);
    assert_eq!(main_window_reaction("hud", WindowEventKind::CloseRequested), WindowReaction::Ignore);
    assert_eq!(main_window_reaction("main", WindowEventKind::Other), WindowReaction::Ignore);
}

#[test]
fn foreground_probe_computations() {
    assert_eq!(process_stem("C:\\Program Files\\Microsoft VS Code\\Code.EXE"), "code");
    assert_eq!(process_stem("C:/Windows/notepad.exe"), "notepad");
    assert_eq!(process_stem("chrome.exe"), "chrome");
    assert_eq!(process_stem("/usr/bin/kate"), "kate");
    assert_eq!(process_stem("C:\\dir\\"), "");
    assert!(foreground_outranks(Some(true), Some(false)));
    assert!(foreground_outranks(Some(true), None));
    assert!(!foreground_outranks(Some(true), Some(true)));
    assert!(!foreground_outranks(None, Some(false)));
    assert!(!foreground_outranks(Some(false), None));
}
