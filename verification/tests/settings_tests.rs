use mia::settings::{
    apply_patch, default_schema_version, validate, DefaultLanguage, Engine, GeneralSettings,
    HudPosition, Settings, SettingsPatch, SettingsState, SCHEMA_VERSION,
};
use mia::settings::schema_needs_upgrade;

#[test]
fn defaults_match_spec() {
    let s = Settings::default();
    assert_eq!(s.schema_version, SCHEMA_VERSION);
    assert_eq!(s.general.default_language, DefaultLanguage::Auto);
    assert!(s.general.dictation_enabled);
    assert!(!s.general.launch_at_login);
    assert!(s.general.collect_stats);
    assert_eq!(s.hotkey.accelerator, "Ctrl+Space");
    assert_eq!(s.model.model, "small");
    assert_eq!(s.model.engine, Engine::Cpu);
    assert!(s.model.unload_on_idle);
    assert_eq!(s.audio.input_device, "default");
    assert!(s.cleanup.filler_removal && s.cleanup.capitalization);
    assert_eq!(s.hud.position, HudPosition::Caret);
    assert!(!s.ai.enabled);
    assert!(s.updates.auto_check_updates);
}

#[test]
fn apply_patch_merges_only_present_groups() {
    let base = Settings::default();
    let patch = SettingsPatch {
        general: Some(GeneralSettings { launch_at_login: true, ..Default::default() }),
        ..Default::default()
    };
    let next = apply_patch(&base, &patch);
    assert!(next.general.launch_at_login);
    assert_eq!(next.model, base.model);
    assert_eq!(next.audio, base.audio);
}

#[test]
fn validate_resets_bad_accelerator_and_empty_device() {
    let mut s = Settings::default();
    s.hotkey.accelerator = "not a chord %%%".to_string();
    s.audio.input_device = "   ".to_string();
    s.model.model = "".to_string();
    let v = validate(s);
    assert_eq!(v.hotkey.accelerator, "Ctrl+Space");
    assert_eq!(v.audio.input_device, "default");
    assert_eq!(v.model.model, "small");
}

#[test]
fn settings_validate_is_idempotent_and_keeps_good_values() {
    let mut s = Settings::default();
    s.hotkey.accelerator = "Alt+F4".to_string();
    s.schema_version = 0;
    let v = validate(s);
    assert_eq!(v.schema_version, default_schema_version());
    assert_eq!(v.hotkey.accelerator, "Alt+F4");
    assert_eq!(validate(v.clone()), v);
}

#[test]
fn settings_state_get_and_set() {
    let mut st = SettingsState::new(Settings::default());
    assert_eq!(st.get(), Settings::default());
    let mut next = Settings::default();
    next.hotkey.accelerator = "Ctrl+Shift+D".to_string();
    next.general.collect_stats = false;
    st.set(next.clone());
    assert_eq!(st.get(), next);
    let patched = apply_patch(&st.get(), &SettingsPatch::default());
    assert_eq!(patched, next);
}

#[test]
fn schema_upgrade_only_for_older_or_missing_versions() {
    assert!(schema_needs_upgrade(None));
    assert!(schema_needs_upgrade(Some(0)));
    assert!(!schema_needs_upgrade(Some(1)));
    assert!(!schema_needs_upgrade(Some(7)));
}
