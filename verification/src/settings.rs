//! User preferences: the settings tree with its defaults, group-granular merge
//! patches and defensive validation. Reading and writing `settings.json` is the
//! application's part; everything decided about the values is here.

use vstd::prelude::*;

use crate::hotkey::{parse_accel_spec, parse_accelerator, ActivationMode, HotkeyConfig, DEFAULT_ACCEL};
use crate::text::{is_blank, trim};

verus! {

/// Bumped when the on-disk shape changes.
pub const SCHEMA_VERSION: u32 = 1;

/// The bundled small CPU model: the latency-first default.
pub const DEFAULT_MODEL_ID: &'static str = "small";

/// Sentinel for "follow the OS default input device".
pub const DEFAULT_DEVICE: &'static str = "default";

/// The schema version a file without one is read as.
pub fn default_schema_version() -> (v: u32)
    ensures
        v == SCHEMA_VERSION,
{
    SCHEMA_VERSION
}

#[derive(Clone, Copy, Debug, PartialEq, Eq, Structural)]
pub enum DefaultLanguage {
    Auto,
    Pt,
    En,
}

impl Default for DefaultLanguage {
    fn default() -> (l: Self)
        ensures
            l == DefaultLanguage::Auto,
    {
        DefaultLanguage::Auto
    }
}

#[derive(Clone, Copy, Debug, PartialEq, Eq, Structural)]
pub enum Engine {
    Cpu,
    Cuda,
}

impl Default for Engine {
    fn default() -> (e: Self)
        ensures
            e == Engine::Cpu,
    {
        Engine::Cpu
    }
}

#[derive(Clone, Copy, Debug, PartialEq, Eq, Structural)]
pub enum HudPosition {
    Caret,
    BottomCenter,
    BottomRight,
}

impl Default for HudPosition {
    fn default() -> (p: Self)
        ensures
            p == HudPosition::Caret,
    {
        HudPosition::Caret
    }
}

#[derive(Clone, Copy, Debug, PartialEq, Eq, Structural)]
pub enum AiModel {
    Qwen25_3b,
    Llama32_3b,
}

impl Default for AiModel {
    fn default() -> (m: Self)
        ensures
            m == AiModel::Qwen25_3b,
    {
        AiModel::Qwen25_3b
    }
}

#[derive(Clone, Copy, Debug, PartialEq, Eq, Structural)]
pub struct GeneralSettings {
    pub launch_at_login: bool,
    pub dictation_enabled: bool,
    pub default_language: DefaultLanguage,
    pub play_sounds: bool,
    pub collect_stats: bool,
}

impl Default for GeneralSettings {
    fn default() -> (g: Self)
        ensures
            g == (GeneralSettings {
                launch_at_login: false,
                dictation_enabled: true,
                default_language: DefaultLanguage::Auto,
                play_sounds: false,
                collect_stats: true,
            }),
    {
        GeneralSettings {
            launch_at_login: false,
            dictation_enabled: true,
            default_language: DefaultLanguage::Auto,
            play_sounds: false,
            collect_stats: true,
        }
    }
}

#[derive(Clone, Debug, PartialEq, Eq)]
pub struct ModelSettings {
    pub model: String,
    pub engine: Engine,
    pub unload_on_idle: bool,
}

impl Default for ModelSettings {
    fn default() -> (m: Self)
        ensures
            m.model@ == DEFAULT_MODEL_ID@,
            m.engine == Engine::Cpu,
            m.unload_on_idle,
    {
        ModelSettings {
            model: String::from_str(DEFAULT_MODEL_ID),
            engine: Engine::Cpu,
            unload_on_idle: true,
        }
    }
}

#[derive(Clone, Debug, PartialEq, Eq)]
pub struct AudioSettings {
    pub input_device: String,
}

impl Default for AudioSettings {
    fn default() -> (a: Self)
        ensures
            a.input_device@ == DEFAULT_DEVICE@,
    {
        AudioSettings { input_device: String::from_str(DEFAULT_DEVICE) }
    }
}

#[derive(Clone, Copy, Debug, PartialEq, Eq, Structural)]
pub struct CleanupSettings {
    pub filler_removal: bool,
    pub spoken_punctuation: bool,
    pub stutter_collapse: bool,
    pub capitalization: bool,
}

impl Default for CleanupSettings {
    fn default() -> (c: Self)
        ensures
            c == (CleanupSettings {
                filler_removal: true,
                spoken_punctuation: true,
                stutter_collapse: true,
                capitalization: true,
            }),
    {
        CleanupSettings {
            filler_removal: true,
            spoken_punctuation: true,
            stutter_collapse: true,
            capitalization: true,
        }
    }
}

#[derive(Clone, Copy, Debug, PartialEq, Eq, Structural)]
pub struct HudSettings {
    pub position: HudPosition,
}

impl Default for HudSettings {
    fn default() -> (h: Self)
        ensures
            h.position == HudPosition::Caret,
    {
        HudSettings { position: HudPosition::Caret }
    }
}

#[derive(Clone, Copy, Debug, PartialEq, Eq, Structural)]
pub struct AiSettings {
    pub enabled: bool,
    pub model: AiModel,
    pub polish_on_insert: bool,
}

impl Default for AiSettings {
    fn default() -> (a: Self)
        ensures
            a == (AiSettings { enabled: false, model: AiModel::Qwen25_3b, polish_on_insert: false }),
    {
        AiSettings { enabled: false, model: AiModel::Qwen25_3b, polish_on_insert: false }
    }
}

#[derive(Clone, Copy, Debug, PartialEq, Eq, Structural)]
pub struct UpdatesSettings {
    pub auto_check_updates: bool,
}

impl Default for UpdatesSettings {
    fn default() -> (u: Self)
        ensures
            u.auto_check_updates,
    {
        UpdatesSettings { auto_check_updates: true }
    }
}

/// The full preferences tree.
#[derive(Clone, Debug, PartialEq, Eq)]
pub struct Settings {
    pub schema_version: u32,
    pub general: GeneralSettings,
    pub hotkey: HotkeyConfig,
    pub model: ModelSettings,
    pub audio: AudioSettings,
    pub cleanup: CleanupSettings,
    pub hud: HudSettings,
    pub ai: AiSettings,
    pub updates: UpdatesSettings,
}

/// The settings tree as plain values (strings by their characters).
pub struct SettingsV {
    pub schema_version: u32,
    pub general: GeneralSettings,
    pub hotkey: (Seq<char>, ActivationMode),
    pub model: (Seq<char>, Engine, bool),
    pub audio: Seq<char>,
    pub cleanup: CleanupSettings,
    pub hud: HudSettings,
    pub ai: AiSettings,
    pub updates: UpdatesSettings,
}

pub open spec fn hotkey_view(h: HotkeyConfig) -> (Seq<char>, ActivationMode) {
    (h.accelerator@, h.mode)
}

pub open spec fn model_view(m: ModelSettings) -> (Seq<char>, Engine, bool) {
    (m.model@, m.engine, m.unload_on_idle)
}

impl View for Settings {
    type V = SettingsV;

    open spec fn view(&self) -> SettingsV {
        SettingsV {
            schema_version: self.schema_version,
            general: self.general,
            hotkey: hotkey_view(self.hotkey),
            model: model_view(self.model),
            audio: self.audio.input_device@,
            cleanup: self.cleanup,
            hud: self.hud,
            ai: self.ai,
            updates: self.updates,
        }
    }
}

pub open spec fn default_settings_view() -> SettingsV {
    SettingsV {
        schema_version: SCHEMA_VERSION,
        general: GeneralSettings {
            launch_at_login: false,
            dictation_enabled: true,
            default_language: DefaultLanguage::Auto,
            play_sounds: false,
            collect_stats: true,
        },
        hotkey: (DEFAULT_ACCEL@, ActivationMode::PushToHold),
        model: (DEFAULT_MODEL_ID@, Engine::Cpu, true),
        audio: DEFAULT_DEVICE@,
        cleanup: CleanupSettings {
            filler_removal: true,
            spoken_punctuation: true,
            stutter_collapse: true,
            capitalization: true,
        },
        hud: HudSettings { position: HudPosition::Caret },
        ai: AiSettings { enabled: false, model: AiModel::Qwen25_3b, polish_on_insert: false },
        updates: UpdatesSettings { auto_check_updates: true },
    }
}

impl Default for Settings {
    fn default() -> (s: Self)
        ensures
            s@ == default_settings_view(),
    {
        Settings {
            schema_version: SCHEMA_VERSION,
            general: GeneralSettings::default(),
            hotkey: HotkeyConfig::default(),
            model: ModelSettings::default(),
            audio: AudioSettings::default(),
            cleanup: CleanupSettings::default(),
            hud: HudSettings::default(),
            ai: AiSettings::default(),
            updates: UpdatesSettings::default(),
        }
    }
}

/// A merge patch: only present groups change (group-granular).
#[derive(Debug)]
pub struct SettingsPatch {
    pub general: Option<GeneralSettings>,
    pub hotkey: Option<HotkeyConfig>,
    pub model: Option<ModelSettings>,
    pub audio: Option<AudioSettings>,
    pub cleanup: Option<CleanupSettings>,
    pub hud: Option<HudSettings>,
    pub ai: Option<AiSettings>,
    pub updates: Option<UpdatesSettings>,
}

impl Default for SettingsPatch {
    fn default() -> (p: Self)
        ensures
            p.general is None,
            p.hotkey is None,
            p.model is None,
            p.audio is None,
            p.cleanup is None,
            p.hud is None,
            p.ai is None,
            p.updates is None,
    {
        SettingsPatch {
            general: None,
            hotkey: None,
            model: None,
            audio: None,
            cleanup: None,
            hud: None,
            ai: None,
            updates: None,
        }
    }
}

// ─────────────────────────────────────────────────────────────────────────────
// Merge and validation
// ─────────────────────────────────────────────────────────────────────────────

/// `v` with every group the patch carries replaced by the patch's group.
pub open spec fn patched(v: SettingsV, p: SettingsPatch) -> SettingsV {
    SettingsV {
        schema_version: v.schema_version,
        general: match p.general {
            Some(g) => g,
            None => v.general,
        },
        hotkey: match p.hotkey {
            Some(h) => hotkey_view(h),
            None => v.hotkey,
        },
        model: match p.model {
            Some(m) => model_view(m),
            None => v.model,
        },
        audio: match p.audio {
            Some(a) => a.input_device@,
            None => v.audio,
        },
        cleanup: match p.cleanup {
            Some(c) => c,
            None => v.cleanup,
        },
        hud: match p.hud {
            Some(h) => h,
            None => v.hud,
        },
        ai: match p.ai {
            Some(a) => a,
            None => v.ai,
        },
        updates: match p.updates {
            Some(u) => u,
            None => v.updates,
        },
    }
}

/// Defensive normalization: current schema version; an unparseable hotkey, a blank
/// device or a blank model falls back to its default.
pub open spec fn validate_view(v: SettingsV) -> SettingsV {
    SettingsV {
        schema_version: SCHEMA_VERSION,
        hotkey: (
            if parse_accel_spec(v.hotkey.0) is Err {
                DEFAULT_ACCEL@
            } else {
                v.hotkey.0
            },
            v.hotkey.1,
        ),
        audio: if trim(v.audio).len() == 0 {
            DEFAULT_DEVICE@
        } else {
            v.audio
        },
        model: (
            if trim(v.model.0).len() == 0 {
                DEFAULT_MODEL_ID@
            } else {
                v.model.0
            },
            v.model.1,
            v.model.2,
        ),
        ..v
    }
}

fn copy_string(s: &String) -> (r: String)
    ensures
        r@ == s@,
{
    String::from_str(s.as_str())
}

fn copy_hotkey(h: &HotkeyConfig) -> (r: HotkeyConfig)
    ensures
        hotkey_view(r) == hotkey_view(*h),
{
    HotkeyConfig { accelerator: copy_string(&h.accelerator), mode: h.mode }
}

fn copy_model(m: &ModelSettings) -> (r: ModelSettings)
    ensures
        model_view(r) == model_view(*m),
{
    ModelSettings { model: copy_string(&m.model), engine: m.engine, unload_on_idle: m.unload_on_idle }
}

/// Clamp and normalize defensively; the UI is never the only guard.
pub fn validate(s: Settings) -> (r: Settings)
    ensures
        r@ == validate_view(s@),
{
    let mut s = s;
    s.schema_version = SCHEMA_VERSION;
    if parse_accelerator(s.hotkey.accelerator.as_str()).is_err() {
        s.hotkey.accelerator = String::from_str(DEFAULT_ACCEL);
    }
    if is_blank(s.audio.input_device.as_str()) {
        s.audio.input_device = String::from_str(DEFAULT_DEVICE);
    }
    if is_blank(s.model.model.as_str()) {
        s.model.model = String::from_str(DEFAULT_MODEL_ID);
    }
    s
}

/// Apply a patch to a base, then re-validate.
pub fn apply_patch(base: &Settings, patch: &SettingsPatch) -> (r: Settings)
    ensures
        r@ == validate_view(patched(base@, *patch)),
{
    let s = Settings {
        schema_version: base.schema_version,
        general: match &patch.general {
            Some(g) => *g,
            None => base.general,
        },
        hotkey: match &patch.hotkey {
            Some(h) => copy_hotkey(h),
            None => copy_hotkey(&base.hotkey),
        },
        model: match &patch.model {
            Some(m) => copy_model(m),
            None => copy_model(&base.model),
        },
        audio: match &patch.audio {
            Some(a) => AudioSettings { input_device: copy_string(&a.input_device) },
            None => AudioSettings { input_device: copy_string(&base.audio.input_device) },
        },
        cleanup: match &patch.cleanup {
            Some(c) => *c,
            None => base.cleanup,
        },
        hud: match &patch.hud {
            Some(h) => *h,
            None => base.hud,
        },
        ai: match &patch.ai {
            Some(a) => *a,
            None => base.ai,
        },
        updates: match &patch.updates {
            Some(u) => *u,
            None => base.updates,
        },
    };
    validate(s)
}

/// Whether a stored tree's schema version (absent counts as 0) is older than the
/// current one, so the current version is written into it before it is read.
pub fn schema_needs_upgrade(found: Option<u64>) -> (b: bool)
    ensures
        b == (match found {
            Some(v) => v,
            None => 0,
        } < SCHEMA_VERSION),
{
    let v = match found {
        Some(v) => v,
        None => 0,
    };
    v < SCHEMA_VERSION as u64
}

/// A field-by-field copy of a settings tree.
pub fn copy_settings(s: &Settings) -> (r: Settings)
    ensures
        r@ == s@,
{
    Settings {
        schema_version: s.schema_version,
        general: s.general,
        hotkey: copy_hotkey(&s.hotkey),
        model: copy_model(&s.model),
        audio: AudioSettings { input_device: copy_string(&s.audio.input_device) },
        cleanup: s.cleanup,
        hud: s.hud,
        ai: s.ai,
        updates: s.updates,
    }
}

/// The in-memory authoritative copy of the settings, loaded once at startup.
pub struct SettingsState {
    inner: Settings,
}

impl SettingsState {
    pub closed spec fn view(&self) -> SettingsV {
        self.inner@
    }

    pub fn new(settings: Settings) -> (s: Self)
        ensures
            s.view() == settings@,
    {
        SettingsState { inner: settings }
    }

    /// A copy of the current settings.
    pub fn get(&self) -> (r: Settings)
        ensures
            r@ == self.view(),
    {
        copy_settings(&self.inner)
    }

    /// Replace the current settings.
    pub fn set(&mut self, settings: Settings)
        ensures
            final(self).view() == settings@,
    {
        self.inner = settings;
    }
}

// ─────────────────────────────────────────────────────────────────────────────
// Laws
// ─────────────────────────────────────────────────────────────────────────────

/// Validation is idempotent: validating a validated tree changes nothing.
pub proof fn lemma_validate_idempotent(v: SettingsV)
    ensures
        validate_view(validate_view(v)) == validate_view(v),
{
}

/// An empty patch leaves a validated tree as it was.
pub proof fn lemma_empty_patch_identity(v: SettingsV, p: SettingsPatch)
    requires
        p.general is None && p.hotkey is None && p.model is None && p.audio is None,
        p.cleanup is None && p.hud is None && p.ai is None && p.updates is None,
        validate_view(v) == v,
    ensures
        validate_view(patched(v, p)) == v,
{
    assert(patched(v, p) == v);
}

/// A patch changes only the groups it carries: every absent group keeps the base's
/// (validated) value.
pub proof fn lemma_patch_touches_only_present_groups(v: SettingsV, p: SettingsPatch)
    ensures
        p.general is None ==> validate_view(patched(v, p)).general == v.general,
        p.cleanup is None ==> validate_view(patched(v, p)).cleanup == v.cleanup,
        p.hud is None ==> validate_view(patched(v, p)).hud == v.hud,
        p.ai is None ==> validate_view(patched(v, p)).ai == v.ai,
        p.updates is None ==> validate_view(patched(v, p)).updates == v.updates,
        p.model is None ==> validate_view(patched(v, p)).model == validate_view(v).model,
        p.audio is None ==> validate_view(patched(v, p)).audio == validate_view(v).audio,
        p.hotkey is None ==> validate_view(patched(v, p)).hotkey == validate_view(v).hotkey,
{
}

} // verus!
