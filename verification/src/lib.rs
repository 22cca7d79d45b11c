//! MIA's dictation engine core: text cleanup, personal dictionary, snippets, the
//! hotkey reducer, the dictation phase machine and the small policies around them.

pub mod text;
pub mod text_match;
pub mod hotkey;
pub mod dictation;
pub mod dictionary;
pub mod snippets;
pub mod cleanup;
pub mod ai_commands;
pub mod inject;
pub mod settings;
pub mod app_styles;
pub mod stats;
pub mod history;
pub mod persist;
pub mod stt;
pub mod vad;
pub mod audio;
pub mod window_state;
pub mod hud;
pub mod win32;
pub mod sounds;
pub mod tray;
pub mod power_resume;
