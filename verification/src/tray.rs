//! Tray status: the tooltip line and the icon badge for each dictation phase, keeping
//! the main window on screen when the tray brings it back, and the close-to-tray
//! handling of main-window events.

use vstd::prelude::*;

use crate::dictation::Phase;
use crate::text::{chars_of, string_of};

pub use crate::window_state::clamp_position_to_screen;

verus! {

pub open spec fn tooltip_spec(phase: Phase, message: Option<Seq<char>>) -> Seq<char> {
    match phase {
        Phase::Idle => "MIA — ditado local"@,
        Phase::Listening => "MIA — ouvindo…"@,
        Phase::Transcribing => "MIA — transcrevendo…"@,
        Phase::Inserting => "MIA — inserindo…"@,
        Phase::Error => match message {
            Some(m) => "MIA — erro: "@ + m,
            None => "MIA — erro"@,
        },
    }
}

/// The tooltip line per phase (pt-BR); `message` enriches the transient error.
pub fn phase_tooltip(phase: Phase, message: Option<&str>) -> (t: String)
    ensures
        t@ == tooltip_spec(phase, crate::ai_commands::instr_view(message)),
{
    match phase {
        Phase::Idle => String::from_str("MIA — ditado local"),
        Phase::Listening => String::from_str("MIA — ouvindo…"),
        Phase::Transcribing => String::from_str("MIA — transcrevendo…"),
        Phase::Inserting => String::from_str("MIA — inserindo…"),
        Phase::Error => match message {
            Some(m) => {
                let mut out = chars_of("MIA — erro: ");
                let mc = chars_of(m);
                crate::text::append_chars(&mut out, mc.as_slice());
                string_of(out.as_slice())
            },
            None => String::from_str("MIA — erro"),
        },
    }
}

/// The corner badge painted on the tray icon.
#[derive(Clone, Copy, Debug, PartialEq, Eq, Structural)]
pub enum Badge {
    /// A big red dot with a glow: an utterance is being captured.
    Recording,
    /// A smaller amber dot: transcribing or inserting.
    Busy,
    /// The plain brand icon.
    Plain,
}

/// The tray badge for a phase: recording while listening, busy while transcribing or
/// inserting, plain when idle or after an error.
pub fn phase_badge(phase: Phase) -> (b: Badge)
    ensures
        b == match phase {
            Phase::Listening => Badge::Recording,
            Phase::Transcribing | Phase::Inserting => Badge::Busy,
            Phase::Idle | Phase::Error => Badge::Plain,
        },
{
    match phase {
        Phase::Listening => Badge::Recording,
        Phase::Transcribing | Phase::Inserting => Badge::Busy,
        Phase::Idle | Phase::Error => Badge::Plain,
    }
}

/// The window events the application reacts to.
#[derive(Clone, Copy, Debug, PartialEq, Eq, Structural)]
pub enum WindowEventKind {
    CloseRequested,
    Focused(bool),
    Other,
}

/// What to do about a window event.
#[derive(Clone, Copy, Debug, PartialEq, Eq, Structural)]
pub enum WindowReaction {
    Ignore,
    /// Keep running in the tray: cancel the close, unload the warm model, hide.
    HideToTray,
    /// Returning to the main window: re-claim the push-to-talk chord.
    Reregister,
}

/// The label of the main window.
pub const MAIN_WINDOW_LABEL: &'static str = "main";

/// Close-to-tray: only the main window is handled; closing it hides it to the tray,
/// and focusing it re-claims the push-to-talk chord.
pub fn main_window_reaction(label: &str, event: WindowEventKind) -> (r: WindowReaction)
    ensures
        r == if label@ != MAIN_WINDOW_LABEL@ {
            WindowReaction::Ignore
        } else {
            match event {
                WindowEventKind::CloseRequested => WindowReaction::HideToTray,
                WindowEventKind::Focused(true) => WindowReaction::Reregister,
                _ => WindowReaction::Ignore,
            }
        },
{
    let lc = chars_of(label);
    let mc = chars_of(MAIN_WINDOW_LABEL);
    if !crate::text::chars_eq(lc.as_slice(), mc.as_slice()) {
        return WindowReaction::Ignore;
    }
    match event {
        WindowEventKind::CloseRequested => WindowReaction::HideToTray,
        WindowEventKind::Focused(true) => WindowReaction::Reregister,
        _ => WindowReaction::Ignore,
    }
}

} // verus!
