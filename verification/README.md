# mia

The decision-making core of MIA, a local push-to-talk dictation app for Windows,
written in Verus. The functions in `src/` carry contracts that Verus proves, with
two kinds of exception. The small wrappers marked `#[verifier::external_body]` make
one call into std or an outside crate (`regex`, `unicode-normalization`,
`unicode-segmentation`, `serde_json`); their contracts are trusted, not proved, and
say what that call's documentation or source shows. The two clock readings in
`persist` promise nothing beyond their type.

## Layout

- `src/` — the verified library.
  - `hotkey` — accelerator parsing and canonical form (with the round-trip law), the
    debounce/activation-mode reducer, the session runtime (watchdog, generations),
    the recorder, and the keyboard-polling state machine.
  - `dictation` — the dictation phase machine.
  - `vad`, `audio` — the speech endpoint state machine, fixed-size framing, the level
    meter cadence.
  - `cleanup`, `dictionary`, `snippets`, `text_match`, `ai_commands` — transcript
    post-processing: filler removal, spoken punctuation, casing, number and spacing
    rules, the custom dictionary with fuzzy matching, voice snippets, and command
    routing and prompts.
  - `inject` — backend selection, grapheme-aligned keystroke chunking, clipboard
    outcome, and dispatch through the `TextInjector` backends.
  - `settings`, `stats`, `history`, `app_styles`, `window_state` — preferences
    (patching and validation), usage counters and streaks, the history cache, per-app
    styles, and window geometry.
  - `stt` — model registry, WAV and multipart encoding, server arguments, reply parsing.
  - `persist`, `hud`, `tray`, `sounds`, `win32`, `power_resume` — clock readings and
    ids, HUD placement, tray badges and tooltips, audio cues, foreground-window and
    power-event decisions.
  - `text` — the string model shared by the modules (trimming, words, decimals).
- `tests/` — executable tests of the library.
- `app/` — the Tauri application around the library: file, device, network and OS
  I/O, the floating-point audio path, and the JSON shapes of the library's types.
