use mia::ai_commands::{
    build_prompt, command_grammar, route_intent, validate_parsed, AiConfig, CommandAction,
    CommandParams, CommandTarget, Intent, ParsedCommand,
};
use mia::cleanup::Lang;

fn enabled() -> AiConfig {
    AiConfig { command_mode_enabled: true, polish_enabled: true, trigger_prefix: "hey mia".into() }
}

#[test]
fn disabled_always_dictation() {
    let cfg = AiConfig::default();
    assert_eq!(route_intent("summarize this", Lang::En, &cfg), Intent::Dictation);
    assert_eq!(route_intent("hey mia do something", Lang::En, &cfg), Intent::Dictation);
}

#[test]
fn trigger_prefix_routes_to_command() {
    assert_eq!(route_intent("Hey MIA make this formal", Lang::En, &enabled()), Intent::Command);
}

#[test]
fn polish_phrase_routes_to_polish() {
    assert_eq!(route_intent("polish this please", Lang::En, &enabled()), Intent::Polish);
    assert_eq!(route_intent("melhore isso aí", Lang::PtBr, &enabled()), Intent::Polish);
}

#[test]
fn imperative_verb_plus_target_is_command() {
    assert_eq!(route_intent("summarize this", Lang::En, &enabled()), Intent::Command);
    assert_eq!(route_intent("make the text formal", Lang::En, &enabled()), Intent::Command);
    assert_eq!(route_intent("resuma o texto", Lang::PtBr, &enabled()), Intent::Command);
}

#[test]
fn plain_dictation_stays_dictation() {
    assert_eq!(route_intent("the weather is really nice today", Lang::En, &enabled()), Intent::Dictation);
    assert_eq!(route_intent("eu fui à praia ontem", Lang::PtBr, &enabled()), Intent::Dictation);
    assert_eq!(route_intent("make me a coffee", Lang::En, &enabled()), Intent::Dictation);
}

#[test]
fn grammar_lists_actions_and_targets() {
    let g = command_grammar();
    assert!(g.contains("summarize"));
    assert!(g.contains("bulletList"));
    assert!(g.contains("lastInserted"));
    assert!(g.contains("root"));
}

#[test]
fn prompt_includes_target_and_directive() {
    let p = build_prompt(CommandAction::Summarize, Lang::En, "a long paragraph", None);
    assert!(p.contains("a long paragraph"));
    assert!(p.to_lowercase().contains("summarize"));
    let pt = build_prompt(CommandAction::Formal, Lang::PtBr, "oi", None);
    assert!(pt.contains("formal"));
    assert!(pt.contains("oi"));
}

#[test]
fn custom_prompt_uses_instruction() {
    let p = build_prompt(CommandAction::Custom, Lang::En, "x", Some("translate to pirate"));
    assert!(p.contains("translate to pirate"));
}

#[test]
fn validate_rejects_incomplete_commands() {
    let translate_no_lang = ParsedCommand {
        action: CommandAction::Translate,
        target: CommandTarget::LastInserted,
        params: CommandParams::default(),
    };
    assert!(validate_parsed(&translate_no_lang).is_err());

    let translate_ok = ParsedCommand {
        action: CommandAction::Translate,
        target: CommandTarget::LastInserted,
        params: CommandParams { lang: Some("en".into()), instruction: None },
    };
    assert!(validate_parsed(&translate_ok).is_ok());

    let concise = ParsedCommand {
        action: CommandAction::Concise,
        target: CommandTarget::Selection,
        params: CommandParams::default(),
    };
    assert!(validate_parsed(&concise).is_ok());
}

// ── Further cases ────────────────────────────────────────────────────────────

#[test]
fn ai_prompt_exact_layout() {
    let p = build_prompt(CommandAction::Fix, Lang::En, "teh cat", None);
    assert_eq!(
        p,
        "You edit text faithfully. Do not invent facts. Reply with only the transformed text.\n\nFix grammar and spelling.\n\nText:\nteh cat"
    );
    let c = build_prompt(CommandAction::Custom, Lang::PtBr, "x", None);
    assert!(c.contains("Aplique a instrução do usuário."));
}

#[test]
fn ai_custom_needs_instruction_and_polish_needs_opt_in() {
    let custom_blank = ParsedCommand {
        action: CommandAction::Custom,
        target: CommandTarget::Selection,
        params: CommandParams { lang: None, instruction: Some("   ".into()) },
    };
    assert_eq!(validate_parsed(&custom_blank), Err("command not understood".to_string()));
    let cfg = AiConfig { command_mode_enabled: true, polish_enabled: false, trigger_prefix: "hey mia".into() };
    assert_eq!(route_intent("polish this please", Lang::En, &cfg), Intent::Dictation);
}

#[test]
fn custom_prompt_carries_the_instruction_and_ends_with_the_target() {
    let p = build_prompt(CommandAction::Custom, Lang::PtBr, "abc", Some("faça X"));
    assert!(p.contains("faça X"));
    assert!(p.ends_with("\n\nTexto:\nabc"));
    let q = build_prompt(CommandAction::Fix, Lang::En, "xyz", None);
    assert!(q.ends_with("\n\nText:\nxyz"));
}
