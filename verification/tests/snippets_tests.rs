use mia::snippets::fold_decomposed;
use mia::snippets::SnippetState;
use mia::snippets::{
    compile_snippets, duplicate_trigger, expand_snippets, normalize_trigger, validate_snippet,
    ExpansionResult, Snippet, SnippetAnchor, SnippetCase,
};

fn snip(trigger: &str, expansion: &str) -> Snippet {
    Snippet { trigger: trigger.to_string(), expansion: expansion.to_string(), ..Default::default() }
}

fn expand(text: &str, snippets: &[Snippet]) -> ExpansionResult {
    expand_snippets(text, &compile_snippets(snippets))
}

#[test]
fn expands_a_phrase_trigger() {
    let s = vec![snip("minha assinatura", "João Silva\nCEO")];
    let r = expand("segue minha assinatura obrigado", &s);
    assert_eq!(r.output, "segue João Silva\nCEO obrigado");
    assert_eq!(r.applied_triggers, vec!["minha assinatura"]);
}

#[test]
fn matching_is_case_and_accent_insensitive() {
    let s = vec![snip("endereço comercial", "Rua X, 100")];
    let r = expand("meu Endereco Comercial aqui", &s);
    assert_eq!(r.output, "meu Rua X, 100 aqui");
}

#[test]
fn no_substring_match_inside_a_word() {
    let s = vec![snip("sig", "SIGNATURE")];
    assert_eq!(expand("my signature here", &s).output, "my signature here");
}

#[test]
fn longest_trigger_wins() {
    let s = vec![snip("minha", "X"), snip("minha assinatura", "FULL")];
    assert_eq!(expand("minha assinatura", &s).output, "FULL");
}

#[test]
fn start_only_anchor() {
    let mut s = snip("ola", "Olá!");
    s.anchor = SnippetAnchor::StartOnly;
    assert_eq!(expand("ola mundo", &[s.clone()]).output, "Olá! mundo");
    assert_eq!(expand("digo ola agora", &[s]).output, "digo ola agora");
}

#[test]
fn expansion_is_verbatim_and_not_re_expanded() {
    let s = vec![snip("a", "minha assinatura"), snip("minha assinatura", "LOOP")];
    let r = expand("a", &s);
    assert_eq!(r.output, "minha assinatura");
    assert_eq!(r.applied_triggers, vec!["a"]);
}

#[test]
fn snippets_disabled_and_empty_are_inert() {
    let mut disabled = snip("ola", "Olá");
    disabled.enabled = false;
    assert_eq!(expand("ola", &[disabled]).output, "ola");
    assert_eq!(expand("ola", &[]).output, "ola");
}

#[test]
fn match_sentence_capitalizes_at_start() {
    let mut s = snip("ola", "olá pessoal");
    s.case = SnippetCase::MatchSentence;
    assert_eq!(expand("ola", &[s.clone()]).output, "Olá pessoal");
    assert_eq!(expand("eu digo ola", &[s]).output, "eu digo olá pessoal");
}

#[test]
fn normalize_trigger_folds_case_accent_whitespace() {
    assert_eq!(normalize_trigger("  Minha   Assinatura "), "minha assinatura");
    assert_eq!(normalize_trigger("Endereço"), "endereco");
}

#[test]
fn validate_rejects_empty() {
    assert!(validate_snippet(&snip("ola", "Olá")).is_ok());
    assert_eq!(validate_snippet(&snip("  ", "x")), Err("trigger cannot be empty".to_string()));
    assert_eq!(validate_snippet(&snip("x", "  ")), Err("expansion cannot be empty".to_string()));
}

#[test]
fn duplicate_trigger_detects_normalized_collisions() {
    let mut a = snip("minha assinatura", "X");
    a.id = "a".to_string();
    let existing = vec![a];
    assert!(duplicate_trigger(&existing, &snip("Minha  Assinatura", "Y"), ""));
    assert!(!duplicate_trigger(&existing, &snip("outro", "Y"), ""));
    let mut self_update = snip("minha assinatura", "Z");
    self_update.id = "a".to_string();
    assert!(!duplicate_trigger(&existing, &self_update, "a"));
}

// ── Further cases ────────────────────────────────────────────────────────────

#[test]
fn snippets_blank_expansion_is_not_compiled() {
    assert_eq!(expand("ola", &[snip("ola", "   ")]).output, "ola");
}

#[test]
fn snippets_multiple_triggers_report_in_order() {
    let s = vec![snip("um", "1"), snip("dois", "2")];
    let r = expand("dois e um", &s);
    assert_eq!(r.output, "2 e 1");
    assert_eq!(r.applied_triggers, vec!["dois", "um"]);
}

#[test]
fn snippets_equal_length_keeps_input_order() {
    let s = vec![snip("ola", "first"), snip("Olá", "second")];
    assert_eq!(expand("ola", &s).output, "first");
}

#[test]
fn snippets_state_upsert_and_delete() {
    let mut st = SnippetState::new(Vec::new());
    let created = st.upsert(snip("ola", "Olá"), "snip-1-0".to_string()).unwrap();
    assert_eq!(created.id, "snip-1-0");
    assert_eq!(
        st.upsert(snip("OLA", "x"), "snip-2-0".to_string()),
        Err("a snippet with this trigger already exists".to_string())
    );
    let mut edit = snip("ola", "Oi!");
    edit.id = "snip-1-0".to_string();
    assert_eq!(st.upsert(edit, "unused".to_string()).unwrap().expansion, "Oi!");
    let mut ghost = snip("outro", "y");
    ghost.id = "missing".to_string();
    assert_eq!(st.upsert(ghost, "unused".to_string()), Err("snippet not found".to_string()));
    assert_eq!(st.upsert(snip(" ", "y"), "z".to_string()), Err("trigger cannot be empty".to_string()));
    assert_eq!(st.snapshot().len(), 1);
    st.delete("snip-1-0");
    st.delete("snip-1-0");
    assert!(st.snapshot().is_empty());
}

#[test]
fn fold_decomposed_drops_marks_and_lowercases() {
    assert_eq!(fold_decomposed("cafe\u{301}"), "cafe");
    assert_eq!(fold_decomposed("A\u{300}B"), "ab");
    assert_eq!(fold_decomposed("Ola"), "ola");
    assert_eq!(fold_decomposed(""), "");
}

#[test]
fn expansion_reports_the_trigger_as_written() {
    let r = expand("hello world there", &[snip("Hello   World", "hi")]);
    assert_eq!(r.applied_triggers, vec!["Hello   World".to_string()]);
    assert_eq!(r.output, "hi there");
    let none = expand("nothing here", &[snip("Hello World", "hi")]);
    assert!(none.applied_triggers.is_empty());
    assert_eq!(none.output, "nothing here");
}

#[test]
fn equal_length_triggers_keep_input_order() {
    let first = Snippet { id: "1".into(), ..snip("foo bar", "one") };
    let second = Snippet { id: "2".into(), ..snip("Foo Bar", "two") };
    let r = expand("foo bar", &[first.clone(), second.clone()]);
    assert_eq!(r.output, "one");
    assert_eq!(r.applied_triggers, vec!["foo bar".to_string()]);
    let r2 = expand("foo bar", &[second, first]);
    assert_eq!(r2.output, "two");
}

#[test]
fn unusable_snippets_compile_to_nothing() {
    let blank = snip("   ", "x");
    let off = Snippet { enabled: false, ..snip("abc", "x") };
    let r = expand("abc", &[blank, off]);
    assert_eq!(r.output, "abc");
    assert!(r.applied_triggers.is_empty());
}
