use mia::dictionary::{
    apply_dictionary, build_bias_prompt, fuzzy_match, match_case, osa_distance, validate_entry,
    DictEntry, DictSettings,
};

fn entry(replacement: &str, sounds_like: &[&str]) -> DictEntry {
    DictEntry {
        replacement: replacement.to_string(),
        sounds_like: sounds_like.iter().map(|s| s.to_string()).collect(),
        ..Default::default()
    }
}

fn apply(text: &str, entries: &[DictEntry]) -> String {
    apply_dictionary(text, entries, &DictSettings::default())
}

#[test]
fn exact_variant_replaced() {
    let e = vec![entry("MIA", &["mia"])];
    assert_eq!(apply("open mia now", &e), "open MIA now");
}

#[test]
fn case_insensitive_outputs_verbatim() {
    let e = vec![entry("React", &[])];
    assert_eq!(apply("REACT and react and React", &e), "React and React and React");
}

#[test]
fn case_sensitive_only_exact_case() {
    let mut it = entry("IT", &[]);
    it.case_sensitive = true;
    let e = vec![it];
    assert_eq!(apply("the it dept vs IT", &e), "the it dept vs IT");
}

#[test]
fn whole_word_no_partial_hits() {
    let e = vec![entry("CAT", &["cat"])];
    assert_eq!(apply("category and a cat", &e), "category and a CAT");
}

#[test]
fn multi_word_phrase_collapses() {
    let e = vec![entry("React", &["react js"])];
    assert_eq!(apply("i use react js daily", &e), "i use React daily");
}

#[test]
fn fuzzy_gated_and_default_off_per_entry() {
    let mut react = entry("React", &["react"]);
    react.fuzzy = true;
    assert_eq!(apply("i like raect", &[react.clone()]), "i like React");
    let plain = entry("React", &["react"]);
    assert_eq!(apply("i like raect", &[plain]), "i like raect");
}

#[test]
fn fuzzy_skips_short_variants() {
    let mut e = entry("CAT", &["cat"]);
    e.fuzzy = true;
    assert_eq!(apply("a bat flew", &[e]), "a bat flew");
}

#[test]
fn longest_match_wins_on_overlap() {
    let short = entry("Reactt", &["react"]);
    let long = entry("ReactJS", &["react js"]);
    assert_eq!(apply("use react js here", &[short, long]), "use ReactJS here");
}

#[test]
fn idempotent() {
    let e = vec![entry("MIA", &["mia"])];
    let once = apply("mia and mia", &e);
    assert_eq!(apply(&once, &e), once);
}

#[test]
fn dictionary_disabled_and_empty_are_inert() {
    let mut disabled = entry("MIA", &["mia"]);
    disabled.enabled = false;
    assert_eq!(apply("open mia now", &[disabled]), "open mia now");
    assert_eq!(apply("open mia now", &[]), "open mia now");
}

#[test]
fn match_case_carries_sentence_capital() {
    assert_eq!(match_case("Okay", "ok", false), "Ok");
    assert_eq!(match_case("okay", "ok", false), "ok");
    assert_eq!(match_case("mia", "MIA", false), "MIA");
    assert_eq!(match_case("It", "it", true), "it");
}

#[test]
fn osa_distance_basics() {
    assert_eq!(osa_distance("react", "react"), 0);
    assert_eq!(osa_distance("react", "raect"), 1);
    assert_eq!(osa_distance("react", "reactt"), 1);
    assert_eq!(osa_distance("react", "rect"), 1);
}

#[test]
fn bias_prompt_lists_enabled_terms() {
    let mut off = entry("Hidden", &[]);
    off.bias_prompt = false;
    let e = vec![entry("MIA", &[]), entry("React", &[]), off];
    assert_eq!(build_bias_prompt(&e, &DictSettings::default()), "MIA, React");
    let disabled = DictSettings { bias_enabled: false, ..Default::default() };
    assert_eq!(build_bias_prompt(&e, &disabled), "");
}

#[test]
fn validate_entry_rejects_empty_and_long() {
    assert!(validate_entry(&entry("MIA", &[])).is_ok());
    assert_eq!(
        validate_entry(&entry("   ", &[])),
        Err("entry must have a non-empty replacement".to_string())
    );
    let long = entry(&"x".repeat(201), &[]);
    assert_eq!(validate_entry(&long), Err("replacement too long".to_string()));
}

// ── Further cases ────────────────────────────────────────────────────────────

#[test]
fn dictionary_blank_replacement_is_inert() {
    let e = vec![entry("   ", &["mia"])];
    assert_eq!(apply("open mia now", &e), "open mia now");
}

#[test]
fn dictionary_osa_edge_cases() {
    assert_eq!(osa_distance("", "abc"), 3);
    assert_eq!(osa_distance("abc", ""), 3);
    assert_eq!(osa_distance("ab", "ba"), 1);
    assert_eq!(osa_distance("kitten", "sitting"), 3);
}

#[test]
fn dictionary_fuzzy_match_threshold() {
    assert!(fuzzy_match("raect", "react", 1));
    assert!(!fuzzy_match("rxyzt", "react", 1));
    assert!(!fuzzy_match("bat", "cat", 1));
}

#[test]
fn dictionary_punctuation_survives_replacement() {
    let e = vec![entry("MIA", &["mia"])];
    assert_eq!(apply("(mia), ok", &e), "(MIA), ok");
}

#[test]
fn unstable_rewrites_are_not_applied() {
    // A scan would give "a, a a", which a second scan turns into "a a a".
    let doubled = vec![entry("a a", &["c"])];
    assert_eq!(apply("a, c", &doubled), "a, c");
    // A replacement whose own words re-match one of its sounds-like forms.
    let hyphen = vec![entry("a-b", &["b"])];
    assert_eq!(apply("a-b", &hyphen), "a-b");
    // Two entries chaining into each other.
    let chain = vec![entry("b c", &["a"]), entry("Y", &["b c d"])];
    assert_eq!(apply("a d", &chain), "a d");
    for (text, e) in [("a, c", &doubled), ("a-b", &hyphen), ("a d", &chain), ("mia and mia", &vec![entry("MIA", &["mia"])])] {
        let once = apply(text, e);
        assert_eq!(apply(&once, e), once);
    }
}

#[test]
fn bias_prompt_takes_the_first_eligible_terms() {
    let e = vec![entry("MIA", &[]), entry("React", &[]), entry("   ", &[]), entry("Tauri", &[])];
    let one = DictSettings { bias_max_terms: 1, ..Default::default() };
    assert_eq!(build_bias_prompt(&e, &one), "MIA");
    let two = DictSettings { bias_max_terms: 2, ..Default::default() };
    assert_eq!(build_bias_prompt(&e, &two), "MIA, React");
    assert_eq!(build_bias_prompt(&e, &DictSettings::default()), "MIA, React, Tauri");
}

#[test]
fn text_without_words_is_left_alone() {
    let e = vec![entry("MIA", &["mia", "!!"])];
    assert_eq!(apply_dictionary("!! ... ?", &e, &DictSettings::default()), "!! ... ?");
    assert_eq!(apply_dictionary("", &e, &DictSettings::default()), "");
}
