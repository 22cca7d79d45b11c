use mia::text_match::{reconstruct, tokenize, Plan, Tok};

fn word_list(toks: &[Tok]) -> Vec<&str> {
    toks.iter()
        .filter_map(|t| match t {
            Tok::Word(w) => Some(w.as_str()),
            Tok::Sep(_) => None,
        })
        .collect()
}

#[test]
fn tokenize_alternates_words_and_separators() {
    let toks = tokenize("open mia, now");
    assert_eq!(word_list(&toks), vec!["open", "mia", "now"]);
    let rebuilt = reconstruct(&toks, &Plan::new());
    assert_eq!(rebuilt, "open mia, now");
}

#[test]
fn tokenize_empty_is_empty() {
    assert!(tokenize("").is_empty());
}

#[test]
fn reconstruct_replaces_single_word() {
    let toks = tokenize("open mia now");
    let mut plan = Plan::new();
    plan.insert(1, (1, "MIA".to_string()));
    assert_eq!(reconstruct(&toks, &plan), "open MIA now");
}

#[test]
fn reconstruct_collapses_multiword_match_dropping_interior_seps() {
    let toks = tokenize("i use react js daily");
    let mut plan = Plan::new();
    plan.insert(2, (2, "React".to_string()));
    assert_eq!(reconstruct(&toks, &plan), "i use React daily");
}

#[test]
fn reconstruct_preserves_punctuation_around_match() {
    let toks = tokenize("(react js) here");
    let mut plan = Plan::new();
    plan.insert(0, (2, "React".to_string()));
    assert_eq!(reconstruct(&toks, &plan), "(React) here");
}

#[test]
fn reconstruct_empty_plan_is_identity() {
    let toks = tokenize("hello,  world!");
    assert_eq!(reconstruct(&toks, &Plan::new()), "hello,  world!");
}

#[test]
fn text_match_separator_runs_alternate() {
    let toks = tokenize(", a b");
    assert!(matches!(toks[0], Tok::Sep(_)));
    assert!(matches!(toks[1], Tok::Word(_)));
    assert_eq!(toks.len(), 4);
}

#[test]
fn tokens_alternate_and_spell_the_input() {
    for s in ["", "ab, c!", "  x1y2 -- z  ", "olá, você?"] {
        let toks = tokenize(s);
        let mut joined = String::new();
        let mut prev: Option<bool> = None;
        for t in &toks {
            let (is_word, text) = match t {
                Tok::Word(w) => (true, w),
                Tok::Sep(x) => (false, x),
            };
            assert!(!text.is_empty());
            assert!(text.chars().all(|c| c.is_alphanumeric() == is_word));
            assert_ne!(prev, Some(is_word));
            prev = Some(is_word);
            joined.push_str(text);
        }
        assert_eq!(joined, s);
    }
    assert!(tokenize("").is_empty());
}
