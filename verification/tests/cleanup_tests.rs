use mia::cleanup::{capitalize_sentences, detab_chars, rewrite, trim_lines_chars, Punct};
use mia::cleanup::{
    clean, collapse_repeats, ensure_trailing_period, filler_set, fix_capitalization, lang_from_code,
    normalize_numbers, normalize_whitespace, phrase_matches_at, punctuation_map, remove_fillers,
    should_remove, substitute_spoken_punctuation, CleanupOptions, GuardKind, Lang, TokenNorm,
};

fn opts() -> CleanupOptions {
    CleanupOptions::default()
}

#[test]
fn pt_basic_punctuation() {
    assert_eq!(substitute_spoken_punctuation("olá mundo ponto", Lang::PtBr), "olá mundo.");
    assert_eq!(substitute_spoken_punctuation("um vírgula dois", Lang::PtBr), "um, dois");
}

#[test]
fn pt_longest_phrase_wins() {
    assert_eq!(substitute_spoken_punctuation("a ponto e vírgula b", Lang::PtBr), "a; b");
    assert_eq!(substitute_spoken_punctuation("a novo parágrafo b", Lang::PtBr), "a\n\nb");
    assert_eq!(substitute_spoken_punctuation("a nova linha b", Lang::PtBr), "a\nb");
}

#[test]
fn pt_parentheses_spacing() {
    assert_eq!(
        substitute_spoken_punctuation("diga abre parênteses isso fecha parênteses", Lang::PtBr),
        "diga (isso)"
    );
}

#[test]
fn en_basic_punctuation() {
    assert_eq!(substitute_spoken_punctuation("hello world period", Lang::En), "hello world.");
    assert_eq!(substitute_spoken_punctuation("yes question mark", Lang::En), "yes?");
    assert_eq!(substitute_spoken_punctuation("one comma two", Lang::En), "one, two");
}

#[test]
fn whole_token_only_never_substring() {
    assert_eq!(substitute_spoken_punctuation("run the command now", Lang::En), "run the command now");
    assert_eq!(substitute_spoken_punctuation("fiz um apontamento", Lang::PtBr), "fiz um apontamento");
}

#[test]
fn other_lang_leaves_punctuation_words() {
    assert_eq!(substitute_spoken_punctuation("hola mundo period", Lang::Other), "hola mundo period");
}

#[test]
fn en_unambiguous_fillers_removed() {
    let r = remove_fillers("um so uh the thing", Lang::En, &opts());
    assert_eq!(r, "so the thing");
}

#[test]
fn en_discourse_like_removed_when_comma_delimited() {
    let r = remove_fillers("it's, like, broken", Lang::En, &opts());
    assert_eq!(r, "it's, broken");
}

#[test]
fn en_verb_like_is_kept() {
    assert_eq!(remove_fillers("I like coffee", Lang::En, &opts()), "I like coffee");
    assert_eq!(remove_fillers("it works like this", Lang::En, &opts()), "it works like this");
}

#[test]
fn pt_verb_e_is_kept_filler_e_removed() {
    assert_eq!(remove_fillers("ela é médica", Lang::PtBr, &opts()), "ela é médica");
    assert_eq!(remove_fillers("é, eu acho", Lang::PtBr, &opts()), "eu acho");
}

#[test]
fn multiword_filler_you_know() {
    assert_eq!(remove_fillers("well, you know, it works", Lang::En, &opts()), "well, it works");
    assert_eq!(remove_fillers("do you know him", Lang::En, &opts()), "do you know him");
}

#[test]
fn extra_and_keep_fillers() {
    let mut o = opts();
    o.extra_fillers = vec!["foo".into()];
    assert_eq!(remove_fillers("foo bar foo baz", Lang::En, &o), "bar baz");

    let mut o2 = opts();
    o2.keep_fillers = vec!["like".into()];
    assert_eq!(remove_fillers("it's, like, broken", Lang::En, &o2), "it's, like, broken");
}

#[test]
fn phrase_matches_at_is_whole_token_and_bounds_checked() {
    let tokens = vec!["you", "know", "it"];
    assert!(phrase_matches_at(&tokens, 0, &["you", "know"], TokenNorm::Lowercase));
    assert!(!phrase_matches_at(&tokens, 2, &["it", "is"], TokenNorm::Lowercase));
    let punct = vec!["like,", "broken"];
    assert!(phrase_matches_at(&punct, 0, &["like"], TokenNorm::Word));
    assert!(!phrase_matches_at(&punct, 0, &["like"], TokenNorm::Lowercase));
}

#[test]
fn should_remove_honors_guard_kind() {
    assert!(should_remove(GuardKind::Always, &["um", "ok"], 0, 1));
    assert!(!should_remove(GuardKind::Comma, &["like", "this"], 0, 1));
    assert!(should_remove(GuardKind::Comma, &["a", "like,", "b"], 1, 1));
    assert!(should_remove(GuardKind::Comma, &["a,", "like", "b"], 1, 1));
    assert!(should_remove(GuardKind::InitialOrComma, &["então", "foi"], 0, 1));
    assert!(!should_remove(GuardKind::InitialOrComma, &["e", "então", "foi"], 1, 1));
    assert!(should_remove(GuardKind::InitialOrComma, &["fim.", "então", "foi"], 1, 1));
}

#[test]
fn adjacent_duplicates_collapse() {
    assert_eq!(collapse_repeats("the the cat"), "the cat");
    assert_eq!(collapse_repeats("eu eu fui"), "eu fui");
}

#[test]
fn broken_word_stutter_collapses() {
    assert_eq!(collapse_repeats("th-the cat"), "the cat");
    assert_eq!(collapse_repeats("wh-what is it"), "what is it");
}

#[test]
fn non_adjacent_and_cross_sentence_preserved() {
    assert_eq!(collapse_repeats("good. good morning"), "good. good morning");
    assert_eq!(collapse_repeats("very good very good"), "very good very good");
}

#[test]
fn whitespace_normalization() {
    assert_eq!(normalize_whitespace("a   b"), "a b");
    assert_eq!(normalize_whitespace("a ."), "a.");
    assert_eq!(normalize_whitespace("( x )"), "(x)");
    assert_eq!(normalize_whitespace("trailing   "), "trailing");
    assert_eq!(normalize_whitespace("a\n\n\n\nb"), "a\n\nb");
}

#[test]
fn sentence_capitalization() {
    assert_eq!(fix_capitalization("hello. world", Lang::En), "Hello. World");
    assert_eq!(fix_capitalization("olá. mundo", Lang::PtBr), "Olá. Mundo");
}

#[test]
fn capitalization_preserves_interior_and_skips_leading_nonletter() {
    assert_eq!(fix_capitalization("buy iPhone now", Lang::En), "Buy iPhone now");
    assert_eq!(fix_capitalization("(hello)", Lang::En), "(Hello)");
}

#[test]
fn en_pronoun_i() {
    assert_eq!(fix_capitalization("then i think i'm late", Lang::En), "Then I think I'm late");
}

#[test]
fn pronoun_i_only_for_english() {
    assert_eq!(fix_capitalization("vou ali i depois", Lang::PtBr), "Vou ali i depois");
}

#[test]
fn light_number_spacing() {
    assert_eq!(normalize_numbers("3 , 14", Lang::PtBr), "3,14");
    assert_eq!(normalize_numbers("3 . 14", Lang::En), "3.14");
    assert_eq!(normalize_numbers("twenty three", Lang::En), "twenty three");
}

#[test]
fn trailing_period() {
    assert_eq!(ensure_trailing_period("hello"), "hello.");
    assert_eq!(ensure_trailing_period("hello."), "hello.");
    assert_eq!(ensure_trailing_period("really?"), "really?");
    assert_eq!(ensure_trailing_period(""), "");
}

#[test]
fn clean_empty_and_all_filler() {
    assert_eq!(clean("   ", Lang::En, &opts()), "");
    assert_eq!(clean("um uh er", Lang::En, &opts()), "");
}

#[test]
fn clean_is_deterministic() {
    let input = "um so, like, the the thing is broken period";
    let a = clean(input, Lang::En, &opts());
    let b = clean(input, Lang::En, &opts());
    assert_eq!(a, b);
}

#[test]
fn clean_end_to_end_en() {
    let out = clean("um so the the report is done period", Lang::En, &opts());
    assert_eq!(out, "So the report is done.");
}

#[test]
fn clean_end_to_end_pt() {
    let out = clean("então eu fiz o relatório ponto", Lang::PtBr, &opts());
    assert_eq!(out, "Eu fiz o relatório.");
}

#[test]
fn clean_is_idempotent_on_clean_text() {
    let once = clean("the report is done.", Lang::En, &opts());
    let twice = clean(&once, Lang::En, &opts());
    assert_eq!(once, twice);
}

#[test]
fn clean_all_toggles_off_keeps_text() {
    let o = CleanupOptions {
        remove_fillers: false,
        spoken_punctuation: false,
        collapse_repeats: false,
        fix_capitalization: false,
        normalize_numbers: false,
        ensure_trailing_period: false,
        extra_fillers: vec![],
        keep_fillers: vec![],
    };
    assert_eq!(clean("um  the   thing", Lang::En, &o), "um the thing");
}

#[test]
fn data_tables_present() {
    assert!(!filler_set(Lang::PtBr).is_empty());
    assert!(!filler_set(Lang::En).is_empty());
    assert!(filler_set(Lang::Other).is_empty());
    assert!(!punctuation_map(Lang::PtBr).is_empty());
    assert!(!punctuation_map(Lang::En).is_empty());
    assert!(punctuation_map(Lang::Other).is_empty());
}

#[test]
fn lang_from_code_maps() {
    assert_eq!(lang_from_code("pt"), Lang::PtBr);
    assert_eq!(lang_from_code("pt-BR"), Lang::PtBr);
    assert_eq!(lang_from_code("en"), Lang::En);
    assert_eq!(lang_from_code("EN-US"), Lang::En);
    assert_eq!(lang_from_code("fr"), Lang::Other);
}

// ── Further cases ────────────────────────────────────────────────────────────

#[test]
fn cleanup_other_lang_is_rule_free() {
    assert_eq!(remove_fillers("um like uh", Lang::Other, &opts()), "um like uh");
    assert_eq!(normalize_numbers("3 , 14", Lang::Other), "3 , 14");
}

#[test]
fn cleanup_all_off_is_whitespace_normalization() {
    let o = CleanupOptions {
        remove_fillers: false,
        spoken_punctuation: false,
        collapse_repeats: false,
        fix_capitalization: false,
        normalize_numbers: false,
        ensure_trailing_period: false,
        extra_fillers: vec![],
        keep_fillers: vec![],
    };
    let text = "  hello   world ( x ) \t ok  ";
    assert_eq!(clean(text, Lang::En, &o), normalize_whitespace(text));
}

#[test]
fn cleanup_trailing_period_respects_closers_and_trailing_space() {
    assert_eq!(ensure_trailing_period("done)"), "done)");
    assert_eq!(ensure_trailing_period("quote\""), "quote\"");
    assert_eq!(ensure_trailing_period("spaced   "), "spaced.");
    assert_eq!(ensure_trailing_period("   "), "   ");
}

#[test]
fn cleanup_pt_spaced_and_break_marks() {
    assert_eq!(substitute_spoken_punctuation("a travessão b", Lang::PtBr), "a — b");
    assert_eq!(substitute_spoken_punctuation("Ponto", Lang::PtBr), ".");
}

#[test]
fn cleanup_destutter_needs_prefix_and_letters() {
    assert_eq!(collapse_repeats("x-ray vision"), "x-ray vision");
    assert_eq!(collapse_repeats("co-op"), "co-op");
    assert_eq!(collapse_repeats("Th-the end"), "the end");
}

#[test]
fn cleanup_trailing_period_option_in_pipeline() {
    let mut o = opts();
    o.ensure_trailing_period = true;
    assert_eq!(clean("ok then", Lang::En, &o), "Ok then.");
}

#[test]
fn rewrite_replaces_every_match_or_keeps_the_text() {
    assert_eq!(rewrite("a+", "caaabaa", "x"), "cxbx");
    assert_eq!(rewrite("(\\d) +(\\d)", "1  2", "$1$2"), "12");
    assert_eq!(rewrite("(", "abc", "x"), "abc");
}

#[test]
fn whitespace_steps() {
    assert_eq!(detab_chars("a\tb"), vec!['a', ' ', 'b']);
    let t: String = trim_lines_chars("  a \n\t b  \n").into_iter().collect();
    assert_eq!(t, "a\nb\n");
}

#[test]
fn capitalize_sentences_marks_each_start() {
    assert_eq!(capitalize_sentences("hi. there? yes! ok\nnew line"), "Hi. There? Yes! Ok\nNew line");
    assert_eq!(capitalize_sentences("already Fine"), "Already Fine");
    assert_eq!(capitalize_sentences(""), "");
}

#[test]
fn punctuation_table_shape() {
    for lang in [Lang::PtBr, Lang::En] {
        let m = punctuation_map(lang);
        for (i, (p, _)) in m.iter().enumerate() {
            assert!(!p.starts_with(' ') && !p.ends_with(' ') && !p.contains("  "));
            assert_eq!(p.to_lowercase(), *p);
            for (q, _) in m.iter().skip(i + 1) {
                assert!(!q.starts_with(&format!("{} ", p)), "{} before {}", p, q);
            }
        }
    }
    assert!(punctuation_map(Lang::Other).is_empty());
    assert!(matches!(punctuation_map(Lang::En)[0].1, Punct::Trailing("!")));
}

#[test]
fn spoken_punctuation_spacing() {
    assert_eq!(
        substitute_spoken_punctuation("hello comma world open paren x close paren new line y", Lang::En),
        "hello, world (x)\ny"
    );
    assert_eq!(substitute_spoken_punctuation("a dash b", Lang::En), "a — b");
}

#[test]
fn cleaned_text_has_no_outer_whitespace() {
    let o = CleanupOptions {
        remove_fillers: false,
        spoken_punctuation: false,
        collapse_repeats: false,
        fix_capitalization: false,
        normalize_numbers: false,
        ensure_trailing_period: true,
        extra_fillers: vec![],
        keep_fillers: vec![],
    };
    let r = clean("  \t hello   world \n\n\n\n fine  ", Lang::En, &o);
    assert_eq!(r, r.trim());
    assert_eq!(r, "hello world\n\nfine.");
    assert_eq!(clean("   ", Lang::En, &o), "");
}

#[test]
fn decimals_close_up_left_to_right() {
    assert_eq!(normalize_numbers("1 , 2 , 3", Lang::PtBr), "1,2 , 3");
    assert_eq!(normalize_numbers("12 , 3 e 4 ,5", Lang::PtBr), "12,3 e 4,5");
    assert_eq!(normalize_numbers("3 . 14 and 2.5", Lang::En), "3.14 and 2.5");
    assert_eq!(normalize_numbers("a , b", Lang::PtBr), "a , b");
}

#[test]
fn lone_i_becomes_capital_in_english() {
    assert_eq!(fix_capitalization("i think i'm ok, said i", Lang::En), "I think I'm ok, said I");
    assert_eq!(fix_capitalization("this is it", Lang::En), "This is it");
    assert_eq!(fix_capitalization("eu i tu", Lang::PtBr), "Eu i tu");
}

#[test]
fn spacing_rules_one_by_one() {
    assert_eq!(rewrite(mia::cleanup::SPACE_BEFORE_CLOSE, "a  . b )", "$1"), "a. b)");
    assert_eq!(rewrite(mia::cleanup::SPACE_AFTER_OPEN, "(  a [ b", "$1"), "(a [b");
    assert_eq!(rewrite(mia::cleanup::MULTISPACE, "a   b c", " "), "a b c");
    assert_eq!(rewrite(mia::cleanup::MULTINEWLINE, "a\n\n\n\nb\n\nc", "\n\n"), "a\n\nb\n\nc");
}
