use mia::app_styles::{
    match_style, merge_cleanup, resolve_inject_mode, resolve_language, sanitize, AppStyle,
};
use mia::cleanup::CleanupOptions;
use mia::inject::InjectMode;
use mia::settings::DefaultLanguage;

fn style(exe: &str) -> AppStyle {
    AppStyle { match_exe: exe.to_string(), ..Default::default() }
}

#[test]
fn match_is_case_insensitive_substring() {
    let styles = vec![style("code")];
    assert!(match_style(&styles, "C:\\Code.EXE-resolved-to-CODE").is_some());
    assert!(match_style(&styles, "code").is_some());
    assert!(match_style(&styles, "notepad").is_none());
}

#[test]
fn longest_match_wins() {
    let styles = vec![style("studio"), style("visualstudio")];
    let m = match_style(&styles, "visualstudio").unwrap();
    assert_eq!(m.match_exe, "visualstudio");
}

#[test]
fn blank_rule_never_matches() {
    let styles = vec![style("   ")];
    assert!(match_style(&styles, "anything").is_none());
}

#[test]
fn resolve_language_prefers_override() {
    let s = AppStyle { language: Some(DefaultLanguage::En), ..style("code") };
    assert_eq!(resolve_language(DefaultLanguage::Pt, Some(&s)), DefaultLanguage::En);
    assert_eq!(resolve_language(DefaultLanguage::Pt, None), DefaultLanguage::Pt);
    assert_eq!(resolve_language(DefaultLanguage::Pt, Some(&style("code"))), DefaultLanguage::Pt);
}

#[test]
fn resolve_inject_mode_defaults_to_auto() {
    let s = AppStyle { inject_mode: Some(InjectMode::Clipboard), ..style("teams") };
    assert_eq!(resolve_inject_mode(Some(&s)), InjectMode::Clipboard);
    assert_eq!(resolve_inject_mode(None), InjectMode::Auto);
    assert_eq!(resolve_inject_mode(Some(&style("teams"))), InjectMode::Auto);
}

#[test]
fn merge_cleanup_applies_only_set_overrides() {
    let base = CleanupOptions { spoken_punctuation: true, ensure_trailing_period: false, ..Default::default() };
    let s = AppStyle { ensure_trailing_period: Some(true), spoken_punctuation: None, ..style("winword") };
    let merged = merge_cleanup(base.clone(), Some(&s));
    assert!(merged.ensure_trailing_period);
    assert!(merged.spoken_punctuation);
    let merged_none = merge_cleanup(base.clone(), None);
    assert_eq!(merged_none.spoken_punctuation, base.spoken_punctuation);
    assert_eq!(merged_none.ensure_trailing_period, base.ensure_trailing_period);
}

#[test]
fn sanitize_trims_drops_blank_and_dedups() {
    let styles = vec![style("  Code  "), style("code"), style(""), style("chrome")];
    let out = sanitize(styles);
    assert_eq!(out.len(), 2);
    assert_eq!(out[0].match_exe, "Code");
    assert_eq!(out[1].match_exe, "chrome");
}

#[test]
fn app_styles_tie_goes_to_the_later_rule() {
    let a = AppStyle { language: Some(DefaultLanguage::Pt), ..style("code") };
    let b = AppStyle { language: Some(DefaultLanguage::En), ..style("CODE") };
    let styles = vec![a, b];
    let m = match_style(&styles, "vscode").unwrap();
    assert_eq!(m.language, Some(DefaultLanguage::En));
}

#[test]
fn equal_length_rules_later_one_wins() {
    let styles = vec![style("code.exe"), style("CODE.EXE"), style("  ")];
    let r = match_style(&styles, "C:/apps/Code.exe").unwrap();
    assert!(std::ptr::eq(r, &styles[1]));
    assert!(match_style(&styles, "notepad.exe").is_none());
}
