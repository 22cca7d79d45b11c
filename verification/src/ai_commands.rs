//! AI Command Mode and Polish: the model-free core. A cheap classifier routes an
//! utterance before any model cost, a grammar constrains command decoding, prompts
//! are composed per action and language, and a parsed command is validated.

use vstd::prelude::*;

use crate::cleanup::Lang;
use crate::text::{
    chars_of, contains, has_prefix, has_substring, lowercase_of, starts_with, string_of,
    to_lowercase, trim, trim_str, words,
};

verus! {

/// Router output. Anything unclear stays `Dictation`.
#[derive(Clone, Copy, Debug, PartialEq, Eq, Structural)]
pub enum Intent {
    Dictation,
    Command,
    Polish,
}

/// The constrained set of transforms Command Mode may emit.
#[derive(Clone, Copy, Debug, PartialEq, Eq, Structural)]
pub enum CommandAction {
    Concise,
    Formal,
    Casual,
    BulletList,
    Summarize,
    Translate,
    Fix,
    Expand,
    Custom,
}

/// What the command operates on.
#[derive(Clone, Copy, Debug, PartialEq, Eq, Structural)]
pub enum CommandTarget {
    LastInserted,
    Selection,
}

#[derive(Clone, Debug, PartialEq, Eq)]
pub struct CommandParams {
    pub lang: Option<String>,
    pub instruction: Option<String>,
}

impl Default for CommandParams {
    fn default() -> (p: Self)
        ensures
            p.lang is None,
            p.instruction is None,
    {
        CommandParams { lang: None, instruction: None }
    }
}

/// The constrained command envelope the grammar forces the model to emit.
#[derive(Clone, Debug, PartialEq, Eq)]
pub struct ParsedCommand {
    pub action: CommandAction,
    pub target: CommandTarget,
    pub params: CommandParams,
}

/// Routing configuration. Command mode is off by default, so routing is a no-op
/// until the user enables it.
#[derive(Clone, Debug)]
pub struct AiConfig {
    pub command_mode_enabled: bool,
    pub polish_enabled: bool,
    pub trigger_prefix: String,
}

impl Default for AiConfig {
    fn default() -> (c: Self)
        ensures
            !c.command_mode_enabled,
            !c.polish_enabled,
            c.trigger_prefix@ == "hey mia"@,
    {
        AiConfig {
            command_mode_enabled: false,
            polish_enabled: false,
            trigger_prefix: String::from_str("hey mia"),
        }
    }
}

// ─────────────────────────────────────────────────────────────────────────────
// Trigger-phrase tables (per language; Other falls back to English)
// ─────────────────────────────────────────────────────────────────────────────

pub open spec fn command_verb_table(lang: Lang) -> Seq<&'static str> {
    match lang {
        Lang::PtBr => seq![
            "faça",
            "faca",
            "deixe",
            "reescreva",
            "transforme",
            "resuma",
            "traduza",
            "corrija",
            "expanda",
            "encurte",
            "refaça",
            "refaca",
            "liste",
        ],
        _ => seq![
            "make",
            "rewrite",
            "turn",
            "summarize",
            "translate",
            "fix",
            "correct",
            "expand",
            "shorten",
            "rephrase",
            "list",
        ],
    }
}

pub open spec fn target_ref_table(lang: Lang) -> Seq<&'static str> {
    match lang {
        Lang::PtBr => seq!["isso", "isto", "o texto", "esse texto", "esta frase"],
        _ => seq!["this", "that", "the text", " it"],
    }
}

pub open spec fn polish_trigger_table(lang: Lang) -> Seq<&'static str> {
    match lang {
        Lang::PtBr => seq!["melhore isso", "melhore isto", "revise isso", "poli isso"],
        _ => seq!["polish this", "polish that", "clean this up", "improve this"],
    }
}

fn command_verbs(lang: Lang) -> (v: Vec<&'static str>)
    ensures
        v@ == command_verb_table(lang),
{
    let mut v: Vec<&'static str> = Vec::new();
    match lang {
        Lang::PtBr => {
            v.push("faça");
            v.push("faca");
            v.push("deixe");
            v.push("reescreva");
            v.push("transforme");
            v.push("resuma");
            v.push("traduza");
            v.push("corrija");
            v.push("expanda");
            v.push("encurte");
            v.push("refaça");
            v.push("refaca");
            v.push("liste");
        },
        _ => {
            v.push("make");
            v.push("rewrite");
            v.push("turn");
            v.push("summarize");
            v.push("translate");
            v.push("fix");
            v.push("correct");
            v.push("expand");
            v.push("shorten");
            v.push("rephrase");
            v.push("list");
        },
    }
    assert(v@ =~= command_verb_table(lang));
    v
}

fn target_refs(lang: Lang) -> (v: Vec<&'static str>)
    ensures
        v@ == target_ref_table(lang),
{
    let mut v: Vec<&'static str> = Vec::new();
    match lang {
        Lang::PtBr => {
            v.push("isso");
            v.push("isto");
            v.push("o texto");
            v.push("esse texto");
            v.push("esta frase");
        },
        _ => {
            v.push("this");
            v.push("that");
            v.push("the text");
            v.push(" it");
        },
    }
    assert(v@ =~= target_ref_table(lang));
    v
}

fn polish_triggers(lang: Lang) -> (v: Vec<&'static str>)
    ensures
        v@ == polish_trigger_table(lang),
{
    let mut v: Vec<&'static str> = Vec::new();
    match lang {
        Lang::PtBr => {
            v.push("melhore isso");
            v.push("melhore isto");
            v.push("revise isso");
            v.push("poli isso");
        },
        _ => {
            v.push("polish this");
            v.push("polish that");
            v.push("clean this up");
            v.push("improve this");
        },
    }
    assert(v@ =~= polish_trigger_table(lang));
    v
}

// ─────────────────────────────────────────────────────────────────────────────
// Routing
// ─────────────────────────────────────────────────────────────────────────────

/// The first whitespace-separated word of `t`, or "".
pub open spec fn first_word(t: Seq<char>) -> Seq<char> {
    if words(t).len() > 0 {
        words(t)[0]
    } else {
        Seq::empty()
    }
}

pub open spec fn starts_with_any(t: Seq<char>, table: Seq<&'static str>) -> bool {
    exists|i: int| 0 <= i < table.len() && #[trigger] starts_with(t, table[i]@)
}

pub open spec fn contains_any(t: Seq<char>, table: Seq<&'static str>) -> bool {
    exists|i: int| 0 <= i < table.len() && #[trigger] contains(t, table[i]@)
}

pub open spec fn is_any(t: Seq<char>, table: Seq<&'static str>) -> bool {
    exists|i: int| 0 <= i < table.len() && #[trigger] table[i]@ == t
}

/// The routing decision over plain values.
pub open spec fn route_spec(transcript: Seq<char>, lang: Lang, enabled: bool, polish: bool, prefix: Seq<char>) -> Intent {
    let t = lowercase_of(trim(transcript));
    let p = lowercase_of(trim(prefix));
    if !enabled {
        Intent::Dictation
    } else if t.len() == 0 {
        Intent::Dictation
    } else if p.len() != 0 && starts_with(t, p) {
        Intent::Command
    } else if polish && starts_with_any(t, polish_trigger_table(lang)) {
        Intent::Polish
    } else if is_any(first_word(t), command_verb_table(lang)) && contains_any(t, target_ref_table(lang)) {
        Intent::Command
    } else {
        Intent::Dictation
    }
}

fn lower_trimmed(s: &str) -> (r: Vec<char>)
    ensures
        r@ == lowercase_of(trim(s@)),
{
    let t = trim_str(s);
    let l = to_lowercase(t.as_str());
    chars_of(l.as_str())
}

fn starts_with_one_of(t: &[char], table: &Vec<&'static str>) -> (b: bool)
    ensures
        b == starts_with_any(t@, table@),
{
    let mut i: usize = 0;
    while i < table.len()
        invariant
            i <= table@.len(),
            forall|k: int| 0 <= k < i ==> !#[trigger] starts_with(t@, table@[k]@),
        decreases table@.len() - i,
    {
        let p = chars_of(table[i]);
        if has_prefix(t, p.as_slice()) {
            return true;
        }
        i = i + 1;
    }
    false
}

fn contains_one_of(t: &[char], table: &Vec<&'static str>) -> (b: bool)
    ensures
        b == contains_any(t@, table@),
{
    let mut i: usize = 0;
    while i < table.len()
        invariant
            i <= table@.len(),
            forall|k: int| 0 <= k < i ==> !#[trigger] contains(t@, table@[k]@),
        decreases table@.len() - i,
    {
        let p = chars_of(table[i]);
        if has_substring(t, p.as_slice()) {
            return true;
        }
        i = i + 1;
    }
    false
}

fn is_one_of(t: &[char], table: &Vec<&'static str>) -> (b: bool)
    ensures
        b == is_any(t@, table@),
{
    let mut i: usize = 0;
    while i < table.len()
        invariant
            i <= table@.len(),
            forall|k: int| 0 <= k < i ==> (#[trigger] table@[k])@ != t@,
        decreases table@.len() - i,
    {
        if crate::hotkey::is_lit(t, table[i]) {
            return true;
        }
        i = i + 1;
    }
    false
}

fn first_word_of(t: &[char]) -> (r: Vec<char>)
    ensures
        r@ == first_word(t@),
{
    let ws = crate::text::split_whitespace(t);
    if ws.len() > 0 {
        crate::text::slice_range(ws[0].as_slice(), 0, ws[0].len())
    } else {
        Vec::new()
    }
}

/// Whether the (lowercased) utterance's first word is one of the language's command verbs.
fn starts_with_command_verb(lower: &[char], lang: Lang) -> (b: bool)
    ensures
        b == is_any(first_word(lower@), command_verb_table(lang)),
{
    let first = first_word_of(lower);
    is_one_of(first.as_slice(), &command_verbs(lang))
}

/// Whether the (lowercased) utterance mentions one of the language's target phrases.
fn mentions_target(lower: &[char], lang: Lang) -> (b: bool)
    ensures
        b == contains_any(lower@, target_ref_table(lang)),
{
    contains_one_of(lower, &target_refs(lang))
}

/// Classify an utterance before any model cost: a trigger prefix or an imperative
/// "verb ... this/text" is a command, a polish phrase is polish (when enabled), and
/// everything else is dictation. Disabled command mode always gives `Dictation`.
pub fn route_intent(transcript: &str, lang: Lang, cfg: &AiConfig) -> (i: Intent)
    ensures
        i == route_spec(
            transcript@,
            lang,
            cfg.command_mode_enabled,
            cfg.polish_enabled,
            cfg.trigger_prefix@,
        ),
{
    if !cfg.command_mode_enabled {
        return Intent::Dictation;
    }
    let t = lower_trimmed(transcript);
    if t.len() == 0 {
        return Intent::Dictation;
    }
    let prefix = lower_trimmed(cfg.trigger_prefix.as_str());
    if prefix.len() != 0 && has_prefix(t.as_slice(), prefix.as_slice()) {
        return Intent::Command;
    }
    if cfg.polish_enabled && starts_with_one_of(t.as_slice(), &polish_triggers(lang)) {
        return Intent::Polish;
    }
    if starts_with_command_verb(t.as_slice(), lang) && mentions_target(t.as_slice(), lang) {
        return Intent::Command;
    }
    Intent::Dictation
}

// ─────────────────────────────────────────────────────────────────────────────
// Grammar, prompts, validation
// ─────────────────────────────────────────────────────────────────────────────

/// The GBNF grammar constraining Command-Mode decoding to a valid `ParsedCommand`.
pub const COMMAND_GRAMMAR: &'static str = "root   ::= \"{\" ws \"\\\"action\\\"\" ws \":\" ws action ws \",\" ws \"\\\"target\\\"\" ws \":\" ws target ws \",\" ws \"\\\"params\\\"\" ws \":\" ws params ws \"}\"
action ::= \"\\\"concise\\\"\" | \"\\\"formal\\\"\" | \"\\\"casual\\\"\" | \"\\\"bulletList\\\"\" | \"\\\"summarize\\\"\" | \"\\\"translate\\\"\" | \"\\\"fix\\\"\" | \"\\\"expand\\\"\" | \"\\\"custom\\\"\"
target ::= \"\\\"lastInserted\\\"\" | \"\\\"selection\\\"\"
params ::= \"{\" ws ( \"\\\"lang\\\"\" ws \":\" ws string ( ws \",\" ws \"\\\"instruction\\\"\" ws \":\" ws string )? | \"\\\"instruction\\\"\" ws \":\" ws string )? ws \"}\"
string ::= \"\\\"\" ([^\"\\\\] | \"\\\\\" .)* \"\\\"\"
ws     ::= [ \\t\\n]*";

/// The command grammar, verbatim.
pub fn command_grammar() -> (g: &'static str)
    ensures
        g@ == COMMAND_GRAMMAR@,
{
    COMMAND_GRAMMAR
}

pub open spec fn instr_view(instr: Option<&str>) -> Option<Seq<char>> {
    match instr {
        Some(s) => Some(s@),
        None => None,
    }
}

/// The instruction line for `action` in `lang`; `Custom` uses the user's text.
pub open spec fn directive_spec(action: CommandAction, lang: Lang, instr: Option<Seq<char>>) -> Seq<char> {
    let pt = lang == Lang::PtBr;
    match action {
        CommandAction::Concise => if pt { "Torne o texto mais conciso."@ } else { "Make the text more concise."@ },
        CommandAction::Formal => if pt { "Reescreva em tom formal."@ } else { "Rewrite in a formal tone."@ },
        CommandAction::Casual => if pt { "Reescreva em tom casual."@ } else { "Rewrite in a casual tone."@ },
        CommandAction::BulletList => if pt { "Converta em lista de tópicos."@ } else { "Convert into a bullet list."@ },
        CommandAction::Summarize => if pt { "Resuma o texto."@ } else { "Summarize the text."@ },
        CommandAction::Translate => if pt { "Traduza o texto."@ } else { "Translate the text."@ },
        CommandAction::Fix => if pt { "Corrija gramática e ortografia."@ } else { "Fix grammar and spelling."@ },
        CommandAction::Expand => if pt { "Expanda o texto com mais detalhe."@ } else { "Expand the text with more detail."@ },
        CommandAction::Custom => match instr {
            Some(s) => s,
            None => if pt { "Aplique a instrução do usuário."@ } else { "Apply the user's instruction."@ },
        },
    }
}

fn action_directive(action: CommandAction, lang: Lang, instr: Option<&str>) -> (r: String)
    ensures
        r@ == directive_spec(action, lang, instr_view(instr)),
{
    let pt = lang == Lang::PtBr;
    let lit = match action {
        CommandAction::Concise => if pt { "Torne o texto mais conciso." } else { "Make the text more concise." },
        CommandAction::Formal => if pt { "Reescreva em tom formal." } else { "Rewrite in a formal tone." },
        CommandAction::Casual => if pt { "Reescreva em tom casual." } else { "Rewrite in a casual tone." },
        CommandAction::BulletList => if pt { "Converta em lista de tópicos." } else { "Convert into a bullet list." },
        CommandAction::Summarize => if pt { "Resuma o texto." } else { "Summarize the text." },
        CommandAction::Translate => if pt { "Traduza o texto." } else { "Translate the text." },
        CommandAction::Fix => if pt { "Corrija gramática e ortografia." } else { "Fix grammar and spelling." },
        CommandAction::Expand => if pt { "Expanda o texto com mais detalhe." } else { "Expand the text with more detail." },
        CommandAction::Custom => match instr {
            Some(s) => s,
            None => if pt { "Aplique a instrução do usuário." } else { "Apply the user's instruction." },
        },
    };
    String::from_str(lit)
}

pub open spec fn system_line(lang: Lang) -> Seq<char> {
    if lang == Lang::PtBr {
        "Você edita texto fielmente. Não invente fatos. Responda só com o texto transformado."@
    } else {
        "You edit text faithfully. Do not invent facts. Reply with only the transformed text."@
    }
}

pub open spec fn text_label(lang: Lang) -> Seq<char> {
    if lang == Lang::PtBr {
        "Texto"@
    } else {
        "Text"@
    }
}

/// The prompt: system line, blank line, directive, blank line, label, colon and
/// newline, then the target text.
pub open spec fn prompt_spec(action: CommandAction, lang: Lang, target: Seq<char>, instr: Option<Seq<char>>) -> Seq<char> {
    system_line(lang) + "\n\n"@ + directive_spec(action, lang, instr) + "\n\n"@ + text_label(lang)
        + ":\n"@ + target
}

/// Compose the per-action, per-language instruction prompt over `target`; `instr`
/// carries the free text for `Custom`.
pub fn build_prompt(action: CommandAction, lang: Lang, target: &str, instr: Option<&str>) -> (p: String)
    ensures
        p@ == prompt_spec(action, lang, target@, instr_view(instr)),
{
    let directive = action_directive(action, lang, instr);
    let (sys, label) = if lang == Lang::PtBr {
        (
            "Você edita texto fielmente. Não invente fatos. Responda só com o texto transformado.",
            "Texto",
        )
    } else {
        (
            "You edit text faithfully. Do not invent facts. Reply with only the transformed text.",
            "Text",
        )
    };
    let mut out = chars_of(sys);
    let blank = chars_of("\n\n");
    crate::text::append_chars(&mut out, blank.as_slice());
    let d = chars_of(directive.as_str());
    crate::text::append_chars(&mut out, d.as_slice());
    crate::text::append_chars(&mut out, blank.as_slice());
    let l = chars_of(label);
    crate::text::append_chars(&mut out, l.as_slice());
    let colon = chars_of(":\n");
    crate::text::append_chars(&mut out, colon.as_slice());
    let t = chars_of(target);
    crate::text::append_chars(&mut out, t.as_slice());
    string_of(out.as_slice())
}

pub open spec fn blank_opt(o: Option<String>) -> bool {
    match o {
        Some(s) => trim(s@).len() == 0,
        None => true,
    }
}

/// `Translate` needs a language and `Custom` an instruction.
pub open spec fn validate_parsed_spec(cmd: ParsedCommand) -> Result<(), Seq<char>> {
    match cmd.action {
        CommandAction::Translate => if blank_opt(cmd.params.lang) {
            Err("command not understood"@)
        } else {
            Ok(())
        },
        CommandAction::Custom => if blank_opt(cmd.params.instruction) {
            Err("command not understood"@)
        } else {
            Ok(())
        },
        _ => Ok(()),
    }
}

fn opt_blank(o: &Option<String>) -> (b: bool)
    ensures
        b == blank_opt(*o),
{
    match o {
        Some(s) => crate::text::is_blank(s.as_str()),
        None => true,
    }
}

/// Reject a parsed command the model should not have produced.
pub fn validate_parsed(cmd: &ParsedCommand) -> (r: Result<(), String>)
    ensures
        crate::dictionary::unit_result_view(r) == validate_parsed_spec(*cmd),
{
    match cmd.action {
        CommandAction::Translate => {
            if opt_blank(&cmd.params.lang) {
                return Err(String::from_str("command not understood"));
            }
            Ok(())
        },
        CommandAction::Custom => {
            if opt_blank(&cmd.params.instruction) {
                return Err(String::from_str("command not understood"));
            }
            Ok(())
        },
        _ => Ok(()),
    }
}

// ─────────────────────────────────────────────────────────────────────────────
// Laws
// ─────────────────────────────────────────────────────────────────────────────

/// Command mode off: every utterance is dictation.
pub proof fn lemma_disabled_always_dictation(transcript: Seq<char>, lang: Lang, polish: bool, prefix: Seq<char>)
    ensures
        route_spec(transcript, lang, false, polish, prefix) == Intent::Dictation,
{
}

/// Polish is never chosen unless polish is enabled.
pub proof fn lemma_polish_needs_opt_in(transcript: Seq<char>, lang: Lang, enabled: bool, prefix: Seq<char>)
    ensures
        route_spec(transcript, lang, enabled, false, prefix) != Intent::Polish,
{
}

/// The prompt starts with the system line and ends with a blank line, the label
/// (`Texto` in pt-BR, `Text` otherwise), a colon, a newline and the target text; a
/// `Custom` prompt carries the user's instruction verbatim.
pub proof fn lemma_prompt_frames_target(action: CommandAction, lang: Lang, target: Seq<char>, instr: Option<Seq<char>>)
    ensures
        crate::text::ends_with(prompt_spec(action, lang, target, instr), target),
        crate::text::ends_with(
            prompt_spec(action, lang, target, instr),
            "\n\n"@ + text_label(lang) + ":\n"@ + target,
        ),
        starts_with(prompt_spec(action, lang, target, instr), system_line(lang)),
        action == CommandAction::Custom && instr is Some ==> exists|k: int|
            0 <= k && k + (instr->0).len() <= prompt_spec(action, lang, target, instr).len()
                && #[trigger] prompt_spec(action, lang, target, instr).subrange(k, k + (instr->0).len())
                == instr->0,
{
    let p = prompt_spec(action, lang, target, instr);
    let d = directive_spec(action, lang, instr);
    let front = system_line(lang) + "\n\n"@ + d;
    let back = "\n\n"@ + text_label(lang) + ":\n"@ + target;
    assert(p =~= front + back);
    assert(p.subrange(p.len() - back.len(), p.len() as int) =~= back);
    let head = system_line(lang) + "\n\n"@ + d + "\n\n"@ + text_label(lang) + ":\n"@;
    assert(p =~= head + target);
    assert(p.subrange(p.len() - target.len(), p.len() as int) =~= target);
    let tail = "\n\n"@ + d + "\n\n"@ + text_label(lang) + ":\n"@ + target;
    assert(p =~= system_line(lang) + tail);
    assert(p.subrange(0, system_line(lang).len() as int) =~= system_line(lang));
    if action == CommandAction::Custom && instr is Some {
        let k = (system_line(lang) + "\n\n"@).len() as int;
        assert(d == instr->0);
        assert(p.subrange(k, k + d.len()) =~= d);
    }
}


/// The prompt carries the action's directive verbatim after the system line and a
/// blank line; for an English summary of ASCII text, the lowercased prompt contains
/// "summarize".
pub proof fn lemma_prompt_carries_directive(action: CommandAction, lang: Lang, target: Seq<char>, instr: Option<Seq<char>>)
    ensures
        prompt_spec(action, lang, target, instr).subrange(
            system_line(lang).len() + 2int,
            system_line(lang).len() + 2int + directive_spec(action, lang, instr).len(),
        ) == directive_spec(action, lang, instr),
        action == CommandAction::Summarize && lang == Lang::En && crate::text::all_ascii(target) ==> exists|k: int|
            0 <= k && k + 9 <= prompt_spec(action, lang, target, instr).len() && #[trigger] lowercase_of(
                prompt_spec(action, lang, target, instr),
            ).subrange(k, k + 9) == "summarize"@,
{
    let p = prompt_spec(action, lang, target, instr);
    let d = directive_spec(action, lang, instr);
    let k0: int = system_line(lang).len() + 2int;
    reveal_strlit("\n\n");
    assert(p =~= system_line(lang) + "\n\n"@ + d + ("\n\n"@ + text_label(lang) + ":\n"@ + target));
    assert(p.subrange(k0, k0 + d.len()) =~= d);
    if action == CommandAction::Summarize && lang == Lang::En && crate::text::all_ascii(target) {
        reveal_strlit("You edit text faithfully. Do not invent facts. Reply with only the transformed text.");
        reveal_strlit("Summarize the text.");
        reveal_strlit("Text");
        reveal_strlit(":\n");
        reveal_strlit("summarize");
        assert(crate::text::all_ascii(p)) by {
            assert forall|i: int| 0 <= i < p.len() implies crate::text::is_ascii_char(#[trigger] p[i]) by {
                if i >= p.len() - target.len() {
                    assert(p[i] == target[i - (p.len() - target.len())]);
                }
            }
        }
        let low = lowercase_of(p);
        assert(low == p.map_values(|c: char| crate::text::ascii_lower_of(c)));
        assert(low.subrange(k0, k0 + 9) =~= "summarize"@) by {
            assert forall|j: int| 0 <= j < 9 implies low.subrange(k0, k0 + 9)[j] == "summarize"@[j] by {
                assert(p[k0 + j] == d[j]);
            }
        }
    }
}


/// An utterance goes to Command only through the trigger prefix, or when its whole
/// first word (trimmed, lowercased) is one of the language's command verbs and it
/// mentions a target ("this", "isso", ...); a first word that merely begins like a
/// verb is not enough.
pub proof fn lemma_command_needs_verb_word(transcript: Seq<char>, lang: Lang, enabled: bool, polish: bool, prefix: Seq<char>)
    ensures
        route_spec(transcript, lang, enabled, polish, prefix) == Intent::Command ==> enabled && ((lowercase_of(
            trim(prefix),
        ).len() != 0 && starts_with(lowercase_of(trim(transcript)), lowercase_of(trim(prefix)))) || ((exists|i: int|
            0 <= i < command_verb_table(lang).len() && command_verb_table(lang)[i]@ == first_word(
                lowercase_of(trim(transcript)),
            )) && (exists|j: int|
            0 <= j < target_ref_table(lang).len() && contains(
                lowercase_of(trim(transcript)),
                target_ref_table(lang)[j]@,
            )))),
{
}


/// Routing, whole: with command mode on and a non-blank utterance, the trigger prefix
/// gives Command; otherwise an enabled polish phrase gives Polish; otherwise a first
/// word that is a command verb together with a target mention gives Command; all
/// else is Dictation.
pub proof fn lemma_route_table(transcript: Seq<char>, lang: Lang, enabled: bool, polish: bool, prefix: Seq<char>)
    ensures
        ({
            let t = lowercase_of(trim(transcript));
            let p = lowercase_of(trim(prefix));
            let by_prefix = p.len() != 0 && starts_with(t, p);
            let polish_hit = polish && exists|i: int|
                0 <= i < polish_trigger_table(lang).len() && starts_with(t, polish_trigger_table(lang)[i]@);
            let verb = exists|i: int| 0 <= i < command_verb_table(lang).len() && command_verb_table(lang)[i]@ == first_word(t);
            let target = exists|j: int| 0 <= j < target_ref_table(lang).len() && contains(t, target_ref_table(lang)[j]@);
            route_spec(transcript, lang, enabled, polish, prefix) == (if !enabled || t.len() == 0 {
                Intent::Dictation
            } else if by_prefix {
                Intent::Command
            } else if polish_hit {
                Intent::Polish
            } else if verb && target {
                Intent::Command
            } else {
                Intent::Dictation
            })
        }),
{
}

} // verus!
