//! Slash commands of the interactive modes: what a submitted line asks
//! for, how credentials are recognised and masked, and which completions a
//! partly typed command has.

use vstd::prelude::*;
use crate::text::{
    find_char, find_char_exec, join, join_range, trim_start_exec, trim_start_ws, ascii_lower_seq, byte_len, chars_eq, chars_of, extend_chars, extend_str, has_prefix, slice_chars,
    starts_with, string_of, to_ascii_lowercase, trim_exec, trim_ws,
};
use crate::tui::{parse_thinking_level, parsed_level, ThinkingLevel};
use crate::order::{lemma_lt_irreflexive, lemma_lt_total, lemma_lt_transitive, lt_chars, seq_lt, views_of};
use crate::skills::{sorted_listing, ActiveSkills, SkillCatalog, SkillView};

verus! {

broadcast use vstd::string::group_string_axioms;

/// What a submitted line asks the interactive mode to do.
#[derive(Debug)]
pub enum SlashCommand {
    /// Leave the program.
    Quit,
    /// `/setkey` without a key: show how to use it.
    SetKeyUsage,
    /// Forget the runtime API key.
    ClearKey,
    /// Use this API key from now on.
    SetKey(String),
    /// List the providers.
    Providers,
    /// `/provider` alone: show usage and the current provider.
    ProviderStatus,
    /// `/provider ` with no name: show usage.
    ProviderUsage,
    /// Explain how to switch to this provider.
    ProviderHint(String),
    /// Open the model selector.
    ModelSelector,
    /// `/model ` with no query: show usage.
    ModelUsage,
    /// Switch to the model this query names, or open the selector on it.
    ModelQuery(String),
    /// Open the thinking-level selector.
    ThinkingSelector,
    /// `/thinking ` with something that is no level: show usage.
    ThinkingUsage,
    /// Set this thinking level.
    Thinking(Option<ThinkingLevel>),
    /// List the skills.
    SkillList,
    /// Deactivate all skills.
    SkillClear,
    /// Install the skill at this path.
    SkillInstall(String),
    /// `/skill:` with no name: show usage.
    SkillUsage,
    /// Activate the skill of this name.
    SkillActivate(String),
    /// A slash command that does not exist.
    Unknown,
    /// An empty line.
    Empty,
    /// Not a command: a prompt for the model.
    Prompt,
}

/// A [`SlashCommand`] with its strings as character sequences.
pub enum CommandView {
    Quit,
    SetKeyUsage,
    ClearKey,
    SetKey(Seq<char>),
    Providers,
    ProviderStatus,
    ProviderUsage,
    ProviderHint(Seq<char>),
    ModelSelector,
    ModelUsage,
    ModelQuery(Seq<char>),
    ThinkingSelector,
    ThinkingUsage,
    Thinking(Option<ThinkingLevel>),
    SkillList,
    SkillClear,
    SkillInstall(Seq<char>),
    SkillUsage,
    SkillActivate(Seq<char>),
    Unknown,
    Empty,
    Prompt,
}

impl View for SlashCommand {
    type V = CommandView;

    open spec fn view(&self) -> CommandView {
        match self {
            SlashCommand::Quit => CommandView::Quit,
            SlashCommand::SetKeyUsage => CommandView::SetKeyUsage,
            SlashCommand::ClearKey => CommandView::ClearKey,
            SlashCommand::SetKey(k) => CommandView::SetKey(k@),
            SlashCommand::Providers => CommandView::Providers,
            SlashCommand::ProviderStatus => CommandView::ProviderStatus,
            SlashCommand::ProviderUsage => CommandView::ProviderUsage,
            SlashCommand::ProviderHint(n) => CommandView::ProviderHint(n@),
            SlashCommand::ModelSelector => CommandView::ModelSelector,
            SlashCommand::ModelUsage => CommandView::ModelUsage,
            SlashCommand::ModelQuery(q) => CommandView::ModelQuery(q@),
            SlashCommand::ThinkingSelector => CommandView::ThinkingSelector,
            SlashCommand::ThinkingUsage => CommandView::ThinkingUsage,
            SlashCommand::Thinking(l) => CommandView::Thinking(*l),
            SlashCommand::SkillList => CommandView::SkillList,
            SlashCommand::SkillClear => CommandView::SkillClear,
            SlashCommand::SkillInstall(p) => CommandView::SkillInstall(p@),
            SlashCommand::SkillUsage => CommandView::SkillUsage,
            SlashCommand::SkillActivate(n) => CommandView::SkillActivate(n@),
            SlashCommand::Unknown => CommandView::Unknown,
            SlashCommand::Empty => CommandView::Empty,
            SlashCommand::Prompt => CommandView::Prompt,
        }
    }
}

/// `s` after the prefix `p`.
pub open spec fn after(s: Seq<char>, p: Seq<char>) -> Seq<char> {
    s.skip(p.len() as int)
}

/// What the argument of `/setkey` asks for: usage when blank, clearing
/// when it is `clear` in any ASCII case, the key otherwise.
pub open spec fn key_command(v: Seq<char>) -> CommandView {
    if v.len() == 0 {
        CommandView::SetKeyUsage
    } else if ascii_lower_seq(v) == ascii_lower_seq("clear"@) {
        CommandView::ClearKey
    } else {
        CommandView::SetKey(v)
    }
}

/// The commands both interactive modes share, for a line that is not
/// `exit`, `/quit`, `/setkey` or `/apikey`: `None` for a line that is none
/// of them.
pub open spec fn provider_command(s: Seq<char>) -> Option<CommandView> {
    if s == "/providers"@ {
        Some(CommandView::Providers)
    } else if s == "/provider"@ {
        Some(CommandView::ProviderStatus)
    } else if has_prefix(s, "/provider "@) {
        let n = trim_ws(after(s, "/provider "@));
        if n.len() == 0 {
            Some(CommandView::ProviderUsage)
        } else {
            Some(CommandView::ProviderHint(n))
        }
    } else {
        None
    }
}

/// The skill commands both interactive modes share: `None` for a line
/// that is none of them.
pub open spec fn skill_command(s: Seq<char>) -> Option<CommandView> {
    if s == "/skills"@ || s == "/skill:list"@ {
        Some(CommandView::SkillList)
    } else if s == "/skill:clear"@ {
        Some(CommandView::SkillClear)
    } else if has_prefix(s, "/skill:install "@) {
        Some(CommandView::SkillInstall(trim_ws(after(s, "/skill:install "@))))
    } else if has_prefix(s, "/skill:"@) {
        let n = trim_ws(after(s, "/skill:"@));
        if n.len() == 0 {
            Some(CommandView::SkillUsage)
        } else {
            Some(CommandView::SkillActivate(n))
        }
    } else {
        None
    }
}

/// The quit and credential commands both modes share.
pub open spec fn key_or_quit_command(s: Seq<char>) -> Option<CommandView> {
    if s == "exit"@ || s == "/quit"@ {
        Some(CommandView::Quit)
    } else if s == "/setkey"@ || s == "/apikey"@ {
        Some(CommandView::SetKeyUsage)
    } else if has_prefix(s, "/setkey "@) {
        Some(key_command(trim_ws(after(s, "/setkey "@))))
    } else if has_prefix(s, "/apikey "@) {
        Some(key_command(trim_ws(after(s, "/apikey "@))))
    } else {
        None
    }
}

/// The model and thinking commands of the full-screen mode.
pub open spec fn model_command(s: Seq<char>) -> Option<CommandView> {
    if s == "/model"@ {
        Some(CommandView::ModelSelector)
    } else if has_prefix(s, "/model "@) {
        let q = trim_ws(after(s, "/model "@));
        if q.len() == 0 {
            Some(CommandView::ModelUsage)
        } else {
            Some(CommandView::ModelQuery(q))
        }
    } else if s == "/thinking"@ {
        Some(CommandView::ThinkingSelector)
    } else if has_prefix(s, "/thinking "@) {
        match parsed_level(trim_ws(after(s, "/thinking "@))) {
            Some(l) => Some(CommandView::Thinking(l)),
            None => Some(CommandView::ThinkingUsage),
        }
    } else {
        None
    }
}

/// What a (trimmed) line submitted in the full-screen mode asks for; a
/// line starting with `/` that names no command is `Unknown`.
pub open spec fn tui_command(s: Seq<char>) -> CommandView {
    if let Some(c) = key_or_quit_command(s) {
        c
    } else if let Some(c) = provider_command(s) {
        c
    } else if let Some(c) = model_command(s) {
        c
    } else if let Some(c) = skill_command(s) {
        c
    } else if has_prefix(s, "/"@) {
        CommandView::Unknown
    } else {
        CommandView::Prompt
    }
}

/// What a line typed in the line-based mode asks for, once trimmed: the
/// shared commands, `Empty` for a blank line, a prompt otherwise (this
/// mode has no model or thinking commands and sends unknown slash commands
/// on as prompts).
pub open spec fn repl_command(line: Seq<char>) -> CommandView {
    let s = trim_ws(line);
    if let Some(c) = key_or_quit_command(s) {
        c
    } else if let Some(c) = provider_command(s) {
        c
    } else if s.len() == 0 {
        CommandView::Empty
    } else if let Some(c) = skill_command(s) {
        c
    } else {
        CommandView::Prompt
    }
}

fn is_lit(s: &[char], lit: &str) -> (r: bool)
    ensures
        r == (s@ == lit@),
{
    let l = chars_of(lit);
    chars_eq(s, l.as_slice())
}

fn has_lit_prefix(s: &[char], lit: &str) -> (r: bool)
    ensures
        r == has_prefix(s@, lit@),
{
    let l = chars_of(lit);
    starts_with(s, l.as_slice())
}

/// The trimmed rest of `s` after the prefix `lit`.
fn trimmed_rest(s: &[char], lit: &str) -> (r: Vec<char>)
    requires
        has_prefix(s@, lit@),
    ensures
        r@ == trim_ws(after(s@, lit@)),
{
    let n = chars_of(lit).len();
    let rest = slice_chars(s, n, s.len());
    assert(rest@ =~= after(s@, lit@));
    trim_exec(rest.as_slice())
}

fn key_command_exec(v: Vec<char>) -> (r: SlashCommand)
    ensures
        r@ == key_command(v@),
{
    if v.len() == 0 {
        return SlashCommand::SetKeyUsage;
    }
    let lv = to_ascii_lowercase(v.as_slice());
    let lc = to_ascii_lowercase(chars_of("clear").as_slice());
    if chars_eq(lv.as_slice(), lc.as_slice()) {
        SlashCommand::ClearKey
    } else {
        SlashCommand::SetKey(string_of(v.as_slice()))
    }
}

fn key_or_quit_exec(s: &[char]) -> (r: Option<SlashCommand>)
    ensures
        match r {
            Some(c) => key_or_quit_command(s@) == Some(c@),
            None => key_or_quit_command(s@) is None,
        },
{
    if is_lit(s, "exit") || is_lit(s, "/quit") {
        Some(SlashCommand::Quit)
    } else if is_lit(s, "/setkey") || is_lit(s, "/apikey") {
        Some(SlashCommand::SetKeyUsage)
    } else if has_lit_prefix(s, "/setkey ") {
        Some(key_command_exec(trimmed_rest(s, "/setkey ")))
    } else if has_lit_prefix(s, "/apikey ") {
        Some(key_command_exec(trimmed_rest(s, "/apikey ")))
    } else {
        None
    }
}

fn provider_exec(s: &[char]) -> (r: Option<SlashCommand>)
    ensures
        match r {
            Some(c) => provider_command(s@) == Some(c@),
            None => provider_command(s@) is None,
        },
{
    if is_lit(s, "/providers") {
        Some(SlashCommand::Providers)
    } else if is_lit(s, "/provider") {
        Some(SlashCommand::ProviderStatus)
    } else if has_lit_prefix(s, "/provider ") {
        let n = trimmed_rest(s, "/provider ");
        if n.len() == 0 {
            Some(SlashCommand::ProviderUsage)
        } else {
            Some(SlashCommand::ProviderHint(string_of(n.as_slice())))
        }
    } else {
        None
    }
}

fn skill_exec(s: &[char]) -> (r: Option<SlashCommand>)
    ensures
        match r {
            Some(c) => skill_command(s@) == Some(c@),
            None => skill_command(s@) is None,
        },
{
    if is_lit(s, "/skills") || is_lit(s, "/skill:list") {
        Some(SlashCommand::SkillList)
    } else if is_lit(s, "/skill:clear") {
        Some(SlashCommand::SkillClear)
    } else if has_lit_prefix(s, "/skill:install ") {
        Some(SlashCommand::SkillInstall(string_of(trimmed_rest(s, "/skill:install ").as_slice())))
    } else if has_lit_prefix(s, "/skill:") {
        let n = trimmed_rest(s, "/skill:");
        if n.len() == 0 {
            Some(SlashCommand::SkillUsage)
        } else {
            Some(SlashCommand::SkillActivate(string_of(n.as_slice())))
        }
    } else {
        None
    }
}

fn model_exec(s: &[char]) -> (r: Option<SlashCommand>)
    ensures
        match r {
            Some(c) => model_command(s@) == Some(c@),
            None => model_command(s@) is None,
        },
{
    if is_lit(s, "/model") {
        Some(SlashCommand::ModelSelector)
    } else if has_lit_prefix(s, "/model ") {
        let q = trimmed_rest(s, "/model ");
        if q.len() == 0 {
            Some(SlashCommand::ModelUsage)
        } else {
            Some(SlashCommand::ModelQuery(string_of(q.as_slice())))
        }
    } else if is_lit(s, "/thinking") {
        Some(SlashCommand::ThinkingSelector)
    } else if has_lit_prefix(s, "/thinking ") {
        let v = trimmed_rest(s, "/thinking ");
        match parse_thinking_level(string_of(v.as_slice()).as_str()) {
            Some(l) => Some(SlashCommand::Thinking(l)),
            None => Some(SlashCommand::ThinkingUsage),
        }
    } else {
        None
    }
}

/// Reads a (trimmed) line submitted in the full-screen mode.
pub fn parse_tui_command(input: &str) -> (r: SlashCommand)
    ensures
        r@ == tui_command(input@),
{
    let c = chars_of(input);
    let s = c.as_slice();
    if let Some(r) = key_or_quit_exec(s) {
        r
    } else if let Some(r) = provider_exec(s) {
        r
    } else if let Some(r) = model_exec(s) {
        r
    } else if let Some(r) = skill_exec(s) {
        r
    } else if has_lit_prefix(s, "/") {
        SlashCommand::Unknown
    } else {
        SlashCommand::Prompt
    }
}

/// Reads a line typed in the line-based mode.
pub fn parse_repl_command(line: &str) -> (r: SlashCommand)
    ensures
        r@ == repl_command(line@),
{
    let c = chars_of(line);
    let t = trim_exec(c.as_slice());
    let s = t.as_slice();
    if let Some(r) = key_or_quit_exec(s) {
        r
    } else if let Some(r) = provider_exec(s) {
        r
    } else if s.len() == 0 {
        SlashCommand::Empty
    } else if let Some(r) = skill_exec(s) {
        r
    } else {
        SlashCommand::Prompt
    }
}

// ---------------------------------------------------------------------------
// Credentials
// ---------------------------------------------------------------------------

/// `n` asterisks.
pub open spec fn stars(n: nat) -> Seq<char> {
    Seq::new(n, |_i: int| '*')
}

/// A secret as it may be shown: at most eight characters become asterisks
/// (at least four of them); a longer one keeps its first and last four
/// characters around `***`.
pub open spec fn masked(secret: Seq<char>) -> Seq<char> {
    if secret.len() <= 8 {
        stars(if secret.len() >= 4 { secret.len() } else { 4 })
    } else {
        secret.take(4) + "***"@ + secret.skip(secret.len() - 4)
    }
}

/// Masks a secret for display.
pub fn mask_secret(secret: &str) -> (r: String)
    ensures
        r@ == masked(secret@),
{
    let c = chars_of(secret);
    let n = c.len();
    if n <= 8 {
        let m = if n >= 4 {
            n
        } else {
            4
        };
        let mut v: Vec<char> = Vec::new();
        let mut k: usize = 0;
        while k < m
            invariant
                k <= m,
                v@ == stars(k as nat),
            decreases m - k,
        {
            v.push('*');
            assert(stars((k + 1) as nat) =~= stars(k as nat).push('*'));
            k += 1;
        }
        return string_of(v.as_slice());
    }
    let mut v = slice_chars(c.as_slice(), 0, 4);
    extend_str(&mut v, "***");
    let tail = slice_chars(c.as_slice(), n - 4, n);
    extend_chars(&mut v, tail.as_slice());
    assert(c@.subrange(0, 4) =~= secret@.take(4));
    assert(c@.subrange(n - 4, n as int) =~= secret@.skip(secret@.len() - 4));
    string_of(v.as_slice())
}

/// The provider an API key's format points to: Anthropic keys start with
/// `sk-ant-`, OpenRouter keys with `sk-or-`, OpenAI keys with `sk-proj-` or
/// are other `sk-` keys longer than 20 bytes, Groq keys start with `gsk_`,
/// Google keys with `AIza`; anything else is unknown.
pub open spec fn provider_for_key(key: Seq<char>) -> Seq<char> {
    if has_prefix(key, "sk-ant-"@) {
        "anthropic"@
    } else if has_prefix(key, "sk-or-"@) {
        "openrouter"@
    } else if has_prefix(key, "sk-proj-"@) || (has_prefix(key, "sk-"@) && byte_len(key) > 20) {
        "openai"@
    } else if has_prefix(key, "gsk_"@) {
        "groq"@
    } else if has_prefix(key, "AIza"@) {
        "google"@
    } else {
        "unknown (try: anthropic, openai, google, groq, openrouter)"@
    }
}

/// Guesses the provider of an API key from its format.
pub fn detect_provider_from_key(key: &str) -> (r: &'static str)
    ensures
        r@ == provider_for_key(key@),
{
    let c = chars_of(key);
    let s = c.as_slice();
    if has_lit_prefix(s, "sk-ant-") {
        "anthropic"
    } else if has_lit_prefix(s, "sk-or-") {
        "openrouter"
    } else if has_lit_prefix(s, "sk-proj-") || (has_lit_prefix(s, "sk-") && !crate::text::byte_len_at_most(
        s,
        20,
    )) {
        "openai"
    } else if has_lit_prefix(s, "gsk_") {
        "groq"
    } else if has_lit_prefix(s, "AIza") {
        "google"
    } else {
        "unknown (try: anthropic, openai, google, groq, openrouter)"
    }
}

// ---------------------------------------------------------------------------
// Completion
// ---------------------------------------------------------------------------

/// The views of string literals.
pub open spec fn lit_views(items: Seq<&str>) -> Seq<Seq<char>> {
    items.map_values(|s: &str| s@)
}

/// `head` followed by each of `cs` that starts with `p`, in order.
pub open spec fn keep_prefixed(cs: Seq<Seq<char>>, head: Seq<char>, p: Seq<char>) -> Seq<Seq<char>>
    decreases cs.len(),
{
    if cs.len() == 0 {
        seq![]
    } else {
        keep_prefixed(cs.drop_last(), head, p) + if has_prefix(cs.last(), p) {
            seq![head + cs.last()]
        } else {
            seq![]
        }
    }
}

fn push_matching(out: &mut Vec<String>, items: &Vec<&str>, head: &[char], p: &[char])
    ensures
        views_of(final(out)@) == views_of(old(out)@) + keep_prefixed(lit_views(items@), head@, p@),
{
    let mut i: usize = 0;
    while i < items.len()
        invariant
            i <= items@.len(),
            views_of(out@) == views_of(old(out)@) + keep_prefixed(lit_views(items@).take(i as int), head@, p@),
        decreases items.len() - i,
    {
        let item = chars_of(items[i]);
        let ghost before = views_of(out@);
        proof {
            let t = lit_views(items@).take(i + 1);
            assert(t.drop_last() =~= lit_views(items@).take(i as int));
            assert(t.last() == items@[i as int]@);
        }
        if starts_with(item.as_slice(), p) {
            let mut v = crate::text::copy_chars(head);
            extend_chars(&mut v, item.as_slice());
            out.push(string_of(v.as_slice()));
            assert(views_of(out@) =~= before + seq![head@ + items@[i as int]@]);
        } else {
            assert(views_of(out@) =~= before + Seq::<Seq<char>>::empty());
        }
        i += 1;
    }
    assert(lit_views(items@).take(items@.len() as int) =~= lit_views(items@));
}

/// The commands the line-based mode completes.
pub open spec fn repl_commands() -> Seq<Seq<char>> {
    seq![
        "/skills"@,
        "/skill:list"@,
        "/skill:clear"@,
        "/skill:install "@,
        "/setkey "@,
        "/apikey "@,
        "/providers"@,
        "/provider "@,
        "/quit"@,
        "exit"@,
    ]
}

/// The completions of a line in the line-based mode: the commands it
/// starts, for an empty line or one starting with `/`; none otherwise.
pub open spec fn repl_completions(line: Seq<char>) -> Seq<Seq<char>> {
    if line.len() == 0 || has_prefix(line, "/"@) {
        keep_prefixed(repl_commands(), seq![], line)
    } else {
        seq![]
    }
}

/// Completes a line in the line-based mode.
pub fn complete_repl_line(line: &str) -> (r: Vec<String>)
    ensures
        views_of(r@) == repl_completions(line@),
{
    let mut out: Vec<String> = Vec::new();
    let c = chars_of(line);
    if c.len() == 0 || has_lit_prefix(c.as_slice(), "/") {
        let items = vec![
            "/skills",
            "/skill:list",
            "/skill:clear",
            "/skill:install ",
            "/setkey ",
            "/apikey ",
            "/providers",
            "/provider ",
            "/quit",
            "exit",
        ];
        assert(lit_views(items@) =~= repl_commands());
        let empty: Vec<char> = Vec::new();
        push_matching(&mut out, &items, empty.as_slice(), c.as_slice());
        assert(views_of(out@) =~= keep_prefixed(repl_commands(), seq![], line@));
    } else {
        assert(views_of(out@) =~= Seq::<Seq<char>>::empty());
    }
    out
}

/// The commands the full-screen mode completes.
pub open spec fn slash_commands() -> Seq<Seq<char>> {
    seq![
        "/quit"@,
        "/setkey "@,
        "/setkey clear"@,
        "/apikey "@,
        "/apikey clear"@,
        "/providers"@,
        "/provider "@,
        "/model"@,
        "/model "@,
        "/thinking"@,
        "/thinking "@,
        "/skills"@,
        "/skill:list"@,
        "/skill:clear"@,
        "/skill:install "@,
    ]
}

/// The provider names `/provider ` completes.
pub open spec fn provider_names() -> Seq<Seq<char>> {
    seq!["anthropic"@, "openai"@, "google"@, "groq"@, "openrouter"@, "azure"@, "bedrock"@]
}

/// The level names `/thinking ` completes.
pub open spec fn level_names() -> Seq<Seq<char>> {
    seq!["off"@, "minimal"@, "low"@, "medium"@, "high"@, "xhigh"@]
}

/// `/skill:<name>` for each name whose command starts with `lower`,
/// ASCII case ignored on the command's side.
pub open spec fn skill_candidates(names: Seq<Seq<char>>, lower: Seq<char>) -> Seq<Seq<char>>
    decreases names.len(),
{
    if names.len() == 0 {
        seq![]
    } else {
        let c = "/skill:"@ + names.last();
        skill_candidates(names.drop_last(), lower) + if has_prefix(ascii_lower_seq(c), lower) {
            seq![c]
        } else {
            seq![]
        }
    }
}

/// The completions of a partly typed slash command (ASCII case ignored):
/// the commands it starts; after `/provider ` the providers, after
/// `/thinking ` the levels, after `/skill:` the skills whose name
/// continues it. Nothing for text that does not start with `/`.
pub open spec fn slash_candidates(partial: Seq<char>, names: Seq<Seq<char>>) -> Seq<Seq<char>> {
    if partial.len() == 0 || !has_prefix(partial, "/"@) {
        seq![]
    } else {
        let lower = ascii_lower_seq(partial);
        keep_prefixed(slash_commands(), seq![], lower) + (if has_prefix(lower, "/provider "@) {
            keep_prefixed(provider_names(), "/provider "@, after(lower, "/provider "@))
        } else {
            seq![]
        }) + (if has_prefix(lower, "/thinking "@) {
            keep_prefixed(level_names(), "/thinking "@, after(lower, "/thinking "@))
        } else {
            seq![]
        }) + (if has_prefix(lower, "/skill:"@) {
            skill_candidates(names, lower)
        } else {
            seq![]
        })
    }
}

/// The names of the skills of a catalog, in its order.
pub open spec fn catalog_names(catalog: SkillCatalog) -> Seq<Seq<char>> {
    catalog.listing().map_values(|s: SkillView| s.name)
}

/// The completions of a partly typed slash command.
pub fn slash_completion_candidates(partial: &str, catalog: &SkillCatalog) -> (r: Vec<String>)
    ensures
        views_of(r@) == slash_candidates(partial@, catalog_names(*catalog)),
{
    let mut out: Vec<String> = Vec::new();
    let c = chars_of(partial);
    if c.len() == 0 || !has_lit_prefix(c.as_slice(), "/") {
        assert(views_of(out@) =~= Seq::<Seq<char>>::empty());
        return out;
    }
    let lower = to_ascii_lowercase(c.as_slice());
    let statics = vec![
        "/quit",
        "/setkey ",
        "/setkey clear",
        "/apikey ",
        "/apikey clear",
        "/providers",
        "/provider ",
        "/model",
        "/model ",
        "/thinking",
        "/thinking ",
        "/skills",
        "/skill:list",
        "/skill:clear",
        "/skill:install ",
    ];
    assert(lit_views(statics@) =~= slash_commands());
    let empty: Vec<char> = Vec::new();
    push_matching(&mut out, &statics, empty.as_slice(), lower.as_slice());
    let ghost a = views_of(out@);
    if has_lit_prefix(lower.as_slice(), "/provider ") {
        let providers = vec!["anthropic", "openai", "google", "groq", "openrouter", "azure", "bedrock"];
        assert(lit_views(providers@) =~= provider_names());
        let n = chars_of("/provider ").len();
        let arg = slice_chars(lower.as_slice(), n, lower.len());
        assert(arg@ =~= after(lower@, "/provider "@));
        let head = chars_of("/provider ");
        push_matching(&mut out, &providers, head.as_slice(), arg.as_slice());
    } else {
        assert(views_of(out@) =~= a + Seq::<Seq<char>>::empty());
    }
    let ghost b = views_of(out@);
    if has_lit_prefix(lower.as_slice(), "/thinking ") {
        let levels = vec!["off", "minimal", "low", "medium", "high", "xhigh"];
        assert(lit_views(levels@) =~= level_names());
        let n = chars_of("/thinking ").len();
        let arg = slice_chars(lower.as_slice(), n, lower.len());
        assert(arg@ =~= after(lower@, "/thinking "@));
        let head = chars_of("/thinking ");
        push_matching(&mut out, &levels, head.as_slice(), arg.as_slice());
    } else {
        assert(views_of(out@) =~= b + Seq::<Seq<char>>::empty());
    }
    let ghost d = views_of(out@);
    if has_lit_prefix(lower.as_slice(), "/skill:") {
        let names = catalog.names();
        let ghost nv = catalog_names(*catalog);
        assert(views_of(names@) == nv);
        let mut i: usize = 0;
        while i < names.len()
            invariant
                i <= names@.len(),
                views_of(names@) == nv,
                views_of(out@) == d + skill_candidates(nv.take(i as int), lower@),
            decreases names.len() - i,
        {
            let mut cand = chars_of("/skill:");
            extend_str(&mut cand, names[i].as_str());
            let lc = to_ascii_lowercase(cand.as_slice());
            let ghost before = views_of(out@);
            proof {
                let t = nv.take(i + 1);
                assert(t.drop_last() =~= nv.take(i as int));
                assert(t.last() == names@[i as int]@);
            }
            if starts_with(lc.as_slice(), lower.as_slice()) {
                out.push(string_of(cand.as_slice()));
                assert(views_of(out@) =~= before + seq![cand@]);
            } else {
                assert(views_of(out@) =~= before + Seq::<Seq<char>>::empty());
            }
            i += 1;
        }
        assert(nv.take(names@.len() as int) =~= nv);
    } else {
        assert(views_of(out@) =~= d + Seq::<Seq<char>>::empty());
    }
    proof {
        let k = keep_prefixed(slash_commands(), seq![], lower@);
        assert(views_of(out@) =~= slash_candidates(partial@, catalog_names(*catalog)));
    }
    out
}

// ---------------------------------------------------------------------------
// Common prefixes and ordering of candidates
// ---------------------------------------------------------------------------

/// How far `a` and `b` agree, counting on from `i`.
pub open spec fn common_len(a: Seq<char>, b: Seq<char>, i: nat) -> nat
    decreases a.len() - i,
{
    if i < a.len() && i < b.len() && a[i as int] == b[i as int] {
        common_len(a, b, i + 1)
    } else {
        i
    }
}

/// The longest prefix `a` and `b` share.
pub open spec fn common_prefix(a: Seq<char>, b: Seq<char>) -> Seq<char> {
    a.take(common_len(a, b, 0) as int)
}

/// The longest prefix all of `vs` share (empty for no values).
pub open spec fn lcp_of(vs: Seq<Seq<char>>) -> Seq<char>
    decreases vs.len(),
{
    if vs.len() == 0 {
        seq![]
    } else if vs.len() == 1 {
        vs[0]
    } else {
        common_prefix(lcp_of(vs.drop_last()), vs.last())
    }
}

proof fn lemma_common_len(a: Seq<char>, b: Seq<char>, i: nat)
    requires
        i <= a.len(),
        i <= b.len(),
        forall|j: int| 0 <= j < i ==> a[j] == b[j],
    ensures
        i <= common_len(a, b, i) <= a.len(),
        common_len(a, b, i) <= b.len(),
        forall|j: int| 0 <= j < common_len(a, b, i) ==> a[j] == b[j],
        common_len(a, b, i) == a.len() || common_len(a, b, i) == b.len() || a[common_len(a, b, i) as int]
            != b[common_len(a, b, i) as int],
    decreases a.len() - i,
{
    if i < a.len() && i < b.len() && a[i as int] == b[i as int] {
        lemma_common_len(a, b, i + 1);
    }
}

proof fn lemma_common_prefix(a: Seq<char>, b: Seq<char>)
    ensures
        has_prefix(a, common_prefix(a, b)),
        has_prefix(b, common_prefix(a, b)),
        forall|q: Seq<char>| has_prefix(a, q) && has_prefix(b, q) ==> q.len() <= common_prefix(a, b).len(),
{
    lemma_common_len(a, b, 0);
    let k = common_len(a, b, 0);
    let c = common_prefix(a, b);
    assert(b.take(k as int) =~= c);
    assert(a.take(k as int) =~= c);
    assert forall|q: Seq<char>| has_prefix(a, q) && has_prefix(b, q) implies q.len() <= c.len() by {
        if q.len() > k {
            assert(a.take(q.len() as int)[k as int] == q[k as int]);
            assert(b.take(q.len() as int)[k as int] == q[k as int]);
        }
    }
}

/// Whether `q` is a prefix of each of `vs`.
pub open spec fn prefix_of_all(vs: Seq<Seq<char>>, q: Seq<char>) -> bool {
    forall|i: int| 0 <= i < vs.len() ==> has_prefix(#[trigger] vs[i], q)
}

/// The longest common prefix of several values is a prefix of each of them,
/// and no longer string is.
pub proof fn lcp_is_longest_common_prefix(vs: Seq<Seq<char>>)
    requires
        vs.len() > 0,
    ensures
        forall|i: int| 0 <= i < vs.len() ==> has_prefix(#[trigger] vs[i], lcp_of(vs)),
        forall|q: Seq<char>| #[trigger] prefix_of_all(vs, q) ==> q.len() <= lcp_of(vs).len(),
    decreases vs.len(),
{
    if vs.len() == 1 {
        assert(vs[0].take(vs[0].len() as int) =~= vs[0]);
        assert forall|q: Seq<char>| #[trigger] prefix_of_all(vs, q) implies q.len() <= lcp_of(vs).len() by {
            assert(has_prefix(vs[0], q));
        }
    } else {
        let init = vs.drop_last();
        lcp_is_longest_common_prefix(init);
        let p = lcp_of(init);
        lemma_common_prefix(p, vs.last());
        let c = lcp_of(vs);
        assert forall|i: int| 0 <= i < vs.len() implies has_prefix(#[trigger] vs[i], c) by {
            if i < vs.len() - 1 {
                assert(init[i] == vs[i]);
                assert(has_prefix(vs[i], p));
                assert(vs[i].take(c.len() as int) =~= p.take(c.len() as int));
                assert(p.take(c.len() as int) =~= c);
            }
        }
        assert forall|q: Seq<char>| #[trigger] prefix_of_all(vs, q) implies q.len() <= c.len() by {
            assert forall|i: int| 0 <= i < init.len() implies has_prefix(#[trigger] init[i], q) by {
                assert(init[i] == vs[i]);
            }
            assert(prefix_of_all(init, q));
            assert(q.len() <= p.len());
            assert(has_prefix(vs[vs.len() - 1], q));
            assert(p.take(q.len() as int) =~= q) by {
                assert(has_prefix(init[0], p));
                assert(has_prefix(init[0], q));
                assert forall|j: int| 0 <= j < q.len() implies p.take(q.len() as int)[j] == q[j] by {
                    assert(init[0].take(p.len() as int)[j] == p[j]);
                    assert(init[0].take(q.len() as int)[j] == q[j]);
                }
            }
        }
    }
}

/// The longest prefix all the values share.
pub fn longest_common_prefix(values: &[String]) -> (r: String)
    ensures
        r@ == lcp_of(values@.map_values(|s: String| s@)),
{
    let ghost vs = values@.map_values(|s: String| s@);
    if values.len() == 0 {
        return String::new();
    }
    let mut prefix = chars_of(values[0].as_str());
    let mut i: usize = 1;
    assert(vs.take(1).drop_last().len() == 0);
    assert(lcp_of(vs.take(1)) == vs[0]);
    while i < values.len()
        invariant
            1 <= i <= values@.len(),
            vs == values@.map_values(|s: String| s@),
            prefix@ == lcp_of(vs.take(i as int)),
        decreases values.len() - i,
    {
        let v = chars_of(values[i].as_str());
        let mut k: usize = 0;
        while k < prefix.len() && k < v.len() && prefix[k] == v[k]
            invariant
                k <= prefix@.len(),
                k <= v@.len(),
                common_len(prefix@, v@, k as nat) == common_len(prefix@, v@, 0),
            decreases prefix.len() - k,
        {
            k += 1;
        }
        let next = slice_chars(prefix.as_slice(), 0, k);
        proof {
            assert(next@ =~= common_prefix(prefix@, v@));
            let t = vs.take(i + 1);
            assert(t.drop_last() =~= vs.take(i as int));
            assert(t.last() == v@);
        }
        prefix = next;
        i += 1;
    }
    assert(vs.take(values@.len() as int) =~= vs);
    string_of(prefix.as_slice())
}

/// The key candidates are ordered and deduplicated by: ASCII lowercase.
pub open spec fn case_key(c: Seq<char>) -> Seq<char> {
    ascii_lower_seq(c)
}

/// How many of `s` have a key before `k`.
pub open spec fn count_below(s: Seq<Seq<char>>, k: Seq<char>) -> nat
    decreases s.len(),
{
    if s.len() == 0 {
        0
    } else {
        count_below(s.drop_last(), k) + if seq_lt(case_key(s.last()), k) {
            1nat
        } else {
            0nat
        }
    }
}

/// Whether one of `s` has the key `k`.
pub open spec fn has_case_key(s: Seq<Seq<char>>, k: Seq<char>) -> bool {
    exists|j: int| 0 <= j < s.len() && case_key(#[trigger] s[j]) == k
}

/// `c` put in its place by key, unless a candidate with its key is
/// already there.
pub open spec fn insert_keyed(s: Seq<Seq<char>>, c: Seq<char>) -> Seq<Seq<char>> {
    if has_case_key(s, case_key(c)) {
        s
    } else {
        s.insert(count_below(s, case_key(c)) as int, c)
    }
}

/// The candidates ordered by key, each key kept once, with the first
/// candidate that had it (a stable sort by key followed by dropping
/// case-insensitive repeats).
pub open spec fn ordered_unique(cs: Seq<Seq<char>>) -> Seq<Seq<char>>
    decreases cs.len(),
{
    if cs.len() == 0 {
        seq![]
    } else {
        insert_keyed(ordered_unique(cs.drop_last()), cs.last())
    }
}

/// The keys of `s` strictly increase.
pub open spec fn keys_increasing(s: Seq<Seq<char>>) -> bool {
    forall|i: int, j: int| 0 <= i < j < s.len() ==> seq_lt(case_key(#[trigger] s[i]), case_key(#[trigger] s[j]))
}

proof fn lemma_count_below_prefix(s: Seq<Seq<char>>, k: Seq<char>, n: int)
    requires
        0 <= n <= s.len(),
        forall|j: int| 0 <= j < n ==> seq_lt(case_key(#[trigger] s[j]), k),
        forall|j: int| n <= j < s.len() ==> !seq_lt(case_key(#[trigger] s[j]), k),
    ensures
        count_below(s, k) == n,
    decreases s.len(),
{
    if s.len() > 0 {
        let init = s.drop_last();
        if n == s.len() {
            lemma_count_below_prefix(init, k, n - 1);
        } else {
            lemma_count_below_prefix(init, k, n);
        }
    }
}

fn insert_keyed_exec(out: &mut Vec<Vec<char>>, keys: &mut Vec<Vec<char>>, c: &[char])
    requires
        old(keys)@.len() == old(out)@.len(),
        forall|j: int| 0 <= j < old(out)@.len() ==> (#[trigger] old(keys)@[j])@ == case_key(old(out)@[j]@),
        keys_increasing(old(out)@.map_values(|v: Vec<char>| v@)),
    ensures
        final(keys)@.len() == final(out)@.len(),
        forall|j: int| 0 <= j < final(out)@.len() ==> (#[trigger] final(keys)@[j])@ == case_key(final(out)@[j]@),
        keys_increasing(final(out)@.map_values(|v: Vec<char>| v@)),
        final(out)@.map_values(|v: Vec<char>| v@) == insert_keyed(old(out)@.map_values(|v: Vec<char>| v@), c@),
{
    let ghost s = out@.map_values(|v: Vec<char>| v@);
    let k = to_ascii_lowercase(c);
    let mut i: usize = 0;
    while i < keys.len() && lt_chars(keys[i].as_slice(), k.as_slice())
        invariant
            i <= keys@.len(),
            keys@.len() == out@.len(),
            s == out@.map_values(|v: Vec<char>| v@),
            forall|j: int| 0 <= j < out@.len() ==> (#[trigger] keys@[j])@ == case_key(out@[j]@),
            forall|j: int| 0 <= j < i ==> seq_lt(case_key(#[trigger] s[j]), k@),
        decreases keys.len() - i,
    {
        i += 1;
    }
    proof {
        assert forall|j: int| i <= j < s.len() implies !seq_lt(case_key(#[trigger] s[j]), k@)
            && (j > i ==> seq_lt(k@, case_key(s[j])) || case_key(s[i as int]) == k@) by {
            let ki = case_key(s[i as int]);
            assert(keys@[i as int]@ == ki);
            assert(!seq_lt(ki, k@));
            if j > i {
                assert(seq_lt(ki, case_key(s[j])));
                lemma_lt_total(ki, k@);
                if ki != k@ {
                    lemma_lt_transitive(k@, ki, case_key(s[j]));
                }
                lemma_lt_total(case_key(s[j]), k@);
            }
        }
    }
    if i < keys.len() && chars_eq(keys[i].as_slice(), k.as_slice()) {
        proof {
            assert(case_key(s[i as int]) == k@);
            assert(has_case_key(s, case_key(c@)));
        }
        return;
    }
    proof {
        assert(!has_case_key(s, case_key(c@))) by {
            assert forall|j: int| 0 <= j < s.len() implies case_key(#[trigger] s[j]) != k@ by {
                if j < i {
                    lemma_lt_irreflexive(k@);
                } else if j == i {
                } else {
                    lemma_lt_irreflexive(k@);
                }
            }
        }
        lemma_count_below_prefix(s, k@, i as int);
    }
    out.insert(i, crate::text::copy_chars(c));
    keys.insert(i, k);
    proof {
        let s2 = out@.map_values(|v: Vec<char>| v@);
        assert(s2 =~= s.insert(i as int, c@));
        assert forall|a: int, b: int| 0 <= a < b < s2.len() implies seq_lt(case_key(#[trigger] s2[a]), case_key(#[trigger] s2[b])) by {
            if b < i {
                assert(s2[a] == s[a] && s2[b] == s[b]);
            } else if b == i {
                assert(s2[a] == s[a]);
            } else if a == i {
                assert(s2[b] == s[b - 1]);
                lemma_lt_total(case_key(s[b - 1]), k@);
            } else if a < i {
                assert(s2[a] == s[a] && s2[b] == s[b - 1]);
            } else {
                assert(s2[a] == s[a - 1] && s2[b] == s[b - 1]);
            }
        }
        assert forall|j: int| 0 <= j < out@.len() implies (#[trigger] keys@[j])@ == case_key(out@[j]@) by {
            if j < i {
            } else if j == i {
            } else {
            }
        }
    }
}

/// Orders candidates by key, keeping the first candidate of each key.
pub fn order_candidates(cs: &Vec<Vec<char>>) -> (r: Vec<Vec<char>>)
    ensures
        r@.map_values(|v: Vec<char>| v@) == ordered_unique(cs@.map_values(|v: Vec<char>| v@)),
        keys_increasing(r@.map_values(|v: Vec<char>| v@)),
{
    let ghost cv = cs@.map_values(|v: Vec<char>| v@);
    let mut out: Vec<Vec<char>> = Vec::new();
    let mut keys: Vec<Vec<char>> = Vec::new();
    let mut i: usize = 0;
    assert(out@.map_values(|v: Vec<char>| v@) =~= ordered_unique(cv.take(0)));
    while i < cs.len()
        invariant
            i <= cs@.len(),
            cv == cs@.map_values(|v: Vec<char>| v@),
            keys@.len() == out@.len(),
            forall|j: int| 0 <= j < out@.len() ==> (#[trigger] keys@[j])@ == case_key(out@[j]@),
            keys_increasing(out@.map_values(|v: Vec<char>| v@)),
            out@.map_values(|v: Vec<char>| v@) == ordered_unique(cv.take(i as int)),
        decreases cs.len() - i,
    {
        insert_keyed_exec(&mut out, &mut keys, cs[i].as_slice());
        proof {
            let t = cv.take(i + 1);
            assert(t.drop_last() =~= cv.take(i as int));
            assert(t.last() == cs@[i as int]@);
        }
        i += 1;
    }
    assert(cv.take(cs@.len() as int) =~= cv);
    out
}

// ---------------------------------------------------------------------------
// Tab completion in the full-screen mode
// ---------------------------------------------------------------------------

/// What pressing Tab does to the editor.
#[derive(Debug)]
pub enum Autocomplete {
    /// Nothing to complete: the key goes to the editor.
    NotApplied,
    /// Completed already: nothing changes.
    Unchanged,
    /// The editor's text becomes this, the cursor at its end.
    SetValue(String),
    /// The candidates are listed as this system notice.
    Suggest(String),
}

/// An [`Autocomplete`] with its string as characters.
pub enum AutocompleteView {
    NotApplied,
    Unchanged,
    SetValue(Seq<char>),
    Suggest(Seq<char>),
}

impl View for Autocomplete {
    type V = AutocompleteView;

    open spec fn view(&self) -> AutocompleteView {
        match self {
            Autocomplete::NotApplied => AutocompleteView::NotApplied,
            Autocomplete::Unchanged => AutocompleteView::Unchanged,
            Autocomplete::SetValue(s) => AutocompleteView::SetValue(s@),
            Autocomplete::Suggest(s) => AutocompleteView::Suggest(s@),
        }
    }
}

/// The notice listing candidates: the first six, two spaces apart, with
/// `  ...` when there are more.
pub open spec fn suggestion(o: Seq<Seq<char>>) -> Seq<char> {
    "[suggest] "@ + join(o.take(if o.len() < 6 { o.len() as int } else { 6 }), "  "@) + if o.len() > 6 {
        "  ..."@
    } else {
        seq![]
    }
}

/// What Tab does to the single-line text `current`, given the skill names:
/// the candidates for the text after its leading whitespace, ordered and
/// deduplicated by key; one candidate replaces the text (leading whitespace
/// kept); several replace it with their longest common prefix when that is
/// longer, in UTF-8 bytes, than what was typed, and are listed otherwise.
pub open spec fn autocomplete(current: Seq<char>, names: Seq<Seq<char>>) -> AutocompleteView {
    let typed = trim_start_ws(current);
    let ws = current.take(current.len() - typed.len());
    let cands = slash_candidates(typed, names);
    let o = ordered_unique(cands);
    if find_char(current, '\n') is Some || cands.len() == 0 {
        AutocompleteView::NotApplied
    } else if o.len() == 1 {
        if ws + o[0] == current {
            AutocompleteView::Unchanged
        } else {
            AutocompleteView::SetValue(ws + o[0])
        }
    } else if crate::text::byte_len(lcp_of(o)) > crate::text::byte_len(typed) {
        AutocompleteView::SetValue(ws + lcp_of(o))
    } else {
        AutocompleteView::Suggest(suggestion(o))
    }
}

proof fn lemma_count_below_len(s: Seq<Seq<char>>, k: Seq<char>)
    ensures
        count_below(s, k) <= s.len(),
    decreases s.len(),
{
    if s.len() > 0 {
        lemma_count_below_len(s.drop_last(), k);
    }
}

proof fn lemma_insert_keyed_nonempty(s: Seq<Seq<char>>, c: Seq<char>)
    ensures
        insert_keyed(s, c).len() >= 1,
        insert_keyed(s, c).len() >= s.len(),
{
    lemma_count_below_len(s, case_key(c));
}

proof fn lemma_ordered_unique_len(cs: Seq<Seq<char>>)
    ensures
        cs.len() > 0 ==> ordered_unique(cs).len() >= 1,
    decreases cs.len(),
{
    if cs.len() > 0 {
        lemma_insert_keyed_nonempty(ordered_unique(cs.drop_last()), cs.last());
    }
}

/// Decides what Tab does to the editor's text `current`.
pub fn slash_autocomplete(current: &str, catalog: &SkillCatalog) -> (r: Autocomplete)
    ensures
        r@ == autocomplete(current@, catalog_names(*catalog)),
{
    let c = chars_of(current);
    let typed = trim_start_exec(c.as_slice());
    proof {
        crate::text::lemma_trim_start_len(current@);
    }
    let ghost ws = current@.take(current@.len() - typed@.len());
    let nws = c.len() - typed.len();
    let lead = slice_chars(c.as_slice(), 0, nws);
    assert(lead@ =~= ws);
    let cand_strings = slash_completion_candidates(string_of(typed.as_slice()).as_str(), catalog);
    let mut cands: Vec<Vec<char>> = Vec::new();
    let mut i: usize = 0;
    while i < cand_strings.len()
        invariant
            i <= cand_strings@.len(),
            cands@.map_values(|v: Vec<char>| v@) == views_of(cand_strings@).take(i as int),
        decreases cand_strings.len() - i,
    {
        cands.push(chars_of(cand_strings[i].as_str()));
        assert(views_of(cand_strings@).take(i + 1) =~= views_of(cand_strings@).take(i as int).push(cand_strings@[i as int]@));
        assert(cands@.map_values(|v: Vec<char>| v@) =~= views_of(cand_strings@).take(i + 1));
        i += 1;
    }
    assert(views_of(cand_strings@).take(cand_strings@.len() as int) =~= views_of(cand_strings@));
    if find_char_exec(c.as_slice(), '\n').is_some() || cands.len() == 0 {
        return Autocomplete::NotApplied;
    }
    let o = order_candidates(&cands);
    let ghost ov = o@.map_values(|v: Vec<char>| v@);
    proof {
        lemma_ordered_unique_len(cands@.map_values(|v: Vec<char>| v@));
    }
    if o.len() == 1 {
        let mut done = crate::text::copy_chars(lead.as_slice());
        extend_chars(&mut done, o[0].as_slice());
        if chars_eq(done.as_slice(), c.as_slice()) {
            return Autocomplete::Unchanged;
        }
        return Autocomplete::SetValue(string_of(done.as_slice()));
    }
    let mut ostr: Vec<String> = Vec::new();
    let mut j: usize = 0;
    while j < o.len()
        invariant
            j <= o@.len(),
            ov == o@.map_values(|v: Vec<char>| v@),
            views_of(ostr@) == ov.take(j as int),
        decreases o.len() - j,
    {
        let ghost before = views_of(ostr@);
        ostr.push(string_of(o[j].as_slice()));
        assert(views_of(ostr@) =~= before.push(ov[j as int]));
        assert(views_of(ostr@) =~= ov.take(j + 1));
        j += 1;
    }
    assert(ov.take(o@.len() as int) =~= ov);
    let common = chars_of(longest_common_prefix(ostr.as_slice()).as_str());
    if crate::text::byte_count(common.as_slice()) > crate::text::byte_count(typed.as_slice()) {
        let mut done = crate::text::copy_chars(lead.as_slice());
        extend_chars(&mut done, common.as_slice());
        return Autocomplete::SetValue(string_of(done.as_slice()));
    }
    let shown = if o.len() < 6 {
        o.len()
    } else {
        6
    };
    let preview = join_range(&o, 0, shown, chars_of("  ").as_slice());
    assert(ov.subrange(0, shown as int) =~= ov.take(shown as int));
    let mut msg = chars_of("[suggest] ");
    extend_chars(&mut msg, preview.as_slice());
    if o.len() > 6 {
        extend_str(&mut msg, "  ...");
    } else {
        assert(msg@ =~= msg@ + Seq::<char>::empty());
    }
    Autocomplete::Suggest(string_of(msg.as_slice()))
}

// ---------------------------------------------------------------------------
// The line-based mode's event output
// ---------------------------------------------------------------------------

/// Whether an answer to `Allow? [y/N]` allows: `y` or `yes` once trimmed
/// and lowercased.
pub open spec fn allows(answer: Seq<char>) -> bool {
    crate::text::lowercase(trim_ws(answer)) == "y"@ || crate::text::lowercase(trim_ws(answer)) == "yes"@
}

/// Reads the answer to a tool approval prompt.
pub fn approval_answer(answer: &str) -> (r: bool)
    ensures
        r == allows(answer@),
{
    let t = trim_exec(chars_of(answer).as_slice());
    let l = crate::text::to_lowercase(string_of(t.as_slice()).as_str());
    let lc = chars_of(l.as_str());
    is_lit(lc.as_slice(), "y") || is_lit(lc.as_slice(), "yes")
}

/// The line shown when a tool finishes: its name, `ok` or `error`, the
/// time taken, and the first 200 characters of the result, with `...`
/// when the result is longer than 200 bytes.
pub open spec fn tool_end_line(tool_name: Seq<char>, is_error: bool, duration_ms: nat, result: Seq<char>) -> Seq<
    char,
> {
    "[tool: "@ + tool_name + " -> "@ + (if is_error {
        "error"@
    } else {
        "ok"@
    }) + " in "@ + crate::text::decimal(duration_ms) + "ms] "@ + result.take(
        if result.len() < 200 { result.len() as int } else { 200 },
    ) + if byte_len(result) > 200 {
        "..."@
    } else {
        seq![]
    }
}

/// Formats the line shown when a tool finishes.
pub fn format_tool_end(tool_name: &str, is_error: bool, duration_ms: u64, result: &str) -> (r: String)
    ensures
        r@ == tool_end_line(tool_name@, is_error, duration_ms as nat, result@),
{
    let mut v = chars_of("[tool: ");
    extend_str(&mut v, tool_name);
    extend_str(&mut v, " -> ");
    if is_error {
        extend_str(&mut v, "error");
    } else {
        extend_str(&mut v, "ok");
    }
    extend_str(&mut v, " in ");
    crate::text::push_decimal_u64(&mut v, duration_ms);
    extend_str(&mut v, "ms] ");
    let rc = chars_of(result);
    let n = if rc.len() < 200 {
        rc.len()
    } else {
        200
    };
    let head = slice_chars(rc.as_slice(), 0, n);
    assert(head@ =~= result@.take(n as int));
    extend_chars(&mut v, head.as_slice());
    if !crate::text::byte_len_at_most(rc.as_slice(), 200) {
        extend_str(&mut v, "...");
    } else {
        assert(v@ =~= v@ + Seq::<char>::empty());
    }
    string_of(v.as_slice())
}

// ---------------------------------------------------------------------------
// Skill listing
// ---------------------------------------------------------------------------

/// One line of the skill listing: `*` for an active skill (by its exact
/// name), then name, description and path.
pub open spec fn skill_list_line(active: bool, s: SkillView) -> Seq<char> {
    "["@ + (if active {
        "*"@
    } else {
        " "@
    }) + "] "@ + s.name + " - "@ + s.description + " ("@ + s.path + ")"@
}

/// The listing lines for the names `names`, each looked up in the catalog.
pub open spec fn skill_list_lines(catalog: SkillCatalog, active: Seq<Seq<char>>, names: Seq<Seq<char>>) -> Seq<
    Seq<char>,
>
    decreases names.len(),
{
    if names.len() == 0 {
        seq![]
    } else {
        skill_list_lines(catalog, active, names.drop_last()) + match catalog.lookup_skill(names.last()) {
            Some(s) => seq![skill_list_line(active.contains(names.last()), s)],
            None => seq![],
        }
    }
}

/// The skill listing: a notice when there are no skills, otherwise one line
/// per skill in name order.
pub open spec fn skill_list_text(catalog: SkillCatalog, active: Set<Seq<char>>) -> Seq<char> {
    if catalog_names(catalog).len() == 0 {
        "[skills] none found under ~/.pi/skills or .pi/skills"@
    } else {
        crate::text::join(skill_list_lines(catalog, sorted_listing(active), catalog_names(catalog)), "\n"@)
    }
}

/// Lists the skills of a catalog, marking the active ones.
pub fn render_skill_list(catalog: &SkillCatalog, active: &ActiveSkills) -> (r: String)
    requires
        catalog.wf(),
        active.wf(),
    ensures
        r@ == skill_list_text(*catalog, active@),
{
    if catalog.is_empty() {
        return "[skills] none found under ~/.pi/skills or .pi/skills".to_string();
    }
    let active_names = active.list();
    let names = catalog.names();
    let ghost nv = catalog_names(*catalog);
    let ghost av = sorted_listing(active@);
    let mut lines: Vec<Vec<char>> = Vec::new();
    let mut i: usize = 0;
    while i < names.len()
        invariant
            i <= names@.len(),
            views_of(names@) == nv,
            views_of(active_names@) == av,
            catalog.wf(),
            lines@.map_values(|l: Vec<char>| l@) == skill_list_lines(*catalog, av, nv.take(i as int)),
        decreases names.len() - i,
    {
        let name = names[i].as_str();
        let ghost before = lines@.map_values(|l: Vec<char>| l@);
        proof {
            let t = nv.take(i + 1);
            assert(t.drop_last() =~= nv.take(i as int));
            assert(t.last() == name@);
        }
        let is_active = crate::order::contains_str(&active_names, name);
        match catalog.get(name) {
            Some(skill) => {
                let mut v = chars_of("[");
                if is_active {
                    extend_str(&mut v, "*");
                } else {
                    extend_str(&mut v, " ");
                }
                extend_str(&mut v, "] ");
                extend_str(&mut v, skill.name.as_str());
                extend_str(&mut v, " - ");
                extend_str(&mut v, skill.description.as_str());
                extend_str(&mut v, " (");
                extend_str(&mut v, skill.path.as_str());
                extend_str(&mut v, ")");
                lines.push(v);
                assert(lines@.map_values(|l: Vec<char>| l@) =~= before.push(skill_list_line(is_active, skill@)));
            },
            None => {
                assert(lines@.map_values(|l: Vec<char>| l@) =~= before + Seq::<Seq<char>>::empty());
            },
        }
        i += 1;
    }
    assert(nv.take(names@.len() as int) =~= nv);
    let j = crate::text::join_chars(&lines, chars_of("\n").as_slice());
    string_of(j.as_slice())
}

} // verus!
