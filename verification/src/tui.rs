//! The interactive terminal mode's own rules: thinking levels and how they
//! cycle, how a key press becomes the bytes the line editor reads, the
//! conversation state that the screen shows, and the layout of that screen.

use vstd::prelude::*;
use crate::text::{
    ascii_lower, ascii_lower_exec, ascii_lower_seq, chars_eq, chars_of, contains_chars, contains_sub,
    decimal, extend_chars, extend_str, has_prefix, push_char, push_decimal_u64, starts_with, str_eq,
    string_of, to_ascii_lowercase, trim_exec, trim_ws, byte_len, char_width_exec, lines, split_lines,
    slice_chars,
};
use crate::order::views_of;
use crate::truncate::{cap_len, cap_len_exec};

verus! {

broadcast use vstd::string::group_string_axioms;

// ---------------------------------------------------------------------------
// Thinking levels
// ---------------------------------------------------------------------------

/// How much extended reasoning a model is asked for; "off" is `None`.
#[derive(Clone, Copy, Debug, PartialEq, Eq, Structural)]
pub enum ThinkingLevel {
    Minimal,
    Low,
    Medium,
    High,
    XHigh,
}

/// The name a level is shown and typed under.
pub open spec fn level_name(level: Option<ThinkingLevel>) -> Seq<char> {
    match level {
        None => "off"@,
        Some(ThinkingLevel::Minimal) => "minimal"@,
        Some(ThinkingLevel::Low) => "low"@,
        Some(ThinkingLevel::Medium) => "medium"@,
        Some(ThinkingLevel::High) => "high"@,
        Some(ThinkingLevel::XHigh) => "xhigh"@,
    }
}

/// The level a lowercase name stands for: `None` when it names none,
/// `Some(None)` for "off" and its alias "none".
pub open spec fn level_from_name(s: Seq<char>) -> Option<Option<ThinkingLevel>> {
    if s == "off"@ || s == "none"@ {
        Some(None)
    } else if s == "minimal"@ {
        Some(Some(ThinkingLevel::Minimal))
    } else if s == "low"@ {
        Some(Some(ThinkingLevel::Low))
    } else if s == "medium"@ {
        Some(Some(ThinkingLevel::Medium))
    } else if s == "high"@ {
        Some(Some(ThinkingLevel::High))
    } else if s == "xhigh"@ {
        Some(Some(ThinkingLevel::XHigh))
    } else {
        None
    }
}

/// What a typed level reads as: trimmed, ASCII case ignored.
pub open spec fn parsed_level(raw: Seq<char>) -> Option<Option<ThinkingLevel>> {
    level_from_name(ascii_lower_seq(trim_ws(raw)))
}

/// The level after `level` in the cycle off → minimal → low → medium →
/// high → xhigh → off.
pub open spec fn next_level(level: Option<ThinkingLevel>) -> Option<ThinkingLevel> {
    match level {
        None => Some(ThinkingLevel::Minimal),
        Some(ThinkingLevel::Minimal) => Some(ThinkingLevel::Low),
        Some(ThinkingLevel::Low) => Some(ThinkingLevel::Medium),
        Some(ThinkingLevel::Medium) => Some(ThinkingLevel::High),
        Some(ThinkingLevel::High) => Some(ThinkingLevel::XHigh),
        Some(ThinkingLevel::XHigh) => None,
    }
}

fn is_named(s: &[char], name: &str) -> (r: bool)
    ensures
        r == (s@ == name@),
{
    let n = chars_of(name);
    chars_eq(s, n.as_slice())
}

/// Reads a thinking level from what the user typed (surrounding whitespace
/// and ASCII case do not matter): `None` when it names no level.
pub fn parse_thinking_level(raw: &str) -> (r: Option<Option<ThinkingLevel>>)
    ensures
        r == parsed_level(raw@),
{
    let raw_chars = chars_of(raw);
    let t = trim_exec(raw_chars.as_slice());
    let s = to_ascii_lowercase(t.as_slice());
    let s = s.as_slice();
    if is_named(s, "off") || is_named(s, "none") {
        Some(None)
    } else if is_named(s, "minimal") {
        Some(Some(ThinkingLevel::Minimal))
    } else if is_named(s, "low") {
        Some(Some(ThinkingLevel::Low))
    } else if is_named(s, "medium") {
        Some(Some(ThinkingLevel::Medium))
    } else if is_named(s, "high") {
        Some(Some(ThinkingLevel::High))
    } else if is_named(s, "xhigh") {
        Some(Some(ThinkingLevel::XHigh))
    } else {
        None
    }
}

/// The name of a level ("off" for none).
pub fn format_thinking_level(level: Option<ThinkingLevel>) -> (r: &'static str)
    ensures
        r@ == level_name(level),
{
    match level {
        None => "off",
        Some(ThinkingLevel::Minimal) => "minimal",
        Some(ThinkingLevel::Low) => "low",
        Some(ThinkingLevel::Medium) => "medium",
        Some(ThinkingLevel::High) => "high",
        Some(ThinkingLevel::XHigh) => "xhigh",
    }
}

/// The next level in the cycle; after xhigh it is off again.
pub fn cycle_thinking_level(current: Option<ThinkingLevel>) -> (r: Option<ThinkingLevel>)
    ensures
        r == next_level(current),
{
    match current {
        None => Some(ThinkingLevel::Minimal),
        Some(ThinkingLevel::Minimal) => Some(ThinkingLevel::Low),
        Some(ThinkingLevel::Low) => Some(ThinkingLevel::Medium),
        Some(ThinkingLevel::Medium) => Some(ThinkingLevel::High),
        Some(ThinkingLevel::High) => Some(ThinkingLevel::XHigh),
        Some(ThinkingLevel::XHigh) => None,
    }
}

/// Cycling six times from any level comes back to it, and no fewer steps do.
pub proof fn cycle_wraps_around(level: Option<ThinkingLevel>)
    ensures
        next_level(next_level(next_level(next_level(next_level(next_level(level)))))) == level,
        next_level(level) != level,
        next_level(next_level(level)) != level,
        next_level(next_level(next_level(level))) != level,
        next_level(next_level(next_level(next_level(level)))) != level,
        next_level(next_level(next_level(next_level(next_level(level))))) != level,
{
}

/// Every level reads back as itself from its own name.
pub proof fn level_name_round_trip(level: Option<ThinkingLevel>)
    ensures
        parsed_level(level_name(level)) == Some(level),
{
    reveal_strlit("off");
    reveal_strlit("none");
    reveal_strlit("minimal");
    reveal_strlit("low");
    reveal_strlit("medium");
    reveal_strlit("high");
    reveal_strlit("xhigh");
    let s = level_name(level);
    assert(trim_ws(s) == s) by {
        assert(crate::text::trim_start_ws(s) == s);
        assert(crate::text::trim_end_ws(s) == s);
    }
    assert(ascii_lower_seq(s) =~= s);
}

// ---------------------------------------------------------------------------
// Keys
// ---------------------------------------------------------------------------

/// Which key was pressed.
#[derive(Clone, Copy, Debug, PartialEq, Eq, Structural)]
pub enum KeyCode {
    Char(char),
    Backspace,
    Delete,
    Left,
    Right,
    Up,
    Down,
    Home,
    End,
    BackTab,
    Tab,
    Enter,
    Esc,
    /// Any key the editor has no use for.
    Other,
}

/// A key press with the modifiers held down.
#[derive(Clone, Copy, Debug, PartialEq, Eq, Structural)]
pub struct KeyInput {
    pub code: KeyCode,
    pub ctrl: bool,
    pub shift: bool,
    pub alt: bool,
    /// Any other modifier (super, hyper, meta).
    pub other: bool,
}

/// An ASCII letter.
pub open spec fn is_ascii_alpha(c: char) -> bool {
    ('a' <= c && c <= 'z') || ('A' <= c && c <= 'Z')
}

/// The control character of a letter: Ctrl+A is 1, …, Ctrl+Z is 26, either case.
pub open spec fn control_char(c: char) -> char {
    ((ascii_lower(c) as u32) - 96) as char
}

/// The bytes the line editor reads for a key press; empty for keys it
/// ignores (and for Ctrl with anything but a letter).
pub open spec fn key_bytes(key: KeyInput) -> Seq<char> {
    match key.code {
        KeyCode::Char(c) => if key.ctrl {
            if is_ascii_alpha(c) {
                seq![control_char(c)]
            } else {
                seq![]
            }
        } else {
            seq![c]
        },
        KeyCode::Backspace => seq!['\x7f'],
        KeyCode::Delete => seq!['\x1b', '[', '3', '~'],
        KeyCode::Left => seq!['\x1b', '[', 'D'],
        KeyCode::Right => seq!['\x1b', '[', 'C'],
        KeyCode::Up => seq!['\x1b', '[', 'A'],
        KeyCode::Down => seq!['\x1b', '[', 'B'],
        KeyCode::Home => seq!['\x1b', '[', 'H'],
        KeyCode::End => seq!['\x1b', '[', 'F'],
        KeyCode::BackTab => seq!['\x1b', '[', 'Z'],
        KeyCode::Tab => if key.shift {
            seq!['\x1b', '[', 'Z']
        } else {
            seq!['\t']
        },
        KeyCode::Esc => seq!['\x1b'],
        _ => seq![],
    }
}

fn string_from(cs: &[char]) -> (s: String)
    ensures
        s@ == cs@,
{
    crate::text::string_of(cs)
}

/// The bytes the line editor reads for a key press.
pub fn crossterm_key_to_bytes(key: &KeyInput) -> (r: String)
    ensures
        r@ == key_bytes(*key),
{
    match key.code {
        KeyCode::Char(c) => {
            if key.ctrl {
                if ('a' <= c && c <= 'z') || ('A' <= c && c <= 'Z') {
                    let l = ascii_lower_exec(c);
                    let v: u32 = (l as u32) - 96;
                    proof {
                        assert(1 <= v <= 26);
                    }
                    let code = (v as u8) as char;
                    let mut s = String::new();
                    push_char(&mut s, code);
                    proof {
                        assert(s@ =~= seq![control_char(c)]);
                    }
                    s
                } else {
                    String::new()
                }
            } else {
                let mut s = String::new();
                push_char(&mut s, c);
                proof {
                    assert(s@ =~= seq![c]);
                }
                s
            }
        },
        KeyCode::Backspace => string_from(&['\x7f']),
        KeyCode::Delete => string_from(&['\x1b', '[', '3', '~']),
        KeyCode::Left => string_from(&['\x1b', '[', 'D']),
        KeyCode::Right => string_from(&['\x1b', '[', 'C']),
        KeyCode::Up => string_from(&['\x1b', '[', 'A']),
        KeyCode::Down => string_from(&['\x1b', '[', 'B']),
        KeyCode::Home => string_from(&['\x1b', '[', 'H']),
        KeyCode::End => string_from(&['\x1b', '[', 'F']),
        KeyCode::BackTab => string_from(&['\x1b', '[', 'Z']),
        KeyCode::Tab => {
            if key.shift {
                string_from(&['\x1b', '[', 'Z'])
            } else {
                string_from(&['\t'])
            }
        },
        KeyCode::Esc => string_from(&['\x1b']),
        _ => String::new(),
    }
}


// ---------------------------------------------------------------------------
// Styles
// ---------------------------------------------------------------------------

/// `s` in bold cyan.
pub open spec fn accent(s: Seq<char>) -> Seq<char> {
    "\x1b[1;36m"@ + s + "\x1b[0m"@
}

/// `s` in grey.
pub open spec fn dim(s: Seq<char>) -> Seq<char> {
    "\x1b[90m"@ + s + "\x1b[0m"@
}

/// `s` in bold yellow.
pub open spec fn warning_style(s: Seq<char>) -> Seq<char> {
    "\x1b[1;33m"@ + s + "\x1b[0m"@
}

/// `s` in bold red.
pub open spec fn error_style(s: Seq<char>) -> Seq<char> {
    "\x1b[1;31m"@ + s + "\x1b[0m"@
}

fn styled(open: &str, s: &[char]) -> (r: Vec<char>)
    ensures
        r@ == open@ + s@ + "\x1b[0m"@,
{
    let mut v = chars_of(open);
    extend_chars(&mut v, s);
    extend_str(&mut v, "\x1b[0m");
    v
}

/// `s` in the accent colour.
pub fn style_accent(s: &str) -> (r: String)
    ensures
        r@ == accent(s@),
{
    let c = chars_of(s);
    string_of(styled("\x1b[1;36m", c.as_slice()).as_slice())
}

/// `s` dimmed.
pub fn style_dim(s: &str) -> (r: String)
    ensures
        r@ == dim(s@),
{
    let c = chars_of(s);
    string_of(styled("\x1b[90m", c.as_slice()).as_slice())
}

/// `s` in the warning colour.
pub fn style_warning(s: &str) -> (r: String)
    ensures
        r@ == warning_style(s@),
{
    let c = chars_of(s);
    string_of(styled("\x1b[1;33m", c.as_slice()).as_slice())
}

/// `s` in the error colour.
pub fn style_error(s: &str) -> (r: String)
    ensures
        r@ == error_style(s@),
{
    let c = chars_of(s);
    string_of(styled("\x1b[1;31m", c.as_slice()).as_slice())
}

/// A status line is shown as a warning when it mentions an error or that
/// authentication is required, and in the accent colour otherwise.
pub open spec fn status_styled(status: Seq<char>) -> Seq<char> {
    if contains_sub(status, "error"@) || contains_sub(status, "auth required"@) {
        warning_style(status)
    } else {
        accent(status)
    }
}

/// The status line in its colour.
pub fn style_status(status: &str) -> (r: String)
    ensures
        r@ == status_styled(status@),
{
    let c = chars_of(status);
    let e = chars_of("error");
    let a = chars_of("auth required");
    if contains_chars(c.as_slice(), e.as_slice()) || contains_chars(c.as_slice(), a.as_slice()) {
        style_warning(status)
    } else {
        style_accent(status)
    }
}

/// The prefix that opens the first line of a message with this role, and
/// the indent of its other lines.
pub open spec fn role_lead(role: Seq<char>) -> Seq<char> {
    if role == "user"@ {
        "you> "@
    } else if role == "assistant"@ {
        "pi > "@
    } else if role == "tool"@ {
        "tl > "@
    } else if role == "warning"@ {
        "wrn> "@
    } else if role == "error"@ {
        "err> "@
    } else {
        "sys> "@
    }
}

/// The lead and continuation prefixes of a role's lines.
pub fn role_prefix(role: &str) -> (r: (&'static str, &'static str))
    ensures
        r.0@ == role_lead(role@),
        r.1@ == "     "@,
{
    if str_eq(role, "user") {
        ("you> ", "     ")
    } else if str_eq(role, "assistant") {
        ("pi > ", "     ")
    } else if str_eq(role, "tool") {
        ("tl > ", "     ")
    } else if str_eq(role, "warning") {
        ("wrn> ", "     ")
    } else if str_eq(role, "error") {
        ("err> ", "     ")
    } else {
        ("sys> ", "     ")
    }
}

/// A history line with its role prefix coloured: the user's and the
/// assistant's prefixes in the accent colour, a tool's prefix dimmed and its
/// text accented, warnings and errors wholly in their colours, system lines
/// dimmed; any other line unchanged.
pub open spec fn styled_chat_line(line: Seq<char>) -> Seq<char> {
    let rest = line.skip(5);
    if has_prefix(line, "you> "@) {
        accent("you> "@) + rest
    } else if has_prefix(line, "pi > "@) {
        accent("pi > "@) + rest
    } else if has_prefix(line, "tl > "@) {
        dim("tl > "@) + accent(rest)
    } else if has_prefix(line, "wrn> "@) {
        warning_style("wrn> "@) + warning_style(rest)
    } else if has_prefix(line, "err> "@) {
        error_style("err> "@) + error_style(rest)
    } else if has_prefix(line, "sys> "@) {
        dim("sys> "@) + dim(rest)
    } else {
        line
    }
}

fn prefixed_by(line: &[char], p: &str) -> (r: bool)
    ensures
        r == has_prefix(line@, p@),
{
    let pc = chars_of(p);
    starts_with(line, pc.as_slice())
}

/// Colours the role prefix of a history line.
pub fn style_chat_line(line: &str) -> (r: String)
    ensures
        r@ == styled_chat_line(line@),
{
    proof {
        reveal_strlit("you> ");
        reveal_strlit("pi > ");
        reveal_strlit("tl > ");
        reveal_strlit("wrn> ");
        reveal_strlit("err> ");
        reveal_strlit("sys> ");
    }
    let c = chars_of(line);
    let l = c.as_slice();
    if !(l.len() >= 5) {
        proof {
            assert(!has_prefix(line@, "you> "@));
            assert(!has_prefix(line@, "pi > "@));
            assert(!has_prefix(line@, "tl > "@));
            assert(!has_prefix(line@, "wrn> "@));
            assert(!has_prefix(line@, "err> "@));
            assert(!has_prefix(line@, "sys> "@));
        }
        return line.to_string();
    }
    let rest = crate::text::slice_chars(l, 5, l.len());
    assert(rest@ =~= line@.skip(5));
    let r = if prefixed_by(l, "you> ") {
        let mut v = styled("\x1b[1;36m", chars_of("you> ").as_slice());
        extend_chars(&mut v, rest.as_slice());
        v
    } else if prefixed_by(l, "pi > ") {
        let mut v = styled("\x1b[1;36m", chars_of("pi > ").as_slice());
        extend_chars(&mut v, rest.as_slice());
        v
    } else if prefixed_by(l, "tl > ") {
        let mut v = styled("\x1b[90m", chars_of("tl > ").as_slice());
        let w = styled("\x1b[1;36m", rest.as_slice());
        extend_chars(&mut v, w.as_slice());
        v
    } else if prefixed_by(l, "wrn> ") {
        let mut v = styled("\x1b[1;33m", chars_of("wrn> ").as_slice());
        let w = styled("\x1b[1;33m", rest.as_slice());
        extend_chars(&mut v, w.as_slice());
        v
    } else if prefixed_by(l, "err> ") {
        let mut v = styled("\x1b[1;31m", chars_of("err> ").as_slice());
        let w = styled("\x1b[1;31m", rest.as_slice());
        extend_chars(&mut v, w.as_slice());
        v
    } else if prefixed_by(l, "sys> ") {
        let mut v = styled("\x1b[90m", chars_of("sys> ").as_slice());
        let w = styled("\x1b[90m", rest.as_slice());
        extend_chars(&mut v, w.as_slice());
        v
    } else {
        c
    };
    string_of(r.as_slice())
}

// ---------------------------------------------------------------------------
// Conversation state
// ---------------------------------------------------------------------------

/// One entry of the conversation history as the screen shows it.
pub struct DisplayMessage {
    pub role: String,
    pub text: String,
}

/// The role and text of a message.
pub open spec fn message_view(m: DisplayMessage) -> (Seq<char>, Seq<char>) {
    (m.role@, m.text@)
}

/// How many messages have the role `role`.
pub open spec fn role_count(ms: Seq<(Seq<char>, Seq<char>)>, role: Seq<char>) -> nat
    decreases ms.len(),
{
    if ms.len() == 0 {
        0
    } else {
        role_count(ms.drop_last(), role) + if ms.last().0 == role {
            1nat
        } else {
            0nat
        }
    }
}

/// The state of the interactive screen apart from the line editor: the
/// history, the status and footer fields, and the counters the footer shows.
pub struct TuiApp {
    pub messages: Vec<DisplayMessage>,
    pub status: String,
    pub footer_provider: String,
    pub footer_model: String,
    pub footer_thinking: String,
    pub footer_auth_required: bool,
    pub tool_runs: u64,
    pub tool_errors: u64,
    pub turns: u64,
    pub streaming_text: String,
    pub is_streaming: bool,
}

impl TuiApp {
    /// The history, as (role, text) pairs.
    pub open spec fn history(&self) -> Seq<(Seq<char>, Seq<char>)> {
        self.messages@.map_values(|m: DisplayMessage| message_view(m))
    }

    pub open spec fn turn_count(&self) -> nat {
        self.turns as nat
    }

    pub open spec fn tool_run_count(&self) -> nat {
        self.tool_runs as nat
    }

    pub open spec fn tool_error_count(&self) -> nat {
        self.tool_errors as nat
    }

    /// The number of turns is the number of messages the user sent.
    pub open spec fn wf(&self) -> bool {
        self.turns == role_count(self.history(), "user"@)
    }

    /// An empty conversation, waiting for credentials.
    pub fn new() -> (r: TuiApp)
        ensures
            r.wf(),
            r.history() == Seq::<(Seq<char>, Seq<char>)>::empty(),
            r.status@ == Seq::<char>::empty(),
            r.footer_provider@ == "n/a"@,
            r.footer_model@ == "n/a"@,
            r.footer_thinking@ == "off"@,
            r.footer_auth_required,
            r.tool_run_count() == 0,
            r.tool_error_count() == 0,
            r.turn_count() == 0,
            r.streaming_text@ == Seq::<char>::empty(),
            !r.is_streaming,
    {
        let r = TuiApp {
            messages: Vec::new(),
            status: String::new(),
            footer_provider: "n/a".to_string(),
            footer_model: "n/a".to_string(),
            footer_thinking: "off".to_string(),
            footer_auth_required: true,
            tool_runs: 0,
            tool_errors: 0,
            turns: 0,
            streaming_text: String::new(),
            is_streaming: false,
        };
        assert(r.history() =~= Seq::<(Seq<char>, Seq<char>)>::empty());
        r
    }

    /// The history.
    pub fn messages(&self) -> (r: &Vec<DisplayMessage>)
        ensures
            r@.map_values(|m: DisplayMessage| message_view(m)) == self.history(),
    {
        &self.messages
    }

    /// How many messages the user has sent.
    pub fn turns(&self) -> (r: u64)
        ensures
            r == self.turn_count(),
    {
        self.turns
    }

    /// How many tool runs have started.
    pub fn tool_runs(&self) -> (r: u64)
        ensures
            r == self.tool_run_count(),
    {
        self.tool_runs
    }

    /// How many tool runs have ended in an error.
    pub fn tool_errors(&self) -> (r: u64)
        ensures
            r == self.tool_error_count(),
    {
        self.tool_errors
    }

    /// Appends a message to the history; a message from the user starts a
    /// new turn.
    pub fn push_message(&mut self, role: &str, text: String)
        requires
            old(self).wf(),
            role@ == "user"@ ==> old(self).turn_count() < u64::MAX,
        ensures
            final(self).wf(),
            final(self).history() == old(self).history().push((role@, text@)),
            final(self).turn_count() == old(self).turn_count() + if role@ == "user"@ {
                1nat
            } else {
                0nat
            },
            final(self).tool_run_count() == old(self).tool_run_count(),
            final(self).tool_error_count() == old(self).tool_error_count(),
            final(self).status == old(self).status,
            final(self).footer_provider == old(self).footer_provider,
            final(self).footer_model == old(self).footer_model,
            final(self).footer_thinking == old(self).footer_thinking,
            final(self).footer_auth_required == old(self).footer_auth_required,
            final(self).streaming_text == old(self).streaming_text,
            final(self).is_streaming == old(self).is_streaming,
    {
        let is_user = str_eq(role, "user");
        if is_user {
            self.turns = self.turns + 1;
        }
        let ghost before = self.history();
        self.messages.push(DisplayMessage { role: role.to_string(), text });
        proof {
            assert(self.history() =~= before.push((role@, text@)));
            assert(self.history().drop_last() =~= before);
        }
    }

    /// Appends a system notice.
    pub fn push_system(&mut self, text: String)
        requires
            old(self).wf(),
        ensures
            final(self).wf(),
            final(self).history() == old(self).history().push(("system"@, text@)),
            final(self).turn_count() == old(self).turn_count(),
            final(self).tool_run_count() == old(self).tool_run_count(),
            final(self).tool_error_count() == old(self).tool_error_count(),
            final(self).status == old(self).status,
            final(self).is_streaming == old(self).is_streaming,
    {
        proof {
            reveal_strlit("system");
            reveal_strlit("user");
            assert("system"@.len() != "user"@.len());
        }
        self.push_message("system", text);
    }

    /// Appends an error notice.
    pub fn push_error(&mut self, text: String)
        requires
            old(self).wf(),
        ensures
            final(self).wf(),
            final(self).history() == old(self).history().push(("error"@, text@)),
            final(self).turn_count() == old(self).turn_count(),
            final(self).tool_run_count() == old(self).tool_run_count(),
            final(self).tool_error_count() == old(self).tool_error_count(),
            final(self).status == old(self).status,
            final(self).is_streaming == old(self).is_streaming,
    {
        proof {
            reveal_strlit("error");
            reveal_strlit("user");
            assert("error"@.len() != "user"@.len());
        }
        self.push_message("error", text);
    }

    /// Appends a warning.
    pub fn push_warning(&mut self, text: String)
        requires
            old(self).wf(),
        ensures
            final(self).wf(),
            final(self).history() == old(self).history().push(("warning"@, text@)),
            final(self).turn_count() == old(self).turn_count(),
            final(self).tool_run_count() == old(self).tool_run_count(),
            final(self).tool_error_count() == old(self).tool_error_count(),
            final(self).status == old(self).status,
            final(self).is_streaming == old(self).is_streaming,
    {
        proof {
            reveal_strlit("warning");
            reveal_strlit("user");
            assert("warning"@.len() != "user"@.len());
        }
        self.push_message("warning", text);
    }

    /// Records that a tool started running.
    pub fn push_tool_start(&mut self, tool_name: &str)
        requires
            old(self).wf(),
            old(self).tool_run_count() < u64::MAX,
        ensures
            final(self).wf(),
            final(self).history() == old(self).history().push(
                ("tool"@, "\u{25b6} "@ + tool_name@ + "  running"@),
            ),
            final(self).turn_count() == old(self).turn_count(),
            final(self).tool_run_count() == old(self).tool_run_count() + 1,
            final(self).tool_error_count() == old(self).tool_error_count(),
            final(self).status == old(self).status,
            final(self).is_streaming == old(self).is_streaming,
    {
        proof {
            reveal_strlit("tool");
            reveal_strlit("user");
            assert("tool"@[0] != "user"@[0]);
        }
        self.tool_runs = self.tool_runs + 1;
        let mut v = chars_of("\u{25b6} ");
        extend_str(&mut v, tool_name);
        extend_str(&mut v, "  running");
        self.push_message("tool", string_of(v.as_slice()));
    }

    /// Records that a tool finished, with an error or not.
    pub fn push_tool_end(&mut self, tool_name: &str, is_error: bool)
        requires
            old(self).wf(),
            is_error ==> old(self).tool_error_count() < u64::MAX,
        ensures
            final(self).wf(),
            final(self).history() == old(self).history().push(
                (
                    "tool"@,
                    "\u{25a0} "@ + tool_name@ + "  "@ + if is_error {
                        "error"@
                    } else {
                        "ok"@
                    },
                ),
            ),
            final(self).turn_count() == old(self).turn_count(),
            final(self).tool_run_count() == old(self).tool_run_count(),
            final(self).tool_error_count() == old(self).tool_error_count() + if is_error {
                1nat
            } else {
                0nat
            },
            final(self).status == old(self).status,
            final(self).is_streaming == old(self).is_streaming,
    {
        proof {
            reveal_strlit("tool");
            reveal_strlit("user");
            assert("tool"@[0] != "user"@[0]);
        }
        if is_error {
            self.tool_errors = self.tool_errors + 1;
        }
        let mut v = chars_of("\u{25a0} ");
        extend_str(&mut v, tool_name);
        extend_str(&mut v, "  ");
        if is_error {
            extend_str(&mut v, "error");
        } else {
            extend_str(&mut v, "ok");
        }
        self.push_message("tool", string_of(v.as_slice()));
    }

    /// The footer: status, provider, model, thinking level, tool counters
    /// and session counters, each with its label.
    pub fn render_footer_row(&self) -> (r: String)
        requires
            self.wf(),
        ensures
            r@ == footer_row(
                self.status@,
                self.footer_provider@,
                self.footer_model@,
                self.footer_thinking@,
                self.tool_run_count(),
                self.tool_error_count(),
                self.history(),
                self.turn_count(),
            ),
    {
        let mut users: u64 = 0;
        let mut assistants: u64 = 0;
        let mut i: usize = 0;
        while i < self.messages.len()
            invariant
                i <= self.messages@.len(),
                users == role_count(self.history().take(i as int), "user"@),
                assistants == role_count(self.history().take(i as int), "assistant"@),
                users <= i,
                assistants <= i,
            decreases self.messages.len() - i,
        {
            proof {
                assert(self.history().take(i + 1).drop_last() =~= self.history().take(i as int));
            }
            if str_eq(self.messages[i].role.as_str(), "user") {
                users = users + 1;
            }
            if str_eq(self.messages[i].role.as_str(), "assistant") {
                assistants = assistants + 1;
            }
            i += 1;
        }
        proof {
            assert(self.history().take(self.messages@.len() as int) =~= self.history());
        }
        let mut session = chars_of("msg:");
        crate::text::push_decimal(&mut session, self.messages.len());
        extend_str(&mut session, " turn:");
        push_decimal_u64(&mut session, self.turns);
        extend_str(&mut session, " u:");
        push_decimal_u64(&mut session, users);
        extend_str(&mut session, " a:");
        push_decimal_u64(&mut session, assistants);
        let mut tools: Vec<char> = Vec::new();
        push_decimal_u64(&mut tools, self.tool_runs);
        extend_str(&mut tools, "/");
        push_decimal_u64(&mut tools, self.tool_errors);
        let status_chars = chars_of(style_status(self.status.as_str()).as_str());
        let mut v = styled("\x1b[90m", chars_of("status").as_slice());
        extend_str(&mut v, " ");
        extend_chars(&mut v, status_chars.as_slice());
        extend_str(&mut v, "  ");
        extend_chars(&mut v, styled("\x1b[90m", chars_of("provider").as_slice()).as_slice());
        extend_str(&mut v, " ");
        extend_chars(&mut v, styled("\x1b[1;36m", chars_of(self.footer_provider.as_str()).as_slice()).as_slice());
        extend_str(&mut v, "  ");
        extend_chars(&mut v, styled("\x1b[90m", chars_of("model").as_slice()).as_slice());
        extend_str(&mut v, " ");
        extend_chars(&mut v, styled("\x1b[1;36m", chars_of(self.footer_model.as_str()).as_slice()).as_slice());
        extend_str(&mut v, "  ");
        extend_chars(&mut v, styled("\x1b[90m", chars_of("thinking").as_slice()).as_slice());
        extend_str(&mut v, " ");
        extend_chars(&mut v, styled("\x1b[1;36m", chars_of(self.footer_thinking.as_str()).as_slice()).as_slice());
        extend_str(&mut v, "  ");
        extend_chars(&mut v, styled("\x1b[90m", chars_of("tools").as_slice()).as_slice());
        extend_str(&mut v, " ");
        if self.tool_errors > 0 {
            extend_chars(&mut v, styled("\x1b[1;33m", tools.as_slice()).as_slice());
        } else {
            extend_chars(&mut v, styled("\x1b[1;36m", tools.as_slice()).as_slice());
        }
        extend_str(&mut v, "  ");
        extend_chars(&mut v, styled("\x1b[90m", chars_of("session").as_slice()).as_slice());
        extend_str(&mut v, " ");
        extend_chars(&mut v, styled("\x1b[90m", session.as_slice()).as_slice());
        string_of(v.as_slice())
    }
}

/// The session counters of the footer.
pub open spec fn session_counters(history: Seq<(Seq<char>, Seq<char>)>, turns: nat) -> Seq<char> {
    "msg:"@ + decimal(history.len()) + " turn:"@ + decimal(turns) + " u:"@ + decimal(
        role_count(history, "user"@),
    ) + " a:"@ + decimal(role_count(history, "assistant"@))
}

/// The footer row: label and value for status, provider, model, thinking,
/// tools (runs/errors, as a warning once a tool has failed) and session.
pub open spec fn footer_row(
    status: Seq<char>,
    provider: Seq<char>,
    model: Seq<char>,
    thinking: Seq<char>,
    tool_runs: nat,
    tool_errors: nat,
    history: Seq<(Seq<char>, Seq<char>)>,
    turns: nat,
) -> Seq<char> {
    let tools = decimal(tool_runs) + "/"@ + decimal(tool_errors);
    dim("status"@) + " "@ + status_styled(status) + "  "@ + dim("provider"@) + " "@ + accent(provider)
        + "  "@ + dim("model"@) + " "@ + accent(model) + "  "@ + dim("thinking"@) + " "@ + accent(
        thinking,
    ) + "  "@ + dim("tools"@) + " "@ + (if tool_errors > 0 {
        warning_style(tools)
    } else {
        accent(tools)
    }) + "  "@ + dim("session"@) + " "@ + dim(session_counters(history, turns))
}

// ---------------------------------------------------------------------------
// Wrapping and fitting text
// ---------------------------------------------------------------------------

/// `s` cut into pieces of `w` characters, the last one possibly shorter.
pub open spec fn chunks(s: Seq<char>, w: nat) -> Seq<Seq<char>>
    decreases s.len(),
{
    if w == 0 || s.len() <= w {
        seq![s]
    } else {
        seq![s.take(w as int)] + chunks(s.skip(w as int), w)
    }
}

/// A line wrapped at `w` characters: one empty piece for an empty line or
/// a zero width.
pub open spec fn wrapped_line(s: Seq<char>, w: nat) -> Seq<Seq<char>> {
    if w == 0 || s.len() == 0 {
        seq![seq![]]
    } else {
        chunks(s, w)
    }
}

proof fn lemma_chunks_step(s: Seq<char>, start: int, w: nat)
    requires
        w > 0,
        0 <= start < s.len(),
        s.len() - start > w,
    ensures
        chunks(s.skip(start), w) == seq![s.subrange(start, start + w)] + chunks(s.skip(start + w), w),
{
    assert(s.skip(start).take(w as int) =~= s.subrange(start, start + w));
    assert(s.skip(start).skip(w as int) =~= s.skip(start + w));
}

/// Cuts a line into pieces of at most `max_width` characters.
pub fn wrap_plain_line(line: &str, max_width: usize) -> (r: Vec<String>)
    ensures
        views_of(r@) == wrapped_line(line@, max_width as nat),
{
    let c = chars_of(line);
    let s = c.as_slice();
    let mut out: Vec<String> = Vec::new();
    if max_width == 0 || s.len() == 0 {
        out.push(String::new());
        assert(views_of(out@) =~= seq![Seq::<char>::empty()]);
        return out;
    }
    let w = max_width;
    let mut start: usize = 0;
    assert(s@.skip(0) =~= s@);
    while start < s.len()
        invariant
            w > 0,
            w == max_width,
            s@ == line@,
            s@.len() > 0,
            start <= s@.len(),
            start < s@.len() ==> views_of(out@) + chunks(s@.skip(start as int), w as nat) == chunks(s@, w as nat),
            start == s@.len() ==> views_of(out@) == chunks(s@, w as nat),
        decreases s.len() - start,
    {
        let ghost before = views_of(out@);
        if s.len() - start <= w {
            let piece = slice_chars(s, start, s.len());
            out.push(string_of(piece.as_slice()));
            proof {
                assert(s@.subrange(start as int, s@.len() as int) =~= s@.skip(start as int));
                assert(views_of(out@) =~= before + seq![s@.skip(start as int)]);
            }
            start = s.len();
        } else {
            let piece = slice_chars(s, start, start + w);
            out.push(string_of(piece.as_slice()));
            proof {
                lemma_chunks_step(s@, start as int, w as nat);
                assert(views_of(out@) =~= before + seq![s@.subrange(start as int, start + w)]);
                assert(before + seq![s@.subrange(start as int, start + w)] + chunks(s@.skip(start + w), w as nat)
                    =~= before + (seq![s@.subrange(start as int, start + w)] + chunks(s@.skip(start + w), w as nat)));
            }
            start = start + w;
        }
    }
    out
}

/// The room left for text after a prefix of `p` characters, at least one.
pub open spec fn payload_width(p: nat, width: nat) -> nat {
    if width > p && width - p >= 1 {
        (width - p) as nat
    } else {
        1
    }
}

/// `p` put in front of each line.
pub open spec fn prefix_all(p: Seq<char>, ls: Seq<Seq<char>>) -> Seq<Seq<char>> {
    ls.map_values(|l: Seq<char>| p + l)
}

/// The lines after the first of a plain message: each further source line
/// wrapped at `w`, every piece behind the continuation prefix.
pub open spec fn continued_lines(cont: Seq<char>, ls: Seq<Seq<char>>, w: nat) -> Seq<Seq<char>>
    decreases ls.len(),
{
    if ls.len() == 0 {
        seq![]
    } else {
        continued_lines(cont, ls.drop_last(), w) + prefix_all(cont, wrapped_line(ls.last(), w))
    }
}

/// The screen lines of a plain (not Markdown) message: its first source
/// line wrapped to the room the lead prefix leaves, the first piece behind
/// the lead prefix and every other piece, and every piece of the further
/// lines wrapped to the room the continuation prefix leaves, behind that
/// prefix; just the lead prefix when the text has no lines.
pub open spec fn plain_message_lines(lead: Seq<char>, cont: Seq<char>, text: Seq<char>, width: nat) -> Seq<
    Seq<char>,
> {
    let ls = lines(text);
    if ls.len() == 0 {
        seq![lead]
    } else {
        let first = wrapped_line(ls[0], payload_width(lead.len(), width));
        seq![lead + first[0]] + prefix_all(cont, first.skip(1)) + continued_lines(
            cont,
            ls.skip(1),
            payload_width(cont.len(), width),
        )
    }
}

/// The screen lines of a message whose text was laid out by the Markdown
/// renderer: the first line behind the lead prefix, the rest behind the
/// continuation prefix; just the lead prefix when nothing was rendered.
pub open spec fn markdown_message_lines(lead: Seq<char>, cont: Seq<char>, rendered: Seq<Seq<char>>) -> Seq<
    Seq<char>,
> {
    if rendered.len() == 0 {
        seq![lead]
    } else {
        seq![lead + rendered[0]] + prefix_all(cont, rendered.skip(1))
    }
}

fn push_prefixed(out: &mut Vec<String>, p: &str, pieces: &Vec<String>, from: usize)
    requires
        from <= pieces@.len(),
    ensures
        views_of(final(out)@) == views_of(old(out)@) + prefix_all(p@, views_of(pieces@).skip(from as int)),
{
    let mut i = from;
    while i < pieces.len()
        invariant
            from <= i <= pieces@.len(),
            views_of(out@) == views_of(old(out)@) + prefix_all(p@, views_of(pieces@).subrange(from as int, i as int)),
        decreases pieces.len() - i,
    {
        let mut v = chars_of(p);
        extend_str(&mut v, pieces[i].as_str());
        let ghost before = views_of(out@);
        out.push(string_of(v.as_slice()));
        proof {
            assert(views_of(out@) =~= before.push(p@ + pieces@[i as int]@));
            assert(views_of(pieces@).subrange(from as int, i + 1) =~= views_of(pieces@).subrange(from as int, i as int).push(pieces@[i as int]@));
            assert(prefix_all(p@, views_of(pieces@).subrange(from as int, i + 1)) =~= prefix_all(p@, views_of(pieces@).subrange(from as int, i as int)).push(p@ + pieces@[i as int]@));
            assert(views_of(out@) =~= views_of(old(out)@) + prefix_all(p@, views_of(pieces@).subrange(from as int, i + 1)));
        }
        i += 1;
    }
    assert(views_of(pieces@).subrange(from as int, pieces@.len() as int) =~= views_of(pieces@).skip(from as int));
}

fn char_count_payload(p: &str, width: usize) -> (r: usize)
    ensures
        r == payload_width(p@.len(), width as nat),
{
    let n = chars_of(p).len();
    if width > n && width - n >= 1 {
        width - n
    } else {
        1
    }
}

/// The width the Markdown renderer lays an assistant message out at: the
/// smaller of the rooms the two prefixes leave.
pub fn markdown_width(lead: &str, cont: &str, width: usize) -> (r: usize)
    ensures
        r == if payload_width(lead@.len(), width as nat) <= payload_width(cont@.len(), width as nat) {
            payload_width(lead@.len(), width as nat)
        } else {
            payload_width(cont@.len(), width as nat)
        },
        r >= 1,
{
    let a = char_count_payload(lead, width);
    let b = char_count_payload(cont, width);
    if a <= b {
        a
    } else {
        b
    }
}

/// Appends the screen lines of one message. An assistant message is shown
/// as the Markdown renderer laid it out (`rendered`, at
/// [`markdown_width`]); any other role is wrapped as plain text.
pub fn push_wrapped_message_lines(
    out: &mut Vec<String>,
    role: &str,
    lead: &str,
    cont: &str,
    text: &str,
    width: usize,
    rendered: &Vec<String>,
)
    ensures
        views_of(final(out)@) == views_of(old(out)@) + if role@ == "assistant"@ {
            markdown_message_lines(lead@, cont@, views_of(rendered@))
        } else {
            plain_message_lines(lead@, cont@, text@, width as nat)
        },
{
    let ghost start = views_of(out@);
    if str_eq(role, "assistant") {
        if rendered.len() == 0 {
            out.push(lead.to_string());
            assert(views_of(out@) =~= start + seq![lead@]);
        } else {
            let mut v = chars_of(lead);
            extend_str(&mut v, rendered[0].as_str());
            out.push(string_of(v.as_slice()));
            let ghost mid = views_of(out@);
            assert(mid =~= start + seq![lead@ + rendered@[0]@]);
            push_prefixed(out, cont, rendered, 1);
            assert(views_of(out@) =~= start + (seq![lead@ + views_of(rendered@)[0]] + prefix_all(cont@, views_of(rendered@).skip(1))));
        }
        return;
    }
    let tc = chars_of(text);
    let ls = split_lines(tc.as_slice());
    if ls.len() == 0 {
        out.push(lead.to_string());
        assert(views_of(out@) =~= start + seq![lead@]);
        return;
    }
    let lead_w = char_count_payload(lead, width);
    let cont_w = char_count_payload(cont, width);
    let first = wrap_plain_line(string_of(ls[0].as_slice()).as_str(), lead_w);
    proof {
        assert(views_of(first@).len() >= 1) by {
            reveal_with_fuel(chunks, 2);
        }
    }
    let mut v = chars_of(lead);
    extend_str(&mut v, first[0].as_str());
    out.push(string_of(v.as_slice()));
    push_prefixed(out, cont, &first, 1);
    let ghost after_first = views_of(out@);
    let ghost lsv = ls@.map_values(|l: Vec<char>| l@);
    assert(lsv == lines(text@));
    let mut i: usize = 1;
    assert(lsv.skip(1).take(0) =~= Seq::<Seq<char>>::empty());
    while i < ls.len()
        invariant
            1 <= i <= ls@.len(),
            lsv == ls@.map_values(|l: Vec<char>| l@),
            views_of(out@) == after_first + continued_lines(cont@, lsv.skip(1).take(i - 1), cont_w as nat),
            cont_w == payload_width(cont@.len(), width as nat),
        decreases ls.len() - i,
    {
        let pieces = wrap_plain_line(string_of(ls[i].as_slice()).as_str(), cont_w);
        push_prefixed(out, cont, &pieces, 0);
        proof {
            assert(views_of(pieces@).skip(0) =~= views_of(pieces@));
            let t = lsv.skip(1).take(i as int);
            assert(t.drop_last() =~= lsv.skip(1).take(i - 1));
            assert(t.last() == lsv[i as int]);
            assert(views_of(out@) =~= after_first + continued_lines(cont@, t, cont_w as nat));
        }
        i += 1;
    }
    proof {
        assert(lsv.skip(1).take(ls@.len() - 1) =~= lsv.skip(1));
        assert(views_of(out@) =~= start + plain_message_lines(lead@, cont@, text@, width as nat));
    }
}

/// `n` spaces.
pub open spec fn spaces(n: nat) -> Seq<char> {
    Seq::new(n, |_i: int| ' ')
}

/// Where the scan of [`pad_or_truncate_visible`] is: in plain text, just
/// after an escape character, inside a control sequence (ended by an ASCII
/// letter), or inside a string command (ended by a bell).
pub open spec fn after_escape_mode(c: char) -> nat {
    if c == '[' {
        2
    } else if c == '_' {
        3
    } else {
        0
    }
}

/// The scan from position `i`, having written `out` with `visible`
/// visible characters so far, in scan mode `mode`: escape sequences are
/// copied whole and take no room; visible characters are copied until
/// `width` of them have been written; the rest is padded with spaces.
pub open spec fn fit_from(s: Seq<char>, i: int, width: nat, visible: nat, mode: nat, out: Seq<char>) -> Seq<
    char,
>
    decreases s.len() - i,
{
    if i < 0 || i >= s.len() {
        if visible < width {
            out + spaces((width - visible) as nat)
        } else {
            out
        }
    } else {
        let c = s[i];
        if mode == 1 {
            fit_from(s, i + 1, width, visible, after_escape_mode(c), out.push(c))
        } else if mode == 2 {
            fit_from(s, i + 1, width, visible, if is_ascii_alpha(c) { 0 } else { 2 }, out.push(c))
        } else if mode == 3 {
            fit_from(s, i + 1, width, visible, if c == '\x07' { 0 } else { 3 }, out.push(c))
        } else if c == '\x1b' {
            fit_from(s, i + 1, width, visible, 1, out.push(c))
        } else if visible >= width {
            out
        } else {
            fit_from(s, i + 1, width, visible + 1, 0, out.push(c))
        }
    }
}

/// `s` fitted to exactly `width` visible columns, escape sequences kept.
pub open spec fn fitted(s: Seq<char>, width: nat) -> Seq<char> {
    if width == 0 {
        seq![]
    } else {
        fit_from(s, 0, width, 0, 0, seq![])
    }
}

/// Pads or cuts `s` to `width` visible characters, leaving ANSI escape
/// sequences (which take no room) intact.
pub fn pad_or_truncate_visible(s: &str, width: usize) -> (r: String)
    ensures
        r@ == fitted(s@, width as nat),
{
    if width == 0 {
        return String::new();
    }
    let c = chars_of(s);
    let mut out: Vec<char> = Vec::new();
    let mut visible: usize = 0;
    let mut mode: u8 = 0;
    let mut i: usize = 0;
    while i < c.len()
        invariant
            i <= c@.len(),
            c@ == s@,
            width > 0,
            visible <= width,
            mode <= 3,
            fit_from(c@, i as int, width as nat, visible as nat, mode as nat, out@) == fitted(s@, width as nat),
        decreases c.len() - i,
    {
        let ch = c[i];
        if mode == 1 {
            mode = if ch == '[' {
                2
            } else if ch == '_' {
                3
            } else {
                0
            };
            out.push(ch);
        } else if mode == 2 {
            if ('a' <= ch && ch <= 'z') || ('A' <= ch && ch <= 'Z') {
                mode = 0;
            }
            out.push(ch);
        } else if mode == 3 {
            if ch == '\x07' {
                mode = 0;
            }
            out.push(ch);
        } else if ch == '\x1b' {
            mode = 1;
            out.push(ch);
        } else if visible >= width {
            return string_of(out.as_slice());
        } else {
            out.push(ch);
            visible = visible + 1;
        }
        i += 1;
    }
    if visible < width {
        let mut k: usize = 0;
        let ghost base = out@;
        while k < width - visible
            invariant
                visible < width,
                k <= width - visible,
                out@ == base + spaces(k as nat),
            decreases width - visible - k,
        {
            out.push(' ');
            assert(base + spaces((k + 1) as nat) =~= (base + spaces(k as nat)).push(' '));
            k += 1;
        }
    }
    string_of(out.as_slice())
}

/// `s` cut to fit `max` bytes: kept whole when it fits; otherwise the
/// characters that start before byte `max - 3` (none when `max < 3`)
/// followed by `...`.
pub open spec fn truncated(s: Seq<char>, max: nat) -> Seq<char> {
    if byte_len(s) <= max {
        s
    } else {
        s.take(cap_len(s, if max >= 3 { (max - 3) as nat } else { 0 }) as int) + "..."@
    }
}

fn byte_len_exec(s: &[char]) -> (r: u128)
    ensures
        r == byte_len(s@),
{
    let mut b: u128 = 0;
    let mut k: usize = 0;
    while k < s.len()
        invariant
            k <= s@.len(),
            b == byte_len(s@.take(k as int)),
            b <= 4 * k,
        decreases s.len() - k,
    {
        proof {
            assert(s@.take(k + 1).drop_last() =~= s@.take(k as int));
        }
        b = b + char_width_exec(s[k]) as u128;
        k += 1;
    }
    assert(s@.take(s@.len() as int) =~= s@);
    b
}

fn truncated_chars(s: &[char], max_width: usize) -> (r: Vec<char>)
    ensures
        r@ == truncated(s@, max_width as nat),
{
    if byte_len_exec(s) <= max_width as u128 {
        return crate::text::copy_chars(s);
    }
    let m = if max_width >= 3 {
        max_width - 3
    } else {
        0
    };
    let k = cap_len_exec(s, m);
    let mut r = slice_chars(s, 0, k);
    assert(s@.subrange(0, k as int) =~= s@.take(k as int));
    extend_str(&mut r, "...");
    r
}

/// Cuts `s` to at most `max_width` bytes, marking a cut with `...`.
pub fn truncate(s: &str, max_width: usize) -> (r: String)
    ensures
        r@ == truncated(s@, max_width as nat),
{
    let c = chars_of(s);
    string_of(truncated_chars(c.as_slice(), max_width).as_slice())
}

/// `n` horizontal box-drawing lines.
pub open spec fn rule(n: nat) -> Seq<char> {
    Seq::new(n, |_i: int| '\u{2500}')
}

fn push_rule(out: &mut Vec<char>, n: usize)
    ensures
        final(out)@ == old(out)@ + rule(n as nat),
{
    let mut k: usize = 0;
    while k < n
        invariant
            k <= n,
            out@ == old(out)@ + rule(k as nat),
        decreases n - k,
    {
        out.push('\u{2500}');
        assert(old(out)@ + rule((k + 1) as nat) =~= (old(out)@ + rule(k as nat)).push('\u{2500}'));
        k += 1;
    }
}

/// The top edge of a box `width` columns wide with `title` centred in it
/// (cut to the inner width when too long); nothing under two columns.
pub open spec fn box_top(width: nat, title: Seq<char>) -> Seq<char> {
    if width < 2 {
        seq![]
    } else if width == 2 {
        "\u{250c}\u{2510}"@
    } else {
        let inner = (width - 2) as nat;
        let block = truncated(" "@ + title + " "@, inner);
        let rem: nat = if byte_len(block) <= inner { (inner - byte_len(block)) as nat } else { 0 };
        let left = rem / 2;
        "\u{250c}"@ + rule(left) + block + rule((rem - left) as nat) + "\u{2510}"@
    }
}

/// The bottom edge of a box `width` columns wide; nothing under two columns.
pub open spec fn box_bottom(width: nat) -> Seq<char> {
    if width < 2 {
        seq![]
    } else {
        "\u{2514}"@ + rule((width - 2) as nat) + "\u{2518}"@
    }
}

/// The top edge of a titled box.
pub fn make_box_top(width: usize, title: &str) -> (r: String)
    ensures
        r@ == box_top(width as nat, title@),
{
    if width < 2 {
        return String::new();
    }
    let inner = width - 2;
    if inner == 0 {
        return "\u{250c}\u{2510}".to_string();
    }
    let mut centered = chars_of(" ");
    extend_str(&mut centered, title);
    extend_str(&mut centered, " ");
    let block = truncated_chars(centered.as_slice(), inner);
    let bl = byte_len_exec(block.as_slice());
    let rem: usize = if bl <= inner as u128 {
        inner - bl as usize
    } else {
        0
    };
    let left = rem / 2;
    let mut v = chars_of("\u{250c}");
    push_rule(&mut v, left);
    extend_chars(&mut v, block.as_slice());
    push_rule(&mut v, rem - left);
    extend_str(&mut v, "\u{2510}");
    string_of(v.as_slice())
}

/// The bottom edge of a box.
pub fn make_box_bottom(width: usize) -> (r: String)
    ensures
        r@ == box_bottom(width as nat),
{
    if width < 2 {
        return String::new();
    }
    let mut v = chars_of("\u{2514}");
    push_rule(&mut v, width - 2);
    extend_str(&mut v, "\u{2518}");
    string_of(v.as_slice())
}

// ---------------------------------------------------------------------------
// Screen layout
// ---------------------------------------------------------------------------

/// Where the parts of the screen go.
#[derive(Clone, Copy, Debug, PartialEq, Eq, Structural)]
pub enum ScreenLayout {
    /// Too small for boxes: the tail of the history in the first
    /// `history_rows` rows, the footer on `status_row`, the editor from
    /// `editor_row` on.
    Compact { history_rows: u16, status_row: u16, editor_row: u16 },
    /// The boxed layout: a two-row header, the conversation box from
    /// `chat_y` (`chat_box_h` rows, `chat_inner_h` × `chat_inner_w` inside),
    /// the prompt box from `editor_y` (`editor_box_h` rows), the footer on
    /// `footer_y`.
    Boxed {
        chat_y: u16,
        chat_box_h: u16,
        chat_inner_h: u16,
        chat_inner_w: u16,
        editor_y: u16,
        editor_box_h: u16,
        footer_y: u16,
    },
}

/// `a + b`, capped at the largest `u16`.
pub open spec fn sat_add16(a: int, b: int) -> int {
    if a + b > 0xffff {
        0xffff
    } else {
        a + b
    }
}

/// `a - b`, or zero.
pub open spec fn sat_sub(a: int, b: int) -> int {
    if a >= b {
        a - b
    } else {
        0
    }
}

/// The layout for a terminal of `cols` × `rows` with an editor of
/// `editor_h` rows: boxed when the terminal is at least 36 columns wide,
/// has more rows than the header, footer, prompt box and one spare row
/// take, and leaves at least three rows for the conversation box; compact
/// otherwise.
pub open spec fn layout_of(cols: u16, rows: u16, editor_h: u16) -> ScreenLayout {
    let editor_box_h = sat_add16(editor_h as int, 2);
    let reserved = sat_add16(sat_add16(sat_add16(2, 1), editor_box_h), 1);
    let compact = ScreenLayout::Compact {
        history_rows: sat_sub(rows as int, 6) as u16,
        status_row: sat_sub(rows as int, 4) as u16,
        editor_row: sat_sub(rows as int, 3) as u16,
    };
    if cols < 36 || rows <= reserved {
        compact
    } else {
        let chat_box_h = sat_sub(rows as int, 2 + editor_box_h + 1);
        if chat_box_h < 3 {
            compact
        } else {
            ScreenLayout::Boxed {
                chat_y: 2,
                chat_box_h: chat_box_h as u16,
                chat_inner_h: (chat_box_h - 2) as u16,
                chat_inner_w: (cols - 2) as u16,
                editor_y: (2 + chat_box_h) as u16,
                editor_box_h: editor_box_h as u16,
                footer_y: (rows - 1) as u16,
            }
        }
    }
}

fn sat_add_u16(a: u16, b: u16) -> (r: u16)
    ensures
        r == sat_add16(a as int, b as int),
{
    if a as u32 + b as u32 > 0xffff {
        0xffff
    } else {
        a + b
    }
}

fn sat_sub_u16(a: u16, b: u16) -> (r: u16)
    ensures
        r == sat_sub(a as int, b as int),
{
    if a >= b {
        a - b
    } else {
        0
    }
}

/// Decides where the parts of the screen go.
pub fn screen_layout(cols: u16, rows: u16, editor_h: u16) -> (r: ScreenLayout)
    ensures
        r == layout_of(cols, rows, editor_h),
{
    let header_h: u16 = 2;
    let footer_h: u16 = 1;
    let editor_box_h = sat_add_u16(editor_h, 2);
    let reserved = sat_add_u16(sat_add_u16(sat_add_u16(header_h, footer_h), editor_box_h), 1);
    let compact = ScreenLayout::Compact {
        history_rows: sat_sub_u16(rows, 6),
        status_row: sat_sub_u16(rows, 4),
        editor_row: sat_sub_u16(rows, 3),
    };
    if cols < 36 || rows <= reserved {
        return compact;
    }
    let chat_box_h = sat_sub_u16(rows, header_h + editor_box_h + footer_h);
    if chat_box_h < 3 {
        return compact;
    }
    ScreenLayout::Boxed {
        chat_y: header_h,
        chat_box_h,
        chat_inner_h: chat_box_h - 2,
        chat_inner_w: cols - 2,
        editor_y: header_h + chat_box_h,
        editor_box_h,
        footer_y: rows - 1,
    }
}

/// The last `n` lines (all of them when there are no more than `n`).
pub open spec fn tail_lines(ls: Seq<Seq<char>>, n: nat) -> Seq<Seq<char>> {
    if ls.len() > n {
        ls.skip(ls.len() - n)
    } else {
        ls
    }
}

/// The last `n` lines of the history, which is what fits on screen.
pub fn history_tail(lines: &Vec<String>, n: usize) -> (r: Vec<String>)
    ensures
        views_of(r@) == tail_lines(views_of(lines@), n as nat),
{
    let from = if lines.len() > n {
        lines.len() - n
    } else {
        0
    };
    let mut r: Vec<String> = Vec::new();
    let mut i = from;
    while i < lines.len()
        invariant
            from <= i <= lines@.len(),
            views_of(r@) == views_of(lines@).subrange(from as int, i as int),
        decreases lines.len() - i,
    {
        let ghost before = views_of(r@);
        r.push(lines[i].as_str().to_string());
        assert(views_of(r@) =~= before.push(lines@[i as int]@));
        assert(views_of(lines@).subrange(from as int, i + 1) =~= views_of(lines@).subrange(from as int, i as int).push(lines@[i as int]@));
        i += 1;
    }
    assert(views_of(lines@).subrange(from as int, lines@.len() as int) =~= tail_lines(views_of(lines@), n as nat));
    r
}

/// The screen lines of one history entry; `rendered` is its Markdown
/// layout, used when it is the assistant's.
pub open spec fn entry_lines(entry: (Seq<char>, Seq<char>), rendered: Seq<Seq<char>>, width: nat) -> Seq<Seq<char>> {
    if entry.0 == "assistant"@ {
        markdown_message_lines(role_lead(entry.0), "     "@, rendered)
    } else {
        plain_message_lines(role_lead(entry.0), "     "@, entry.1, width)
    }
}

/// The screen lines of the first `history.len()` entries, in order.
pub open spec fn history_lines(history: Seq<(Seq<char>, Seq<char>)>, rendered: Seq<Seq<Seq<char>>>, width: nat) -> Seq<
    Seq<char>,
>
    decreases history.len(),
{
    if history.len() == 0 {
        seq![]
    } else {
        history_lines(history.drop_last(), rendered, width) + entry_lines(
            history.last(),
            rendered[history.len() - 1],
            width,
        )
    }
}

/// The Markdown layouts, one list of lines per history entry.
pub open spec fn rendered_views(rendered: Seq<Vec<String>>) -> Seq<Seq<Seq<char>>> {
    rendered.map_values(|v: Vec<String>| views_of(v@))
}

impl TuiApp {
    /// Every line of the conversation as the screen shows it at `width`
    /// columns: each message behind its role prefix (an assistant message
    /// as the Markdown renderer laid it out, `rendered[i]` for the `i`-th
    /// message), then the reply being streamed, wrapped as plain text
    /// behind the assistant's prefix.
    pub fn render_history_lines(&self, width: usize, rendered: &Vec<Vec<String>>) -> (r: Vec<String>)
        requires
            rendered@.len() == self.messages@.len(),
        ensures
            views_of(r@) == history_lines(self.history(), rendered_views(rendered@), width as nat) + if self.is_streaming
                && self.streaming_text@.len() > 0 {
                plain_message_lines("pi > "@, "     "@, self.streaming_text@, width as nat)
            } else {
                seq![]
            },
    {
        let mut out: Vec<String> = Vec::new();
        let mut i: usize = 0;
        while i < self.messages.len()
            invariant
                i <= self.messages@.len(),
                rendered@.len() == self.messages@.len(),
                views_of(out@) == history_lines(self.history().take(i as int), rendered_views(rendered@), width as nat),
            decreases self.messages.len() - i,
        {
            let m = &self.messages[i];
            let (lead, cont) = role_prefix(m.role.as_str());
            push_wrapped_message_lines(&mut out, m.role.as_str(), lead, cont, m.text.as_str(), width, &rendered[i]);
            proof {
                let h = self.history().take(i + 1);
                assert(h.drop_last() =~= self.history().take(i as int));
                assert(h.last() == message_view(self.messages@[i as int]));
            }
            i += 1;
        }
        proof {
            assert(self.history().take(self.messages@.len() as int) =~= self.history());
        }
        let ghost base = views_of(out@);
        if self.is_streaming && chars_of(self.streaming_text.as_str()).len() > 0 {
            proof {
                reveal_strlit("assistant_streaming");
                reveal_strlit("assistant");
                assert("assistant_streaming"@ != "assistant"@) by {
                    assert("assistant_streaming"@.len() != "assistant"@.len());
                }
            }
            let none: Vec<String> = Vec::new();
            push_wrapped_message_lines(
                &mut out,
                "assistant_streaming",
                "pi > ",
                "     ",
                self.streaming_text.as_str(),
                width,
                &none,
            );
        } else {
            assert(views_of(out@) =~= base + Seq::<Seq<char>>::empty());
        }
        out
    }
}

// ---------------------------------------------------------------------------
// What a key does
// ---------------------------------------------------------------------------

/// What a key press does in the main loop.
#[derive(Clone, Copy, Debug, PartialEq, Eq, Structural)]
pub enum KeyAction {
    /// Ctrl+C or Ctrl+D: leave.
    Quit,
    /// Shift+Tab: the next thinking level.
    CycleThinking,
    /// Ctrl+P (Shift+Ctrl+P backward): the next model.
    CycleModel { backward: bool },
    /// Ctrl+L: open the model selector.
    OpenModelSelector,
    /// Tab: complete a slash command (when there is nothing to complete the
    /// key goes to the editor).
    Autocomplete,
    /// Enter: submit the editor's text.
    Submit,
    /// Anything else goes to the editor.
    Edit,
}

/// Whether the key is Ctrl+C or Ctrl+D.
pub open spec fn is_quit_key(key: KeyInput) -> bool {
    key.ctrl && (key.code == KeyCode::Char('c') || key.code == KeyCode::Char('d'))
}

/// Whether the key is a character whose ASCII lowercase is `c`.
pub open spec fn is_char_key(key: KeyInput, c: char) -> bool {
    match key.code {
        KeyCode::Char(k) => ascii_lower(k) == c,
        _ => false,
    }
}

/// What a key does; while a reply streams in, only quitting and typing work.
pub open spec fn key_action_of(key: KeyInput, is_streaming: bool) -> KeyAction {
    if is_quit_key(key) {
        KeyAction::Quit
    } else if !is_streaming && (key.code == KeyCode::BackTab || (key.code == KeyCode::Tab && key.shift)) {
        KeyAction::CycleThinking
    } else if !is_streaming && key.ctrl && is_char_key(key, 'p') {
        KeyAction::CycleModel { backward: key.shift }
    } else if !is_streaming && key.ctrl && is_char_key(key, 'l') {
        KeyAction::OpenModelSelector
    } else if !is_streaming && key.code == KeyCode::Tab && !key.ctrl && !key.shift && !key.alt && !key.other {
        KeyAction::Autocomplete
    } else if !is_streaming && key.code == KeyCode::Enter {
        KeyAction::Submit
    } else {
        KeyAction::Edit
    }
}

fn is_quit_exec(key: &KeyInput) -> (r: bool)
    ensures
        r == is_quit_key(*key),
{
    key.ctrl && match key.code {
        KeyCode::Char(c) => c == 'c' || c == 'd',
        _ => false,
    }
}

fn is_char_exec(key: &KeyInput, c: char) -> (r: bool)
    ensures
        r == is_char_key(*key, c),
{
    match key.code {
        KeyCode::Char(k) => ascii_lower_exec(k) == c,
        _ => false,
    }
}

/// Decides what a key press does in the main loop.
pub fn key_action(key: &KeyInput, is_streaming: bool) -> (r: KeyAction)
    ensures
        r == key_action_of(*key, is_streaming),
{
    let is_tab = match key.code {
        KeyCode::Tab => true,
        _ => false,
    };
    let is_backtab = match key.code {
        KeyCode::BackTab => true,
        _ => false,
    };
    let is_enter = match key.code {
        KeyCode::Enter => true,
        _ => false,
    };
    if is_quit_exec(key) {
        KeyAction::Quit
    } else if !is_streaming && (is_backtab || (is_tab && key.shift)) {
        KeyAction::CycleThinking
    } else if !is_streaming && key.ctrl && is_char_exec(key, 'p') {
        KeyAction::CycleModel { backward: key.shift }
    } else if !is_streaming && key.ctrl && is_char_exec(key, 'l') {
        KeyAction::OpenModelSelector
    } else if !is_streaming && is_tab && !key.ctrl && !key.shift && !key.alt && !key.other {
        KeyAction::Autocomplete
    } else if !is_streaming && is_enter {
        KeyAction::Submit
    } else {
        KeyAction::Edit
    }
}

/// What a key press does in a selector overlay.
#[derive(Clone, Copy, Debug, PartialEq, Eq, Structural)]
pub enum SelectorKey {
    /// Ctrl+C, Ctrl+D or Esc: close without choosing.
    Cancel,
    /// Enter: choose the highlighted entry.
    Confirm,
    /// Backspace: drop the last character of the filter.
    DeleteChar,
    /// A plain character: extend the filter.
    TypeChar(char),
    /// Anything else moves the highlight (as the key's bytes).
    Navigate,
}

/// What a key does in the model selector, which has a filter to type into.
pub open spec fn model_selector_key_of(key: KeyInput) -> SelectorKey {
    if is_quit_key(key) {
        SelectorKey::Cancel
    } else {
        match key.code {
            KeyCode::Esc => SelectorKey::Cancel,
            KeyCode::Enter => SelectorKey::Confirm,
            KeyCode::Backspace => SelectorKey::DeleteChar,
            KeyCode::Char(c) => if !key.ctrl && !key.alt {
                SelectorKey::TypeChar(c)
            } else {
                SelectorKey::Navigate
            },
            _ => SelectorKey::Navigate,
        }
    }
}

/// Decides what a key does in the model selector.
pub fn model_selector_key(key: &KeyInput) -> (r: SelectorKey)
    ensures
        r == model_selector_key_of(*key),
{
    if is_quit_exec(key) {
        return SelectorKey::Cancel;
    }
    match key.code {
        KeyCode::Esc => SelectorKey::Cancel,
        KeyCode::Enter => SelectorKey::Confirm,
        KeyCode::Backspace => SelectorKey::DeleteChar,
        KeyCode::Char(c) => {
            if !key.ctrl && !key.alt {
                SelectorKey::TypeChar(c)
            } else {
                SelectorKey::Navigate
            }
        },
        _ => SelectorKey::Navigate,
    }
}

/// What a key does in the thinking-level selector, which has no filter.
pub open spec fn thinking_selector_key_of(key: KeyInput) -> SelectorKey {
    if is_quit_key(key) || key.code == KeyCode::Esc {
        SelectorKey::Cancel
    } else if key.code == KeyCode::Enter {
        SelectorKey::Confirm
    } else {
        SelectorKey::Navigate
    }
}

/// Decides what a key does in the thinking-level selector.
pub fn thinking_selector_key(key: &KeyInput) -> (r: SelectorKey)
    ensures
        r == thinking_selector_key_of(*key),
{
    if is_quit_exec(key) {
        return SelectorKey::Cancel;
    }
    match key.code {
        KeyCode::Esc => SelectorKey::Cancel,
        KeyCode::Enter => SelectorKey::Confirm,
        _ => SelectorKey::Navigate,
    }
}

/// The answer a key gives to a tool approval request: `y` allows, `n` or
/// Esc denies (either case), anything else is no answer.
pub open spec fn approval_of(key: KeyInput) -> Option<bool> {
    match key.code {
        KeyCode::Char(c) => if c == 'y' || c == 'Y' {
            Some(true)
        } else if c == 'n' || c == 'N' {
            Some(false)
        } else {
            None
        },
        KeyCode::Esc => Some(false),
        _ => None,
    }
}

/// Reads a key as an answer to a tool approval request.
pub fn approval_key(key: &KeyInput) -> (r: Option<bool>)
    ensures
        r == approval_of(*key),
{
    match key.code {
        KeyCode::Char(c) => {
            if c == 'y' || c == 'Y' {
                Some(true)
            } else if c == 'n' || c == 'N' {
                Some(false)
            } else {
                None
            }
        },
        KeyCode::Esc => Some(false),
        _ => None,
    }
}

/// The note behind a model's name telling its thinking level: only for a
/// model that reasons and a level that is not off.
pub open spec fn thinking_suffix(supports_reasoning: bool, level: Option<ThinkingLevel>) -> Seq<char> {
    if supports_reasoning && level is Some {
        " (thinking: "@ + level_name(level) + ")"@
    } else {
        seq![]
    }
}

/// The thinking note behind a model's name.
pub fn render_thinking_suffix(supports_reasoning: bool, thinking_level: Option<ThinkingLevel>) -> (r: String)
    ensures
        r@ == thinking_suffix(supports_reasoning, thinking_level),
{
    if supports_reasoning && thinking_level.is_some() {
        let mut v = chars_of(" (thinking: ");
        extend_str(&mut v, format_thinking_level(thinking_level));
        extend_str(&mut v, ")");
        return string_of(v.as_slice());
    }
    String::new()
}

impl TuiApp {
    /// Shows the current provider and model in the footer, with the
    /// thinking level (`n/a` for a model that does not reason), and the
    /// status `ready`, or `auth required` when the provider has no
    /// credentials.
    pub fn set_ready_status(
        &mut self,
        provider: &str,
        model: &str,
        has_provider: bool,
        supports_reasoning: bool,
        level: Option<ThinkingLevel>,
    )
        requires
            old(self).wf(),
        ensures
            final(self).wf(),
            final(self).history() == old(self).history(),
            final(self).turn_count() == old(self).turn_count(),
            final(self).tool_run_count() == old(self).tool_run_count(),
            final(self).tool_error_count() == old(self).tool_error_count(),
            final(self).footer_provider@ == provider@,
            final(self).footer_model@ == model@,
            final(self).footer_thinking@ == if supports_reasoning {
                level_name(level)
            } else {
                "n/a"@
            },
            final(self).footer_auth_required == !has_provider,
            final(self).status@ == if has_provider {
                "ready"@
            } else {
                "auth required"@
            },
            final(self).is_streaming == old(self).is_streaming,
            final(self).streaming_text == old(self).streaming_text,
    {
        self.footer_provider = provider.to_string();
        self.footer_model = model.to_string();
        self.footer_thinking = if supports_reasoning {
            format_thinking_level(level).to_string()
        } else {
            "n/a".to_string()
        };
        self.footer_auth_required = !has_provider;
        self.status = if has_provider {
            "ready".to_string()
        } else {
            "auth required".to_string()
        };
    }
}

} // verus!
