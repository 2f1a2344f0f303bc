//! The command line: its arguments and what the program decides from them
//! before any work starts (provider, models, thinking level, mode, where
//! sessions live and which session to use).

use vstd::prelude::*;
use crate::paths::{join_path, opt_str_view, path_join};
use crate::text::{chars_of, extend_str, join, slice_chars, string_of, str_eq, byte_len};
use crate::tui::ThinkingLevel;
use crate::truncate::{cap_len, cap_len_exec};

verus! {

broadcast use vstd::string::group_string_axioms;

/// The command-line arguments.
#[derive(Debug, Clone)]
pub struct Args {
    /// LLM provider (e.g. anthropic, openai, google).
    pub provider: Option<String>,
    /// Model to use.
    pub model: Option<String>,
    /// Models to cycle through.
    pub models: Vec<String>,
    /// API key (overrides the environment).
    pub api_key: Option<String>,
    /// System prompt override.
    pub system_prompt: Option<String>,
    /// Appended to the default system prompt.
    pub append_system_prompt: Option<String>,
    /// Thinking level (minimal, low, medium, high, xhigh).
    pub thinking: Option<String>,
    /// Continue from the last session.
    pub resume: bool,
    /// Output mode: text, json or rpc.
    pub mode: String,
    /// Do not save the session.
    pub no_session: bool,
    /// Session file path.
    pub session: Option<String>,
    /// Session directory.
    pub session_dir: Option<String>,
    /// Print a single response and exit.
    pub print: bool,
    /// Disable all tools.
    pub no_tools: bool,
    /// Verbose output.
    pub verbose: bool,
    /// The initial prompt.
    pub messages: Vec<String>,
}

/// The provider to use: the one given, `anthropic` otherwise.
pub fn provider_name(args: &Args) -> (r: &str)
    ensures
        r@ == match args.provider {
            Some(p) => p@,
            None => "anthropic"@,
        },
{
    match &args.provider {
        Some(p) => p.as_str(),
        None => "anthropic",
    }
}

/// The models to use, in order: the cycle list when one is given, else the
/// model given, else `default_model`.
pub fn model_ids(args: &Args, default_model: &str) -> (r: Vec<String>)
    ensures
        crate::order::views_of(r@) == if args.models@.len() > 0 {
            crate::order::views_of(args.models@)
        } else {
            seq![
                match args.model {
                    Some(m) => m@,
                    None => default_model@,
                },
            ]
        },
{
    if args.models.len() > 0 {
        let mut r: Vec<String> = Vec::new();
        let mut i: usize = 0;
        while i < args.models.len()
            invariant
                i <= args.models@.len(),
                crate::order::views_of(r@) == crate::order::views_of(args.models@).take(i as int),
            decreases args.models.len() - i,
        {
            let ghost before = crate::order::views_of(r@);
            r.push(args.models[i].as_str().to_string());
            assert(crate::order::views_of(r@) =~= before.push(args.models@[i as int]@));
            assert(crate::order::views_of(args.models@).take(i + 1) =~= crate::order::views_of(args.models@).take(
                i as int,
            ).push(args.models@[i as int]@));
            i += 1;
        }
        assert(crate::order::views_of(args.models@).take(args.models@.len() as int) =~= crate::order::views_of(
            args.models@,
        ));
        r
    } else {
        let m = match &args.model {
            Some(m) => m.as_str().to_string(),
            None => default_model.to_string(),
        };
        let r = vec![m];
        assert(crate::order::views_of(r@) =~= seq![r@[0]@]);
        r
    }
}

/// The thinking level the command line asks for: the exact level names,
/// anything else reads as medium; none when not given.
pub open spec fn cli_level(s: Option<Seq<char>>) -> Option<ThinkingLevel> {
    match s {
        None => None,
        Some(t) => Some(
            if t == "minimal"@ {
                ThinkingLevel::Minimal
            } else if t == "low"@ {
                ThinkingLevel::Low
            } else if t == "medium"@ {
                ThinkingLevel::Medium
            } else if t == "high"@ {
                ThinkingLevel::High
            } else if t == "xhigh"@ {
                ThinkingLevel::XHigh
            } else {
                ThinkingLevel::Medium
            },
        ),
    }
}

/// Reads the `--thinking` argument.
pub fn cli_thinking_level(s: Option<&str>) -> (r: Option<ThinkingLevel>)
    ensures
        r == cli_level(
            match s {
                Some(t) => Some(t@),
                None => None,
            },
        ),
{
    match s {
        None => None,
        Some(t) => Some(
            if str_eq(t, "minimal") {
                ThinkingLevel::Minimal
            } else if str_eq(t, "low") {
                ThinkingLevel::Low
            } else if str_eq(t, "medium") {
                ThinkingLevel::Medium
            } else if str_eq(t, "high") {
                ThinkingLevel::High
            } else if str_eq(t, "xhigh") {
                ThinkingLevel::XHigh
            } else {
                ThinkingLevel::Medium
            },
        ),
    }
}

/// How the program runs.
#[derive(Debug, Clone, Copy, PartialEq, Eq, Structural)]
pub enum RunMode {
    /// Answer the initial prompt once and exit.
    Print,
    /// Answer the initial prompt as JSON events.
    Json,
    /// Serve commands on standard input.
    Rpc,
    /// Interactive.
    Interactive,
}

/// The mode: print or JSON only with an initial prompt, RPC when asked
/// for, interactive otherwise.
pub open spec fn mode_of(print: bool, mode: Seq<char>, has_initial_input: bool) -> RunMode {
    if print && has_initial_input {
        RunMode::Print
    } else if mode == "json"@ && has_initial_input {
        RunMode::Json
    } else if mode == "rpc"@ {
        RunMode::Rpc
    } else {
        RunMode::Interactive
    }
}

/// Decides how the program runs.
pub fn run_mode(print: bool, mode: &str, has_initial_input: bool) -> (r: RunMode)
    ensures
        r == mode_of(print, mode@, has_initial_input),
{
    if print && has_initial_input {
        RunMode::Print
    } else if str_eq(mode, "json") && has_initial_input {
        RunMode::Json
    } else if str_eq(mode, "rpc") {
        RunMode::Rpc
    } else {
        RunMode::Interactive
    }
}

/// The initial prompt: the positional arguments joined by spaces.
pub fn raw_prompt(messages: &Vec<String>) -> (r: String)
    ensures
        r@ == join(crate::order::views_of(messages@), " "@),
{
    let mut parts: Vec<Vec<char>> = Vec::new();
    let mut i: usize = 0;
    while i < messages.len()
        invariant
            i <= messages@.len(),
            parts@.map_values(|p: Vec<char>| p@) == crate::order::views_of(messages@).take(i as int),
        decreases messages.len() - i,
    {
        let ghost before = parts@.map_values(|p: Vec<char>| p@);
        parts.push(chars_of(messages[i].as_str()));
        assert(parts@.map_values(|p: Vec<char>| p@) =~= before.push(messages@[i as int]@));
        assert(crate::order::views_of(messages@).take(i + 1) =~= crate::order::views_of(messages@).take(i as int).push(
            messages@[i as int]@,
        ));
        i += 1;
    }
    assert(crate::order::views_of(messages@).take(messages@.len() as int) =~= crate::order::views_of(messages@));
    let j = crate::text::join_chars(&parts, chars_of(" ").as_slice());
    string_of(j.as_slice())
}

/// Where sessions are kept: the directory given, else `.pi/agent/sessions`
/// under the home directory (the current directory without one).
pub open spec fn sessions_dir_of(session_dir: Option<Seq<char>>, home: Option<Seq<char>>) -> Seq<char> {
    match session_dir {
        Some(d) => d,
        None => path_join(
            path_join(
                path_join(
                    match home {
                        Some(h) => h,
                        None => "."@,
                    },
                    ".pi"@,
                ),
                "agent"@,
            ),
            "sessions"@,
        ),
    }
}

/// Where sessions are kept.
pub fn resolve_sessions_dir(session_dir: Option<&str>, home: Option<&str>) -> (r: String)
    ensures
        r@ == sessions_dir_of(
            match session_dir {
                Some(d) => Some(d@),
                None => None,
            },
            match home {
                Some(h) => Some(h@),
                None => None,
            },
        ),
{
    match session_dir {
        Some(d) => d.to_string(),
        None => {
            let base = match home {
                Some(h) => h,
                None => ".",
            };
            let a = join_path(base, ".pi");
            let b = join_path(a.as_str(), "agent");
            join_path(b.as_str(), "sessions")
        },
    }
}

/// Which session the program works in.
#[derive(Debug, Clone, PartialEq, Eq)]
pub enum SessionStart {
    /// None: nothing is saved.
    Disabled,
    /// Open (or create) the session file at this path.
    Open(String),
    /// Start a new session.
    Create,
}

/// The session to use: none with `--no-session`; the file given with
/// `--session`; with `--resume`, the most recently used session (a new one
/// when there is none); a new one otherwise.
pub fn session_start(no_session: bool, session: Option<&str>, resume: bool, newest: Option<&str>) -> (r: SessionStart)
    ensures
        no_session ==> r == SessionStart::Disabled,
        !no_session ==> match session {
            Some(p) => r matches SessionStart::Open(x) && x@ == p@,
            None => if resume {
                match newest {
                    Some(n) => r matches SessionStart::Open(x) && x@ == n@,
                    None => r == SessionStart::Create,
                }
            } else {
                r == SessionStart::Create
            },
        },
{
    if no_session {
        return SessionStart::Disabled;
    }
    match session {
        Some(p) => SessionStart::Open(p.to_string()),
        None => {
            if resume {
                match newest {
                    Some(n) => SessionStart::Open(n.to_string()),
                    None => SessionStart::Create,
                }
            } else {
                SessionStart::Create
            }
        },
    }
}

/// The file name of a new session: the first eight bytes of its id, then
/// `.jsonl`.
pub open spec fn session_file_name_of(id: Seq<char>) -> Seq<char> {
    id.take(cap_len(id, 8) as int) + ".jsonl"@
}

/// Whether an id can give a file name: at least eight bytes, the eighth
/// ending a character (always so for the ids the program draws).
pub open spec fn file_nameable(id: Seq<char>) -> bool {
    byte_len(id) >= 8 && byte_len(id.take(cap_len(id, 8) as int)) == 8
}

/// Whether a session id can name a file (see [`file_nameable`]).
pub fn is_file_nameable(id: &str) -> (r: bool)
    ensures
        r == file_nameable(id@),
{
    let c = chars_of(id);
    let k = cap_len_exec(c.as_slice(), 8);
    let prefix = slice_chars(c.as_slice(), 0, k);
    assert(prefix@ =~= id@.take(k as int));
    let total = crate::text::byte_count(c.as_slice());
    let head = crate::text::byte_count(prefix.as_slice());
    total >= 8 && head == 8
}

/// The file name of a new session.
pub fn session_file_name(id: &str) -> (r: String)
    requires
        file_nameable(id@),
    ensures
        r@ == session_file_name_of(id@),
{
    let c = chars_of(id);
    let k = cap_len_exec(c.as_slice(), 8);
    let mut v = slice_chars(c.as_slice(), 0, k);
    assert(v@ =~= id@.take(k as int));
    extend_str(&mut v, ".jsonl");
    string_of(v.as_slice())
}

} // verus!
