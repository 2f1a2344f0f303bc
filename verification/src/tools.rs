//! The built-in tools: what each decides and the text each returns.  The
//! file system and processes are reached by the caller, which hands the
//! results to these functions.

use vstd::prelude::*;
use crate::text::{
    chars_of, decimal, extend_chars, extend_str, find_sub, join, join_chars, lines, push_decimal,
    string_of, trim_ws,
};
use crate::truncate::{smart_truncate, smart_truncate_spec, TruncationConfig};

verus! {

broadcast use vstd::string::group_string_axioms;

/// What a tool returns: a text and whether it reports an error.
#[derive(Debug, Clone, PartialEq, Eq)]
pub struct ToolOutput {
    pub content: String,
    pub is_error: bool,
}

/// The `bash` tool.
pub struct BashTool;

/// The `find` tool.
pub struct FindTool;

/// The `grep` tool.
pub struct GrepTool;

/// The `ls` tool.
pub struct LsTool;

impl BashTool {
    pub fn new() -> (r: Self) {
        BashTool
    }
}

impl FindTool {
    pub fn new() -> (r: Self) {
        FindTool
    }
}

impl GrepTool {
    pub fn new() -> (r: Self) {
        GrepTool
    }
}

impl LsTool {
    pub fn new() -> (r: Self) {
        LsTool
    }
}

// ---------------------------------------------------------------------------
// Output of a process
// ---------------------------------------------------------------------------

/// Whether a stream counts as empty: blank (`trimmed`) or without any
/// character.
pub open spec fn stream_empty(s: Seq<char>, trimmed: bool) -> bool {
    if trimmed {
        trim_ws(s).len() == 0
    } else {
        s.len() == 0
    }
}

/// The combined output of a process: its standard output unless empty,
/// then `STDERR:` and its error output unless empty (after a newline when
/// something came before), or `(no output)`.
pub open spec fn streams_text(stdout: Seq<char>, stderr: Seq<char>, trimmed: bool) -> Seq<char> {
    let a = if stream_empty(stdout, trimmed) {
        seq![]
    } else {
        stdout
    };
    let b = if stream_empty(stderr, trimmed) {
        a
    } else {
        (if a.len() > 0 {
            a + "\n"@
        } else {
            a
        }) + "STDERR:\n"@ + stderr
    };
    if b.len() == 0 {
        "(no output)"@
    } else {
        b
    }
}

fn stream_empty_exec(s: &str, trimmed: bool) -> (r: bool)
    ensures
        r == stream_empty(s@, trimmed),
{
    if trimmed {
        let c = chars_of(s);
        crate::text::trim_exec(c.as_slice()).len() == 0
    } else {
        s.is_empty()
    }
}

/// The combined output of a process.
pub fn streams_output(stdout: &str, stderr: &str, trimmed: bool) -> (r: String)
    ensures
        r@ == streams_text(stdout@, stderr@, trimmed),
{
    let mut out: Vec<char> = Vec::new();
    if !stream_empty_exec(stdout, trimmed) {
        extend_str(&mut out, stdout);
    }
    if !stream_empty_exec(stderr, trimmed) {
        if out.len() > 0 {
            extend_str(&mut out, "\n");
        }
        extend_str(&mut out, "STDERR:\n");
        extend_str(&mut out, stderr);
    }
    if out.len() == 0 {
        proof {
            reveal_strlit("(no output)");
        }
        return "(no output)".to_string();
    }
    string_of(out.as_slice())
}

/// The decimal text of a signed number.
pub open spec fn signed_decimal(n: int) -> Seq<char> {
    if n < 0 {
        "-"@ + decimal((-n) as nat)
    } else {
        decimal(n as nat)
    }
}

fn push_signed(out: &mut Vec<char>, n: i32)
    ensures
        final(out)@ == old(out)@ + signed_decimal(n as int),
{
    if n < 0 {
        extend_str(out, "-");
        let m: i64 = -(n as i64);
        push_decimal(out, m as usize);
    } else {
        push_decimal(out, n as usize);
    }
}

/// The exit code line: the code, or -1 when the process gave none.
pub open spec fn exit_code_text(code: Option<i32>) -> Seq<char> {
    "\nExit code: "@ + signed_decimal(
        match code {
            Some(c) => c as int,
            None => -1,
        },
    )
}

fn push_exit_code(out: &mut Vec<char>, code: Option<i32>)
    ensures
        final(out)@ == old(out)@ + exit_code_text(code),
{
    extend_str(out, "\nExit code: ");
    match code {
        Some(c) => push_signed(out, c),
        None => push_signed(out, -1),
    }
}

/// What the `bash` tool returns for a finished command: its combined
/// output, with the exit code after it when the command failed.
pub fn bash_result(stdout: &str, stderr: &str, success: bool, code: Option<i32>) -> (r: ToolOutput)
    ensures
        r.is_error == !success,
        r.content@ == streams_text(stdout@, stderr@, false) + if success {
            seq![]
        } else {
            exit_code_text(code)
        },
{
    let text = streams_output(stdout, stderr, false);
    let mut out = chars_of(text.as_str());
    if !success {
        push_exit_code(&mut out, code);
    }
    ToolOutput { content: string_of(out.as_slice()), is_error: !success }
}

/// What an extension tool returns when its process failed: its combined
/// non-blank output and the exit code.
pub fn failed_run_result(stdout: &str, stderr: &str, code: Option<i32>) -> (r: ToolOutput)
    ensures
        r.is_error,
        r.content@ == streams_text(stdout@, stderr@, true) + exit_code_text(code),
{
    let text = streams_output(stdout, stderr, true);
    let mut out = chars_of(text.as_str());
    push_exit_code(&mut out, code);
    ToolOutput { content: string_of(out.as_slice()), is_error: true }
}

/// What an extension tool run as a shell command returns: its combined
/// non-blank output.
pub fn build_plain_result(stdout: &str, stderr: &str) -> (r: ToolOutput)
    ensures
        !r.is_error,
        r.content@ == streams_text(stdout@, stderr@, true),
{
    ToolOutput { content: streams_output(stdout, stderr, true), is_error: false }
}

/// The fields of the JSON-RPC reply of a binary extension tool, as read
/// from its trimmed standard output.
pub struct JsonRpcFields {
    /// Whether the output parsed as JSON.
    pub parsed: bool,
    /// The `error` member, as JSON text.
    pub error: Option<String>,
    /// The `result` member: its text when it is a string, else its JSON.
    pub result: Option<(bool, String)>,
    /// The `output` member when it is a string.
    pub output: Option<String>,
    /// The `success` member when it is a boolean.
    pub success: Option<bool>,
}

/// What a binary extension tool returns: an error for a JSON-RPC error, the
/// result, or the output (an error when `success` is false); the plain
/// combined output when the reply is blank, not JSON or none of these.
pub open spec fn binary_result_spec(stdout: Seq<char>, stderr: Seq<char>, f: JsonRpcFields) -> (Seq<char>, bool) {
    if trim_ws(stdout).len() == 0 || !f.parsed {
        (streams_text(stdout, stderr, true), false)
    } else if f.error is Some {
        ("Binary tool error: "@ + f.error.unwrap()@, true)
    } else if f.result is Some {
        (f.result.unwrap().1@, false)
    } else if f.output is Some {
        (
            f.output.unwrap()@,
            match f.success {
                Some(b) => !b,
                None => false,
            },
        )
    } else {
        (streams_text(stdout, stderr, true), false)
    }
}

/// The result of a binary extension tool from its output and the fields
/// of its reply.
pub fn build_binary_jsonrpc_result(stdout: &str, stderr: &str, fields: JsonRpcFields) -> (r: ToolOutput)
    ensures
        (r.content@, r.is_error) == binary_result_spec(stdout@, stderr@, fields),
{
    let c = chars_of(stdout);
    let blank = crate::text::trim_exec(c.as_slice()).len() == 0;
    if blank || !fields.parsed {
        return build_plain_result(stdout, stderr);
    }
    match fields.error {
        Some(e) => {
            let mut out: Vec<char> = Vec::new();
            extend_str(&mut out, "Binary tool error: ");
            extend_str(&mut out, e.as_str());
            return ToolOutput { content: string_of(out.as_slice()), is_error: true };
        },
        None => {},
    }
    match fields.result {
        Some(r) => {
            return ToolOutput { content: r.1, is_error: false };
        },
        None => {},
    }
    match fields.output {
        Some(o) => {
            let ok = match fields.success {
                Some(b) => b,
                None => true,
            };
            ToolOutput { content: o, is_error: !ok }
        },
        None => build_plain_result(stdout, stderr),
    }
}

// ---------------------------------------------------------------------------
// read
// ---------------------------------------------------------------------------

/// `n` right-aligned in a field of six characters.
pub open spec fn pad6(n: nat) -> Seq<char> {
    let d = decimal(n);
    if d.len() < 6 {
        Seq::new((6 - d.len()) as nat, |i: int| ' ') + d
    } else {
        d
    }
}

/// The first line shown: `offset` counts from 1.
pub open spec fn read_start(offset: nat, n: nat) -> nat {
    let s = if offset == 0 {
        0
    } else {
        (offset - 1) as nat
    };
    if s < n {
        s
    } else {
        n
    }
}

/// The line after the last shown.
pub open spec fn read_end(start: nat, limit: Option<nat>, n: nat) -> nat {
    match limit {
        Some(l) => if start + l < n {
            start + l
        } else {
            n
        },
        None => n,
    }
}

/// Lines `ls[from..to]`, each numbered (from `from + 1`), a tab and the
/// line, ending with a newline.
pub open spec fn numbered(ls: Seq<Seq<char>>, from: int, to: int) -> Seq<char>
    decreases to - from,
{
    if to <= from {
        seq![]
    } else {
        numbered(ls, from, to - 1) + pad6((to) as nat) + "\t"@ + ls[to - 1] + "\n"@
    }
}

/// The text the `read` tool shows before truncation.
pub open spec fn read_text(content: Seq<char>, offset: nat, limit: Option<nat>) -> Seq<char> {
    let ls = lines(content);
    let start = read_start(offset, ls.len());
    let end = read_end(start, limit, ls.len());
    let t = numbered(ls, start as int, end as int);
    if t.len() == 0 {
        "(empty file)"@
    } else {
        t
    }
}

fn push_pad6(out: &mut Vec<char>, n: usize)
    ensures
        final(out)@ == old(out)@ + pad6(n as nat),
{
    let mut d: Vec<char> = Vec::new();
    push_decimal(&mut d, n);
    assert(d@ =~= decimal(n as nat));
    if d.len() < 6 {
        let k = 6 - d.len();
        let ghost before = out@;
        let mut i: usize = 0;
        while i < k
            invariant
                i <= k,
                out@ == before + Seq::new(i as nat, |j: int| ' '),
            decreases k - i,
        {
            out.push(' ');
            assert(before + Seq::new((i + 1) as nat, |j: int| ' ') =~= (before + Seq::new(
                i as nat,
                |j: int| ' ',
            )).push(' '));
            i += 1;
        }
        extend_chars(out, d.as_slice());
        assert(out@ =~= before + pad6(n as nat));
    } else {
        extend_chars(out, d.as_slice());
    }
}

/// What the `read` tool shows of a file: the lines from `offset` (counted
/// from 1), at most `limit` of them, numbered, or `(empty file)`; then cut
/// down by [`smart_truncate`] with its default limits.
pub fn read_output(content: &str, offset: usize, limit: Option<usize>) -> (r: String)
    ensures
        r@ == smart_truncate_spec(
            read_text(
                content@,
                offset as nat,
                match limit {
                    Some(l) => Some(l as nat),
                    None => None,
                },
            ),
            30_000,
            200,
            50,
        ),
{
    let c = chars_of(content);
    let ls = crate::text::split_lines(c.as_slice());
    let ghost lv = lines(content@);
    let n = ls.len();
    let s0 = if offset == 0 {
        0
    } else {
        offset - 1
    };
    let start = if s0 < n {
        s0
    } else {
        n
    };
    let end = match limit {
        Some(l) => if l < n - start {
            start + l
        } else {
            n
        },
        None => n,
    };
    let mut out: Vec<char> = Vec::new();
    let mut i = start;
    while i < end
        invariant
            start <= i <= end <= n,
            n == lv.len(),
            ls@.len() == n,
            forall|k: int| 0 <= k < n ==> #[trigger] ls@[k]@ == lv[k],
            out@ == numbered(lv, start as int, i as int),
        decreases end - i,
    {
        push_pad6(&mut out, i + 1);
        extend_str(&mut out, "\t");
        extend_chars(&mut out, ls[i].as_slice());
        extend_str(&mut out, "\n");
        i += 1;
    }
    let text = if out.len() == 0 {
        proof {
            reveal_strlit("(empty file)");
        }
        "(empty file)".to_string()
    } else {
        string_of(out.as_slice())
    };
    let cfg = TruncationConfig::default();
    smart_truncate(text.as_str(), &cfg)
}

// ---------------------------------------------------------------------------
// edit and write
// ---------------------------------------------------------------------------

/// How an `edit` request reads: a diff, a replacement, or a mistake.
#[derive(Debug, PartialEq, Eq)]
pub enum EditRequest {
    /// Both a diff and a replacement were given.
    Conflict,
    Diff(String),
    Replace { old_text: String, new_text: String },
    /// Neither a diff nor `old_text`.
    MissingOldText,
    /// `old_text` without `new_text`.
    MissingNewText,
}

/// The reading of an `edit` request: a diff excludes a replacement; a
/// replacement needs both texts.
pub open spec fn edit_request_spec(
    r: EditRequest,
    diff: Option<&str>,
    old_text: Option<&str>,
    new_text: Option<&str>,
) -> bool {
    match diff {
        Some(d) => if old_text is Some || new_text is Some {
            r == EditRequest::Conflict
        } else {
            r matches EditRequest::Diff(x) && x@ == d@
        },
        None => match old_text {
            None => r == EditRequest::MissingOldText,
            Some(o) => match new_text {
                None => r == EditRequest::MissingNewText,
                Some(n) => r matches EditRequest::Replace { old_text: a, new_text: b } && a@ == o@
                    && b@ == n@,
            },
        },
    }
}

/// Reads the arguments of an `edit` request.
pub fn edit_request(diff: Option<&str>, old_text: Option<&str>, new_text: Option<&str>) -> (r:
    EditRequest)
    ensures
        edit_request_spec(r, diff, old_text, new_text),
{
    match diff {
        Some(d) => {
            if old_text.is_some() || new_text.is_some() {
                EditRequest::Conflict
            } else {
                EditRequest::Diff(d.to_string())
            }
        },
        None => match old_text {
            None => EditRequest::MissingOldText,
            Some(o) => match new_text {
                None => EditRequest::MissingNewText,
                Some(n) => EditRequest::Replace { old_text: o.to_string(), new_text: n.to_string() },
            },
        },
    }
}

/// The number of non-overlapping occurrences of the non-empty `p` in `s`
/// from `i`, counted from left to right.
pub open spec fn count_from(s: Seq<char>, p: Seq<char>, i: int) -> nat
    decreases s.len() - i,
{
    if i < 0 || i >= s.len() || p.len() == 0 {
        0
    } else if crate::text::occurs_at(s, p, i) {
        1 + count_from(s, p, i + p.len())
    } else {
        count_from(s, p, i + 1)
    }
}

/// The number of matches of `p` in `s` (`str::match_indices`): an empty
/// pattern matches before every character and at the end.
pub open spec fn count_matches(s: Seq<char>, p: Seq<char>) -> nat {
    if p.len() == 0 {
        s.len() + 1
    } else {
        count_from(s, p, 0)
    }
}

/// The outcome of replacing `old_text` once in a file.
#[derive(Debug, PartialEq, Eq)]
pub enum ReplaceOutcome {
    /// `old_text` does not occur.
    NotFound,
    /// `old_text` occurs this many times.
    Ambiguous(usize),
    /// The new content and the line where the replacement starts.
    Replaced { content: String, line: usize },
}

fn count_matches_exec(s: &[char], p: &[char]) -> (r: usize)
    requires
        p@.len() > 0,
    ensures
        r == count_matches(s@, p@),
{
    let mut count: usize = 0;
    let mut i: usize = 0;
    while i < s.len()
        invariant
            i <= s@.len(),
            p@.len() > 0,
            count + count_from(s@, p@, i as int) == count_from(s@, p@, 0),
            count <= i,
        decreases s.len() - i,
    {
        if p.len() <= s.len() - i && crate::text::matches_at(s, p, i) {
            count += 1;
            i += p.len();
        } else {
            i += 1;
        }
    }
    count
}

/// Replaces the single occurrence of `old_text` in `content` by
/// `new_text`; the line of the change is one more than the number of lines
/// before it.  More than one occurrence, or none, changes nothing.
pub fn replace_once(content: &str, old_text: &str, new_text: &str) -> (r: ReplaceOutcome)
    requires
        content@.len() < usize::MAX,
    ensures
        count_matches(content@, old_text@) <= usize::MAX,
        count_matches(content@, old_text@) == 0 <==> r == ReplaceOutcome::NotFound,
        count_matches(content@, old_text@) > 1 ==> r == ReplaceOutcome::Ambiguous(
            count_matches(content@, old_text@) as usize,
        ),
        count_matches(content@, old_text@) == 1 ==> match find_sub(content@, old_text@) {
            Some(k) => r matches ReplaceOutcome::Replaced { content: c, line } && c@ == content@.take(
                k as int,
            ) + new_text@ + content@.skip(k + old_text@.len() as int) && line == lines(
                content@.take(k as int),
            ).len() + 1,
            None => false,
        },
{
    let s = chars_of(content);
    let p = chars_of(old_text);
    let count = if p.len() == 0 {
        s.len() + 1
    } else {
        count_matches_exec(s.as_slice(), p.as_slice())
    };
    if count == 0 {
        return ReplaceOutcome::NotFound;
    }
    if count > 1 {
        return ReplaceOutcome::Ambiguous(count);
    }
    proof {
        if p@.len() > 0 {
            lemma_count_finds(s@, p@, 0);
        } else {
            assert(crate::text::occurs_at(s@, p@, 0)) by {
                assert(s@.subrange(0, 0) =~= p@);
            }
        }
    }
    match crate::text::find_sub_exec(s.as_slice(), p.as_slice()) {
        Some(k) => {
            let before = crate::text::slice_chars(s.as_slice(), 0, k);
            let after = crate::text::slice_chars(s.as_slice(), k + p.len(), s.len());
            let mut out = crate::text::copy_chars(before.as_slice());
            extend_str(&mut out, new_text);
            extend_chars(&mut out, after.as_slice());
            assert(before@ =~= content@.take(k as int));
            assert(after@ =~= content@.skip(k + old_text@.len() as int));
            let ls = crate::text::split_lines(before.as_slice());
            proof {
                crate::text::lemma_lines_len_bound(before@);
            }
            ReplaceOutcome::Replaced { content: string_of(out.as_slice()), line: ls.len() + 1 }
        },
        None => {
            ReplaceOutcome::NotFound
        },
    }
}

proof fn lemma_count_finds(s: Seq<char>, p: Seq<char>, i: int)
    requires
        p.len() > 0,
        0 <= i,
        count_from(s, p, i) > 0,
    ensures
        find_sub_from_int(s, p, i) is Some,
    decreases s.len() - i,
{
    if i >= s.len() {
    } else if crate::text::occurs_at(s, p, i) {
    } else {
        lemma_count_finds(s, p, i + 1);
    }
}

spec fn find_sub_from_int(s: Seq<char>, p: Seq<char>, i: int) -> Option<nat> {
    crate::text::find_sub_from(s, p, i as nat)
}

/// The message after a diff was applied to a file.
pub open spec fn diff_applied_text(path: Seq<char>, hunks: nat, added: nat, removed: nat) -> Seq<char> {
    "Applied "@ + decimal(hunks) + " hunk(s) to "@ + path + ": +"@ + decimal(added)
        + " line(s), -"@ + decimal(removed) + " line(s)"@
}

/// What the `edit` tool reports after applying a diff.
pub fn diff_applied_message(path: &str, summary: &crate::diff::DiffSummary) -> (r: String)
    ensures
        r@ == diff_applied_text(
            path@,
            summary.hunks_applied as nat,
            summary.lines_added as nat,
            summary.lines_removed as nat,
        ),
{
    let mut out: Vec<char> = Vec::new();
    extend_str(&mut out, "Applied ");
    push_decimal(&mut out, summary.hunks_applied);
    extend_str(&mut out, " hunk(s) to ");
    extend_str(&mut out, path);
    extend_str(&mut out, ": +");
    push_decimal(&mut out, summary.lines_added);
    extend_str(&mut out, " line(s), -");
    push_decimal(&mut out, summary.lines_removed);
    extend_str(&mut out, " line(s)");
    string_of(out.as_slice())
}

/// What the `edit` tool reports when a diff does not apply.
pub fn diff_failed_message(message: &str) -> (r: String)
    ensures
        r@ == "diff apply failed: "@ + message@,
{
    let mut out: Vec<char> = Vec::new();
    extend_str(&mut out, "diff apply failed: ");
    extend_str(&mut out, message);
    string_of(out.as_slice())
}

/// What the `edit` tool reports after a replacement attempt.
pub open spec fn replace_report(path: Seq<char>, outcome: ReplaceOutcome) -> (Seq<char>, bool) {
    match outcome {
        ReplaceOutcome::NotFound => (
            "old_text not found in "@ + path + ". Make sure it matches exactly."@,
            true,
        ),
        ReplaceOutcome::Ambiguous(n) => (
            "old_text matches "@ + decimal(n as nat) + " locations in "@ + path
                + ". Provide more context to make it unique."@,
            true,
        ),
        ReplaceOutcome::Replaced { content, line } => (
            "Edited "@ + path + " at line "@ + decimal(line as nat),
            false,
        ),
    }
}

/// The `edit` tool's report on a replacement.
pub fn replace_message(path: &str, outcome: &ReplaceOutcome) -> (r: ToolOutput)
    ensures
        (r.content@, r.is_error) == replace_report(path@, *outcome),
{
    let mut out: Vec<char> = Vec::new();
    match outcome {
        ReplaceOutcome::NotFound => {
            extend_str(&mut out, "old_text not found in ");
            extend_str(&mut out, path);
            extend_str(&mut out, ". Make sure it matches exactly.");
            ToolOutput { content: string_of(out.as_slice()), is_error: true }
        },
        ReplaceOutcome::Ambiguous(n) => {
            extend_str(&mut out, "old_text matches ");
            push_decimal(&mut out, *n);
            extend_str(&mut out, " locations in ");
            extend_str(&mut out, path);
            extend_str(&mut out, ". Provide more context to make it unique.");
            ToolOutput { content: string_of(out.as_slice()), is_error: true }
        },
        ReplaceOutcome::Replaced { content: _, line } => {
            extend_str(&mut out, "Edited ");
            extend_str(&mut out, path);
            extend_str(&mut out, " at line ");
            push_decimal(&mut out, *line);
            ToolOutput { content: string_of(out.as_slice()), is_error: false }
        },
    }
}

/// What the `write` tool reports: the number of lines written and where.
pub fn write_message(path: &str, content: &str) -> (r: String)
    ensures
        r@ == "Wrote "@ + decimal(lines(content@).len()) + " lines to "@ + path@,
{
    let c = chars_of(content);
    let ls = crate::text::split_lines(c.as_slice());
    let mut out: Vec<char> = Vec::new();
    extend_str(&mut out, "Wrote ");
    push_decimal(&mut out, ls.len());
    extend_str(&mut out, " lines to ");
    extend_str(&mut out, path);
    string_of(out.as_slice())
}

// ---------------------------------------------------------------------------
// The file tools
// ---------------------------------------------------------------------------

/// Why a tool call failed: its arguments are wrong (`Validation`) or its
/// work failed (`Execution`); with the tool's name and a message.
#[derive(Debug, PartialEq, Eq)]
pub enum ToolError {
    Validation { tool_name: String, message: String },
    Execution { tool_name: String, message: String },
}

/// Whether `e` is the validation error `message` of tool `tool`.
pub open spec fn is_validation(e: ToolError, tool: Seq<char>, message: Seq<char>) -> bool {
    e matches ToolError::Validation { tool_name, message: m } && tool_name@ == tool && m@ == message
}

/// Whether `e` is an execution error of tool `tool` whose message starts
/// with `prefix`.
pub open spec fn is_execution_after(e: ToolError, tool: Seq<char>, prefix: Seq<char>) -> bool {
    e matches ToolError::Execution { tool_name, message: m } && tool_name@ == tool && exists|rest: Seq<char>|
        m@ == prefix + rest
}

/// Reading and writing files for the file tools. The program chooses the
/// implementation: the local file system, or one on another machine. An
/// error is the failure's message.
pub trait FileOperations {
    fn read_file(&self, path: &str) -> Result<Vec<u8>, String>;

    fn write_file(&self, path: &str, content: &[u8]) -> Result<(), String>;

    fn file_exists(&self, path: &str) -> bool;

    fn is_directory(&self, path: &str) -> bool;

    fn mkdir_p(&self, path: &str) -> Result<(), String>;
}

/// The text `String::from_utf8_lossy` makes of `bytes`.
pub uninterp spec fn lossy_text(bytes: Seq<u8>) -> Seq<char>;

/// `String::from_utf8_lossy`: the bytes read as UTF-8, each invalid
/// sequence replaced by U+FFFD. Valid UTF-8 is decoded as it is; how an
/// invalid sequence is cut into replacements is left unsaid.
#[verifier::external_body]
fn utf8_lossy(bytes: &[u8]) -> (r: String)
    ensures
        r@ == lossy_text(bytes@),
        vstd::utf8::valid_utf8(bytes@) ==> r@ == vstd::utf8::decode_utf8(bytes@),
{
    String::from_utf8_lossy(bytes).into_owned()
}

/// `a + b + c + d` as a string.
fn concat4(a: &str, b: &str, c: &str, d: &str) -> (r: String)
    ensures
        r@ == a@ + b@ + c@ + d@,
{
    let mut v: Vec<char> = Vec::new();
    extend_str(&mut v, a);
    extend_str(&mut v, b);
    extend_str(&mut v, c);
    extend_str(&mut v, d);
    string_of(v.as_slice())
}

fn execution_error(tool: &str, prefix: &str, path: &str, e: &str) -> (r: ToolError)
    ensures
        is_execution_after(r, tool@, prefix@ + path@ + ": "@),
{
    let m = concat4(prefix, path, ": ", e);
    let r = ToolError::Execution { tool_name: tool.to_string(), message: m };
    assert(m@ == (prefix@ + path@ + ": "@) + e@);
    r
}

fn path_error(tool: &str, path: &str, e: &str) -> (r: ToolError)
    ensures
        is_execution_after(r, tool@, path@ + ": "@),
{
    let r = execution_error(tool, "", path, e);
    proof {
        reveal_strlit("");
        assert(""@ + path@ + ": "@ =~= path@ + ": "@);
    }
    r
}

fn validation_error(tool: &str, message: &str) -> (r: ToolError)
    ensures
        is_validation(r, tool@, message@),
{
    ToolError::Validation { tool_name: tool.to_string(), message: message.to_string() }
}

/// The `read` tool: shows a file's lines, numbered.
pub struct ReadTool<F> {
    ops: F,
}

/// The `write` tool: creates or overwrites a file.
pub struct WriteTool<F> {
    ops: F,
}

/// The `edit` tool: changes a file by a unified diff, or by replacing the
/// single occurrence of a text.
pub struct EditTool<F> {
    ops: F,
}

/// What the `read` tool shows of a file whose bytes are `bytes`.
pub open spec fn read_shown(bytes: Seq<u8>, offset: Option<usize>, limit: Option<usize>) -> Seq<char> {
    smart_truncate_spec(
        read_text(
            lossy_text(bytes),
            match offset {
                Some(o) => o as nat,
                None => 1,
            },
            match limit {
                Some(l) => Some(l as nat),
                None => None,
            },
        ),
        30_000,
        200,
        50,
    )
}

impl<F: FileOperations> ReadTool<F> {
    pub fn new(ops: F) -> (r: Self) {
        ReadTool { ops }
    }

    /// Reads the file at `path` (under `cwd` when relative) and shows the
    /// lines from `offset` (1 when not given), at most `limit` of them.
    pub fn execute(&self, cwd: &str, path: Option<&str>, offset: Option<usize>, limit: Option<usize>) -> (r:
        Result<ToolOutput, ToolError>)
        ensures
            path is None ==> (r matches Err(e) && is_validation(e, "read"@, "missing 'path'"@)),
            path matches Some(p) ==> match r {
                Ok(o) => !o.is_error && exists|b: Seq<u8>| o.content@ == #[trigger] read_shown(b, offset, limit),
                Err(e) => is_execution_after(e, "read"@, crate::paths::resolved_path(p@, cwd@) + ": "@),
            },
    {
        let p = match path {
            Some(p) => p,
            None => return Err(validation_error("read", "missing 'path'")),
        };
        let full = crate::paths::resolve_file_path(p, cwd);
        let data = match self.ops.read_file(full.as_str()) {
            Ok(d) => d,
            Err(e) => return Err(path_error("read", full.as_str(), e.as_str())),
        };
        let content = utf8_lossy(data.as_slice());
        let from = match offset {
            Some(o) => o,
            None => 1,
        };
        let shown = read_output(content.as_str(), from, limit);
        assert(shown@ == read_shown(data@, offset, limit));
        Ok(ToolOutput { content: shown, is_error: false })
    }
}

impl<F: FileOperations> WriteTool<F> {
    pub fn new(ops: F) -> (r: Self) {
        WriteTool { ops }
    }

    /// Writes `content` to the file at `path` (under `cwd` when relative)
    /// and reports how many lines it wrote.
    pub fn execute(&self, cwd: &str, path: Option<&str>, content: Option<&str>) -> (r: Result<ToolOutput, ToolError>)
        ensures
            path is None ==> (r matches Err(e) && is_validation(e, "write"@, "missing 'path'"@)),
            path is Some && content is None ==> (r matches Err(e) && is_validation(e, "write"@, "missing 'content'"@)),
            path matches Some(p) ==> (content matches Some(c) ==> match r {
                Ok(o) => !o.is_error && o.content@ == "Wrote "@ + decimal(lines(c@).len()) + " lines to "@
                    + crate::paths::resolved_path(p@, cwd@),
                Err(e) => is_execution_after(e, "write"@, crate::paths::resolved_path(p@, cwd@) + ": "@),
            }),
    {
        let p = match path {
            Some(p) => p,
            None => return Err(validation_error("write", "missing 'path'")),
        };
        let c = match content {
            Some(c) => c,
            None => return Err(validation_error("write", "missing 'content'")),
        };
        let full = crate::paths::resolve_file_path(p, cwd);
        match self.ops.write_file(full.as_str(), c.as_bytes()) {
            Ok(()) => Ok(ToolOutput { content: write_message(full.as_str(), c), is_error: false }),
            Err(e) => Err(path_error("write", full.as_str(), e.as_str())),
        }
    }
}

/// What an edit does to a file whose text is `content`: the text written
/// back (`None` when the file is left alone) and the report with whether
/// it is an error. A diff is applied when given; otherwise `old_text` is
/// replaced by `new_text` when it occurs exactly once.
pub open spec fn edit_effect(
    path: Seq<char>,
    diff: Option<Seq<char>>,
    old_text: Seq<char>,
    new_text: Seq<char>,
    content: Seq<char>,
) -> (Option<Seq<char>>, (Seq<char>, bool)) {
    match diff {
        Some(d) => match crate::diff::apply_diff_spec(content, d) {
            Ok((text, (added, removed, hunks))) => (Some(text), (diff_applied_text(path, hunks, added, removed), false)),
            Err(e) => (None, ("diff apply failed: "@ + e, true)),
        },
        None => {
            let n = count_matches(content, old_text);
            if n == 0 {
                (None, ("old_text not found in "@ + path + ". Make sure it matches exactly."@, true))
            } else if n > 1 {
                (
                    None,
                    (
                        "old_text matches "@ + decimal(n) + " locations in "@ + path
                            + ". Provide more context to make it unique."@,
                        true,
                    ),
                )
            } else {
                let k = find_sub(content, old_text).unwrap();
                let before = content.take(k as int);
                (
                    Some(before + new_text + content.skip(k + old_text.len() as int)),
                    ("Edited "@ + path + " at line "@ + decimal(lines(before).len() + 1), false),
                )
            }
        },
    }
}

/// The view of an optional string slice.
pub open spec fn opt_view(o: Option<&str>) -> Option<Seq<char>> {
    match o {
        Some(s) => Some(s@),
        None => None,
    }
}

/// The text of an optional string slice; empty when there is none.
pub open spec fn text_or_empty(o: Option<&str>) -> Seq<char> {
    match o {
        Some(s) => s@,
        None => seq![],
    }
}

/// The edit of a file whose text is `content`: what to write back and what
/// to report, for a diff or a replacement.
pub fn edit_step(path: &str, diff: Option<&str>, old_text: &str, new_text: &str, content: &str) -> (r: (
    Option<String>,
    ToolOutput,
))
    requires
        content@.len() < usize::MAX,
    ensures
        (crate::paths::opt_str_view(r.0), (r.1.content@, r.1.is_error)) == edit_effect(
            path@,
            opt_view(diff),
            old_text@,
            new_text@,
            content@,
        ),
{
    match diff {
        Some(d) => match crate::diff::apply_unified_diff(content, d) {
            Ok((text, summary)) => (Some(text), ToolOutput { content: diff_applied_message(path, &summary), is_error: false }),
            Err(msg) => (None, ToolOutput { content: diff_failed_message(msg.as_str()), is_error: true }),
        },
        None => {
            let outcome = replace_once(content, old_text, new_text);
            let report = replace_message(path, &outcome);
            match outcome {
                ReplaceOutcome::Replaced { content: c, line: _ } => (Some(c), report),
                _ => (None, report),
            }
        },
    }
}

impl<F: FileOperations> EditTool<F> {
    pub fn new(ops: F) -> (r: Self) {
        EditTool { ops }
    }

    /// Edits the file at `path` (under `cwd` when relative): by `diff`, or
    /// by replacing `old_text` with `new_text`; never both. The file is
    /// read, changed as [`edit_step`] says, and written back when there is
    /// something to write.
    pub fn execute(
        &self,
        cwd: &str,
        path: Option<&str>,
        diff: Option<&str>,
        old_text: Option<&str>,
        new_text: Option<&str>,
    ) -> (r: Result<ToolOutput, ToolError>)
        ensures
            path is None ==> (r matches Err(e) && is_validation(e, "edit"@, "missing 'path'"@)),
            path is Some && diff is Some && (old_text is Some || new_text is Some) ==> (r matches Ok(o)
                && o.is_error && o.content@ == "Provide either 'diff' or 'old_text'/'new_text', not both."@),
            path is Some && diff is None && old_text is None ==> (r matches Err(e) && is_validation(
                e,
                "edit"@,
                "missing 'old_text' (required when 'diff' is not provided)"@,
            )),
            path is Some && diff is None && old_text is Some && new_text is None ==> (r matches Err(e)
                && is_validation(e, "edit"@, "missing 'new_text' (required when 'diff' is not provided)"@)),
            path matches Some(p) ==> ((diff is Some ==> old_text is None && new_text is None) && (diff is None
                ==> old_text is Some && new_text is Some) ==> {
                let full = crate::paths::resolved_path(p@, cwd@);
                match r {
                    Ok(o) => exists|b: Seq<u8>|
                        (o.content@, o.is_error) == (#[trigger] edit_effect(
                            full,
                            opt_view(diff),
                            text_or_empty(old_text),
                            text_or_empty(new_text),
                            lossy_text(b),
                        )).1,
                    Err(e) => is_execution_after(e, "edit"@, "read "@ + full + ": "@)
                        || is_execution_after(e, "edit"@, "write "@ + full + ": "@),
                }
            }),
    {
        let p = match path {
            Some(p) => p,
            None => return Err(validation_error("edit", "missing 'path'")),
        };
        let full = crate::paths::resolve_file_path(p, cwd);
        let (old_t, new_t): (&str, &str) = match edit_request(diff, old_text, new_text) {
            EditRequest::Conflict => {
                return Ok(
                    ToolOutput {
                        content: "Provide either 'diff' or 'old_text'/'new_text', not both.".to_string(),
                        is_error: true,
                    },
                );
            },
            EditRequest::MissingOldText => {
                return Err(validation_error("edit", "missing 'old_text' (required when 'diff' is not provided)"));
            },
            EditRequest::MissingNewText => {
                return Err(validation_error("edit", "missing 'new_text' (required when 'diff' is not provided)"));
            },
            _ => match (old_text, new_text) {
                (Some(o), Some(n)) => (o, n),
                _ => ("", ""),
            },
        };
        let data = match self.ops.read_file(full.as_str()) {
            Ok(d) => d,
            Err(e) => return Err(execution_error("edit", "read ", full.as_str(), e.as_str())),
        };
        let content = utf8_lossy(data.as_slice());
        let c = chars_of(content.as_str());
        if c.len() == usize::MAX {
            return Err(execution_error("edit", "read ", full.as_str(), "file too large"));
        }
        let (write, report) = edit_step(full.as_str(), diff, old_t, new_t, content.as_str());
        assert((report.content@, report.is_error) == edit_effect(
            full@,
            opt_view(diff),
            text_or_empty(old_text),
            text_or_empty(new_text),
            lossy_text(data@),
        ).1);
        match write {
            Some(text) => match self.ops.write_file(full.as_str(), text.as_str().as_bytes()) {
                Ok(()) => Ok(report),
                Err(e) => Err(execution_error("edit", "write ", full.as_str(), e.as_str())),
            },
            None => Ok(report),
        }
    }
}

// ---------------------------------------------------------------------------
// The process tools' requests
// ---------------------------------------------------------------------------

/// The views of a list of strings.
pub open spec fn arg_views(v: Seq<String>) -> Seq<Seq<char>> {
    v.map_values(|s: String| s@)
}

/// A `bash` run: the command and how many seconds it may take.
pub struct BashRequest {
    pub command: String,
    pub timeout_secs: u64,
}

impl BashTool {
    /// Reads the `bash` tool's arguments: the command is required, and it
    /// may run 120 seconds unless another time is given.
    pub fn prepare(&self, command: Option<&str>, timeout: Option<u64>) -> (r: Result<BashRequest, ToolError>)
        ensures
            command is None ==> (r matches Err(e) && is_validation(e, "bash"@, "missing 'command'"@)),
            command matches Some(c) ==> (r matches Ok(q) && q.command@ == c@ && q.timeout_secs == match timeout {
                Some(t) => t,
                None => 120,
            }),
    {
        match command {
            None => Err(validation_error("bash", "missing 'command'")),
            Some(c) => Ok(
                BashRequest {
                    command: c.to_string(),
                    timeout_secs: match timeout {
                        Some(t) => t,
                        None => 120,
                    },
                },
            ),
        }
    }
}

/// What the `bash` tool reports when the command could not be started.
pub fn spawn_failed_message(error: &str) -> (r: ToolOutput)
    ensures
        r.is_error,
        r.content@ == "Failed to execute: "@ + error@,
{
    let mut out: Vec<char> = Vec::new();
    extend_str(&mut out, "Failed to execute: ");
    extend_str(&mut out, error);
    ToolOutput { content: string_of(out.as_slice()), is_error: true }
}

/// What the `bash` tool reports when the command ran out of time.
pub fn timed_out_message(secs: u64) -> (r: ToolOutput)
    ensures
        r.is_error,
        r.content@ == "Command timed out after "@ + decimal(secs as nat) + "s"@,
{
    let mut out: Vec<char> = Vec::new();
    extend_str(&mut out, "Command timed out after ");
    crate::text::push_decimal_u64(&mut out, secs);
    extend_str(&mut out, "s");
    ToolOutput { content: string_of(out.as_slice()), is_error: true }
}

/// What `regex::Regex::new` reports on `pattern`: its error message, or
/// `None` when the pattern compiles.
pub uninterp spec fn regex_error(pattern: Seq<char>) -> Option<Seq<char>>;

/// `regex::Regex::new`, kept for whether the pattern compiles and, when
/// not, the error's message. What the message says is left unsaid.
#[verifier::external_body]
fn regex_compile_error(pattern: &str) -> (r: Option<String>)
    ensures
        crate::paths::opt_str_view(r) == regex_error(pattern@),
{
    regex::Regex::new(pattern).err().map(|e| e.to_string())
}

/// What `glob::Pattern::new` reports on `pattern`: its error message, or
/// `None` when the pattern is valid.
pub uninterp spec fn glob_error(pattern: Seq<char>) -> Option<Seq<char>>;

/// `glob::Pattern::new`, which `glob::glob` runs first on its pattern, kept
/// for whether the pattern is valid and, when not, the error's message.
#[verifier::external_body]
fn glob_pattern_error(pattern: &str) -> (r: Option<String>)
    ensures
        crate::paths::opt_str_view(r) == glob_error(pattern@),
{
    glob::Pattern::new(pattern).err().map(|e| e.to_string())
}

/// A `grep` run: its arguments, and how many lines of its output to keep.
pub struct GrepRequest {
    pub args: Vec<String>,
    pub limit: usize,
}

/// The pattern handed to the regex check: case-insensitive when asked.
pub open spec fn grep_regex(pattern: Seq<char>, ignore_case: bool) -> Seq<char> {
    if ignore_case {
        "(?i)"@ + pattern
    } else {
        pattern
    }
}

/// The arguments of `grep`: recursive with line numbers, `-i` when case is
/// ignored, `--include <glob>` when a glob is given, then `--`, the pattern
/// and where to search.
pub open spec fn grep_args(pattern: Seq<char>, path: Seq<char>, ignore_case: bool, glob: Option<Seq<char>>) -> Seq<
    Seq<char>,
> {
    seq!["-rn"@] + (if ignore_case {
        seq!["-i"@]
    } else {
        seq![]
    }) + match glob {
        Some(g) => seq!["--include"@, g],
        None => seq![],
    } + seq!["--"@, pattern, path]
}

impl GrepTool {
    /// Reads the `grep` tool's arguments: the pattern is required and must
    /// compile as a regex (case-insensitive when asked); the search runs
    /// in `path`, else `cwd`; 100 lines are kept unless another limit is
    /// given.
    pub fn prepare(
        &self,
        cwd: &str,
        pattern: Option<&str>,
        path: Option<&str>,
        ignore_case: Option<bool>,
        limit: Option<usize>,
        glob: Option<&str>,
    ) -> (r: Result<GrepRequest, ToolError>)
        ensures
            pattern is None ==> (r matches Err(e) && is_validation(e, "grep"@, "missing 'pattern'"@)),
            pattern matches Some(p) ==> {
                let ic = match ignore_case {
                    Some(b) => b,
                    None => false,
                };
                match regex_error(grep_regex(p@, ic)) {
                    Some(m) => r matches Err(e) && is_validation(e, "grep"@, "invalid pattern: "@ + m),
                    None => r matches Ok(q) && arg_views(q.args@) == grep_args(
                        p@,
                        match path {
                            Some(s) => s@,
                            None => cwd@,
                        },
                        ic,
                        opt_view(glob),
                    ) && q.limit == match limit {
                        Some(l) => l,
                        None => 100,
                    },
                }
            },
    {
        let p = match pattern {
            Some(p) => p,
            None => return Err(validation_error("grep", "missing 'pattern'")),
        };
        let ic = match ignore_case {
            Some(b) => b,
            None => false,
        };
        let re = if ic {
            let mut v: Vec<char> = Vec::new();
            extend_str(&mut v, "(?i)");
            extend_str(&mut v, p);
            string_of(v.as_slice())
        } else {
            p.to_string()
        };
        if let Some(m) = regex_compile_error(re.as_str()) {
            let mut v: Vec<char> = Vec::new();
            extend_str(&mut v, "invalid pattern: ");
            extend_str(&mut v, m.as_str());
            return Err(ToolError::Validation { tool_name: "grep".to_string(), message: string_of(v.as_slice()) });
        }
        let search = match path {
            Some(s) => s,
            None => cwd,
        };
        let mut args: Vec<String> = vec!["-rn".to_string()];
        if ic {
            args.push("-i".to_string());
        }
        if let Some(g) = glob {
            args.push("--include".to_string());
            args.push(g.to_string());
        }
        args.push("--".to_string());
        args.push(p.to_string());
        args.push(search.to_string());
        assert(arg_views(args@) =~= grep_args(p@, search@, ic, opt_view(glob)));
        Ok(
            GrepRequest {
                args,
                limit: match limit {
                    Some(l) => l,
                    None => 100,
                },
            },
        )
    }
}

/// A `find` run: the glob to expand and how many paths to keep.
pub struct FindRequest {
    pub pattern: String,
    pub limit: usize,
}

impl FindTool {
    /// Reads the `find` tool's arguments: the pattern is required and,
    /// under `path` (else `cwd`), must be a valid glob; 200 paths are kept
    /// unless another limit is given.
    pub fn prepare(&self, cwd: &str, pattern: Option<&str>, path: Option<&str>, limit: Option<usize>) -> (r: Result<
        FindRequest,
        ToolError,
    >)
        ensures
            pattern is None ==> (r matches Err(e) && is_validation(e, "find"@, "missing 'pattern'"@)),
            pattern matches Some(p) ==> {
                let full = match path {
                    Some(s) => s@,
                    None => cwd@,
                } + "/"@ + p@;
                match glob_error(full) {
                    Some(m) => r matches Err(e) && is_validation(e, "find"@, "invalid glob: "@ + m),
                    None => r matches Ok(q) && q.pattern@ == full && q.limit == match limit {
                        Some(l) => l,
                        None => 200,
                    },
                }
            },
    {
        let p = match pattern {
            Some(p) => p,
            None => return Err(validation_error("find", "missing 'pattern'")),
        };
        let root = match path {
            Some(s) => s,
            None => cwd,
        };
        let mut v: Vec<char> = Vec::new();
        extend_str(&mut v, root);
        extend_str(&mut v, "/");
        extend_str(&mut v, p);
        let full = string_of(v.as_slice());
        if let Some(m) = glob_pattern_error(full.as_str()) {
            let mut w: Vec<char> = Vec::new();
            extend_str(&mut w, "invalid glob: ");
            extend_str(&mut w, m.as_str());
            return Err(ToolError::Validation { tool_name: "find".to_string(), message: string_of(w.as_slice()) });
        }
        Ok(
            FindRequest {
                pattern: full,
                limit: match limit {
                    Some(l) => l,
                    None => 200,
                },
            },
        )
    }
}

impl LsTool {
    /// The directory the `ls` tool lists: `path` (else `cwd`), under `cwd`
    /// when relative.
    pub fn target(&self, cwd: &str, path: Option<&str>) -> (r: String)
        ensures
            r@ == crate::paths::resolved_path(
                match path {
                    Some(s) => s@,
                    None => cwd@,
                },
                cwd@,
            ),
    {
        let p = match path {
            Some(s) => s,
            None => cwd,
        };
        crate::paths::resolve_file_path(p, cwd)
    }
}

/// What the `find` tool reports: the first `limit` paths, one per line,
/// and their number, or that nothing matched.
pub open spec fn find_report(paths: Seq<Seq<char>>, limit: nat) -> Seq<char> {
    let shown = if paths.len() <= limit {
        paths
    } else {
        paths.take(limit as int)
    };
    if shown.len() == 0 {
        "No files found matching pattern"@
    } else {
        join(shown, "\n"@) + "\n("@ + decimal(shown.len()) + " files)"@
    }
}

/// The `find` tool's report on the paths that matched, in order.
pub fn find_result(paths: &Vec<String>, limit: usize) -> (r: String)
    ensures
        r@ == find_report(paths@.map_values(|p: String| p@), limit as nat),
{
    let ghost pv = paths@.map_values(|p: String| p@);
    let n = if paths.len() <= limit {
        paths.len()
    } else {
        limit
    };
    if n == 0 {
        proof {
            reveal_strlit("No files found matching pattern");
        }
        return "No files found matching pattern".to_string();
    }
    let mut shown: Vec<Vec<char>> = Vec::new();
    let mut i: usize = 0;
    while i < n
        invariant
            n <= paths@.len(),
            i <= n,
            pv == paths@.map_values(|p: String| p@),
            shown@.map_values(|c: Vec<char>| c@) == pv.take(i as int),
        decreases n - i,
    {
        let ghost before = shown@.map_values(|c: Vec<char>| c@);
        shown.push(chars_of(paths[i].as_str()));
        assert(shown@.map_values(|c: Vec<char>| c@) =~= before.push(pv[i as int]));
        assert(pv.take(i + 1) =~= pv.take(i as int).push(pv[i as int]));
        i += 1;
    }
    assert(pv.take(n as int) =~= if pv.len() <= limit {
        pv
    } else {
        pv.take(limit as int)
    });
    let nl: Vec<char> = vec!['\n'];
    proof {
        reveal_strlit("\n");
        assert(nl@ =~= "\n"@);
    }
    let mut out = join_chars(&shown, nl.as_slice());
    extend_str(&mut out, "\n(");
    push_decimal(&mut out, n);
    extend_str(&mut out, " files)");
    string_of(out.as_slice())
}

/// The text the `grep` tool reports before truncation: at most `limit`
/// matching lines, and a note when there were more.
pub open spec fn grep_text(stdout: Seq<char>, limit: nat) -> Seq<char> {
    let ls = lines(stdout);
    let shown = if ls.len() <= limit {
        ls
    } else {
        ls.take(limit as int)
    };
    if shown.len() == 0 {
        "No matches found"@
    } else {
        join(shown, "\n"@) + if ls.len() > limit {
            "\n... (capped at "@ + decimal(limit) + " matches by limit parameter)"@
        } else {
            seq![]
        }
    }
}

/// The `grep` tool's report on the output of the search: the first
/// `limit` lines, a note when more matched, cut down by
/// [`smart_truncate`]; or that nothing matched.
pub fn grep_result(stdout: &str, limit: usize) -> (r: String)
    ensures
        r@ == if lines(stdout@).len() == 0 || limit == 0 {
            "No matches found"@
        } else {
            smart_truncate_spec(grep_text(stdout@, limit as nat), 30_000, 200, 50)
        },
{
    let c = chars_of(stdout);
    let ls = crate::text::split_lines(c.as_slice());
    let ghost lv = lines(stdout@);
    let n = if ls.len() <= limit {
        ls.len()
    } else {
        limit
    };
    if n == 0 {
        proof {
            reveal_strlit("No matches found");
        }
        return "No matches found".to_string();
    }
    let mut shown: Vec<Vec<char>> = Vec::new();
    let mut i: usize = 0;
    while i < n
        invariant
            n <= ls@.len(),
            i <= n,
            ls@.len() == lv.len(),
            forall|k: int| 0 <= k < ls@.len() ==> #[trigger] ls@[k]@ == lv[k],
            shown@.map_values(|c: Vec<char>| c@) == lv.take(i as int),
        decreases n - i,
    {
        let ghost before = shown@.map_values(|c: Vec<char>| c@);
        shown.push(crate::text::copy_chars(ls[i].as_slice()));
        assert(shown@.map_values(|c: Vec<char>| c@) =~= before.push(lv[i as int]));
        assert(lv.take(i + 1) =~= lv.take(i as int).push(lv[i as int]));
        i += 1;
    }
    assert(lv.take(n as int) =~= if lv.len() <= limit {
        lv
    } else {
        lv.take(limit as int)
    });
    let nl: Vec<char> = vec!['\n'];
    proof {
        reveal_strlit("\n");
        assert(nl@ =~= "\n"@);
    }
    let mut out = join_chars(&shown, nl.as_slice());
    if ls.len() > limit {
        extend_str(&mut out, "\n... (capped at ");
        push_decimal(&mut out, limit);
        extend_str(&mut out, " matches by limit parameter)");
    }
    assert(out@ =~= grep_text(stdout@, limit as nat));
    let text = string_of(out.as_slice());
    let cfg = TruncationConfig::default();
    smart_truncate(text.as_str(), &cfg)
}

// ---------------------------------------------------------------------------
// ls
// ---------------------------------------------------------------------------

/// One entry of a directory: its name, whether it is a directory, and its
/// size as shown.
pub struct LsEntry {
    pub name: String,
    pub is_dir: bool,
    pub size_text: String,
}

/// `n` spaces.
pub open spec fn spaces(n: nat) -> Seq<char> {
    Seq::new(n, |i: int| ' ')
}

/// `s` padded with spaces on the right to `w` characters.
pub open spec fn pad_right(s: Seq<char>, w: nat) -> Seq<char> {
    if s.len() < w {
        s + spaces((w - s.len()) as nat)
    } else {
        s
    }
}

/// `s` padded with spaces on the left to `w` characters.
pub open spec fn pad_left(s: Seq<char>, w: nat) -> Seq<char> {
    if s.len() < w {
        spaces((w - s.len()) as nat) + s
    } else {
        s
    }
}

/// The line of one entry: a directory's name and `/`, or a file's name in
/// a column of 40 and its size in a column of 8.
pub open spec fn ls_line(name: Seq<char>, is_dir: bool, size: Seq<char>) -> Seq<char> {
    if is_dir {
        name + "/"@
    } else {
        pad_right(name, 40) + " "@ + pad_left(size, 8)
    }
}

fn push_spaces(out: &mut Vec<char>, n: usize)
    ensures
        final(out)@ == old(out)@ + spaces(n as nat),
{
    let mut i: usize = 0;
    while i < n
        invariant
            i <= n,
            out@ == old(out)@ + spaces(i as nat),
        decreases n - i,
    {
        out.push(' ');
        assert(old(out)@ + spaces((i + 1) as nat) =~= (old(out)@ + spaces(i as nat)).push(' '));
        i += 1;
    }
}

fn ls_line_exec(e: &LsEntry) -> (r: String)
    ensures
        r@ == ls_line(e.name@, e.is_dir, e.size_text@),
{
    let mut out: Vec<char> = Vec::new();
    let name = chars_of(e.name.as_str());
    extend_chars(&mut out, name.as_slice());
    if e.is_dir {
        extend_str(&mut out, "/");
    } else {
        if name.len() < 40 {
            push_spaces(&mut out, 40 - name.len());
        }
        extend_str(&mut out, " ");
        let size = chars_of(e.size_text.as_str());
        if size.len() < 8 {
            push_spaces(&mut out, 8 - size.len());
        }
        extend_chars(&mut out, size.as_slice());
    }
    assert(out@ =~= ls_line(e.name@, e.is_dir, e.size_text@));
    string_of(out.as_slice())
}

/// The lines of the entries of a directory.
pub open spec fn ls_lines(es: Seq<LsEntry>) -> Seq<Seq<char>> {
    es.map_values(|e: LsEntry| ls_line(e.name@, e.is_dir, e.size_text@))
}

/// What the `ls` tool shows of a directory: the lines of its entries in
/// order, or `(empty directory)`.
pub fn ls_listing(entries: &Vec<LsEntry>) -> (r: String)
    ensures
        entries@.len() == 0 ==> r@ == "(empty directory)"@,
        entries@.len() > 0 ==> exists|s: Seq<Seq<char>>|
            crate::order::strs_ordered(s) && s.to_multiset() == ls_lines(entries@).to_multiset()
                && r@ == join(s, "\n"@),
{
    if entries.len() == 0 {
        proof {
            reveal_strlit("(empty directory)");
        }
        return "(empty directory)".to_string();
    }
    let mut ls: Vec<String> = Vec::new();
    let mut i: usize = 0;
    while i < entries.len()
        invariant
            i <= entries@.len(),
            ls@.len() == i,
            forall|k: int| 0 <= k < i ==> (#[trigger] ls@[k])@ == ls_lines(entries@)[k],
        decreases entries.len() - i,
    {
        ls.push(ls_line_exec(&entries[i]));
        i += 1;
    }
    assert(crate::order::views_of(ls@) =~= ls_lines(entries@));
    let sorted = crate::order::sort_strings(&ls);
    let mut parts: Vec<Vec<char>> = Vec::new();
    let mut k: usize = 0;
    while k < sorted.len()
        invariant
            k <= sorted@.len(),
            parts@.len() == k,
            forall|m: int| 0 <= m < k ==> (#[trigger] parts@[m])@ == sorted@[m]@,
        decreases sorted.len() - k,
    {
        parts.push(chars_of(sorted[k].as_str()));
        k += 1;
    }
    assert(parts@.map_values(|c: Vec<char>| c@) =~= crate::order::views_of(sorted@));
    let nl: Vec<char> = vec!['\n'];
    proof {
        reveal_strlit("\n");
        assert(nl@ =~= "\n"@);
    }
    let out = join_chars(&parts, nl.as_slice());
    string_of(out.as_slice())
}

} // verus!
