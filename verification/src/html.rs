//! Rendering of a conversation as a standalone HTML page.

use vstd::prelude::*;
use crate::ansi::escape_char;
use crate::text::{
    byte_len, chars_of, decimal, extend_chars, extend_str, join, join_chars, push_decimal,
    char_width_exec, lemma_byte_len_prefix, string_of,
};

verus! {

broadcast use vstd::string::group_string_axioms;

/// `s` with `&`, `<`, `>` and `"` replaced by their HTML entities.
pub open spec fn escape_html_spec(s: Seq<char>) -> Seq<char>
    decreases s.len(),
{
    if s.len() == 0 {
        seq![]
    } else {
        escape_html_spec(s.drop_last()) + escape_char(s.last())
    }
}

/// Whether `c` could open a tag, close one or end an attribute value.
pub open spec fn is_markup_char(c: char) -> bool {
    c == '<' || c == '>' || c == '"'
}

/// Escaped text holds no `<`, `>` or `"`: whatever the text, it cannot
/// open or close a tag, or end an attribute value, in the page.
pub proof fn escaped_html_has_no_markup(s: Seq<char>)
    ensures
        forall|i: int| 0 <= i < escape_html_spec(s).len() ==> !is_markup_char(#[trigger] escape_html_spec(s)[i]),
    decreases s.len(),
{
    if s.len() > 0 {
        escaped_html_has_no_markup(s.drop_last());
        let a = escape_html_spec(s.drop_last());
        let b = escape_char(s.last());
        lemma_escape_char_has_no_markup(s.last());
        assert(escape_html_spec(s) == a + b);
        assert forall|i: int| 0 <= i < (a + b).len() implies !is_markup_char(#[trigger] (a + b)[i]) by {
            if i < a.len() {
                assert((a + b)[i] == a[i]);
            } else {
                assert((a + b)[i] == b[i - a.len()]);
            }
        }
    }
}

proof fn lemma_escape_char_has_no_markup(c: char)
    ensures
        forall|i: int| 0 <= i < escape_char(c).len() ==> !is_markup_char(#[trigger] escape_char(c)[i]),
{
    reveal_strlit("&amp;");
    reveal_strlit("&lt;");
    reveal_strlit("&gt;");
    reveal_strlit("&quot;");
}

fn push_escaped_html(out: &mut Vec<char>, s: &[char])
    ensures
        final(out)@ == old(out)@ + escape_html_spec(s@),
{
    let mut i: usize = 0;
    while i < s.len()
        invariant
            i <= s@.len(),
            out@ == old(out)@ + escape_html_spec(s@.take(i as int)),
        decreases s.len() - i,
    {
        let c = s[i];
        let ghost before = out@;
        if c == '&' {
            extend_str(out, "&amp;");
        } else if c == '<' {
            extend_str(out, "&lt;");
        } else if c == '>' {
            extend_str(out, "&gt;");
        } else if c == '"' {
            extend_str(out, "&quot;");
        } else {
            out.push(c);
            assert(before.push(c) =~= before + seq![c]);
        }
        assert(s@.take(i + 1).drop_last() =~= s@.take(i as int));
        assert(out@ =~= old(out)@ + escape_html_spec(s@.take(i + 1)));
        i += 1;
    }
    assert(s@.take(s@.len() as int) =~= s@);
}

/// Escape `&`, `<`, `>` and `"` for inclusion in HTML.
pub fn escape_html(s: &str) -> (r: String)
    ensures
        r@ == escape_html_spec(s@),
{
    let c = chars_of(s);
    let mut out: Vec<char> = Vec::new();
    push_escaped_html(&mut out, c.as_slice());
    assert(out@ =~= escape_html_spec(s@));
    string_of(out.as_slice())
}

/// One content block of a user message.
pub enum UserBlock {
    Text(String),
    /// A non-text block (an image).
    Other,
}

/// The content of a user message: plain text or a list of blocks.
pub enum UserContent {
    Text(String),
    Blocks(Vec<UserBlock>),
}

/// The texts of the text blocks, in order.
pub open spec fn block_texts(bs: Seq<UserBlock>) -> Seq<Seq<char>>
    decreases bs.len(),
{
    if bs.len() == 0 {
        seq![]
    } else {
        block_texts(bs.drop_last()) + match bs.last() {
            UserBlock::Text(t) => seq![t@],
            UserBlock::Other => Seq::<Seq<char>>::empty(),
        }
    }
}

/// The text of a user message: the text itself, or the text blocks joined
/// by newlines.
pub open spec fn user_content_text(c: UserContent) -> Seq<char> {
    match c {
        UserContent::Text(t) => t@,
        UserContent::Blocks(bs) => join(block_texts(bs@), "\n"@),
    }
}

/// The text shown for a user message.
pub fn render_user_content(content: &UserContent) -> (r: String)
    ensures
        r@ == user_content_text(*content),
{
    match content {
        UserContent::Text(t) => t.clone(),
        UserContent::Blocks(bs) => {
            let mut texts: Vec<Vec<char>> = Vec::new();
            let mut i: usize = 0;
            while i < bs.len()
                invariant
                    i <= bs@.len(),
                    texts@.map_values(|t: Vec<char>| t@) == block_texts(bs@.take(i as int)),
                decreases bs.len() - i,
            {
                let ghost before = texts@.map_values(|t: Vec<char>| t@);
                assert(bs@.take(i + 1).drop_last() =~= bs@.take(i as int));
                match &bs[i] {
                    UserBlock::Text(t) => {
                        texts.push(chars_of(t.as_str()));
                        assert(texts@.map_values(|t: Vec<char>| t@) =~= before + seq![t@]);
                    },
                    UserBlock::Other => {
                        assert(before + Seq::<Seq<char>>::empty() =~= before);
                    },
                }
                i += 1;
            }
            assert(bs@.take(bs@.len() as int) =~= bs@);
            let nl: Vec<char> = vec!['\n'];
            proof {
                reveal_strlit("\n");
                assert(nl@ =~= "\n"@);
            }
            let joined = join_chars(&texts, nl.as_slice());
            string_of(joined.as_slice())
        },
    }
}

/// One content block of an assistant message.  Tool-call arguments are
/// given already rendered as pretty-printed JSON.
pub enum AssistantPart {
    Text(String),
    Thinking(String),
    ToolCall { name: String, arguments: String },
    Image,
}

/// A conversation message as the export shows it.
pub enum ExportMessage {
    User(UserContent),
    Assistant(Vec<AssistantPart>),
    /// A tool result: the tool's name and the texts of its text blocks.
    ToolResult { tool_name: String, texts: Vec<String> },
    CompactionSummary(String),
    SystemContext(String),
    /// Extension messages are not rendered.
    Extension,
}

/// The HTML of one assistant content block.
pub open spec fn part_html(p: AssistantPart) -> Seq<char> {
    match p {
        AssistantPart::Text(t) => "<p>"@ + escape_html_spec(t@) + "</p>"@,
        AssistantPart::Thinking(t) => "<details class=\"thinking\"><summary>Thinking</summary><pre>"@
            + escape_html_spec(t@) + "</pre></details>"@,
        AssistantPart::ToolCall { name, arguments } =>
            "<details class=\"tool-call\"><summary>Tool: "@ + escape_html_spec(name@)
            + "</summary><pre>"@ + escape_html_spec(arguments@) + "</pre></details>"@,
        AssistantPart::Image => "<p><em>[image]</em></p>"@,
    }
}

/// The number of characters of `s` that make up its first `n` bytes, when
/// byte `n` falls between two characters.
pub open spec fn byte_prefix_len(s: Seq<char>, n: nat) -> Option<nat> {
    if exists|k: int| 0 <= k <= s.len() && byte_len(s.take(k)) == n {
        Some((choose|k: int| 0 <= k <= s.len() && byte_len(s.take(k)) == n) as nat)
    } else {
        None
    }
}

/// The tool-result text as shown: its first 2000 bytes and a note of how
/// many were left out, when it is longer.
pub open spec fn shown_tool_text(t: Seq<char>) -> Seq<char> {
    if byte_len(t) > 2000 {
        match byte_prefix_len(t, 2000) {
            Some(k) => t.take(k as int) + "...\n[truncated "@ + decimal((byte_len(t) - 2000) as nat)
                + " chars]"@,
            None => t,
        }
    } else {
        t
    }
}

/// The joined text of a tool result.
pub open spec fn tool_text(texts: Seq<String>) -> Seq<char> {
    join(texts.map_values(|t: String| t@), "\n"@)
}

/// The HTML block of one message.
pub open spec fn message_html(m: ExportMessage) -> Seq<char> {
    match m {
        ExportMessage::User(c) => "<div class=\"message user\"><div class=\"role\">User</div><div class=\"content\">"@
            + escape_html_spec(user_content_text(c)) + "</div></div>\n"@,
        ExportMessage::Assistant(parts) =>
            "<div class=\"message assistant\"><div class=\"role\">Assistant</div><div class=\"content\">"@
            + join(parts@.map_values(|p: AssistantPart| part_html(p)), "\n"@) + "</div></div>\n"@,
        ExportMessage::ToolResult { tool_name, texts } =>
            "<div class=\"message tool-result\"><div class=\"role\">Tool: "@ + escape_html_spec(
                tool_name@,
            ) + "</div><pre class=\"content\">"@ + escape_html_spec(
                shown_tool_text(tool_text(texts@)),
            ) + "</pre></div>\n"@,
        ExportMessage::CompactionSummary(s) =>
            "<div class=\"message compaction\"><div class=\"role\">Context Summary</div><div class=\"content\"><pre>"@
            + escape_html_spec(s@) + "</pre></div></div>\n"@,
        ExportMessage::SystemContext(c) =>
            "<div class=\"message system\"><div class=\"role\">System</div><div class=\"content\">"@
            + escape_html_spec(c@) + "</div></div>\n"@,
        ExportMessage::Extension => seq![],
    }
}

/// Whether a message can be rendered: a tool result longer than the limit
/// must have a character boundary at the limit.
pub open spec fn message_renderable(m: ExportMessage) -> bool {
    match m {
        ExportMessage::ToolResult { tool_name, texts } => byte_len(tool_text(texts@)) > 2000
            ==> byte_prefix_len(tool_text(texts@), 2000) is Some,
        _ => true,
    }
}

/// The body: the HTML of all messages, in order.
pub open spec fn body_html(ms: Seq<ExportMessage>) -> Seq<char>
    decreases ms.len(),
{
    if ms.len() == 0 {
        seq![]
    } else {
        body_html(ms.drop_last()) + message_html(ms.last())
    }
}

/// The page before the title.
pub open spec fn page_head() -> Seq<char> {
    PAGE_HEAD@
}

/// The page between the title in `<title>` and in `<h1>`.
pub open spec fn page_style() -> Seq<char> {
    PAGE_STYLE@
}

/// The page after the body.
pub open spec fn page_foot() -> Seq<char> {
    PAGE_FOOT@
}

/// The complete page for a list of messages and a title.
pub open spec fn page_html(ms: Seq<ExportMessage>, title: Seq<char>) -> Seq<char> {
    page_head() + escape_html_spec(title) + page_style() + escape_html_spec(title) + "</h1>\n"@
        + body_html(ms) + page_foot()
}

pub const PAGE_HEAD: &'static str = "<!DOCTYPE html>\n<html lang=\"en\">\n<head>\n<meta charset=\"UTF-8\">\n<meta name=\"viewport\" content=\"width=device-width, initial-scale=1.0\">\n<title>";

pub const PAGE_STYLE: &'static str = "</title>\n<style>\n* { margin: 0; padding: 0; box-sizing: border-box; }\nbody { font-family: -apple-system, BlinkMacSystemFont, 'Segoe UI', Roboto, sans-serif; background: #1a1a2e; color: #e0e0e0; padding: 2rem; max-width: 900px; margin: 0 auto; }\nh1 { color: #fff; margin-bottom: 2rem; font-size: 1.5rem; }\n.message { margin-bottom: 1.5rem; padding: 1rem; border-radius: 8px; border-left: 4px solid #333; }\n.message.user { background: #16213e; border-left-color: #0f3460; }\n.message.assistant { background: #1a1a2e; border-left-color: #e94560; }\n.message.tool-result { background: #0f0f23; border-left-color: #533483; font-size: 0.9rem; }\n.message.compaction { background: #1d1d3b; border-left-color: #ffc107; }\n.message.system { background: #0d1b2a; border-left-color: #48bfe3; }\n.role { font-weight: 600; margin-bottom: 0.5rem; font-size: 0.85rem; text-transform: uppercase; letter-spacing: 0.05em; color: #888; }\n.content { line-height: 1.6; white-space: pre-wrap; word-wrap: break-word; }\npre { background: #0d1117; padding: 1rem; border-radius: 6px; overflow-x: auto; font-size: 0.85rem; line-height: 1.4; }\ndetails { margin: 0.5rem 0; }\nsummary { cursor: pointer; color: #888; font-size: 0.85rem; }\nsummary:hover { color: #ccc; }\n.thinking pre { color: #8b949e; }\n.footer { margin-top: 3rem; padding-top: 1rem; border-top: 1px solid #333; color: #666; font-size: 0.8rem; text-align: center; }\n</style>\n</head>\n<body>\n<h1>";

pub const PAGE_FOOT: &'static str = "\n<div class=\"footer\">Exported from Pi Agent</div>\n</body>\n</html>";

fn push_part_html(out: &mut Vec<char>, p: &AssistantPart)
    ensures
        final(out)@ == old(out)@ + part_html(*p),
{
    match p {
        AssistantPart::Text(t) => {
            extend_str(out, "<p>");
            push_escaped_html(out, chars_of(t.as_str()).as_slice());
            extend_str(out, "</p>");
        },
        AssistantPart::Thinking(t) => {
            extend_str(out, "<details class=\"thinking\"><summary>Thinking</summary><pre>");
            push_escaped_html(out, chars_of(t.as_str()).as_slice());
            extend_str(out, "</pre></details>");
        },
        AssistantPart::ToolCall { name, arguments } => {
            extend_str(out, "<details class=\"tool-call\"><summary>Tool: ");
            push_escaped_html(out, chars_of(name.as_str()).as_slice());
            extend_str(out, "</summary><pre>");
            push_escaped_html(out, chars_of(arguments.as_str()).as_slice());
            extend_str(out, "</pre></details>");
        },
        AssistantPart::Image => {
            extend_str(out, "<p><em>[image]</em></p>");
        },
    }
    assert(out@ =~= old(out)@ + part_html(*p));
}

/// The number of characters of `s` whose bytes come before byte `n`, if
/// byte `n` falls between two characters.
fn byte_prefix_len_exec(s: &[char], n: usize) -> (r: Option<usize>)
    ensures
        r matches Some(k) ==> byte_prefix_len(s@, n as nat) == Some(k as nat) && k <= s@.len(),
        r is None ==> byte_prefix_len(s@, n as nat) is None,
{
    let mut k: usize = 0;
    let mut b: u128 = 0;
    while k < s.len() && b < n as u128
        invariant
            k <= s@.len(),
            b == byte_len(s@.take(k as int)),
            b <= 4 * k,
            forall|m: int| 0 <= m < k ==> byte_len(#[trigger] s@.take(m)) < n,
        decreases s.len() - k,
    {
        proof {
            assert(s@.take(k + 1).drop_last() =~= s@.take(k as int));
        }
        b = b + char_width_exec(s[k]) as u128;
        k += 1;
    }
    if b == n as u128 {
        proof {
            assert forall|m: int| 0 <= m <= s@.len() && byte_len(s@.take(m)) == n implies m == k by {
                if m < k {
                } else if m > k {
                    lemma_byte_len_strict(s@, k as int, m);
                }
            }
        }
        Some(k)
    } else {
        proof {
            assert forall|m: int| 0 <= m <= s@.len() implies byte_len(#[trigger] s@.take(m)) != n by {
                if m > k {
                    lemma_byte_len_strict(s@, k as int, m);
                }
            }
        }
        None
    }
}

proof fn lemma_byte_len_strict(s: Seq<char>, i: int, j: int)
    requires
        0 <= i < j <= s.len(),
    ensures
        byte_len(s.take(i)) < byte_len(s.take(j)),
    decreases j - i,
{
    assert(s.take(j).drop_last() =~= s.take(j - 1));
    if i < j - 1 {
        lemma_byte_len_strict(s, i, j - 1);
    }
}

/// The texts of a tool result, one per line.
fn tool_text_exec(texts: &Vec<String>) -> (r: Vec<char>)
    ensures
        r@ == tool_text(texts@),
{
    let mut parts: Vec<Vec<char>> = Vec::new();
    let mut i: usize = 0;
    while i < texts.len()
        invariant
            i <= texts@.len(),
            parts@.len() == i,
            forall|j: int| 0 <= j < i ==> (#[trigger] parts@[j])@ == texts@[j]@,
        decreases texts.len() - i,
    {
        parts.push(chars_of(texts[i].as_str()));
        i += 1;
    }
    assert(parts@.map_values(|t: Vec<char>| t@) =~= texts@.map_values(|t: String| t@));
    let nl: Vec<char> = vec!['\n'];
    proof {
        reveal_strlit("\n");
        assert(nl@ =~= "\n"@);
    }
    let joined = join_chars(&parts, nl.as_slice());
    assert(joined@ == tool_text(texts@));
    joined
}

/// Whether a message can be rendered (see [`message_renderable`]).
pub fn is_renderable(m: &ExportMessage) -> (r: bool)
    ensures
        r == message_renderable(*m),
{
    match m {
        ExportMessage::ToolResult { tool_name: _, texts } => {
            let t = tool_text_exec(texts);
            crate::text::byte_len_at_most(t.as_slice(), 2000) || byte_prefix_len_exec(t.as_slice(), 2000).is_some()
        },
        _ => true,
    }
}

fn push_message_html(out: &mut Vec<char>, m: &ExportMessage)
    requires
        message_renderable(*m),
    ensures
        final(out)@ == old(out)@ + message_html(*m),
{
    match m {
        ExportMessage::User(c) => {
            extend_str(
                out,
                "<div class=\"message user\"><div class=\"role\">User</div><div class=\"content\">",
            );
            let t = render_user_content(c);
            push_escaped_html(out, chars_of(t.as_str()).as_slice());
            extend_str(out, "</div></div>\n");
        },
        ExportMessage::Assistant(parts) => {
            extend_str(
                out,
                "<div class=\"message assistant\"><div class=\"role\">Assistant</div><div class=\"content\">",
            );
            let ghost start = out@;
            let ghost views = parts@.map_values(|p: AssistantPart| part_html(p));
            let mut i: usize = 0;
            while i < parts.len()
                invariant
                    i <= parts@.len(),
                    views == parts@.map_values(|p: AssistantPart| part_html(p)),
                    out@ == start + join(views.take(i as int), "\n"@),
                decreases parts.len() - i,
            {
                let ghost before = out@;
                assert(views.take(i + 1).drop_last() =~= views.take(i as int));
                if i > 0 {
                    extend_str(out, "\n");
                }
                push_part_html(out, &parts[i]);
                if i == 0 {
                    assert(views.take(1)[0] == part_html(parts@[0]));
                    assert(join(views.take(1), "\n"@) == part_html(parts@[0]));
                    assert(out@ =~= start + join(views.take(1), "\n"@));
                } else {
                    assert(out@ =~= start + join(views.take(i + 1), "\n"@));
                }
                i += 1;
            }
            assert(views.take(parts@.len() as int) =~= views);
            extend_str(out, "</div></div>\n");
        },
        ExportMessage::ToolResult { tool_name, texts } => {
            extend_str(out, "<div class=\"message tool-result\"><div class=\"role\">Tool: ");
            push_escaped_html(out, chars_of(tool_name.as_str()).as_slice());
            extend_str(out, "</div><pre class=\"content\">");
            let joined = tool_text_exec(texts);
            let shown = shown_tool_text_exec(joined.as_slice());
            push_escaped_html(out, shown.as_slice());
            extend_str(out, "</pre></div>\n");
        },
        ExportMessage::CompactionSummary(s) => {
            extend_str(
                out,
                "<div class=\"message compaction\"><div class=\"role\">Context Summary</div><div class=\"content\"><pre>",
            );
            push_escaped_html(out, chars_of(s.as_str()).as_slice());
            extend_str(out, "</pre></div></div>\n");
        },
        ExportMessage::SystemContext(c) => {
            extend_str(
                out,
                "<div class=\"message system\"><div class=\"role\">System</div><div class=\"content\">",
            );
            push_escaped_html(out, chars_of(c.as_str()).as_slice());
            extend_str(out, "</div></div>\n");
        },
        ExportMessage::Extension => {},
    }
    assert(out@ =~= old(out)@ + message_html(*m));
}

fn shown_tool_text_exec(t: &[char]) -> (r: Vec<char>)
    requires
        byte_len(t@) > 2000 ==> byte_prefix_len(t@, 2000) is Some,
    ensures
        r@ == shown_tool_text(t@),
{
    if crate::text::byte_len_at_most(t, 2000) {
        return crate::text::copy_chars(t);
    }
    match byte_prefix_len_exec(t, 2000) {
        None => crate::text::copy_chars(t),
        Some(k) => {
            let total = crate::text::byte_count(t);
            let mut r = crate::text::slice_chars(t, 0, k);
            assert(r@ =~= t@.take(k as int));
            extend_str(&mut r, "...\n[truncated ");
            push_decimal_u128(&mut r, total - 2000);
            extend_str(&mut r, " chars]");
            r
        },
    }
}

fn push_decimal_u128(out: &mut Vec<char>, n: u128)
    ensures
        final(out)@ == old(out)@ + decimal(n as nat),
    decreases n,
{
    if n < 10 {
        push_decimal(out, n as usize);
    } else {
        push_decimal_u128(out, n / 10);
        push_decimal(out, (n % 10) as usize);
        assert(decimal((n % 10) as nat) == seq![crate::text::digit_char((n % 10) as nat)]);
        assert(old(out)@ + decimal(n as nat / 10) + decimal((n % 10) as nat) =~= old(out)@
            + decimal(n as nat));
    }
}

/// Render messages as a standalone HTML page with the given title.
pub fn render_html(messages: &Vec<ExportMessage>, title: &str) -> (r: String)
    requires
        forall|i: int| 0 <= i < messages@.len() ==> message_renderable(#[trigger] messages@[i]),
    ensures
        r@ == page_html(messages@, title@),
{
    let mut body: Vec<char> = Vec::new();
    let mut i: usize = 0;
    while i < messages.len()
        invariant
            i <= messages@.len(),
            forall|k: int| 0 <= k < messages@.len() ==> message_renderable(#[trigger] messages@[k]),
            body@ == body_html(messages@.take(i as int)),
        decreases messages.len() - i,
    {
        assert(messages@.take(i + 1).drop_last() =~= messages@.take(i as int));
        push_message_html(&mut body, &messages[i]);
        i += 1;
    }
    assert(messages@.take(messages@.len() as int) =~= messages@);
    let t = chars_of(title);
    let mut out: Vec<char> = Vec::new();
    extend_str(&mut out, PAGE_HEAD);
    push_escaped_html(&mut out, t.as_slice());
    extend_str(&mut out, PAGE_STYLE);
    push_escaped_html(&mut out, t.as_slice());
    extend_str(&mut out, "</h1>\n");
    extend_chars(&mut out, body.as_slice());
    extend_str(&mut out, PAGE_FOOT);
    assert(out@ =~= page_html(messages@, title@));
    string_of(out.as_slice())
}

} // verus!
