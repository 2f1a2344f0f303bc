//! The entries of a session file and what the session manager does with
//! them apart from reading and writing the file: describing entries for the
//! tree view, re-identifying entries merged in from another session,
//! choosing the lines a fork keeps, and the messages on the path to an
//! entry.

use vstd::prelude::*;
use crate::text::{byte_len, chars_of, extend_str, slice_chars, string_of, str_eq, extend_chars};
use crate::truncate::{cap_len, cap_len_exec};
use crate::paths::opt_str_view;

verus! {

broadcast use vstd::string::group_string_axioms;

/// What an entry holds besides its id, parent and time.
pub enum EntryBody<M> {
    /// A message of the conversation.
    Message { message: M },
    /// A compaction summary.
    Compaction { summary: String, first_kept_entry_id: String, tokens_before: u64 },
    /// A change of model.
    ModelChange { model: String, provider: String },
    /// A change of thinking level.
    ThinkingLevelChange { level: String },
    /// A bookmark.
    Label { label: String },
    /// A summary of a branch, made at the entry `branch_entry_id`.
    BranchSummary { branch_entry_id: String, summary: String, tokens_before: u64 },
}

/// One entry of a session file; `T` is its time stamp and `M` the message
/// a message entry holds.
pub struct SessionEntry<T, M> {
    pub id: String,
    pub parent_id: Option<String>,
    pub timestamp: T,
    pub body: EntryBody<M>,
}

/// An [`EntryBody`] with its strings as character sequences.
pub enum BodyView<M> {
    Message { message: M },
    Compaction { summary: Seq<char>, first_kept_entry_id: Seq<char>, tokens_before: u64 },
    ModelChange { model: Seq<char>, provider: Seq<char> },
    ThinkingLevelChange { level: Seq<char> },
    Label { label: Seq<char> },
    BranchSummary { branch_entry_id: Seq<char>, summary: Seq<char>, tokens_before: u64 },
}

/// The view of an entry's body.
pub open spec fn body_view<M>(b: EntryBody<M>) -> BodyView<M> {
    match b {
        EntryBody::Message { message } => BodyView::Message { message },
        EntryBody::Compaction { summary, first_kept_entry_id, tokens_before } => BodyView::Compaction {
            summary: summary@,
            first_kept_entry_id: first_kept_entry_id@,
            tokens_before,
        },
        EntryBody::ModelChange { model, provider } => BodyView::ModelChange { model: model@, provider: provider@ },
        EntryBody::ThinkingLevelChange { level } => BodyView::ThinkingLevelChange { level: level@ },
        EntryBody::Label { label } => BodyView::Label { label: label@ },
        EntryBody::BranchSummary { branch_entry_id, summary, tokens_before } => BodyView::BranchSummary {
            branch_entry_id: branch_entry_id@,
            summary: summary@,
            tokens_before,
        },
    }
}

/// An entry as character sequences: id, parent, time stamp and body.
pub open spec fn entry_view<T, M>(e: SessionEntry<T, M>) -> (Seq<char>, Option<Seq<char>>, T, BodyView<M>) {
    (e.id@, opt_str_view(e.parent_id), e.timestamp, body_view(e.body))
}

fn copy_opt(o: &Option<String>) -> (r: Option<String>)
    ensures
        opt_str_view(r) == opt_str_view(*o),
{
    match o {
        Some(s) => Some(s.as_str().to_string()),
        None => None,
    }
}

impl<T, M> SessionEntry<T, M> {
    /// The entry's id.
    pub fn id(&self) -> (r: &str)
        ensures
            r@ == self.id@,
    {
        self.id.as_str()
    }

    /// The entry's parent.
    pub fn entry_parent_id(&self) -> (r: Option<String>)
        ensures
            opt_str_view(r) == opt_str_view(self.parent_id),
    {
        copy_opt(&self.parent_id)
    }
}

// ---------------------------------------------------------------------------
// Describing entries
// ---------------------------------------------------------------------------

/// Who wrote a model message.
#[derive(Clone, Copy, Debug, PartialEq, Eq, Structural)]
pub enum LlmRole {
    User,
    Assistant,
    ToolResult,
}

/// What the tree view needs of a message.
pub enum MessageInfo {
    /// A message to or from the model, with its text.
    Llm { role: LlmRole, text: String },
    /// Context the system added, with where it came from.
    SystemContext { content: String, source: String },
    /// The summary that replaced compacted messages.
    CompactionSummary { summary: String },
    /// A message of an extension, with the extension's message kind.
    Extension { kind: String },
}

/// `s` cut to `n` characters, with `...` when something was cut.
pub open spec fn clipped(s: Seq<char>, n: nat) -> Seq<char> {
    if s.len() > n {
        s.take(n as int) + "..."@
    } else {
        s
    }
}

/// Cuts `s` to at most `max_chars` characters, marking a cut with `...`.
pub fn truncate(s: &str, max_chars: usize) -> (r: String)
    ensures
        r@ == clipped(s@, max_chars as nat),
{
    let c = chars_of(s);
    if c.len() > max_chars {
        let mut v = slice_chars(c.as_slice(), 0, max_chars);
        assert(v@ =~= s@.take(max_chars as int));
        extend_str(&mut v, "...");
        string_of(v.as_slice())
    } else {
        s.to_string()
    }
}

/// The name of a role as the tree view shows it.
pub open spec fn role_label(role: LlmRole) -> Seq<char> {
    match role {
        LlmRole::User => "user"@,
        LlmRole::Assistant => "assistant"@,
        LlmRole::ToolResult => "tool_result"@,
    }
}

/// The first bytes of an id, at most eight.
pub open spec fn short_id(id: Seq<char>) -> Seq<char> {
    if byte_len(id) <= 8 {
        id
    } else {
        id.take(cap_len(id, 8) as int)
    }
}

/// Whether the first eight bytes of an id end on a character boundary (so
/// that they can be cut off); always so for an ASCII id.
pub open spec fn short_id_cuttable(id: Seq<char>) -> bool {
    byte_len(id) <= 8 || byte_len(id.take(cap_len(id, 8) as int)) == 8
}

/// How the tree view describes a message.
pub open spec fn message_summary(m: MessageInfo) -> Seq<char> {
    match m {
        MessageInfo::Llm { role, text } => "["@ + role_label(role) + "] "@ + clipped(text@, 80),
        MessageInfo::SystemContext { content, source } => "[system:"@ + source@ + "] "@ + clipped(content@, 60),
        MessageInfo::CompactionSummary { summary } => "[compaction] "@ + clipped(summary@, 60),
        MessageInfo::Extension { kind } => "[extension:"@ + kind@ + "]"@,
    }
}

/// The kind of an entry and how the tree view describes it.
pub open spec fn entry_description(b: EntryBody<MessageInfo>) -> (Seq<char>, Seq<char>) {
    match b {
        EntryBody::Message { message } => ("message"@, message_summary(message)),
        EntryBody::Compaction { summary, .. } => ("compaction"@, "[compaction] "@ + clipped(summary@, 60)),
        EntryBody::ModelChange { model, provider } => ("model_change"@, "[model] "@ + provider@ + "/"@ + model@),
        EntryBody::ThinkingLevelChange { level } => ("thinking_level_change"@, "[thinking] level="@ + level@),
        EntryBody::Label { label } => ("label"@, "[label] "@ + label@),
        EntryBody::BranchSummary { branch_entry_id, summary, .. } => (
            "branch_summary"@,
            "[branch_summary@"@ + short_id(branch_entry_id@) + "] "@ + clipped(summary@, 50),
        ),
    }
}

/// Whether describing the entry is possible (the id a branch summary was
/// made at must be cuttable after eight bytes).
pub open spec fn describable<T>(e: SessionEntry<T, MessageInfo>) -> bool {
    match e.body {
        EntryBody::BranchSummary { branch_entry_id, .. } => short_id_cuttable(branch_entry_id@),
        _ => true,
    }
}

fn tagged(tag: &str, s: &str, tail: &str) -> (r: String)
    ensures
        r@ == tag@ + s@ + tail@,
{
    let mut v = chars_of(tag);
    extend_str(&mut v, s);
    extend_str(&mut v, tail);
    string_of(v.as_slice())
}

fn describe_message(m: &MessageInfo) -> (r: String)
    ensures
        r@ == message_summary(*m),
{
    proof {
        reveal_strlit("");
    }
    match m {
        MessageInfo::Llm { role, text } => {
            let label = match role {
                LlmRole::User => "user",
                LlmRole::Assistant => "assistant",
                LlmRole::ToolResult => "tool_result",
            };
            assert(label@ == role_label(*role));
            let t = truncate(text.as_str(), 80);
            let mut v = chars_of("[");
            extend_str(&mut v, label);
            extend_str(&mut v, "] ");
            extend_str(&mut v, t.as_str());
            assert(v@ =~= "["@ + role_label(*role) + "] "@ + clipped(text@, 80));
            string_of(v.as_slice())
        },
        MessageInfo::SystemContext { content, source } => {
            let t = truncate(content.as_str(), 60);
            let mut v = chars_of("[system:");
            extend_str(&mut v, source.as_str());
            extend_str(&mut v, "] ");
            extend_str(&mut v, t.as_str());
            string_of(v.as_slice())
        },
        MessageInfo::CompactionSummary { summary } => {
            let t = truncate(summary.as_str(), 60);
            tagged("[compaction] ", t.as_str(), "")
        },
        MessageInfo::Extension { kind } => tagged("[extension:", kind.as_str(), "]"),
    }
}

/// Whether a short id can be cut from `id` (see [`short_id_cuttable`]).
pub fn is_short_id_cuttable(id: &str) -> (r: bool)
    ensures
        r == short_id_cuttable(id@),
{
    let c = chars_of(id);
    let k = cap_len_exec(c.as_slice(), 8);
    let prefix = slice_chars(c.as_slice(), 0, k);
    assert(prefix@ =~= id@.take(k as int));
    crate::text::byte_count(c.as_slice()) <= 8 || crate::text::byte_count(prefix.as_slice()) == 8
}

/// Whether the tree view can describe an entry (see [`describable`]).
pub fn is_describable<T>(e: &SessionEntry<T, MessageInfo>) -> (r: bool)
    ensures
        r == describable(*e),
{
    match &e.body {
        EntryBody::BranchSummary { branch_entry_id, .. } => is_short_id_cuttable(branch_entry_id.as_str()),
        _ => true,
    }
}

/// The kind of an entry, its parent, and a short description of it for the
/// tree view.
pub fn describe_entry<T>(entry: &SessionEntry<T, MessageInfo>) -> (r: (String, Option<String>, String))
    requires
        describable(*entry),
    ensures
        r.0@ == entry_description(entry.body).0,
        opt_str_view(r.1) == opt_str_view(entry.parent_id),
        r.2@ == entry_description(entry.body).1,
{
    proof {
        reveal_strlit("");
    }
    let parent = copy_opt(&entry.parent_id);
    match &entry.body {
        EntryBody::Message { message } => ("message".to_string(), parent, describe_message(message)),
        EntryBody::Compaction { summary, .. } => {
            let t = truncate(summary.as_str(), 60);
            ("compaction".to_string(), parent, tagged("[compaction] ", t.as_str(), ""))
        },
        EntryBody::ModelChange { model, provider } => {
            let mut v = chars_of("[model] ");
            extend_str(&mut v, provider.as_str());
            extend_str(&mut v, "/");
            extend_str(&mut v, model.as_str());
            ("model_change".to_string(), parent, string_of(v.as_slice()))
        },
        EntryBody::ThinkingLevelChange { level } => (
            "thinking_level_change".to_string(),
            parent,
            tagged("[thinking] level=", level.as_str(), ""),
        ),
        EntryBody::Label { label } => ("label".to_string(), parent, tagged("[label] ", label.as_str(), "")),
        EntryBody::BranchSummary { branch_entry_id, summary, .. } => {
            let idc = chars_of(branch_entry_id.as_str());
            let short = if crate::text::byte_len_at_most(idc.as_slice(), 8) {
                idc
            } else {
                let k = cap_len_exec(idc.as_slice(), 8);
                let s = slice_chars(idc.as_slice(), 0, k);
                assert(s@ =~= idc@.take(k as int));
                s
            };
            let t = truncate(summary.as_str(), 50);
            let mut v = chars_of("[branch_summary@");
            extend_chars(&mut v, short.as_slice());
            extend_str(&mut v, "] ");
            extend_str(&mut v, t.as_str());
            ("branch_summary".to_string(), parent, string_of(v.as_slice()))
        },
    }
}

// ---------------------------------------------------------------------------
// Merging another session
// ---------------------------------------------------------------------------

/// `(old id, new id)` pairs by their views.
pub open spec fn remap_views(m: Seq<(String, String)>) -> Seq<(Seq<char>, Seq<char>)> {
    m.map_values(|p: (String, String)| (p.0@, p.1@))
}

/// The new id recorded for `k`: the last pair for it wins.
pub open spec fn remap_lookup(m: Seq<(Seq<char>, Seq<char>)>, k: Seq<char>) -> Option<Seq<char>>
    decreases m.len(),
{
    if m.len() == 0 {
        None
    } else if m.last().0 == k {
        Some(m.last().1)
    } else {
        remap_lookup(m.drop_last(), k)
    }
}

/// `k`'s new id, or `k` itself when it has none.
pub open spec fn remap_or(m: Seq<(Seq<char>, Seq<char>)>, k: Seq<char>) -> Seq<char> {
    match remap_lookup(m, k) {
        Some(v) => v,
        None => k,
    }
}

/// A body whose references to other entries (the first entry a compaction
/// kept, the entry a branch summary was made at) follow the new ids.
pub open spec fn remapped_body<M>(b: BodyView<M>, m: Seq<(Seq<char>, Seq<char>)>) -> BodyView<M> {
    match b {
        BodyView::Compaction { summary, first_kept_entry_id, tokens_before } => BodyView::Compaction {
            summary,
            first_kept_entry_id: remap_or(m, first_kept_entry_id),
            tokens_before,
        },
        BodyView::BranchSummary { branch_entry_id, summary, tokens_before } => BodyView::BranchSummary {
            branch_entry_id: remap_or(m, branch_entry_id),
            summary,
            tokens_before,
        },
        other => other,
    }
}

fn lookup_remap(id_remap: &Vec<(String, String)>, k: &str) -> (r: Option<String>)
    ensures
        opt_str_view(r) == remap_lookup(remap_views(id_remap@), k@),
{
    let ghost mv = remap_views(id_remap@);
    let mut i = id_remap.len();
    assert(mv.take(mv.len() as int) =~= mv);
    while i > 0
        invariant
            i <= id_remap@.len(),
            mv == remap_views(id_remap@),
            remap_lookup(mv, k@) == remap_lookup(mv.take(i as int), k@),
        decreases i,
    {
        assert(mv.take(i as int).drop_last() =~= mv.take(i - 1));
        if str_eq(id_remap[i - 1].0.as_str(), k) {
            return Some(id_remap[i - 1].1.as_str().to_string());
        }
        i -= 1;
    }
    None
}

fn remap_string(id_remap: &Vec<(String, String)>, k: String) -> (r: String)
    ensures
        r@ == remap_or(remap_views(id_remap@), k@),
{
    match lookup_remap(id_remap, k.as_str()) {
        Some(v) => v,
        None => k,
    }
}

/// The entry under a new id and parent, its references to merged entries
/// following their new ids.
pub fn remap_entry_ids<T, M>(
    entry: SessionEntry<T, M>,
    new_id: &str,
    new_parent_id: &Option<String>,
    id_remap: &Vec<(String, String)>,
) -> (r: SessionEntry<T, M>)
    ensures
        r.id@ == new_id@,
        opt_str_view(r.parent_id) == opt_str_view(*new_parent_id),
        r.timestamp == entry.timestamp,
        body_view(r.body) == remapped_body(body_view(entry.body), remap_views(id_remap@)),
{
    let body = match entry.body {
        EntryBody::Compaction { summary, first_kept_entry_id, tokens_before } => EntryBody::Compaction {
            summary,
            first_kept_entry_id: remap_string(id_remap, first_kept_entry_id),
            tokens_before,
        },
        EntryBody::BranchSummary { branch_entry_id, summary, tokens_before } => EntryBody::BranchSummary {
            branch_entry_id: remap_string(id_remap, branch_entry_id),
            summary,
            tokens_before,
        },
        other => other,
    };
    SessionEntry { id: new_id.to_string(), parent_id: copy_opt(new_parent_id), timestamp: entry.timestamp, body }
}

/// Each old id paired with the fresh id drawn for its entry, in order.
pub open spec fn fresh_pairs(old: Seq<Seq<char>>, fresh: Seq<Seq<char>>) -> Seq<(Seq<char>, Seq<char>)> {
    Seq::new(old.len(), |i: int| (old[i], fresh[i]))
}

/// The entries of another session appended after `last`: each takes the
/// fresh id drawn for its old id (for an id that occurs more than once, the
/// one drawn last), they form one chain from `last` in their order, and
/// their references to each other follow the new ids.
pub open spec fn merged<T, M>(
    es: Seq<(Seq<char>, Option<Seq<char>>, T, BodyView<M>)>,
    fresh: Seq<Seq<char>>,
    last: Option<Seq<char>>,
    i: int,
) -> (Seq<char>, Option<Seq<char>>, T, BodyView<M>) {
    let m = fresh_pairs(es.map_values(|e: (Seq<char>, Option<Seq<char>>, T, BodyView<M>)| e.0), fresh);
    (
        remap_or(m, es[i].0),
        if i == 0 {
            last
        } else {
            Some(remap_or(m, es[i - 1].0))
        },
        es[i].2,
        remapped_body(es[i].3, m),
    )
}

proof fn lemma_remap_found(m: Seq<(Seq<char>, Seq<char>)>, i: int)
    requires
        0 <= i < m.len(),
    ensures
        remap_lookup(m, m[i].0) is Some,
    decreases m.len(),
{
    if m.last().0 != m[i].0 {
        assert(m.drop_last()[i] == m[i]);
        lemma_remap_found(m.drop_last(), i);
    }
}

/// Re-identifies the entries of another session for appending them after
/// the entry `last_entry_id`; `fresh_ids` holds one newly drawn id per
/// entry.
pub fn merge_entries<T, M>(
    entries: Vec<SessionEntry<T, M>>,
    fresh_ids: &Vec<String>,
    last_entry_id: &Option<String>,
) -> (r: Vec<SessionEntry<T, M>>)
    requires
        fresh_ids@.len() == entries@.len(),
    ensures
        r@.len() == entries@.len(),
        forall|i: int|
            0 <= i < r@.len() ==> entry_view(#[trigger] r@[i]) == merged(
                entries@.map_values(|e: SessionEntry<T, M>| entry_view(e)),
                fresh_ids@.map_values(|s: String| s@),
                opt_str_view(*last_entry_id),
                i,
            ),
{
    let ghost es = entries@.map_values(|e: SessionEntry<T, M>| entry_view(e));
    let ghost fv = fresh_ids@.map_values(|s: String| s@);
    let ghost m = fresh_pairs(es.map_values(|e: (Seq<char>, Option<Seq<char>>, T, BodyView<M>)| e.0), fv);
    let n = entries.len();
    let mut id_remap: Vec<(String, String)> = Vec::new();
    let mut i: usize = 0;
    while i < n
        invariant
            i <= n,
            n == entries@.len(),
            n == fresh_ids@.len(),
            es == entries@.map_values(|e: SessionEntry<T, M>| entry_view(e)),
            fv == fresh_ids@.map_values(|s: String| s@),
            m == fresh_pairs(es.map_values(|e: (Seq<char>, Option<Seq<char>>, T, BodyView<M>)| e.0), fv),
            remap_views(id_remap@) == m.take(i as int),
        decreases n - i,
    {
        let ghost before = remap_views(id_remap@);
        id_remap.push((entries[i].id.as_str().to_string(), fresh_ids[i].as_str().to_string()));
        assert(remap_views(id_remap@) =~= before.push((es[i as int].0, fv[i as int])));
        assert(m.take(i + 1) =~= m.take(i as int).push(m[i as int]));
        i += 1;
    }
    assert(m.take(n as int) =~= m);
    let mut rest = entries;
    let mut out: Vec<SessionEntry<T, M>> = Vec::new();
    let mut previous: Option<String> = copy_opt(last_entry_id);
    let mut k: usize = 0;
    while k < n
        invariant
            k <= n,
            n == es.len(),
            rest@.len() == n - k,
            forall|j: int| 0 <= j < rest@.len() ==> entry_view(#[trigger] rest@[j]) == es[k + j],
            remap_views(id_remap@) == m,
            m == fresh_pairs(es.map_values(|e: (Seq<char>, Option<Seq<char>>, T, BodyView<M>)| e.0), fv),
            fv.len() == n,
            out@.len() == k,
            forall|j: int|
                0 <= j < k ==> entry_view(#[trigger] out@[j]) == merged(es, fv, opt_str_view(*last_entry_id), j),
            opt_str_view(previous) == if k == 0 {
                opt_str_view(*last_entry_id)
            } else {
                Some(remap_or(m, es[k - 1].0))
            },
        decreases n - k,
    {
        let ghost before_rest = rest@;
        let e = rest.remove(0);
        assert(entry_view(e) == es[k as int]);
        let new_id = match lookup_remap(&id_remap, e.id.as_str()) {
            Some(v) => v,
            None => e.id.as_str().to_string(),
        };
        let r = remap_entry_ids(e, new_id.as_str(), &previous, &id_remap);
        out.push(r);
        proof {
            assert(entry_view(out@[k as int]) == merged(es, fv, opt_str_view(*last_entry_id), k as int));
            assert forall|j: int| 0 <= j < rest@.len() implies entry_view(#[trigger] rest@[j]) == es[k + 1 + j] by {
                assert(rest@[j] == before_rest[j + 1]);
            }
        }
        previous = Some(new_id);
        k += 1;
    }
    out
}

/// Merged entries form one chain: the first hangs from the entry they were
/// appended after, each other from the one before it; and every merged
/// entry carries one of the freshly drawn ids.
pub proof fn merged_entries_chain<T, M>(
    es: Seq<(Seq<char>, Option<Seq<char>>, T, BodyView<M>)>,
    fresh: Seq<Seq<char>>,
    last: Option<Seq<char>>,
    i: int,
)
    requires
        fresh.len() == es.len(),
        0 <= i < es.len(),
    ensures
        i == 0 ==> merged(es, fresh, last, i).1 == last,
        i > 0 ==> merged(es, fresh, last, i).1 == Some(merged(es, fresh, last, i - 1).0),
        exists|j: int| 0 <= j < fresh.len() && fresh[j] == merged(es, fresh, last, i).0,
{
    let m = fresh_pairs(es.map_values(|e: (Seq<char>, Option<Seq<char>>, T, BodyView<M>)| e.0), fresh);
    assert(m[i].0 == es[i].0);
    lemma_remap_found(m, i);
    lemma_remap_value(m, es[i].0);
}

proof fn lemma_remap_value(m: Seq<(Seq<char>, Seq<char>)>, k: Seq<char>)
    ensures
        remap_lookup(m, k) matches Some(v) ==> exists|j: int| 0 <= j < m.len() && m[j].1 == v,
    decreases m.len(),
{
    if m.len() > 0 {
        if m.last().0 == k {
            assert(m[m.len() - 1].1 == m.last().1);
        } else {
            lemma_remap_value(m.drop_last(), k);
            if let Some(v) = remap_lookup(m.drop_last(), k) {
                let j = choose|j: int| 0 <= j < m.drop_last().len() && m.drop_last()[j].1 == v;
                assert(m[j] == m.drop_last()[j]);
            }
        }
    }
}

// ---------------------------------------------------------------------------
// Forking, loading and navigating
// ---------------------------------------------------------------------------

/// Why a session cannot be forked at an entry.
#[derive(Debug, Clone, Copy, PartialEq, Eq, Structural)]
pub enum ForkError {
    /// The session file has no lines.
    EmptySession,
    /// No entry has the id.
    EntryNotFound,
}

/// The first line after the header that is not blank and holds the entry
/// `target` (`ids[i]` is the id of the entry on line `i`, if it holds one).
pub open spec fn fork_point(lines: Seq<Seq<char>>, ids: Seq<Option<Seq<char>>>, target: Seq<char>, from: int) -> Option<int>
    decreases lines.len() - from,
{
    if from < 1 || from >= lines.len() {
        None
    } else if !crate::text::all_ws(lines[from]) && ids[from] == Some(target) {
        Some(from)
    } else {
        fork_point(lines, ids, target, from + 1)
    }
}

/// The lines before index `upto` (from the first after the header) that
/// are not blank, in order.
pub open spec fn nonblank_lines(lines: Seq<Seq<char>>, upto: int) -> Seq<Seq<char>>
    decreases upto,
{
    if upto <= 1 {
        seq![]
    } else {
        nonblank_lines(lines, upto - 1) + if crate::text::all_ws(lines[upto - 1]) {
            seq![]
        } else {
            seq![lines[upto - 1]]
        }
    }
}

/// The lines a fork keeps: the header, then every non-blank line up to and
/// including the fork point.
pub open spec fn fork_selection(lines: Seq<Seq<char>>, ids: Seq<Option<Seq<char>>>, target: Seq<char>) -> Result<
    Seq<Seq<char>>,
    ForkError,
> {
    if lines.len() == 0 {
        Err(ForkError::EmptySession)
    } else {
        match fork_point(lines, ids, target, 1) {
            Some(k) => Ok(seq![lines[0]] + nonblank_lines(lines, k + 1)),
            None => Err(ForkError::EntryNotFound),
        }
    }
}

/// Optional strings by their views.
pub open spec fn opt_views(v: Seq<Option<String>>) -> Seq<Option<Seq<char>>> {
    v.map_values(|o: Option<String>| opt_str_view(o))
}

/// Chooses the lines of a session file that a fork at the entry `target`
/// keeps; `ids[i]` is the id of the entry on line `i`, when the line holds
/// one.
pub fn fork_lines(lines: &Vec<String>, ids: &Vec<Option<String>>, target: &str) -> (r: Result<Vec<String>, ForkError>)
    requires
        ids@.len() == lines@.len(),
    ensures
        match r {
            Ok(v) => fork_selection(crate::order::views_of(lines@), opt_views(ids@), target@) == Ok::<
                Seq<Seq<char>>,
                ForkError,
            >(crate::order::views_of(v@)),
            Err(e) => fork_selection(crate::order::views_of(lines@), opt_views(ids@), target@) == Err::<
                Seq<Seq<char>>,
                ForkError,
            >(e),
        },
{
    let ghost lv = crate::order::views_of(lines@);
    let ghost iv = opt_views(ids@);
    if lines.len() == 0 {
        return Err(ForkError::EmptySession);
    }
    let mut out: Vec<String> = Vec::new();
    out.push(lines[0].as_str().to_string());
    let mut i: usize = 1;
    while i < lines.len()
        invariant
            1 <= i <= lines@.len(),
            ids@.len() == lines@.len(),
            lv == crate::order::views_of(lines@),
            iv == opt_views(ids@),
            fork_point(lv, iv, target@, 1) == fork_point(lv, iv, target@, i as int),
            crate::order::views_of(out@) == seq![lv[0]] + nonblank_lines(lv, i as int),
        decreases lines.len() - i,
    {
        let lc = chars_of(lines[i].as_str());
        let blank = crate::text::all_ws_exec(lc.as_slice());
        let ghost before = crate::order::views_of(out@);
        if !blank {
            out.push(lines[i].as_str().to_string());
            assert(crate::order::views_of(out@) =~= before.push(lv[i as int]));
        }
        assert(crate::order::views_of(out@) =~= seq![lv[0]] + nonblank_lines(lv, i + 1));
        let hit = match &ids[i] {
            Some(id) => str_eq(id.as_str(), target),
            None => false,
        };
        assert(hit == (iv[i as int] == Some(target@)));
        if !blank && hit {
            return Ok(out);
        }
        i += 1;
    }
    Err(ForkError::EntryNotFound)
}

/// The messages of the entries, in order.
pub open spec fn messages_of<T, M>(es: Seq<Option<SessionEntry<T, M>>>) -> Seq<M>
    decreases es.len(),
{
    if es.len() == 0 {
        seq![]
    } else {
        messages_of(es.drop_last()) + match es.last() {
            Some(e) => match e.body {
                EntryBody::Message { message } => seq![message],
                _ => seq![],
            },
            None => seq![],
        }
    }
}

/// The id of the last entry.
pub open spec fn last_entry_id<T, M>(es: Seq<Option<SessionEntry<T, M>>>) -> Option<Seq<char>>
    decreases es.len(),
{
    if es.len() == 0 {
        None
    } else {
        match es.last() {
            Some(e) => Some(e.id@),
            None => last_entry_id(es.drop_last()),
        }
    }
}

/// What loading a session yields from its entries (`None` for a blank or
/// unreadable line): the messages in order, and the id of the last entry,
/// which new entries continue from.
pub fn load_entries<T, M>(entries: Vec<Option<SessionEntry<T, M>>>) -> (r: (Vec<M>, Option<String>))
    ensures
        r.0@ == messages_of(entries@),
        opt_str_view(r.1) == last_entry_id(entries@),
{
    let ghost es = entries@;
    let n = entries.len();
    let mut rest = entries;
    let mut messages: Vec<M> = Vec::new();
    let mut last: Option<String> = None;
    let mut k: usize = 0;
    while k < n
        invariant
            k <= n,
            n == es.len(),
            rest@ == es.skip(k as int),
            messages@ == messages_of(es.take(k as int)),
            opt_str_view(last) == last_entry_id(es.take(k as int)),
        decreases n - k,
    {
        let e = rest.remove(0);
        proof {
            assert(e == es[k as int]);
            let t = es.take(k + 1);
            assert(t.drop_last() =~= es.take(k as int));
            assert(t.last() == es[k as int]);
            assert(rest@ =~= es.skip(k + 1));
        }
        match e {
            Some(entry) => {
                last = Some(entry.id.as_str().to_string());
                match entry.body {
                    EntryBody::Message { message } => {
                        messages.push(message);
                    },
                    _ => {},
                }
            },
            None => {},
        }
        proof {
            assert(messages@ =~= messages_of(es.take(k + 1)));
        }
        k += 1;
    }
    assert(es.take(n as int) =~= es);
    (messages, last)
}

/// The index of the last entry with id `id`.
pub open spec fn last_with_id<T, M>(es: Seq<SessionEntry<T, M>>, id: Seq<char>) -> Option<int>
    decreases es.len(),
{
    if es.len() == 0 {
        None
    } else if es.last().id@ == id {
        Some(es.len() - 1)
    } else {
        last_with_id(es.drop_last(), id)
    }
}

/// The entries holding the messages on a path, in path order: for each id
/// the last entry with it, when that is a message entry.
pub open spec fn path_messages<T, M>(es: Seq<SessionEntry<T, M>>, path: Seq<Seq<char>>) -> Seq<int>
    decreases path.len(),
{
    if path.len() == 0 {
        seq![]
    } else {
        path_messages(es, path.drop_last()) + match last_with_id(es, path.last()) {
            Some(i) => if es[i].body is Message {
                seq![i]
            } else {
                seq![]
            },
            None => seq![],
        }
    }
}

proof fn lemma_last_with_id_bound<T, M>(es: Seq<SessionEntry<T, M>>, id: Seq<char>)
    ensures
        last_with_id(es, id) matches Some(i) ==> 0 <= i < es.len() && es[i].id@ == id,
    decreases es.len(),
{
    if es.len() > 0 && es.last().id@ != id {
        lemma_last_with_id_bound(es.drop_last(), id);
    }
}

fn last_index_of<T, M>(entries: &Vec<SessionEntry<T, M>>, id: &str) -> (r: Option<usize>)
    ensures
        match r {
            Some(i) => last_with_id(entries@, id@) == Some(i as int),
            None => last_with_id(entries@, id@) is None,
        },
{
    let mut i = entries.len();
    assert(entries@.take(entries@.len() as int) =~= entries@);
    while i > 0
        invariant
            i <= entries@.len(),
            last_with_id(entries@, id@) == last_with_id(entries@.take(i as int), id@),
        decreases i,
    {
        assert(entries@.take(i as int).drop_last() =~= entries@.take(i - 1));
        if str_eq(entries[i - 1].id.as_str(), id) {
            return Some(i - 1);
        }
        i -= 1;
    }
    None
}

/// The indices of the entries whose messages lie on a path of ids (from
/// the root down), which is the conversation to restore at its last entry.
pub fn path_message_indices<T, M>(entries: &Vec<SessionEntry<T, M>>, path: &Vec<String>) -> (r: Vec<usize>)
    ensures
        r@.map_values(|i: usize| i as int) == path_messages(entries@, crate::order::views_of(path@)),
{
    let ghost pv = crate::order::views_of(path@);
    let mut out: Vec<usize> = Vec::new();
    let mut p: usize = 0;
    while p < path.len()
        invariant
            p <= path@.len(),
            pv == crate::order::views_of(path@),
            out@.map_values(|i: usize| i as int) == path_messages(entries@, pv.take(p as int)),
        decreases path.len() - p,
    {
        let id = path[p].as_str();
        let ghost es = entries@;
        let found = last_index_of(entries, id);
        let ghost before = out@.map_values(|i: usize| i as int);
        proof {
            let t = pv.take(p + 1);
            assert(t.drop_last() =~= pv.take(p as int));
            assert(t.last() == id@);
            lemma_last_with_id_bound(es, id@);
        }
        match found {
            Some(i) => {
                let is_message = match &entries[i].body {
                    EntryBody::Message { .. } => true,
                    _ => false,
                };
                if is_message {
                    out.push(i);
                    assert(out@.map_values(|i: usize| i as int) =~= before.push(i as int));
                }
            },
            None => {},
        }
        p += 1;
    }
    assert(pv.take(path@.len() as int) =~= pv);
    out
}

/// The nodes where the conversation forks: those with more than one child.
pub open spec fn forks(nodes: Seq<crate::tree::TreeNode>) -> Seq<crate::tree::TreeNode>
    decreases nodes.len(),
{
    if nodes.len() == 0 {
        seq![]
    } else {
        forks(nodes.drop_last()) + if nodes.last().children@.len() > 1 {
            seq![nodes.last()]
        } else {
            seq![]
        }
    }
}

/// The branch points of a tree: the nodes with more than one child, in
/// order.
pub fn branch_points(nodes: Vec<crate::tree::TreeNode>) -> (r: Vec<crate::tree::TreeNode>)
    ensures
        r@ == forks(nodes@),
{
    let ghost ns = nodes@;
    let n = nodes.len();
    let mut rest = nodes;
    let mut out: Vec<crate::tree::TreeNode> = Vec::new();
    let mut k: usize = 0;
    while k < n
        invariant
            k <= n,
            n == ns.len(),
            rest@ == ns.skip(k as int),
            out@ == forks(ns.take(k as int)),
        decreases n - k,
    {
        let node = rest.remove(0);
        proof {
            let t = ns.take(k + 1);
            assert(t.drop_last() =~= ns.take(k as int));
            assert(t.last() == node);
            assert(rest@ =~= ns.skip(k + 1));
        }
        if node.children.len() > 1 {
            out.push(node);
        }
        proof {
            assert(out@ =~= forks(ns.take(k + 1)));
        }
        k += 1;
    }
    assert(ns.take(n as int) =~= ns);
    out
}

} // verus!
