//! Bringing a session file written under an older schema up to the
//! current one (version 3): what is to be changed in the header and in
//! each entry line, decided from what each line holds.

use vstd::prelude::*;
use crate::text::{chars_of, find_char, find_char_exec, slice_chars, string_of, str_eq, all_ws};
use crate::session::{remap_lookup, remap_views};

verus! {

broadcast use vstd::string::group_string_axioms;

// ---------------------------------------------------------------------------
// Time stamps
// ---------------------------------------------------------------------------

/// Whether `s` is an RFC 3339 date and time, as chrono reads one.
pub uninterp spec fn rfc3339_ok(s: Seq<char>) -> bool;

/// Whether a count of seconds since 1970 gives a date chrono can represent.
pub uninterp spec fn seconds_in_range(secs: i64) -> bool;

/// `chrono::DateTime::parse_from_rfc3339`: whether it accepts `s`; what
/// makes a string acceptable is left to chrono.
#[verifier::external_body]
fn is_rfc3339(s: &str) -> (r: bool)
    ensures
        r == rfc3339_ok(s@),
{
    chrono::DateTime::parse_from_rfc3339(s).is_ok()
}

/// `chrono::DateTime::from_timestamp(secs, 0)`: whether it gives a date;
/// the range it accepts is left to chrono.
#[verifier::external_body]
fn seconds_ok(secs: i64) -> (r: bool)
    ensures
        r == seconds_in_range(secs),
{
    chrono::DateTime::from_timestamp(secs, 0).is_some()
}

/// What a field of an entry holds, as far as the migration cares.
#[derive(Debug)]
pub enum JsonField {
    Missing,
    Str(String),
    /// A number that fits an `i64`.
    Int(i64),
    /// Any other value.
    Other,
}

/// A [`JsonField`] with its string as characters.
pub enum FieldView {
    Missing,
    Str(Seq<char>),
    Int(i64),
    Other,
}

impl View for JsonField {
    type V = FieldView;

    open spec fn view(&self) -> FieldView {
        match self {
            JsonField::Missing => FieldView::Missing,
            JsonField::Str(s) => FieldView::Str(s@),
            JsonField::Int(n) => FieldView::Int(*n),
            JsonField::Other => FieldView::Other,
        }
    }
}

/// A field whose value can give an entry its time stamp.
#[derive(Clone, Copy, Debug, PartialEq, Eq, Structural)]
pub enum TimeField {
    /// `message.timestamp`.
    MessageTimestamp,
    CreatedAt,
    Date,
    Time,
    Ts,
}

/// Where a missing time stamp comes from.
#[derive(Clone, Copy, Debug, PartialEq, Eq, Structural)]
pub enum NewTimestamp {
    /// The RFC 3339 date in this field, converted to UTC.
    Parsed(TimeField),
    /// The value of this field, as it is.
    Copied(TimeField),
    /// The date this many seconds after 1970 began.
    Seconds(i64),
    /// The header's time stamp (the current time when the header has none).
    Header,
}

/// What the migration reads of an entry line that holds a JSON object.
#[derive(Debug)]
pub struct EntryFacts {
    pub id: JsonField,
    pub has_type: bool,
    pub has_message: bool,
    pub has_summary: bool,
    pub has_first_kept_entry_id: bool,
    pub has_model: bool,
    pub has_branch_entry_id: bool,
    pub has_timestamp: bool,
    /// `message.timestamp`, when it is a string.
    pub message_timestamp: Option<String>,
    pub created_at: JsonField,
    pub date: JsonField,
    pub time: JsonField,
    pub ts: JsonField,
    pub parent_id: JsonField,
}

/// What a line after the header is.
#[derive(Debug)]
pub enum LineFacts {
    /// Only whitespace.
    Blank,
    /// Not JSON.
    Malformed,
    /// JSON, but not an object.
    NotObject,
    Entry(EntryFacts),
}

/// Whether a field is an RFC 3339 string.
pub open spec fn rfc_field(f: FieldView) -> bool {
    f matches FieldView::Str(s) && rfc3339_ok(s)
}

fn rfc_field_exec(f: &JsonField) -> (r: bool)
    ensures
        r == rfc_field(f@),
{
    match f {
        JsonField::Str(s) => is_rfc3339(s.as_str()),
        _ => false,
    }
}

/// The time stamp a field already gives as it is: an RFC 3339 string is
/// copied, a whole number of seconds in range becomes a date.
pub open spec fn existing_stamp(f: FieldView, which: TimeField) -> Option<NewTimestamp> {
    match f {
        FieldView::Str(s) => if rfc3339_ok(s) {
            Some(NewTimestamp::Copied(which))
        } else {
            None
        },
        FieldView::Int(n) => if seconds_in_range(n) {
            Some(NewTimestamp::Seconds(n))
        } else {
            None
        },
        _ => None,
    }
}

fn existing_stamp_exec(f: &JsonField, which: TimeField) -> (r: Option<NewTimestamp>)
    ensures
        r == existing_stamp(f@, which),
{
    match f {
        JsonField::Str(s) => {
            if is_rfc3339(s.as_str()) {
                Some(NewTimestamp::Copied(which))
            } else {
                None
            }
        },
        JsonField::Int(n) => {
            if seconds_ok(*n) {
                Some(NewTimestamp::Seconds(*n))
            } else {
                None
            }
        },
        _ => None,
    }
}

/// Where an entry without a time stamp gets one: an RFC 3339 date in
/// `message.timestamp`, `created_at`, `date` or `time` (in that order);
/// else the first of `created_at`, `time`, `date`, `ts` that already holds
/// one; else the header's.
pub open spec fn stamp_source(f: EntryFactsView) -> NewTimestamp {
    if f.message_timestamp matches Some(s) && rfc3339_ok(s) {
        NewTimestamp::Parsed(TimeField::MessageTimestamp)
    } else if rfc_field(f.created_at) {
        NewTimestamp::Parsed(TimeField::CreatedAt)
    } else if rfc_field(f.date) {
        NewTimestamp::Parsed(TimeField::Date)
    } else if rfc_field(f.time) {
        NewTimestamp::Parsed(TimeField::Time)
    } else if let Some(t) = existing_stamp(f.created_at, TimeField::CreatedAt) {
        t
    } else if let Some(t) = existing_stamp(f.time, TimeField::Time) {
        t
    } else if let Some(t) = existing_stamp(f.date, TimeField::Date) {
        t
    } else if let Some(t) = existing_stamp(f.ts, TimeField::Ts) {
        t
    } else {
        NewTimestamp::Header
    }
}

/// [`EntryFacts`] with its strings as characters.
pub struct EntryFactsView {
    pub id: FieldView,
    pub has_type: bool,
    pub has_message: bool,
    pub has_summary: bool,
    pub has_first_kept_entry_id: bool,
    pub has_model: bool,
    pub has_branch_entry_id: bool,
    pub has_timestamp: bool,
    pub message_timestamp: Option<Seq<char>>,
    pub created_at: FieldView,
    pub date: FieldView,
    pub time: FieldView,
    pub ts: FieldView,
    pub parent_id: FieldView,
}

impl View for EntryFacts {
    type V = EntryFactsView;

    open spec fn view(&self) -> EntryFactsView {
        EntryFactsView {
            id: self.id@,
            has_type: self.has_type,
            has_message: self.has_message,
            has_summary: self.has_summary,
            has_first_kept_entry_id: self.has_first_kept_entry_id,
            has_model: self.has_model,
            has_branch_entry_id: self.has_branch_entry_id,
            has_timestamp: self.has_timestamp,
            message_timestamp: crate::paths::opt_str_view(self.message_timestamp),
            created_at: self.created_at@,
            date: self.date@,
            time: self.time@,
            ts: self.ts@,
            parent_id: self.parent_id@,
        }
    }
}

/// [`LineFacts`] with its strings as characters.
pub enum LineFactsView {
    Blank,
    Malformed,
    NotObject,
    Entry(EntryFactsView),
}

impl View for LineFacts {
    type V = LineFactsView;

    open spec fn view(&self) -> LineFactsView {
        match self {
            LineFacts::Blank => LineFactsView::Blank,
            LineFacts::Malformed => LineFactsView::Malformed,
            LineFacts::NotObject => LineFactsView::NotObject,
            LineFacts::Entry(e) => LineFactsView::Entry(e@),
        }
    }
}

fn stamp_source_exec(f: &EntryFacts) -> (r: NewTimestamp)
    ensures
        r == stamp_source(f@),
{
    let msg_ok = match &f.message_timestamp {
        Some(s) => is_rfc3339(s.as_str()),
        None => false,
    };
    if msg_ok {
        NewTimestamp::Parsed(TimeField::MessageTimestamp)
    } else if rfc_field_exec(&f.created_at) {
        NewTimestamp::Parsed(TimeField::CreatedAt)
    } else if rfc_field_exec(&f.date) {
        NewTimestamp::Parsed(TimeField::Date)
    } else if rfc_field_exec(&f.time) {
        NewTimestamp::Parsed(TimeField::Time)
    } else if let Some(t) = existing_stamp_exec(&f.created_at, TimeField::CreatedAt) {
        t
    } else if let Some(t) = existing_stamp_exec(&f.time, TimeField::Time) {
        t
    } else if let Some(t) = existing_stamp_exec(&f.date, TimeField::Date) {
        t
    } else if let Some(t) = existing_stamp_exec(&f.ts, TimeField::Ts) {
        t
    } else {
        NewTimestamp::Header
    }
}

// ---------------------------------------------------------------------------
// Entry lines
// ---------------------------------------------------------------------------

/// The kind an entry without a `type` is taken to be, from its fields.
pub open spec fn inferred_type(f: EntryFactsView) -> Seq<char> {
    if f.has_message {
        "message"@
    } else if f.has_summary && f.has_first_kept_entry_id {
        "compaction"@
    } else if f.has_model {
        "model_change"@
    } else if f.has_branch_entry_id {
        "branch_summary"@
    } else {
        "message"@
    }
}

/// The changes to one entry object.
#[derive(Debug)]
pub struct EntryEdits {
    /// The `type` to add.
    pub set_type: Option<String>,
    /// The `id` to set.
    pub set_id: Option<String>,
    /// Where the missing time stamp comes from.
    pub timestamp: Option<NewTimestamp>,
    /// Whether to add `parent_id: null`.
    pub add_null_parent: bool,
    /// The new `parent_id`, when the parent was re-identified.
    pub set_parent: Option<String>,
}

/// What becomes of a line after the header.
#[derive(Debug)]
pub enum LineMigration {
    /// Written back as it was (a blank line).
    Keep,
    /// Not JSON: kept inside a system-context message entry with this id.
    PreserveMalformed { id: String },
    /// Written back with these changes.
    Edit(EntryEdits),
}

/// [`EntryEdits`] with its strings as characters.
pub struct EditsView {
    pub set_type: Option<Seq<char>>,
    pub set_id: Option<Seq<char>>,
    pub timestamp: Option<NewTimestamp>,
    pub add_null_parent: bool,
    pub set_parent: Option<Seq<char>>,
}

/// [`LineMigration`] with its strings as characters.
pub enum MigrationView {
    Keep,
    PreserveMalformed { id: Seq<char> },
    Edit(EditsView),
}

impl View for LineMigration {
    type V = MigrationView;

    open spec fn view(&self) -> MigrationView {
        match self {
            LineMigration::Keep => MigrationView::Keep,
            LineMigration::PreserveMalformed { id } => MigrationView::PreserveMalformed { id: id@ },
            LineMigration::Edit(e) => MigrationView::Edit(
                EditsView {
                    set_type: crate::paths::opt_str_view(e.set_type),
                    set_id: crate::paths::opt_str_view(e.set_id),
                    timestamp: e.timestamp,
                    add_null_parent: e.add_null_parent,
                    set_parent: crate::paths::opt_str_view(e.set_parent),
                },
            ),
        }
    }
}

/// What the migration remembers from line to line: the ids seen so far and
/// the new ids given to repeated ones (the last given wins).
pub type MigrationState = (Seq<Seq<char>>, Seq<(Seq<char>, Seq<char>)>);

/// One entry line migrated from schema `version` (below 3), with `fresh`
/// the id drawn for this line: the new state and what becomes of the line.
///
/// Under version 0 an entry without `type` is a message. Under versions 0
/// and 1, and for any entry without an `id`, ids are checked: a string id
/// seen before gets the fresh id (and is remembered as re-identified), a
/// new one is remembered, and an entry with no string id gets the fresh
/// id; an entry still without `type` gets one inferred from its fields.
/// Every entry without a time stamp gets one, an entry without `parent_id`
/// gets `null`, and a parent that was re-identified is followed to its new
/// id.
pub open spec fn migrate_step(version: u32, st: MigrationState, line: LineFactsView, fresh: Seq<char>) -> (
    MigrationState,
    MigrationView,
) {
    match line {
        LineFactsView::Blank => (st, MigrationView::Keep),
        LineFactsView::Malformed => (st, MigrationView::PreserveMalformed { id: fresh }),
        LineFactsView::NotObject => (
            st,
            MigrationView::Edit(
                EditsView { set_type: None, set_id: None, timestamp: None, add_null_parent: false, set_parent: None },
            ),
        ),
        LineFactsView::Entry(f) => {
            let v0_type: Option<Seq<char>> = if version == 0 && !f.has_type {
                Some("message"@)
            } else {
                None
            };
            let typed = f.has_type || v0_type is Some;
            let check_ids = version < 2 || f.id is Missing;
            let (st2, set_id): (MigrationState, Option<Seq<char>>) = if !check_ids {
                (st, None)
            } else {
                match f.id {
                    FieldView::Str(s) => if st.0.contains(s) {
                        ((st.0, st.1.push((s, fresh))), Some(fresh))
                    } else {
                        ((st.0.push(s), st.1), None)
                    },
                    _ => (st, Some(fresh)),
                }
            };
            let set_type = if check_ids && !typed {
                Some(inferred_type(f))
            } else {
                v0_type
            };
            let set_parent = match f.parent_id {
                FieldView::Str(p) => remap_lookup(st2.1, p),
                _ => None,
            };
            (
                st2,
                MigrationView::Edit(
                    EditsView {
                        set_type,
                        set_id,
                        timestamp: if f.has_timestamp {
                            None
                        } else {
                            Some(stamp_source(f))
                        },
                        add_null_parent: f.parent_id is Missing,
                        set_parent,
                    },
                ),
            )
        },
    }
}

/// The state after the first `n` lines.
pub open spec fn migrate_state(version: u32, lines: Seq<LineFactsView>, fresh: Seq<Seq<char>>, n: int) -> MigrationState
    decreases n,
{
    if n <= 0 {
        (seq![], seq![])
    } else {
        migrate_step(version, migrate_state(version, lines, fresh, n - 1), lines[n - 1], fresh[n - 1]).0
    }
}

/// What becomes of line `i`.
pub open spec fn migrate_line(version: u32, lines: Seq<LineFactsView>, fresh: Seq<Seq<char>>, i: int) -> MigrationView {
    migrate_step(version, migrate_state(version, lines, fresh, i), lines[i], fresh[i]).1
}

fn contains_id(seen: &Vec<String>, s: &str) -> (r: bool)
    ensures
        r == crate::order::views_of(seen@).contains(s@),
{
    crate::order::contains_str(seen, s)
}

fn lookup_remap(id_remap: &Vec<(String, String)>, k: &str) -> (r: Option<String>)
    ensures
        crate::paths::opt_str_view(r) == remap_lookup(remap_views(id_remap@), k@),
{
    let ghost mv = remap_views(id_remap@);
    let mut i = id_remap.len();
    assert(mv.take(mv.len() as int) =~= mv);
    while i > 0
        invariant
            i <= id_remap@.len(),
            mv == remap_views(id_remap@),
            remap_lookup(mv, k@) == remap_lookup(mv.take(i as int), k@),
        decreases i,
    {
        assert(mv.take(i as int).drop_last() =~= mv.take(i - 1));
        if str_eq(id_remap[i - 1].0.as_str(), k) {
            return Some(id_remap[i - 1].1.as_str().to_string());
        }
        i -= 1;
    }
    None
}

fn inferred_type_exec(f: &EntryFacts) -> (r: String)
    ensures
        r@ == inferred_type(f@),
{
    if f.has_message {
        "message".to_string()
    } else if f.has_summary && f.has_first_kept_entry_id {
        "compaction".to_string()
    } else if f.has_model {
        "model_change".to_string()
    } else if f.has_branch_entry_id {
        "branch_summary".to_string()
    } else {
        "message".to_string()
    }
}

/// Decides what becomes of each line after the header of a session file
/// written under schema `version` (below 3); `fresh_ids` holds one newly
/// drawn id per line.
pub fn migrate_entries(version: u32, lines: &Vec<LineFacts>, fresh_ids: &Vec<String>) -> (r: Vec<LineMigration>)
    requires
        version < 3,
        fresh_ids@.len() == lines@.len(),
    ensures
        r@.len() == lines@.len(),
        forall|i: int|
            0 <= i < r@.len() ==> (#[trigger] r@[i])@ == migrate_line(
                version,
                lines@.map_values(|l: LineFacts| l@),
                fresh_ids@.map_values(|s: String| s@),
                i,
            ),
{
    let ghost lv = lines@.map_values(|l: LineFacts| l@);
    let ghost fv = fresh_ids@.map_values(|s: String| s@);
    let mut seen: Vec<String> = Vec::new();
    let mut id_remap: Vec<(String, String)> = Vec::new();
    let mut out: Vec<LineMigration> = Vec::new();
    let mut i: usize = 0;
    while i < lines.len()
        invariant
            i <= lines@.len(),
            fresh_ids@.len() == lines@.len(),
            lv == lines@.map_values(|l: LineFacts| l@),
            fv == fresh_ids@.map_values(|s: String| s@),
            (crate::order::views_of(seen@), remap_views(id_remap@)) == migrate_state(version, lv, fv, i as int),
            out@.len() == i,
            forall|j: int| 0 <= j < i ==> (#[trigger] out@[j])@ == migrate_line(version, lv, fv, j),
        decreases lines.len() - i,
    {
        let fresh = fresh_ids[i].as_str();
        let ghost st = migrate_state(version, lv, fv, i as int);
        let action = match &lines[i] {
            LineFacts::Blank => LineMigration::Keep,
            LineFacts::Malformed => LineMigration::PreserveMalformed { id: fresh.to_string() },
            LineFacts::NotObject => LineMigration::Edit(
                EntryEdits { set_type: None, set_id: None, timestamp: None, add_null_parent: false, set_parent: None },
            ),
            LineFacts::Entry(f) => {
                let v0_type: Option<String> = if version == 0 && !f.has_type {
                    Some("message".to_string())
                } else {
                    None
                };
                let typed = f.has_type || v0_type.is_some();
                let id_missing = match &f.id {
                    JsonField::Missing => true,
                    _ => false,
                };
                let check_ids = version < 2 || id_missing;
                let mut set_id: Option<String> = None;
                if check_ids {
                    match &f.id {
                        JsonField::Str(s) => {
                            if contains_id(&seen, s.as_str()) {
                                let ghost before = remap_views(id_remap@);
                                id_remap.push((s.as_str().to_string(), fresh.to_string()));
                                assert(remap_views(id_remap@) =~= before.push((s@, fresh@)));
                                set_id = Some(fresh.to_string());
                            } else {
                                let ghost before = crate::order::views_of(seen@);
                                seen.push(s.as_str().to_string());
                                assert(crate::order::views_of(seen@) =~= before.push(s@));
                            }
                        },
                        _ => {
                            set_id = Some(fresh.to_string());
                        },
                    }
                }
                let set_type = if check_ids && !typed {
                    Some(inferred_type_exec(f))
                } else {
                    v0_type
                };
                let set_parent = match &f.parent_id {
                    JsonField::Str(p) => lookup_remap(&id_remap, p.as_str()),
                    _ => None,
                };
                let timestamp = if f.has_timestamp {
                    None
                } else {
                    Some(stamp_source_exec(f))
                };
                let add_null_parent = match &f.parent_id {
                    JsonField::Missing => true,
                    _ => false,
                };
                LineMigration::Edit(EntryEdits { set_type, set_id, timestamp, add_null_parent, set_parent })
            },
        };
        proof {
            assert((crate::order::views_of(seen@), remap_views(id_remap@)) == migrate_step(version, st, lv[i as int], fv[i as int]).0);
            assert(action@ == migrate_step(version, st, lv[i as int], fv[i as int]).1);
        }
        out.push(action);
        i += 1;
    }
    out
}

/// After migration every entry object has a time stamp and a `parent_id`
/// field; entries whose ids were checked end up with a string id; and
/// under versions 0 and 1 every entry has a `type`.
pub proof fn migrated_entries_complete(version: u32, st: MigrationState, f: EntryFactsView, fresh: Seq<char>)
    requires
        version < 3,
    ensures
        migrate_step(version, st, LineFactsView::Entry(f), fresh).1 matches MigrationView::Edit(e) && {
            &&& (e.timestamp is Some || f.has_timestamp)
            &&& (e.add_null_parent || !(f.parent_id is Missing))
            &&& ((version < 2 || f.id is Missing) ==> (e.set_id is Some || f.id is Str))
            &&& (version < 2 ==> (e.set_type is Some || f.has_type))
        },
{
}

/// An entry without `type` is typed by its fields, where the migration
/// types it (schema 1, or an entry without an id under schema 2): one with
/// a message is a `message`; one without a message that has both a summary
/// and a first kept entry id is a `compaction`; else one with a model is a
/// `model_change`; else one with a branch entry id is a `branch_summary`;
/// anything else is a `message`.
pub proof fn untyped_entry_kind(version: u32, st: MigrationState, f: EntryFactsView, fresh: Seq<char>)
    requires
        1 <= version < 3,
        !f.has_type,
        version < 2 || f.id is Missing,
    ensures
        migrate_step(version, st, LineFactsView::Entry(f), fresh).1 matches MigrationView::Edit(e) && {
            &&& f.has_message ==> e.set_type == Some("message"@)
            &&& !f.has_message && f.has_summary && f.has_first_kept_entry_id ==> e.set_type == Some(
                "compaction"@,
            )
            &&& !f.has_message && !(f.has_summary && f.has_first_kept_entry_id) && f.has_model
                ==> e.set_type == Some("model_change"@)
            &&& !f.has_message && !(f.has_summary && f.has_first_kept_entry_id) && !f.has_model
                && f.has_branch_entry_id ==> e.set_type == Some("branch_summary"@)
            &&& !f.has_message && !(f.has_summary && f.has_first_kept_entry_id) && !f.has_model
                && !f.has_branch_entry_id ==> e.set_type == Some("message"@)
        },
{
}

/// An entry without `type` and without a message that carries both a
/// summary and a first kept entry id is given the type `compaction`
/// wherever the migration types it, whatever else it holds.
pub proof fn untyped_summary_is_compaction(
    version: u32,
    lines: Seq<LineFactsView>,
    fresh: Seq<Seq<char>>,
    i: int,
    f: EntryFactsView,
)
    requires
        1 <= version < 3,
        0 <= i < lines.len(),
        lines[i] == LineFactsView::Entry(f),
        !f.has_type,
        version < 2 || f.id is Missing,
        !f.has_message,
        f.has_summary,
        f.has_first_kept_entry_id,
    ensures
        migrate_line(version, lines, fresh, i) matches MigrationView::Edit(e) && e.set_type == Some(
            "compaction"@,
        ),
{
    untyped_entry_kind(version, migrate_state(version, lines, fresh, i), f, fresh[i]);
}

// ---------------------------------------------------------------------------
// The header
// ---------------------------------------------------------------------------

/// The schema version a header states: its `version` when that is a whole
/// number (cut to 32 bits), 0 otherwise.
pub open spec fn stated_version(version: Option<u64>) -> u32 {
    match version {
        Some(v) => (v % 0x1_0000_0000) as u32,
        None => 0,
    }
}

/// The schema version session files are written in.
pub const CURRENT_VERSION: u32 = 3;

/// Whether a file written under schema `version` is migrated: only files
/// older than the current schema are.
pub fn needs_migration(version: u32) -> (r: bool)
    ensures
        r == (version < CURRENT_VERSION),
{
    version < CURRENT_VERSION
}

/// The schema version a header states.
pub fn header_version(version: Option<u64>) -> (r: u32)
    ensures
        r == stated_version(version),
{
    match version {
        Some(v) => (v % 0x1_0000_0000) as u32,
        None => 0,
    }
}

/// The part of a header line that may be JSON: from its first `{` to its
/// last `}`; none when it lacks either.
pub open spec fn json_candidate(line: Seq<char>) -> Option<Seq<char>> {
    match (find_char(line, '{'), last_char(line, '}')) {
        (Some(s), Some(e)) => Some(line.subrange(s as int, e as int + 1)),
        _ => None,
    }
}

/// The index of the last `c` in `s`.
pub open spec fn last_char(s: Seq<char>, c: char) -> Option<nat>
    decreases s.len(),
{
    if s.len() == 0 {
        None
    } else if s.last() == c {
        Some((s.len() - 1) as nat)
    } else {
        last_char(s.drop_last(), c)
    }
}

/// Whether the candidate can be cut out: a `}` before the first `{` would
/// make the cut run backwards (except when they are next to each other).
pub open spec fn candidate_cuttable(line: Seq<char>) -> bool {
    match (find_char(line, '{'), last_char(line, '}')) {
        (Some(s), Some(e)) => s <= e + 1,
        _ => true,
    }
}

/// Whether the part of a header line that may be JSON can be cut out.
pub fn header_candidate_cuttable(line: &str) -> (r: bool)
    ensures
        r == candidate_cuttable(line@),
{
    let c = chars_of(line);
    let s = match find_char_exec(c.as_slice(), '{') {
        Some(s) => s,
        None => return true,
    };
    let mut e = c.len();
    assert(c@.take(c@.len() as int) =~= c@);
    while e > 0
        invariant
            e <= c@.len(),
            c@ == line@,
            find_char(c@, '{') == Some(s as nat),
            last_char(c@, '}') == last_char(c@.take(e as int), '}'),
        decreases e,
    {
        assert(c@.take(e as int).drop_last() =~= c@.take(e - 1));
        if c[e - 1] == '}' {
            assert(c@.take(e as int).last() == '}');
            assert(last_char(c@, '}') == Some((e - 1) as nat));
            return s <= e;
        }
        e -= 1;
    }
    true
}

/// Cuts out the part of a header line that may be JSON.
pub fn header_json_candidate(line: &str) -> (r: Option<String>)
    requires
        candidate_cuttable(line@),
    ensures
        crate::paths::opt_str_view(r) == json_candidate(line@),
{
    let c = chars_of(line);
    let s = match find_char_exec(c.as_slice(), '{') {
        Some(s) => s,
        None => return None,
    };
    let mut e = c.len();
    assert(c@.take(c@.len() as int) =~= c@);
    while e > 0
        invariant
            e <= c@.len(),
            c@ == line@,
            candidate_cuttable(line@),
            find_char(c@, '{') == Some(s as nat),
            s < c@.len(),
            last_char(c@, '}') == last_char(c@.take(e as int), '}'),
        decreases e,
    {
        assert(c@.take(e as int).drop_last() =~= c@.take(e - 1));
        if c[e - 1] == '}' {
            proof {
                assert(c@.take(e as int).last() == '}');
                assert(last_char(c@, '}') == Some((e - 1) as nat));
                assert(s <= e);
            }
            let part = slice_chars(c.as_slice(), s, e);
            return Some(string_of(part.as_slice()));
        }
        e -= 1;
    }
    None
}

/// The fields a migrated header gains when it lacks them.
#[derive(Clone, Copy, Debug, PartialEq, Eq, Structural)]
pub struct HeaderEdits {
    /// `type: "session"`.
    pub add_type: bool,
    /// A freshly drawn `id`.
    pub add_id: bool,
    /// The current time as `timestamp`.
    pub add_timestamp: bool,
    /// `cwd: "."`.
    pub add_cwd: bool,
}

/// What a migrated header gains (its `version` becomes 3 in any case).
pub fn migrate_header(has_type: bool, has_id: bool, has_timestamp: bool, has_cwd: bool) -> (r: HeaderEdits)
    ensures
        r == (HeaderEdits { add_type: !has_type, add_id: !has_id, add_timestamp: !has_timestamp, add_cwd: !has_cwd }),
{
    HeaderEdits { add_type: !has_type, add_id: !has_id, add_timestamp: !has_timestamp, add_cwd: !has_cwd }
}

/// Whether a line is blank (only whitespace): such lines are kept as they are.
pub fn is_blank_line(line: &str) -> (r: bool)
    ensures
        r == all_ws(line@),
{
    crate::text::all_ws_exec(chars_of(line).as_slice())
}

} // verus!
