//! Parsing and application of unified diffs (the `edit` tool's diff mode).

use vstd::prelude::*;
use crate::text::{
    chars_of, concat, debug_quote, debug_str, decimal, extend_chars, extend_str, find_char,
    find_char_exec, has_prefix, lines, parse_usize, parse_usize_exec, push_decimal, slice_chars,
    split_lines, split_ws, string_of, trim_end_char, trim_end_char_exec, trim_start_char,
    trim_start_char_exec, ws_tokens, chars_eq, starts_with,
};

verus! {

broadcast use vstd::string::group_string_axioms;

/// Summary of changes made when applying a diff.
#[derive(Debug, PartialEq, Eq, Structural)]
pub struct DiffSummary {
    pub lines_added: usize,
    pub lines_removed: usize,
    pub hunks_applied: usize,
}

/// The role of one line inside a hunk.
#[derive(Debug, Clone, Copy, PartialEq, Eq, Structural)]
pub enum HunkLineKind {
    Context,
    Remove,
    Add,
}

/// One line of a hunk: its role and its text without the leading marker.
pub struct HunkLine {
    pub kind: HunkLineKind,
    pub content: Vec<char>,
}

/// A parsed hunk: the 1-based start line and the line count it declares
/// for the old file, and its lines.
pub struct Hunk {
    pub old_start: usize,
    pub old_count: usize,
    pub lines: Vec<HunkLine>,
}

/// The mathematical content of a hunk.
pub struct HunkModel {
    pub old_start: nat,
    pub old_count: nat,
    pub lines: Seq<(HunkLineKind, Seq<char>)>,
}

impl Hunk {
    pub open spec fn model(&self) -> HunkModel {
        HunkModel {
            old_start: self.old_start as nat,
            old_count: self.old_count as nat,
            lines: self.lines@.map_values(|l: HunkLine| (l.kind, l.content@)),
        }
    }
}

/// The model of an optional hunk.
pub open spec fn opt_model(c: Option<Hunk>) -> Option<HunkModel> {
    match c {
        None => None,
        Some(h) => Some(h.model()),
    }
}

/// The models of a vector of hunks.
pub open spec fn hunk_models(hs: Seq<Hunk>) -> Seq<HunkModel> {
    hs.map_values(|h: Hunk| h.model())
}

// ---------------------------------------------------------------------------
// Specification
// ---------------------------------------------------------------------------

/// Splits text into lines that keep their `\n` terminator; a final piece
/// without `\n` is kept if it is not empty.
pub open spec fn keep_term_from(s: Seq<char>, i: int, cur: Seq<char>) -> Seq<Seq<char>>
    decreases s.len() - i,
{
    if i >= s.len() {
        if cur.len() == 0 {
            seq![]
        } else {
            seq![cur]
        }
    } else if s[i] == '\n' {
        seq![cur.push('\n')] + keep_term_from(s, i + 1, seq![])
    } else {
        keep_term_from(s, i + 1, cur.push(s[i]))
    }
}

/// The lines of `s` with their terminators kept.
pub open spec fn keep_term_lines(s: Seq<char>) -> Seq<Seq<char>> {
    keep_term_from(s, 0, seq![])
}

/// A line without its trailing `\n`s and then its trailing `\r`s.
pub open spec fn strip_terminator(l: Seq<char>) -> Seq<char> {
    trim_end_char(trim_end_char(l, '\n'), '\r')
}

/// The role of a diff line inside a hunk, from its first character.
pub open spec fn line_kind(l: Seq<char>) -> Option<HunkLineKind> {
    if l.len() > 0 && l[0] == '+' {
        Some(HunkLineKind::Add)
    } else if l.len() > 0 && l[0] == '-' {
        Some(HunkLineKind::Remove)
    } else if l.len() > 0 && l[0] == ' ' {
        Some(HunkLineKind::Context)
    } else {
        None
    }
}

/// The number of context and remove lines.
pub open spec fn count_old(ls: Seq<(HunkLineKind, Seq<char>)>) -> nat
    decreases ls.len(),
{
    if ls.len() == 0 {
        0
    } else {
        count_old(ls.drop_last()) + if ls.last().0 == HunkLineKind::Add {
            0nat
        } else {
            1nat
        }
    }
}

/// The number of lines of the given kind.
pub open spec fn count_kind(ls: Seq<(HunkLineKind, Seq<char>)>, k: HunkLineKind) -> nat
    decreases ls.len(),
{
    if ls.len() == 0 {
        0
    } else {
        (if ls[0].0 == k {
            1nat
        } else {
            0nat
        }) + count_kind(ls.skip(1), k)
    }
}

/// The number of lines of the given kind over all hunks.
pub open spec fn total_kind(hs: Seq<HunkModel>, k: HunkLineKind) -> nat
    decreases hs.len(),
{
    if hs.len() == 0 {
        0
    } else {
        count_kind(hs[0].lines, k) + total_kind(hs.skip(1), k)
    }
}

/// The error a hunk fails validation with, if any: a hunk that declares a
/// non-zero old line count must have exactly that many context and remove
/// lines.
pub open spec fn validate_spec(h: HunkModel) -> Option<Seq<char>> {
    if h.old_count > 0 && count_old(h.lines) != h.old_count {
        Some(
            "hunk at old line "@ + decimal(h.old_start) + " declares old_count="@ + decimal(
                h.old_count,
            ) + " but has "@ + decimal(count_old(h.lines)) + " context/remove lines"@,
        )
    } else {
        None
    }
}

/// The index of the first token at or after `i` that starts with `-`.
pub open spec fn first_dash_from(toks: Seq<Seq<char>>, i: nat) -> Option<nat>
    decreases toks.len() - i,
{
    if i >= toks.len() {
        None
    } else if toks[i as int].len() > 0 && toks[i as int][0] == '-' {
        Some(i)
    } else {
        first_dash_from(toks, i + 1)
    }
}

/// The error for a malformed hunk header.
pub open spec fn header_error(line: Seq<char>) -> Seq<char> {
    "malformed hunk header: "@ + debug_str(line)
}

/// `(old_start, old_count)` from `@@ -a[,b] +c[,d] @@`: the first
/// whitespace-separated token starting with `-` after the leading `@`s,
/// without its `-`s, split at its first comma; a missing count is 1.
pub open spec fn header_spec(line: Seq<char>) -> Result<(nat, nat), Seq<char>> {
    let toks = ws_tokens(trim_start_char(trim_start_char(line, '@'), ' '));
    match first_dash_from(toks, 0) {
        None => Err(header_error(line)),
        Some(k) => {
            let o = trim_start_char(toks[k as int], '-');
            match find_char(o, ',') {
                Some(c) => match (parse_usize(o.take(c as int)), parse_usize(o.skip(c as int + 1))) {
                    (Some(a), Some(b)) => Ok((a, b)),
                    _ => Err(header_error(line)),
                },
                None => match parse_usize(o) {
                    Some(a) => Ok((a, 1)),
                    None => Err(header_error(line)),
                },
            }
        },
    }
}

/// The hunks of `ls[i..]`, given the hunks `done` already finished and the
/// hunk `cur` being read.  Lines before the first `@@` header are ignored,
/// as are lines inside a hunk that start with none of ` `, `-`, `+`.
pub open spec fn parse_from(
    ls: Seq<Seq<char>>,
    i: int,
    done: Seq<HunkModel>,
    cur: Option<HunkModel>,
) -> Result<Seq<HunkModel>, Seq<char>>
    decreases ls.len() - i,
{
    if i >= ls.len() {
        match cur {
            None => Ok(done),
            Some(h) => match validate_spec(h) {
                Some(e) => Err(e),
                None => Ok(done.push(h)),
            },
        }
    } else {
        let l = ls[i];
        if has_prefix(l, "@@"@) {
            let checked = match cur {
                None => None,
                Some(h) => validate_spec(h),
            };
            match checked {
                Some(e) => Err(e),
                None => {
                    let done2 = match cur {
                        None => done,
                        Some(h) => done.push(h),
                    };
                    match header_spec(l) {
                        Err(e) => Err(e),
                        Ok((s, c)) => parse_from(
                            ls,
                            i + 1,
                            done2,
                            Some(HunkModel { old_start: s, old_count: c, lines: seq![] }),
                        ),
                    }
                },
            }
        } else {
            match cur {
                None => parse_from(ls, i + 1, done, None),
                Some(h) => match line_kind(l) {
                    None => parse_from(ls, i + 1, done, Some(h)),
                    Some(k) => parse_from(
                        ls,
                        i + 1,
                        done,
                        Some(
                            HunkModel {
                                old_start: h.old_start,
                                old_count: h.old_count,
                                lines: h.lines.push((k, l.skip(1))),
                            },
                        ),
                    ),
                },
            }
        }
    }
}

/// The hunks of a unified diff, or the first error met.
pub open spec fn parse_hunks_spec(diff: Seq<char>) -> Result<Seq<HunkModel>, Seq<char>> {
    parse_from(lines(diff), 0, seq![], None)
}

/// The text an added line contributes: its content and a `\n`, unless the
/// content already ends with `\n` or `\r`.
pub open spec fn added_text(c: Seq<char>) -> Seq<char> {
    if c.len() > 0 && (c.last() == '\n' || c.last() == '\r') {
        c
    } else {
        c.push('\n')
    }
}

/// The state while a diff is applied: position in the old file, output so
/// far, lines added and lines removed.
pub type ApplyState = (nat, Seq<char>, nat, nat);

/// Applies the lines `hl[j..]` of one hunk.
pub open spec fn apply_lines(
    orig: Seq<Seq<char>>,
    hl: Seq<(HunkLineKind, Seq<char>)>,
    j: int,
    st: ApplyState,
) -> Result<ApplyState, Seq<char>>
    decreases hl.len() - j,
{
    if j >= hl.len() || j < 0 {
        Ok(st)
    } else {
        let (pos, out, a, r) = st;
        let (k, c) = hl[j];
        match k {
            HunkLineKind::Add => apply_lines(orig, hl, j + 1, (pos, out + added_text(c), a + 1, r)),
            HunkLineKind::Context => if pos >= orig.len() {
                Err("context mismatch: expected "@ + debug_str(c) + " but reached end of file"@)
            } else if strip_terminator(orig[pos as int]) != c {
                Err(
                    "context mismatch at original line "@ + decimal(pos + 1) + ": expected "@
                        + debug_str(c) + ", got "@ + debug_str(strip_terminator(orig[pos as int])),
                )
            } else {
                apply_lines(orig, hl, j + 1, (pos + 1, out + orig[pos as int], a, r))
            },
            HunkLineKind::Remove => if pos >= orig.len() {
                Err("remove mismatch: expected "@ + debug_str(c) + " but reached end of file"@)
            } else if strip_terminator(orig[pos as int]) != c {
                Err(
                    "remove mismatch at original line "@ + decimal(pos + 1) + ": expected "@
                        + debug_str(c) + ", got "@ + debug_str(strip_terminator(orig[pos as int])),
                )
            } else {
                apply_lines(orig, hl, j + 1, (pos + 1, out, a, r + 1))
            },
        }
    }
}

/// Applies hunks `hs[i..]` from state `st`, having applied `n` hunks; the
/// old lines no hunk covers are copied unchanged.
pub open spec fn apply_hunks(
    orig: Seq<Seq<char>>,
    hs: Seq<HunkModel>,
    i: int,
    st: ApplyState,
    n: nat,
) -> Result<(Seq<char>, (nat, nat, nat)), Seq<char>>
    decreases hs.len() - i,
{
    let (pos, out, a, r) = st;
    if i >= hs.len() || i < 0 || pos > orig.len() {
        Ok((out + concat(orig.subrange(pos as int, orig.len() as int)), (a, r, n)))
    } else {
        let h = hs[i];
        let until: nat = if h.old_start >= 1 {
            (h.old_start - 1) as nat
        } else {
            0
        };
        if until > pos && until > orig.len() {
            Err(
                "hunk at old line "@ + decimal(h.old_start) + " references line "@ + decimal(
                    orig.len() + 1,
                ) + " which is past end of file ("@ + decimal(orig.len()) + " lines)"@,
            )
        } else {
            let pos1 = if until > pos {
                until
            } else {
                pos
            };
            let out1 = out + concat(orig.subrange(pos as int, pos1 as int));
            match apply_lines(orig, h.lines, 0, (pos1, out1, a, r)) {
                Err(e) => Err(e),
                Ok(st2) => apply_hunks(orig, hs, i + 1, st2, n + 1),
            }
        }
    }
}

/// What `apply_unified_diff` returns: the new text and the counts of added
/// lines, removed lines and applied hunks, or an error message.
pub open spec fn apply_diff_spec(original: Seq<char>, diff: Seq<char>) -> Result<
    (Seq<char>, (nat, nat, nat)),
    Seq<char>,
> {
    match parse_hunks_spec(diff) {
        Err(e) => Err(e),
        Ok(hs) => if hs.len() == 0 {
            Err("diff contains no hunks"@)
        } else {
            apply_hunks(keep_term_lines(original), hs, 0, (0, seq![], 0, 0), 0)
        },
    }
}

// ---------------------------------------------------------------------------
// Implementation
// ---------------------------------------------------------------------------

/// Split text into lines while keeping the `\n` terminator attached to each
/// element so the file can be reconstructed exactly.
fn split_lines_keep_terminator(s: &[char]) -> (out: Vec<Vec<char>>)
    ensures
        out@.map_values(|l: Vec<char>| l@) == keep_term_lines(s@),
{
    let mut out: Vec<Vec<char>> = Vec::new();
    let mut cur: Vec<char> = Vec::new();
    let mut i: usize = 0;
    while i < s.len()
        invariant
            i <= s@.len(),
            out@.map_values(|l: Vec<char>| l@) + keep_term_from(s@, i as int, cur@) == keep_term_lines(
                s@,
            ),
        decreases s.len() - i,
    {
        let c = s[i];
        cur.push(c);
        if c == '\n' {
            let ghost old_out = out@.map_values(|l: Vec<char>| l@);
            out.push(cur);
            assert(out@.map_values(|l: Vec<char>| l@) =~= old_out.push(cur@));
            assert(old_out.push(cur@) + keep_term_from(s@, i + 1, seq![]) =~= old_out + (seq![cur@]
                + keep_term_from(s@, i + 1, seq![])));
            cur = Vec::new();
            assert(cur@ =~= seq![]);
        }
        i += 1;
    }
    let ghost old_out = out@.map_values(|l: Vec<char>| l@);
    if cur.len() > 0 {
        out.push(cur);
        assert(out@.map_values(|l: Vec<char>| l@) =~= old_out.push(cur@));
        assert(old_out + seq![cur@] =~= old_out.push(cur@));
    } else {
        assert(old_out + seq![] =~= old_out);
    }
    out
}

/// The text of a line without its trailing terminators.
fn strip_terminator_exec(l: &[char]) -> (r: Vec<char>)
    ensures
        r@ == strip_terminator(l@),
{
    let a = trim_end_char_exec(l, '\n');
    trim_end_char_exec(a.as_slice(), '\r')
}

fn header_error_exec(line: &[char]) -> (e: Vec<char>)
    ensures
        e@ == header_error(line@),
{
    let mut e: Vec<char> = Vec::new();
    extend_str(&mut e, "malformed hunk header: ");
    let q = debug_quote(line);
    extend_chars(&mut e, q.as_slice());
    e
}

/// The index of the first token that starts with `-`.
fn first_dash(toks: &Vec<Vec<char>>, Ghost(tv): Ghost<Seq<Seq<char>>>) -> (r: Option<usize>)
    requires
        toks@.len() == tv.len(),
        forall|m: int| 0 <= m < toks@.len() ==> #[trigger] toks@[m]@ == tv[m],
    ensures
        r matches Some(k) ==> first_dash_from(tv, 0) == Some(k as nat) && k < tv.len(),
        r is None ==> first_dash_from(tv, 0) is None,
{
    let mut k: usize = 0;
    while k < toks.len()
        invariant
            k <= toks@.len(),
            toks@.len() == tv.len(),
            forall|m: int| 0 <= m < toks@.len() ==> #[trigger] toks@[m]@ == tv[m],
            first_dash_from(tv, 0) == first_dash_from(tv, k as nat),
        decreases toks.len() - k,
    {
        if toks[k].len() > 0 && toks[k][0] == '-' {
            assert(toks@[k as int]@ == tv[k as int]);
            return Some(k);
        }
        assert(toks@[k as int]@ == tv[k as int]);
        k += 1;
    }
    None
}

/// Parse the `@@ -old_start[,old_count] +new_start[,new_count] @@` header.
fn parse_hunk_header(line: &[char]) -> (r: Result<(usize, usize), Vec<char>>)
    ensures
        match r {
            Ok((a, b)) => header_spec(line@) == Ok::<(nat, nat), Seq<char>>((a as nat, b as nat)),
            Err(e) => header_spec(line@) == Err::<(nat, nat), Seq<char>>(e@),
        },
{
    let t1 = trim_start_char_exec(line, '@');
    let t2 = trim_start_char_exec(t1.as_slice(), ' ');
    let toks = split_ws(t2.as_slice());
    let ghost tv = ws_tokens(trim_start_char(trim_start_char(line@, '@'), ' '));
    let k = match first_dash(&toks, Ghost(tv)) {
        None => return Err(header_error_exec(line)),
        Some(k) => k,
    };
    let o = trim_start_char_exec(toks[k].as_slice(), '-');
    match find_char_exec(o.as_slice(), ',') {
        Some(c) => {
            let first = slice_chars(o.as_slice(), 0, c);
            let second = slice_chars(o.as_slice(), c + 1, o.len());
            assert(first@ =~= o@.take(c as int));
            assert(second@ =~= o@.skip(c + 1));
            match (parse_usize_exec(first.as_slice()), parse_usize_exec(second.as_slice())) {
                (Some(a), Some(b)) => Ok((a, b)),
                _ => Err(header_error_exec(line)),
            }
        },
        None => match parse_usize_exec(o.as_slice()) {
            Some(a) => Ok((a, 1)),
            None => Err(header_error_exec(line)),
        },
    }
}

/// The number of context and remove lines of a hunk.
fn count_old_exec(h: &Hunk) -> (n: usize)
    ensures
        n == count_old(h.model().lines),
{
    let ghost ls = h.model().lines;
    let mut n: usize = 0;
    let mut i: usize = 0;
    while i < h.lines.len()
        invariant
            i <= h.lines@.len(),
            ls == h.model().lines,
            n == count_old(ls.take(i as int)),
            n <= i,
        decreases h.lines.len() - i,
    {
        assert(ls.take(i + 1).drop_last() =~= ls.take(i as int));
        if h.lines[i].kind != HunkLineKind::Add {
            n += 1;
        }
        i += 1;
    }
    assert(ls.take(h.lines@.len() as int) =~= ls);
    n
}

/// A hunk that declares a non-zero old count must have that many context
/// and remove lines.
fn validate_hunk(h: &Hunk) -> (r: Result<(), Vec<char>>)
    ensures
        match r {
            Ok(()) => validate_spec(h.model()) is None,
            Err(e) => validate_spec(h.model()) == Some(e@),
        },
{
    let actual_old = count_old_exec(h);
    if h.old_count > 0 && actual_old != h.old_count {
        let mut e: Vec<char> = Vec::new();
        extend_str(&mut e, "hunk at old line ");
        push_decimal(&mut e, h.old_start);
        extend_str(&mut e, " declares old_count=");
        push_decimal(&mut e, h.old_count);
        extend_str(&mut e, " but has ");
        push_decimal(&mut e, actual_old);
        extend_str(&mut e, " context/remove lines");
        return Err(e);
    }
    Ok(())
}

/// The total number of lines of a sequence of hunks.
pub open spec fn total_lines(hs: Seq<HunkModel>) -> nat
    decreases hs.len(),
{
    if hs.len() == 0 {
        0
    } else {
        total_lines(hs.drop_last()) + hs.last().lines.len()
    }
}

proof fn lemma_total_lines_prefix(hs: Seq<HunkModel>, i: int)
    requires
        0 <= i <= hs.len(),
    ensures
        total_lines(hs.take(i)) <= total_lines(hs),
    decreases hs.len() - i,
{
    if i < hs.len() {
        lemma_total_lines_prefix(hs, i + 1);
        assert(hs.take(i + 1).drop_last() =~= hs.take(i));
    } else {
        assert(hs.take(i) =~= hs);
    }
}

/// Parse all hunks out of a unified diff.
fn parse_hunks(diff: &[char]) -> (r: Result<Vec<Hunk>, Vec<char>>)
    ensures
        match r {
            Ok(hs) => parse_hunks_spec(diff@) == Ok::<Seq<HunkModel>, Seq<char>>(hunk_models(hs@))
                && total_lines(hunk_models(hs@)) <= usize::MAX,
            Err(e) => parse_hunks_spec(diff@) == Err::<Seq<HunkModel>, Seq<char>>(e@),
        },
{
    let ls = split_lines(diff);
    let ghost lv = lines(diff@);
    let mut hunks: Vec<Hunk> = Vec::new();
    let mut current: Option<Hunk> = None;
    let mut i: usize = 0;
    let at: Vec<char> = vec!['@', '@'];
    proof {
        reveal_strlit("@@");
        assert(at@ =~= "@@"@);
        assert(hunk_models(hunks@) =~= Seq::<HunkModel>::empty());
    }
    while i < ls.len()
        invariant
            i <= ls@.len(),
            ls@.len() == lv.len(),
            lv == lines(diff@),
            at@ == "@@"@,
            forall|m: int| 0 <= m < ls@.len() ==> #[trigger] ls@[m]@ == lv[m],
            parse_from(lv, i as int, hunk_models(hunks@), opt_model(current))
                == parse_from(lv, 0, seq![], None),
            total_lines(hunk_models(hunks@)) + match current {
                None => 0nat,
                Some(h) => h.lines@.len(),
            } <= i,
        decreases ls.len() - i,
    {
        let raw = &ls[i];
        let ghost l = lv[i as int];
        if starts_with(raw.as_slice(), at.as_slice()) {
            let ghost old_models = hunk_models(hunks@);
            match current.take() {
                Some(h) => {
                    match validate_hunk(&h) {
                        Err(e) => return Err(e),
                        Ok(()) => {},
                    }
                    hunks.push(h);
                    assert(hunk_models(hunks@) =~= old_models.push(h.model()));
                    assert(old_models.push(h.model()).drop_last() =~= old_models);
                },
                None => {},
            }
            match parse_hunk_header(raw.as_slice()) {
                Err(e) => return Err(e),
                Ok((s, c)) => {
                    let empty: Vec<HunkLine> = Vec::new();
                    assert(empty@.map_values(|l: HunkLine| (l.kind, l.content@))
                        =~= Seq::<(HunkLineKind, Seq<char>)>::empty());
                    current = Some(Hunk { old_start: s, old_count: c, lines: empty });
                },
            }
        } else {
            match current.take() {
                None => {},
                Some(mut h) => {
                    let ghost hm = h.model();
                    let kind = if raw.len() > 0 && raw[0] == '+' {
                        Some(HunkLineKind::Add)
                    } else if raw.len() > 0 && raw[0] == '-' {
                        Some(HunkLineKind::Remove)
                    } else if raw.len() > 0 && raw[0] == ' ' {
                        Some(HunkLineKind::Context)
                    } else {
                        None
                    };
                    match kind {
                        None => {},
                        Some(k) => {
                            let content = slice_chars(raw.as_slice(), 1, raw.len());
                            assert(content@ =~= l.skip(1));
                            h.lines.push(HunkLine { kind: k, content });
                            assert(h.model().lines =~= hm.lines.push((k, l.skip(1))));
                        },
                    }
                    current = Some(h);
                },
            }
        }
        i += 1;
    }
    match current.take() {
        Some(h) => {
            let ghost old_models = hunk_models(hunks@);
            match validate_hunk(&h) {
                Err(e) => return Err(e),
                Ok(()) => {},
            }
            hunks.push(h);
            assert(hunk_models(hunks@) =~= old_models.push(h.model()));
            assert(old_models.push(h.model()).drop_last() =~= old_models);
        },
        None => {},
    }
    Ok(hunks)
}

/// Copies `orig[from..to]` onto the output.
fn copy_lines(orig: &Vec<Vec<char>>, from: usize, to: usize, out: &mut Vec<char>)
    requires
        from <= to <= orig@.len(),
    ensures
        final(out)@ == old(out)@ + concat(
            orig@.map_values(|l: Vec<char>| l@).subrange(from as int, to as int),
        ),
{
    let ghost ov = orig@.map_values(|l: Vec<char>| l@);
    let mut p = from;
    assert(ov.subrange(from as int, from as int) =~= Seq::<Seq<char>>::empty());
    assert(old(out)@ + concat(Seq::<Seq<char>>::empty()) =~= old(out)@);
    while p < to
        invariant
            from <= p <= to <= orig@.len(),
            ov == orig@.map_values(|l: Vec<char>| l@),
            out@ == old(out)@ + concat(ov.subrange(from as int, p as int)),
        decreases to - p,
    {
        assert(ov.subrange(from as int, p + 1).drop_last() =~= ov.subrange(from as int, p as int));
        extend_chars(out, orig[p].as_slice());
        p += 1;
    }
}

fn mismatch_error(
    what: &str,
    content: &[char],
    orig_line: Option<(usize, &[char])>,
) -> (e: Vec<char>)
    requires
        orig_line matches Some((p, _)) ==> p < usize::MAX,
    ensures
        match orig_line {
            None => e@ == what@ + " mismatch: expected "@ + debug_str(content@)
                + " but reached end of file"@,
            Some((pos, text)) => e@ == what@ + " mismatch at original line "@ + decimal(
                pos as nat + 1,
            ) + ": expected "@ + debug_str(content@) + ", got "@ + debug_str(text@),
        },
{
    let mut e: Vec<char> = Vec::new();
    extend_str(&mut e, what);
    match orig_line {
        None => {
            extend_str(&mut e, " mismatch: expected ");
            let q = debug_quote(content);
            extend_chars(&mut e, q.as_slice());
            extend_str(&mut e, " but reached end of file");
        },
        Some((pos, text)) => {
            extend_str(&mut e, " mismatch at original line ");
            push_decimal(&mut e, pos + 1);
            extend_str(&mut e, ": expected ");
            let q = debug_quote(content);
            extend_chars(&mut e, q.as_slice());
            extend_str(&mut e, ", got ");
            let q2 = debug_quote(text);
            extend_chars(&mut e, q2.as_slice());
        },
    }
    e
}

/// Applies the lines of one hunk from old-file position `pos`.
fn apply_hunk_lines(
    orig: &Vec<Vec<char>>,
    h: &Hunk,
    pos: usize,
    out: &mut Vec<char>,
    added: usize,
    removed: usize,
) -> (r: Result<(usize, usize, usize), Vec<char>>)
    requires
        pos <= orig@.len(),
        added + removed + h.lines@.len() <= usize::MAX,
    ensures
        match r {
            Ok((p, a, rm)) => apply_lines(
                orig@.map_values(|l: Vec<char>| l@),
                h.model().lines,
                0,
                (pos as nat, old(out)@, added as nat, removed as nat),
            ) == Ok::<ApplyState, Seq<char>>((p as nat, final(out)@, a as nat, rm as nat)) && p
                <= orig@.len() && a + rm <= added + removed + h.lines@.len(),
            Err(e) => apply_lines(
                orig@.map_values(|l: Vec<char>| l@),
                h.model().lines,
                0,
                (pos as nat, old(out)@, added as nat, removed as nat),
            ) == Err::<ApplyState, Seq<char>>(e@),
        },
{
    let ghost ov = orig@.map_values(|l: Vec<char>| l@);
    let ghost hl = h.model().lines;
    let ghost start: ApplyState = (pos as nat, old(out)@, added as nat, removed as nat);
    let mut p = pos;
    let mut a = added;
    let mut rm = removed;
    let mut j: usize = 0;
    proof {
        reveal_strlit("context");
        reveal_strlit("remove");
        reveal_strlit(" mismatch: expected ");
        reveal_strlit(" but reached end of file");
        reveal_strlit(" mismatch at original line ");
        reveal_strlit("context mismatch: expected ");
        reveal_strlit("remove mismatch: expected ");
        reveal_strlit("context mismatch at original line ");
        reveal_strlit("remove mismatch at original line ");
        assert("context mismatch: expected "@ =~= "context"@ + " mismatch: expected "@);
        assert("remove mismatch: expected "@ =~= "remove"@ + " mismatch: expected "@);
        assert("context mismatch at original line "@ =~= "context"@ + " mismatch at original line "@);
        assert("remove mismatch at original line "@ =~= "remove"@ + " mismatch at original line "@);
    }
    while j < h.lines.len()
        invariant
            j <= h.lines@.len(),
            p <= orig@.len(),
            ov == orig@.map_values(|l: Vec<char>| l@),
            hl == h.model().lines,
            start == (pos as nat, old(out)@, added as nat, removed as nat),
            a + rm <= added + removed + j,
            added + removed + h.lines@.len() <= usize::MAX,
            apply_lines(ov, hl, j as int, (p as nat, out@, a as nat, rm as nat)) == apply_lines(
                ov,
                hl,
                0,
                start,
            ),
            "context mismatch: expected "@ =~= "context"@ + " mismatch: expected "@,
            "remove mismatch: expected "@ =~= "remove"@ + " mismatch: expected "@,
            "context mismatch at original line "@ =~= "context"@ + " mismatch at original line "@,
            "remove mismatch at original line "@ =~= "remove"@ + " mismatch at original line "@,
        decreases h.lines.len() - j,
    {
        let line = &h.lines[j];
        assert(hl[j as int] == (line.kind, line.content@));
        match line.kind {
            HunkLineKind::Add => {
                let ghost before = out@;
                extend_chars(out, line.content.as_slice());
                let n = line.content.len();
                if !(n > 0 && (line.content[n - 1] == '\n' || line.content[n - 1] == '\r')) {
                    out.push('\n');
                }
                assert(out@ =~= before + added_text(line.content@));
                a = a + 1;
            },
            HunkLineKind::Context => {
                if p >= orig.len() {
                    let e = mismatch_error("context", line.content.as_slice(), None);
                    return Err(e);
                }
                let o = strip_terminator_exec(orig[p].as_slice());
                if !chars_eq(o.as_slice(), line.content.as_slice()) {
                    let e = mismatch_error("context", line.content.as_slice(), Some((p, o.as_slice())));
                    return Err(e);
                }
                extend_chars(out, orig[p].as_slice());
                p = p + 1;
            },
            HunkLineKind::Remove => {
                if p >= orig.len() {
                    let e = mismatch_error("remove", line.content.as_slice(), None);
                    return Err(e);
                }
                let o = strip_terminator_exec(orig[p].as_slice());
                if !chars_eq(o.as_slice(), line.content.as_slice()) {
                    let e = mismatch_error("remove", line.content.as_slice(), Some((p, o.as_slice())));
                    return Err(e);
                }
                p = p + 1;
                rm = rm + 1;
            },
        }
        j += 1;
    }
    Ok((p, a, rm))
}

/// Parse and apply a unified diff to `original` text.
///
/// - Lines starting with ` ` are context lines: they must match the original
///   line (without its terminator) exactly.
/// - Lines starting with `-` are removed, after the same check.
/// - Lines starting with `+` are added, with a `\n` unless they end in one.
/// - Lines before the first `@@` header are ignored.
/// - Original lines outside every hunk are kept with their terminators.
///
/// Returns the modified text and a [`DiffSummary`], or a message describing
/// the first mismatch.
pub fn apply_unified_diff(original: &str, diff: &str) -> (r: Result<(String, DiffSummary), String>)
    ensures
        match r {
            Ok((text, s)) => apply_diff_spec(original@, diff@) == Ok::<
                (Seq<char>, (nat, nat, nat)),
                Seq<char>,
            >((text@, (s.lines_added as nat, s.lines_removed as nat, s.hunks_applied as nat))),
            Err(e) => apply_diff_spec(original@, diff@) == Err::<
                (Seq<char>, (nat, nat, nat)),
                Seq<char>,
            >(e@),
        },
{
    let orig_chars = chars_of(original);
    let orig_lines = split_lines_keep_terminator(orig_chars.as_slice());
    let ghost ov = keep_term_lines(original@);
    let diff_chars = chars_of(diff);
    let hunks = match parse_hunks(diff_chars.as_slice()) {
        Ok(hs) => hs,
        Err(e) => return Err(string_of(e.as_slice())),
    };
    if hunks.len() == 0 {
        return Err(String::from_str("diff contains no hunks"));
    }
    let ghost hs = hunk_models(hunks@);
    let mut out: Vec<char> = Vec::new();
    let mut pos: usize = 0;
    let mut added: usize = 0;
    let mut removed: usize = 0;
    let mut i: usize = 0;
    proof {
        assert(hs.take(0) =~= Seq::<HunkModel>::empty());
    }
    while i < hunks.len()
        invariant
            i <= hunks@.len(),
            hs == hunk_models(hunks@),
            hs.len() > 0,
            parse_hunks_spec(diff@) == Ok::<Seq<HunkModel>, Seq<char>>(hs),
            ov == keep_term_lines(original@),
            ov == orig_lines@.map_values(|l: Vec<char>| l@),
            pos <= orig_lines@.len(),
            added + removed <= total_lines(hs.take(i as int)),
            total_lines(hs) <= usize::MAX,
            apply_hunks(ov, hs, i as int, (pos as nat, out@, added as nat, removed as nat), i as nat)
                == apply_hunks(ov, hs, 0, (0, seq![], 0, 0), 0),
        decreases hunks.len() - i,
    {
        let h = &hunks[i];
        assert(hs[i as int] == h.model());
        let until: usize = if h.old_start >= 1 {
            h.old_start - 1
        } else {
            0
        };
        if until > pos && until > orig_lines.len() {
            let mut e: Vec<char> = Vec::new();
            extend_str(&mut e, "hunk at old line ");
            push_decimal(&mut e, h.old_start);
            extend_str(&mut e, " references line ");
            push_decimal(&mut e, orig_lines.len() + 1);
            extend_str(&mut e, " which is past end of file (");
            push_decimal(&mut e, orig_lines.len());
            extend_str(&mut e, " lines)");
            return Err(string_of(e.as_slice()));
        }
        let pos1 = if until > pos {
            until
        } else {
            pos
        };
        copy_lines(&orig_lines, pos, pos1, &mut out);
        proof {
            lemma_total_lines_prefix(hs, i + 1);
            assert(hs.take(i + 1).drop_last() =~= hs.take(i as int));
        }
        match apply_hunk_lines(&orig_lines, h, pos1, &mut out, added, removed) {
            Err(e) => return Err(string_of(e.as_slice())),
            Ok((p2, a2, r2)) => {
                pos = p2;
                added = a2;
                removed = r2;
            },
        }
        i += 1;
    }
    copy_lines(&orig_lines, pos, orig_lines.len(), &mut out);
    let text = string_of(out.as_slice());
    Ok((text, DiffSummary { lines_added: added, lines_removed: removed, hunks_applied: i }))
}

// ---------------------------------------------------------------------------
// Laws
// ---------------------------------------------------------------------------

proof fn lemma_concat_add(a: Seq<Seq<char>>, b: Seq<Seq<char>>)
    ensures
        concat(a + b) == concat(a) + concat(b),
    decreases b.len(),
{
    if b.len() == 0 {
        assert(a + b =~= a);
        assert(concat(a) + seq![] =~= concat(a));
    } else {
        lemma_concat_add(a, b.drop_last());
        assert((a + b).drop_last() =~= a + b.drop_last());
        assert(concat(a) + concat(b.drop_last()) + b.last() =~= concat(a) + (concat(b.drop_last())
            + b.last()));
    }
}

proof fn lemma_keep_term_from_concat(s: Seq<char>, i: int, cur: Seq<char>)
    requires
        0 <= i <= s.len(),
    ensures
        concat(keep_term_from(s, i, cur)) == cur + s.skip(i),
    decreases s.len() - i,
{
    if i >= s.len() {
        assert(s.skip(i) =~= Seq::<char>::empty());
        if cur.len() == 0 {
            assert(cur + s.skip(i) =~= Seq::<char>::empty());
        } else {
            assert(seq![cur].drop_last() =~= Seq::<Seq<char>>::empty());
            assert(seq![cur].last() == cur);
            assert(concat(Seq::<Seq<char>>::empty()) == Seq::<char>::empty());
            assert(cur + s.skip(i) =~= cur);
            assert(concat(seq![cur]) == concat(seq![cur].drop_last()) + seq![cur].last());
            assert(concat(seq![cur]) =~= seq![] + cur);
        }
    } else if s[i] == '\n' {
        lemma_keep_term_from_concat(s, i + 1, seq![]);
        lemma_concat_add(seq![cur.push('\n')], keep_term_from(s, i + 1, seq![]));
        let x = cur.push('\n');
        assert(seq![x].drop_last() =~= Seq::<Seq<char>>::empty());
        assert(concat(Seq::<Seq<char>>::empty()) == Seq::<char>::empty());
        assert(concat(seq![x]) == concat(seq![x].drop_last()) + seq![x].last());
        assert(Seq::<char>::empty() + x =~= x);
        assert(cur.push('\n') + (seq![] + s.skip(i + 1)) =~= cur + s.skip(i));
    } else {
        lemma_keep_term_from_concat(s, i + 1, cur.push(s[i]));
        assert(cur.push(s[i]) + s.skip(i + 1) =~= cur + s.skip(i));
    }
}

/// Line splitting for diff application loses nothing: the pieces, with
/// their terminators, concatenate back to the original text, so lines no
/// hunk touches come out byte for byte as they were.
pub proof fn keep_term_lines_reconstruct(s: Seq<char>)
    ensures
        concat(keep_term_lines(s)) == s,
{
    lemma_keep_term_from_concat(s, 0, seq![]);
    assert(Seq::<char>::empty() + s.skip(0) =~= s);
}

proof fn lemma_apply_lines_counts(
    orig: Seq<Seq<char>>,
    hl: Seq<(HunkLineKind, Seq<char>)>,
    j: int,
    st: ApplyState,
)
    requires
        0 <= j <= hl.len(),
    ensures
        apply_lines(orig, hl, j, st) matches Ok(st2) ==> st2.2 == st.2 + count_kind(
            hl.skip(j),
            HunkLineKind::Add,
        ) && st2.3 == st.3 + count_kind(hl.skip(j), HunkLineKind::Remove),
    decreases hl.len() - j,
{
    if j < hl.len() {
        let (pos, out, a, r) = st;
        let (k, c) = hl[j];
        assert(hl.skip(j).skip(1) =~= hl.skip(j + 1));
        assert(hl.skip(j)[0] == hl[j]);
        match k {
            HunkLineKind::Add => lemma_apply_lines_counts(
                orig,
                hl,
                j + 1,
                (pos, out + added_text(c), a + 1, r),
            ),
            HunkLineKind::Context => if pos < orig.len() {
                lemma_apply_lines_counts(orig, hl, j + 1, (pos + 1, out + orig[pos as int], a, r))
            },
            HunkLineKind::Remove => if pos < orig.len() {
                lemma_apply_lines_counts(orig, hl, j + 1, (pos + 1, out, a, r + 1))
            },
        }
    } else {
        assert(hl.skip(j) =~= Seq::<(HunkLineKind, Seq<char>)>::empty());
    }
}

proof fn lemma_apply_hunks_counts(
    orig: Seq<Seq<char>>,
    hs: Seq<HunkModel>,
    i: int,
    st: ApplyState,
    n: nat,
)
    requires
        0 <= i <= hs.len(),
        st.0 <= orig.len(),
    ensures
        apply_hunks(orig, hs, i, st, n) matches Ok((t, (a, r, m))) ==> a == st.2 + total_kind(
            hs.skip(i),
            HunkLineKind::Add,
        ) && r == st.3 + total_kind(hs.skip(i), HunkLineKind::Remove) && m == n + hs.len() - i,
    decreases hs.len() - i,
{
    if i < hs.len() {
        let (pos, out, a, r) = st;
        let h = hs[i];
        assert(hs.skip(i).skip(1) =~= hs.skip(i + 1));
        assert(hs.skip(i)[0] == hs[i]);
        let until: nat = if h.old_start >= 1 {
            (h.old_start - 1) as nat
        } else {
            0
        };
        if !(until > pos && until > orig.len()) {
            let pos1 = if until > pos {
                until
            } else {
                pos
            };
            let out1 = out + concat(orig.subrange(pos as int, pos1 as int));
            lemma_apply_lines_counts(orig, h.lines, 0, (pos1, out1, a, r));
            assert(h.lines.skip(0) =~= h.lines);
            match apply_lines(orig, h.lines, 0, (pos1, out1, a, r)) {
                Err(e) => {},
                Ok(st2) => {
                    lemma_apply_lines_pos(orig, h.lines, 0, (pos1, out1, a, r));
                    lemma_apply_hunks_counts(orig, hs, i + 1, st2, n + 1);
                },
            }
        }
    } else {
        assert(hs.skip(i) =~= Seq::<HunkModel>::empty());
    }
}

proof fn lemma_apply_lines_pos(
    orig: Seq<Seq<char>>,
    hl: Seq<(HunkLineKind, Seq<char>)>,
    j: int,
    st: ApplyState,
)
    requires
        0 <= j <= hl.len(),
        st.0 <= orig.len(),
    ensures
        apply_lines(orig, hl, j, st) matches Ok(st2) ==> st2.0 <= orig.len(),
    decreases hl.len() - j,
{
    if j < hl.len() {
        let (pos, out, a, r) = st;
        let (k, c) = hl[j];
        match k {
            HunkLineKind::Add => lemma_apply_lines_pos(
                orig,
                hl,
                j + 1,
                (pos, out + added_text(c), a + 1, r),
            ),
            HunkLineKind::Context => if pos < orig.len() {
                lemma_apply_lines_pos(orig, hl, j + 1, (pos + 1, out + orig[pos as int], a, r))
            },
            HunkLineKind::Remove => if pos < orig.len() {
                lemma_apply_lines_pos(orig, hl, j + 1, (pos + 1, out, a, r + 1))
            },
        }
    }
}

/// Diff law: a successful application reports exactly the number of hunks
/// in the diff, the number of `+` lines and the number of `-` lines.
pub proof fn apply_diff_summary_counts(original: Seq<char>, diff: Seq<char>)
    ensures
        apply_diff_spec(original, diff) matches Ok((t, (a, r, n))) ==> (parse_hunks_spec(diff) matches Ok(
            hs,
        ) && n == hs.len() && a == total_kind(hs, HunkLineKind::Add) && r == total_kind(
            hs,
            HunkLineKind::Remove,
        )),
{
    match parse_hunks_spec(diff) {
        Err(e) => {},
        Ok(hs) => {
            if hs.len() > 0 {
                lemma_apply_hunks_counts(keep_term_lines(original), hs, 0, (0, seq![], 0, 0), 0);
                assert(hs.skip(0) =~= hs);
            }
        },
    }
}

} // verus!
