//! Head/tail truncation of long tool output.

use vstd::prelude::*;
use crate::text::{
    lemma_byte_len_add, lemma_byte_len_prefix, byte_len, byte_len_at_most, char_width_exec, chars_of, copy_chars, decimal, extend_chars,
    extend_str, join, join_range, lines, push_decimal, slice_chars, split_lines, string_of,
};

verus! {

broadcast use vstd::string::group_string_axioms;

/// Configuration for smart output truncation.
///
/// When tool output exceeds `max_chars` (a UTF-8 byte count, as `str::len`
/// counts), the content is split into a head section (`head_lines` from the
/// top) and a tail section (`tail_lines` from the bottom), joined by a
/// marker that says how many lines were omitted.
#[derive(Debug, Clone)]
pub struct TruncationConfig {
    /// Maximum number of bytes before truncation kicks in. Default: 30 000.
    pub max_chars: usize,
    /// Lines to keep from the beginning of the content. Default: 200.
    pub head_lines: usize,
    /// Lines to keep from the end of the content. Default: 50.
    pub tail_lines: usize,
}

impl Default for TruncationConfig {
    fn default() -> (r: Self)
        ensures
            r.max_chars == 30_000,
            r.head_lines == 200,
            r.tail_lines == 50,
    {
        TruncationConfig { max_chars: 30_000, head_lines: 200, tail_lines: 50 }
    }
}

/// The notice appended after a hard cap at `max` bytes.
pub open spec fn hard_cap_notice(max: nat) -> Seq<char> {
    "\n[... output hard-capped at "@ + decimal(max) + " chars ...]"@
}

/// The marker that replaces `omitted` lines.
pub open spec fn omission_marker(omitted: nat) -> Seq<char> {
    "[... truncated "@ + decimal(omitted) + " lines ...]"@
}

/// Starting from `k`, the first prefix length whose bytes reach `max`
/// (or the whole length).
pub open spec fn cap_len_from(s: Seq<char>, max: nat, k: nat) -> nat
    decreases s.len() - k,
{
    if k >= s.len() || byte_len(s.take(k as int)) >= max {
        k
    } else {
        cap_len_from(s, max, k + 1)
    }
}

/// The number of characters of `s` that start before byte offset `max`.
pub open spec fn cap_len(s: Seq<char>, max: nat) -> nat {
    cap_len_from(s, max, 0)
}

/// `s` cut after its last character that starts before byte `max`, with a
/// notice appended; `s` itself when it is no longer than `max` bytes.
pub open spec fn hard_cap_spec(s: Seq<char>, max: nat) -> Seq<char> {
    if byte_len(s) <= max {
        s
    } else {
        s.take(cap_len(s, max) as int) + hard_cap_notice(max)
    }
}

/// The head/tail assembly: the first `hc` lines, the marker, the last `tc`
/// lines, separated by newlines.
pub open spec fn assembled(ls: Seq<Seq<char>>, hc: nat, tc: nat) -> Seq<char> {
    join(ls.take(hc as int), "\n"@) + "\n"@ + omission_marker((ls.len() - hc - tc) as nat) + "\n"@
        + join(ls.skip(ls.len() - tc), "\n"@)
}

/// What `smart_truncate` returns for `content` under the given limits.
pub open spec fn smart_truncate_spec(content: Seq<char>, max: nat, head: nat, tail: nat) -> Seq<
    char,
> {
    if byte_len(content) <= max {
        content
    } else {
        let ls = lines(content);
        let total = ls.len();
        let hc = if head < total { head } else { total };
        let tc = if tail < total { tail } else { total };
        if hc + tc >= total {
            hard_cap_spec(content, max)
        } else {
            let a = assembled(ls, hc, tc);
            if byte_len(a) <= max {
                a
            } else {
                hard_cap_spec(a, max)
            }
        }
    }
}

/// The number of characters of `s` that start before byte offset `max`.
pub fn cap_len_exec(s: &[char], max: usize) -> (k: usize)
    ensures
        k == cap_len(s@, max as nat),
        k <= s@.len(),
{
    let mut k: usize = 0;
    let mut b: u128 = 0;
    while k < s.len() && b < max as u128
        invariant
            k <= s@.len(),
            b == byte_len(s@.take(k as int)),
            b <= 4 * k,
            cap_len_from(s@, max as nat, k as nat) == cap_len(s@, max as nat),
        decreases s.len() - k,
    {
        proof {
            assert(s@.take(k + 1).drop_last() =~= s@.take(k as int));
        }
        b = b + char_width_exec(s[k]) as u128;
        k += 1;
    }
    assert(cap_len_from(s@, max as nat, k as nat) == k);
    k
}

fn hard_cap(s: &[char], max_chars: usize) -> (out: Vec<char>)
    ensures
        out@ == hard_cap_spec(s@, max_chars as nat),
{
    if byte_len_at_most(s, max_chars) {
        return copy_chars(s);
    }
    // Find the largest prefix whose last character starts before the cap.
    let k = cap_len_exec(s, max_chars);
    let mut out = slice_chars(s, 0, k);
    assert(s@.subrange(0, k as int) =~= s@.take(k as int));
    extend_str(&mut out, "\n[... output hard-capped at ");
    push_decimal(&mut out, max_chars);
    extend_str(&mut out, " chars ...]");
    assert(out@ =~= s@.take(k as int) + hard_cap_notice(max_chars as nat));
    out
}

/// Truncate `content` according to `config`.
///
/// - If `content.len() <= config.max_chars`, it is returned unchanged.
/// - Otherwise the first `head_lines` lines and the last `tail_lines` lines
///   are kept, separated by a marker `[... truncated N lines ...]`.
/// - If head and tail would cover every line, or the assembled text is still
///   longer than `max_chars`, the text is hard-capped and a notice appended.
pub fn smart_truncate(content: &str, config: &TruncationConfig) -> (out: String)
    ensures
        out@ == smart_truncate_spec(
            content@,
            config.max_chars as nat,
            config.head_lines as nat,
            config.tail_lines as nat,
        ),
{
    let chars = chars_of(content);
    if byte_len_at_most(chars.as_slice(), config.max_chars) {
        return string_of(chars.as_slice());
    }
    let ls = split_lines(chars.as_slice());
    let ghost lv = lines(content@);
    assert(ls@.map_values(|p: Vec<char>| p@) =~= lv);
    let total = ls.len();
    let head_count = if config.head_lines < total { config.head_lines } else { total };
    let tail_count = if config.tail_lines < total { config.tail_lines } else { total };
    if head_count >= total - tail_count {
        let capped = hard_cap(chars.as_slice(), config.max_chars);
        return string_of(capped.as_slice());
    }
    let omitted = total - head_count - tail_count;
    let nl: Vec<char> = vec!['\n'];
    proof {
        reveal_strlit("\n");
        assert(nl@ =~= "\n"@);
    }
    let mut assembled_text = join_range(&ls, 0, head_count, nl.as_slice());
    let ghost head_part = assembled_text@;
    assert(lv.subrange(0, head_count as int) =~= lv.take(head_count as int));
    extend_str(&mut assembled_text, "\n[... truncated ");
    push_decimal(&mut assembled_text, omitted);
    extend_str(&mut assembled_text, " lines ...]\n");
    let ghost mid_part = assembled_text@;
    let tail_text = join_range(&ls, total - tail_count, total, nl.as_slice());
    assert(lv.subrange((total - tail_count) as int, total as int) =~= lv.skip(total - tail_count));
    extend_chars(&mut assembled_text, tail_text.as_slice());
    proof {
        reveal_strlit("\n");
        reveal_strlit("\n[... truncated ");
        reveal_strlit(" lines ...]\n");
        reveal_strlit("[... truncated ");
        reveal_strlit(" lines ...]");
        assert(head_part == join(lv.take(head_count as int), "\n"@));
        assert(tail_text@ == join(lv.skip(total - tail_count), "\n"@));
        assert(mid_part == head_part + "\n[... truncated "@ + decimal(omitted as nat) + " lines ...]\n"@);
        assert(" lines ...]\n"@ =~= " lines ...]"@ + "\n"@);
        assert("\n[... truncated "@ =~= "\n"@ + "[... truncated "@);
        assert(assembled_text@ =~= assembled(lv, head_count as nat, tail_count as nat));
    }
    if byte_len_at_most(assembled_text.as_slice(), config.max_chars) {
        string_of(assembled_text.as_slice())
    } else {
        let capped = hard_cap(assembled_text.as_slice(), config.max_chars);
        string_of(capped.as_slice())
    }
}


proof fn lemma_cap_len_from_stop(s: Seq<char>, max: nat, k: nat)
    requires
        k <= s.len(),
        k == 0 || byte_len(s.take(k - 1)) < max,
    ensures
        cap_len_from(s, max, k) == 0 || byte_len(s.take(cap_len_from(s, max, k) - 1)) < max,
        cap_len_from(s, max, k) <= s.len(),
    decreases s.len() - k,
{
    if !(k >= s.len() || byte_len(s.take(k as int)) >= max) {
        lemma_cap_len_from_stop(s, max, k + 1);
    }
}

/// A hard-capped text keeps fewer than `max + 4` bytes of the original
/// before the notice.
pub proof fn hard_cap_keeps_under_limit(s: Seq<char>, max: nat)
    ensures
        byte_len(hard_cap_spec(s, max)) < max + 4 + byte_len(hard_cap_notice(max)),
{
    if byte_len(s) > max {
        let k = cap_len(s, max);
        lemma_cap_len_from_stop(s, max, 0);
        if k > 0 {
            lemma_byte_len_prefix(s, k - 1, k as int);
        }
        lemma_byte_len_add(s.take(k as int), hard_cap_notice(max));
    }
}

/// Truncation law: the result of `smart_truncate` never holds more than
/// `max_chars + 3` bytes of text before the hard-cap notice; content that
/// fits is returned unchanged, and a head/tail assembly is only returned
/// when it fits.
pub proof fn smart_truncate_length_bound(content: Seq<char>, max: nat, head: nat, tail: nat)
    ensures
        byte_len(content) <= max ==> smart_truncate_spec(content, max, head, tail) == content,
        byte_len(smart_truncate_spec(content, max, head, tail)) < max + 4 + byte_len(
            hard_cap_notice(max),
        ),
{
    hard_cap_keeps_under_limit(content, max);
    let ls = lines(content);
    let total = ls.len();
    let hc = if head < total { head } else { total };
    let tc = if tail < total { tail } else { total };
    if hc + tc < total {
        hard_cap_keeps_under_limit(assembled(ls, hc, tc), max);
    }
}

} // verus!
