//! `@file` references in user input: which references a message holds,
//! how each is read, and the text made of the files read and the rest of
//! the message.  Files are read by the caller between the steps.

use vstd::prelude::*;
use crate::paths::path_extension;
use crate::prompts::replace_all;
use crate::text::{
    byte_len, char_width, chars_of, extend_str, find_char, find_sub, join, lowercase, string_of,
    trim_ws, ws_tokens,
};

verus! {

broadcast use vstd::string::group_string_axioms;

/// At most this many files come from one directory or pattern.
pub const MAX_EXPANSION_FILES: usize = 100;

/// A raw image read from a referenced file.
#[derive(Debug)]
pub struct ImageAttachment {
    pub data: Vec<u8>,
    pub mime_type: String,
    pub filename: String,
}

/// A digit of the standard base64 alphabet: `A`–`Z`, `a`–`z`, `0`–`9`,
/// `+`, `/`.
pub open spec fn b64_digit(v: int) -> char {
    if v < 26 {
        (65 + v) as char
    } else if v < 52 {
        (97 + v - 26) as char
    } else if v < 62 {
        (48 + v - 52) as char
    } else if v == 62 {
        '+'
    } else {
        '/'
    }
}

/// Standard base64 (RFC 4648) with `=` padding: every three bytes become
/// four digits; a last one or two bytes are padded.
pub open spec fn base64_standard(d: Seq<u8>) -> Seq<char>
    decreases d.len(),
{
    let a = d[0] as int;
    let b = d[1] as int;
    let c = d[2] as int;
    if d.len() == 0 {
        seq![]
    } else if d.len() == 1 {
        seq![b64_digit(a / 4), b64_digit((a % 4) * 16), '=', '=']
    } else if d.len() == 2 {
        seq![b64_digit(a / 4), b64_digit((a % 4) * 16 + b / 16), b64_digit((b % 16) * 4), '=']
    } else {
        seq![b64_digit(a / 4), b64_digit((a % 4) * 16 + b / 16), b64_digit((b % 16) * 4 + c / 64), b64_digit(c % 64)]
            + base64_standard(d.skip(3))
    }
}

/// `base64::engine::general_purpose::STANDARD.encode`: standard base64
/// with padding.
#[verifier::external_body]
fn base64_encode(data: &[u8]) -> (r: String)
    ensures
        r@ == base64_standard(data@),
{
    base64::Engine::encode(&base64::engine::general_purpose::STANDARD, data)
}

impl ImageAttachment {
    /// The image's bytes in base64, as an image block of a message carries
    /// them.
    pub fn base64_data(&self) -> (r: String)
        ensures
            r@ == base64_standard(self.data@),
    {
        base64_encode(self.data.as_slice())
    }
}

/// User input with its references expanded: the text (file contents in
/// `<file>` tags, then the rest of the message) and the images.
#[derive(Debug)]
pub struct ProcessedInput {
    pub text: String,
    pub images: Vec<ImageAttachment>,
}

// ---------------------------------------------------------------------------
// Kinds of files
// ---------------------------------------------------------------------------

/// An image extension (in lowercase).
pub open spec fn is_image_ext(e: Seq<char>) -> bool {
    e == "jpg"@ || e == "jpeg"@ || e == "png"@ || e == "gif"@ || e == "webp"@
}

/// A path whose extension, in lowercase, is an image extension.
pub open spec fn image_path(p: Seq<char>) -> bool {
    match path_extension(p) {
        Some(e) => is_image_ext(lowercase(e)),
        None => false,
    }
}

/// Whether a path names an image (by its extension, ignoring case).
pub fn is_image_file(path: &str) -> (r: bool)
    ensures
        r == image_path(path@),
{
    match crate::paths::extension_of(path) {
        Some(e) => {
            let l = crate::text::to_lowercase(e.as_str());
            proof {
                reveal_strlit("jpg");
                reveal_strlit("jpeg");
                reveal_strlit("png");
                reveal_strlit("gif");
                reveal_strlit("webp");
            }
            crate::text::str_eq(l.as_str(), "jpg") || crate::text::str_eq(l.as_str(), "jpeg")
                || crate::text::str_eq(l.as_str(), "png") || crate::text::str_eq(l.as_str(), "gif")
                || crate::text::str_eq(l.as_str(), "webp")
        },
        None => false,
    }
}

/// The MIME type of a file by its extension, ignoring case.
pub open spec fn mime_type(p: Seq<char>) -> Seq<char> {
    match path_extension(p) {
        Some(e) => {
            let l = lowercase(e);
            if l == "jpg"@ || l == "jpeg"@ {
                "image/jpeg"@
            } else if l == "png"@ {
                "image/png"@
            } else if l == "gif"@ {
                "image/gif"@
            } else if l == "webp"@ {
                "image/webp"@
            } else {
                "application/octet-stream"@
            }
        },
        None => "application/octet-stream"@,
    }
}

/// The MIME type of a file.
pub fn mime_type_for_path(path: &str) -> (r: String)
    ensures
        r@ == mime_type(path@),
{
    proof {
        reveal_strlit("jpg");
        reveal_strlit("jpeg");
        reveal_strlit("png");
        reveal_strlit("gif");
        reveal_strlit("webp");
    }
    match crate::paths::extension_of(path) {
        Some(e) => {
            let l = crate::text::to_lowercase(e.as_str());
            if crate::text::str_eq(l.as_str(), "jpg") || crate::text::str_eq(l.as_str(), "jpeg") {
                "image/jpeg".to_string()
            } else if crate::text::str_eq(l.as_str(), "png") {
                "image/png".to_string()
            } else if crate::text::str_eq(l.as_str(), "gif") {
                "image/gif".to_string()
            } else if crate::text::str_eq(l.as_str(), "webp") {
                "image/webp".to_string()
            } else {
                "application/octet-stream".to_string()
            }
        },
        None => "application/octet-stream".to_string(),
    }
}

/// How a reference is read.
#[derive(Debug, Clone, Copy, PartialEq, Eq, Structural)]
pub enum RefKind {
    /// Every file of a directory (a trailing `/` or `\`).
    Directory,
    /// The files matching a pattern (a `*` or `?`).
    Glob,
    /// One file.
    Single,
}

/// The kind of a reference.
pub open spec fn ref_kind_spec(r: Seq<char>) -> RefKind {
    if r.len() > 0 && (r.last() == '/' || r.last() == '\\') {
        RefKind::Directory
    } else if r.contains('*') || r.contains('?') {
        RefKind::Glob
    } else {
        RefKind::Single
    }
}

/// How a reference is read.
pub fn ref_kind(reference: &str) -> (r: RefKind)
    ensures
        r == ref_kind_spec(reference@),
{
    let c = chars_of(reference);
    let n = c.len();
    if n > 0 && (c[n - 1] == '/' || c[n - 1] == '\\') {
        return RefKind::Directory;
    }
    let star = crate::text::find_char_exec(c.as_slice(), '*');
    let question = crate::text::find_char_exec(c.as_slice(), '?');
    proof {
        crate::text::lemma_find_char_contains(c@, '*');
        crate::text::lemma_find_char_contains(c@, '?');
    }
    if star.is_some() || question.is_some() {
        RefKind::Glob
    } else {
        RefKind::Single
    }
}

/// Why the files of a directory or pattern are not read: none, or more
/// than [`MAX_EXPANSION_FILES`].
pub open spec fn expansion_problem(kind: RefKind, reference: Seq<char>, count: nat) -> Option<Seq<char>> {
    if kind == RefKind::Directory {
        if count == 0 {
            Some("Directory is empty: "@ + reference)
        } else if count > MAX_EXPANSION_FILES {
            Some(
                "Directory "@ + reference + " contains "@ + crate::text::decimal(count)
                    + " files, exceeding the limit of 100. Use a glob pattern to narrow the selection."@,
            )
        } else {
            None
        }
    } else {
        if count == 0 {
            Some("No files matched pattern: "@ + reference)
        } else if count > MAX_EXPANSION_FILES {
            Some(
                "Glob pattern "@ + reference + " matched "@ + crate::text::decimal(count)
                    + " files, exceeding the limit of 100. Use a more specific pattern."@,
            )
        } else {
            None
        }
    }
}

/// Checks the number of files a directory or pattern reference found.
pub fn check_expansion(kind: RefKind, reference: &str, count: usize) -> (r: Option<String>)
    ensures
        crate::paths::opt_str_view(r) == expansion_problem(kind, reference@, count as nat),
{
    let mut out: Vec<char> = Vec::new();
    if kind == RefKind::Directory {
        if count == 0 {
            extend_str(&mut out, "Directory is empty: ");
            extend_str(&mut out, reference);
        } else if count > MAX_EXPANSION_FILES {
            extend_str(&mut out, "Directory ");
            extend_str(&mut out, reference);
            extend_str(&mut out, " contains ");
            crate::text::push_decimal(&mut out, count);
            extend_str(
                &mut out,
                " files, exceeding the limit of 100. Use a glob pattern to narrow the selection.",
            );
        } else {
            return None;
        }
    } else {
        if count == 0 {
            extend_str(&mut out, "No files matched pattern: ");
            extend_str(&mut out, reference);
        } else if count > MAX_EXPANSION_FILES {
            extend_str(&mut out, "Glob pattern ");
            extend_str(&mut out, reference);
            extend_str(&mut out, " matched ");
            crate::text::push_decimal(&mut out, count);
            extend_str(&mut out, " files, exceeding the limit of 100. Use a more specific pattern.");
        } else {
            return None;
        }
    }
    Some(string_of(out.as_slice()))
}

/// The text of a file read for a reference.
pub open spec fn file_part_text(name: Seq<char>, content: Seq<char>) -> Seq<char> {
    "<file name=\""@ + name + "\">\n"@ + content + "\n</file>"@
}

/// The text of a file read for a reference.
pub fn file_part(name: &str, content: &str) -> (r: String)
    ensures
        r@ == file_part_text(name@, content@),
{
    let mut out: Vec<char> = Vec::new();
    extend_str(&mut out, "<file name=\"");
    extend_str(&mut out, name);
    extend_str(&mut out, "\">\n");
    extend_str(&mut out, content);
    extend_str(&mut out, "\n</file>");
    string_of(out.as_slice())
}

// ---------------------------------------------------------------------------
// The quoted reference
// ---------------------------------------------------------------------------

/// The byte offset of the first `@` and its character index.
pub open spec fn first_at(s: Seq<char>) -> Option<(nat, nat)> {
    match find_char(s, '@') {
        Some(k) => Some((k, byte_len(s.take(k as int)))),
        None => None,
    }
}

/// Whether the first `@` opens a quoted reference: the character whose
/// index is the `@`'s byte offset plus one is `"`.
pub open spec fn opens_quote(s: Seq<char>) -> bool {
    match first_at(s) {
        Some((k, b)) => b + 1 < s.len() && s[b + 1 as int] == '"',
        None => false,
    }
}

/// The inputs on which reading a quoted reference does not split a
/// character: when the first `@` opens a quote, the character after it
/// takes one byte.
pub open spec fn quoted_scan_ok(s: Seq<char>) -> bool {
    match first_at(s) {
        Some((k, b)) => opens_quote(s) ==> k + 1 < s.len() && char_width(s[k + 1 as int]) == 1,
        None => true,
    }
}

/// The first quoted reference `@"name"`: the text before the `@`, the
/// name, and the text after the closing quote.
pub open spec fn quoted_ref(s: Seq<char>) -> Option<(Seq<char>, Seq<char>, Seq<char>)> {
    match first_at(s) {
        Some((k, b)) => if opens_quote(s) {
            let rest = s.skip(k + 2 as int);
            match find_char(rest, '"') {
                Some(e) => Some((s.take(k as int), rest.take(e as int), rest.skip(e + 1 as int))),
                None => None,
            }
        } else {
            None
        },
        None => None,
    }
}

/// A quoted reference found in the input.
#[derive(Debug, PartialEq, Eq)]
pub struct QuotedRef {
    pub before: String,
    pub name: String,
    pub after: String,
}

/// The view of an optional quoted reference.
pub open spec fn quoted_view(q: Option<QuotedRef>) -> Option<(Seq<char>, Seq<char>, Seq<char>)> {
    match q {
        Some(r) => Some((r.before@, r.name@, r.after@)),
        None => None,
    }
}

fn prefix_bytes_capped(s: &[char], k: usize, cap: usize) -> (r: usize)
    requires
        k <= s@.len(),
    ensures
        r == if byte_len(s@.take(k as int)) < cap {
            byte_len(s@.take(k as int))
        } else {
            cap as nat
        },
{
    let mut total: usize = 0;
    let mut i: usize = 0;
    while i < k
        invariant
            i <= k <= s@.len(),
            total <= cap,
            total == if byte_len(s@.take(i as int)) < cap {
                byte_len(s@.take(i as int))
            } else {
                cap as nat
            },
        decreases k - i,
    {
        proof {
            assert(s@.take(i + 1).drop_last() =~= s@.take(i as int));
            assert(byte_len(s@.take(i + 1)) == byte_len(s@.take(i as int)) + char_width(s@[i as int]));
        }
        let w = crate::text::char_width_exec(s[i]);
        if total < cap && w < cap - total {
            total = total + w;
        } else {
            total = cap;
        }
        i += 1;
    }
    total
}

/// Whether a quoted reference can be read from `input` without splitting
/// a character.
pub fn quoted_scan_is_ok(input: &str) -> (r: bool)
    ensures
        r == quoted_scan_ok(input@),
{
    let s = chars_of(input);
    match crate::text::find_char_exec(s.as_slice(), '@') {
        None => true,
        Some(k) => {
            let b = prefix_bytes_capped(s.as_slice(), k, s.len());
            let opens = b < s.len() - 1 && s[b + 1] == '"';
            if opens {
                k + 1 < s.len() && crate::text::char_width_exec(s[k + 1]) == 1
            } else {
                true
            }
        },
    }
}

/// Finds the first quoted reference of the input.
pub fn scan_quoted(input: &str) -> (r: Option<QuotedRef>)
    requires
        quoted_scan_ok(input@),
    ensures
        quoted_view(r) == quoted_ref(input@),
{
    let s = chars_of(input);
    match crate::text::find_char_exec(s.as_slice(), '@') {
        None => None,
        Some(k) => {
            let b = prefix_bytes_capped(s.as_slice(), k, s.len());
            let opens = b < s.len() - 1 && s[b + 1] == '"';
            if !opens {
                return None;
            }
            let rest = crate::text::slice_chars(s.as_slice(), k + 2, s.len());
            assert(rest@ =~= input@.skip(k + 2));
            match crate::text::find_char_exec(rest.as_slice(), '"') {
                Some(e) => {
                    let before = crate::text::slice_chars(s.as_slice(), 0, k);
                    let name = crate::text::slice_chars(rest.as_slice(), 0, e);
                    let after = crate::text::slice_chars(rest.as_slice(), e + 1, rest.len());
                    assert(before@ =~= input@.take(k as int));
                    assert(name@ =~= rest@.take(e as int));
                    assert(after@ =~= rest@.skip(e + 1));
                    Some(
                        QuotedRef {
                            before: string_of(before.as_slice()),
                            name: string_of(name.as_slice()),
                            after: string_of(after.as_slice()),
                        },
                    )
                },
                None => None,
            }
        },
    }
}

// ---------------------------------------------------------------------------
// Unquoted references
// ---------------------------------------------------------------------------

/// `s` with the first occurrence of the non-empty `p` replaced by `r`.
pub open spec fn replace_first(s: Seq<char>, p: Seq<char>, r: Seq<char>) -> Seq<char> {
    match find_sub(s, p) {
        Some(i) => s.take(i as int) + r + s.skip(i + p.len() as int),
        None => s,
    }
}

/// The text scanned for unquoted references: nothing after a quoted
/// reference that was read; otherwise the input, where a quoted reference
/// that could not be read is kept, with every `@@` turned into `@`.
pub open spec fn scanned_text(s: Seq<char>, quoted_read: bool) -> Seq<char> {
    match quoted_ref(s) {
        Some(_) => if quoted_read {
            seq![]
        } else {
            replace_all(replace_first(s, "@\""@, "@@\""@), "@@"@, "@"@)
        },
        None => replace_all(s, "@@"@, "@"@),
    }
}

/// A word of the message, and the reference it makes when it is `@`
/// followed by at least one character.
#[derive(Debug, PartialEq, Eq)]
pub struct WordRef {
    pub word: String,
    pub reference: Option<String>,
}

/// The reference a word makes.
pub open spec fn word_reference(w: Seq<char>) -> Option<Seq<char>> {
    if w.len() > 1 && w[0] == '@' {
        Some(w.skip(1))
    } else {
        None
    }
}

/// The words of the scanned text, each with its reference.
pub fn input_words(input: &str, quoted: &Option<QuotedRef>, quoted_read: bool) -> (r: Vec<WordRef>)
    requires
        quoted_view(*quoted) == quoted_ref(input@),
    ensures
        r@.len() == ws_tokens(scanned_text(input@, quoted_read)).len(),
        forall|i: int|
            0 <= i < r@.len() ==> (#[trigger] r@[i]).word@ == ws_tokens(scanned_text(input@, quoted_read))[i]
                && crate::paths::opt_str_view(r@[i].reference) == word_reference(r@[i].word@),
{
    let s = chars_of(input);
    let at_q: Vec<char> = vec!['@', '"'];
    let at_at_q: Vec<char> = vec!['@', '@', '"'];
    let at_at: Vec<char> = vec!['@', '@'];
    let at: Vec<char> = vec!['@'];
    proof {
        reveal_strlit("@\"");
        reveal_strlit("@@\"");
        reveal_strlit("@@");
        reveal_strlit("@");
        assert(at_q@ =~= "@\""@);
        assert(at_at_q@ =~= "@@\""@);
        assert(at_at@ =~= "@@"@);
        assert(at@ =~= "@"@);
    }
    let text: Vec<char> = match quoted {
        Some(_) => if quoted_read {
            Vec::new()
        } else {
            let first = match crate::text::find_sub_exec(s.as_slice(), at_q.as_slice()) {
                Some(i) => {
                    assert(at_q@.len() == 2);
                    let n = s.len();
                    assert(i + 2 <= n);
                    let mut t = crate::text::slice_chars(s.as_slice(), 0, i);
                    crate::text::extend_chars(&mut t, at_at_q.as_slice());
                    let tail = crate::text::slice_chars(s.as_slice(), i + 2, s.len());
                    crate::text::extend_chars(&mut t, tail.as_slice());
                    assert(t@ =~= replace_first(input@, "@\""@, "@@\""@));
                    t
                },
                None => s,
            };
            crate::prompts::replace_all_chars(first.as_slice(), at_at.as_slice(), at.as_slice())
        },
        None => crate::prompts::replace_all_chars(s.as_slice(), at_at.as_slice(), at.as_slice()),
    };
    assert(text@ == scanned_text(input@, quoted_read));
    let words = crate::text::split_ws(text.as_slice());
    let mut r: Vec<WordRef> = Vec::new();
    let mut i: usize = 0;
    while i < words.len()
        invariant
            i <= words@.len(),
            r@.len() == i,
            forall|k: int|
                0 <= k < i ==> (#[trigger] r@[k]).word@ == words@[k]@
                    && crate::paths::opt_str_view(r@[k].reference) == word_reference(r@[k].word@),
        decreases words.len() - i,
    {
        let w = &words[i];
        let reference = if w.len() > 1 && w[0] == '@' {
            let rest = crate::text::slice_chars(w.as_slice(), 1, w.len());
            assert(rest@ =~= w@.skip(1));
            Some(string_of(rest.as_slice()))
        } else {
            None
        };
        r.push(WordRef { word: string_of(w.as_slice()), reference });
        i += 1;
    }
    r
}

// ---------------------------------------------------------------------------
// Assembling the text
// ---------------------------------------------------------------------------

/// The parts of the rest of the message around a quoted reference that
/// was read: the trimmed text before and after it, where not blank.
pub open spec fn around_parts(q: Option<(Seq<char>, Seq<char>, Seq<char>)>, quoted_read: bool) -> Seq<Seq<char>> {
    match q {
        Some((b, n, a)) => if quoted_read {
            (if trim_ws(b).len() > 0 {
                seq![trim_ws(b)]
            } else {
                Seq::<Seq<char>>::empty()
            }) + (if trim_ws(a).len() > 0 {
                seq![trim_ws(a)]
            } else {
                Seq::<Seq<char>>::empty()
            })
        } else {
            seq![]
        },
        None => seq![],
    }
}

/// The words kept as text: those without a reference, and those whose
/// reference could not be read (`read[i]` is `None`).
pub open spec fn kept_words(words: Seq<Seq<char>>, read: Seq<(Seq<Seq<char>>, bool)>) -> Seq<Seq<char>>
    decreases words.len(),
{
    if words.len() == 0 {
        seq![]
    } else {
        let i = words.len() - 1;
        kept_words(words.drop_last(), read.take(i)) + if word_reference(words[i]) is None
            || !read[i].1 {
            seq![words[i]]
        } else {
            Seq::<Seq<char>>::empty()
        }
    }
}

/// The file texts read for the words' references, in order.
pub open spec fn word_parts(words: Seq<Seq<char>>, read: Seq<(Seq<Seq<char>>, bool)>) -> Seq<Seq<char>>
    decreases words.len(),
{
    if words.len() == 0 {
        seq![]
    } else {
        let i = words.len() - 1;
        word_parts(words.drop_last(), read.take(i)) + if word_reference(words[i]) is Some {
            read[i].0
        } else {
            Seq::<Seq<char>>::empty()
        }
    }
}

/// The processed text: the file texts (of the quoted reference, then of
/// the words), then the rest of the message, separated by blank lines.
pub open spec fn processed_text(
    q: Option<(Seq<char>, Seq<char>, Seq<char>)>,
    quoted_read: bool,
    quoted_parts: Seq<Seq<char>>,
    words: Seq<Seq<char>>,
    read: Seq<(Seq<Seq<char>>, bool)>,
) -> Seq<char> {
    let kept = kept_words(words, read);
    let rest_parts = around_parts(q, quoted_read) + if kept.len() > 0 {
        seq![join(kept, " "@)]
    } else {
        Seq::<Seq<char>>::empty()
    };
    let rest = join(rest_parts, " "@);
    let files = quoted_parts + word_parts(words, read);
    join(
        files + if rest.len() > 0 {
            seq![rest]
        } else {
            Seq::<Seq<char>>::empty()
        },
        "\n\n"@,
    )
}

/// The views of the results of reading the words' references.
pub open spec fn read_views(read: Seq<(Vec<String>, bool)>) -> Seq<(Seq<Seq<char>>, bool)> {
    read.map_values(|o: (Vec<String>, bool)| (o.0@.map_values(|x: String| x@), o.1))
}

fn push_string_chars(dst: &mut Vec<Vec<char>>, src: &Vec<String>)
    ensures
        final(dst)@.map_values(|c: Vec<char>| c@) == old(dst)@.map_values(|c: Vec<char>| c@)
            + src@.map_values(|x: String| x@),
{
    let mut i: usize = 0;
    while i < src.len()
        invariant
            i <= src@.len(),
            dst@.map_values(|c: Vec<char>| c@) == old(dst)@.map_values(|c: Vec<char>| c@)
                + src@.map_values(|x: String| x@).take(i as int),
        decreases src.len() - i,
    {
        let ghost before = dst@.map_values(|c: Vec<char>| c@);
        dst.push(chars_of(src[i].as_str()));
        assert(dst@.map_values(|c: Vec<char>| c@) =~= before.push(src@[i as int]@));
        assert(src@.map_values(|x: String| x@).take(i + 1) =~= src@.map_values(|x: String| x@).take(
            i as int,
        ).push(src@[i as int]@));
        i += 1;
    }
    assert(src@.map_values(|x: String| x@).take(src@.len() as int) =~= src@.map_values(
        |x: String| x@,
    ));
}

/// The text of the processed input: the texts of the files read for the
/// quoted reference and for the words (`read[i]` holds those of word `i`
/// and whether all of its reference could be read; a reference that failed
/// part way keeps the texts read before the failure, and its word), then
/// the rest of the message.
pub fn assemble_text(
    quoted: &Option<QuotedRef>,
    quoted_read: bool,
    quoted_parts: &Vec<String>,
    words: &Vec<WordRef>,
    read: &Vec<(Vec<String>, bool)>,
) -> (r: String)
    requires
        read@.len() == words@.len(),
        forall|i: int| 0 <= i < words@.len() ==> crate::paths::opt_str_view(#[trigger] words@[i].reference)
            == word_reference(words@[i].word@),
    ensures
        r@ == processed_text(
            quoted_view(*quoted),
            quoted_read,
            quoted_parts@.map_values(|x: String| x@),
            words@.map_values(|w: WordRef| w.word@),
            read_views(read@),
        ),
{
    let ghost wv = words@.map_values(|w: WordRef| w.word@);
    let ghost rv = read_views(read@);
    let mut files: Vec<Vec<char>> = Vec::new();
    push_string_chars(&mut files, quoted_parts);
    let ghost head = files@.map_values(|c: Vec<char>| c@);
    assert(head =~= quoted_parts@.map_values(|x: String| x@));
    let mut kept: Vec<Vec<char>> = Vec::new();
    let mut i: usize = 0;
    assert(wv.take(0) =~= Seq::<Seq<char>>::empty());
    while i < words.len()
        invariant
            i <= words@.len(),
            read@.len() == words@.len(),
            wv == words@.map_values(|w: WordRef| w.word@),
            rv == read_views(read@),
            forall|k: int| 0 <= k < words@.len() ==> crate::paths::opt_str_view(#[trigger] words@[k].reference)
                == word_reference(words@[k].word@),
            kept@.map_values(|c: Vec<char>| c@) == kept_words(wv.take(i as int), rv.take(i as int)),
            files@.map_values(|c: Vec<char>| c@) == head + word_parts(wv.take(i as int), rv.take(i as int)),
        decreases words.len() - i,
    {
        assert(wv.take(i + 1).drop_last() =~= wv.take(i as int));
        assert(rv.take(i + 1).take(i as int) =~= rv.take(i as int));
        assert(wv.take(i + 1)[i as int] == words@[i as int].word@);
        assert(rv.take(i + 1)[i as int] == rv[i as int]);
        let ghost kb = kept@.map_values(|c: Vec<char>| c@);
        let ghost fb = files@.map_values(|c: Vec<char>| c@);
        let w = &words[i];
        let has_ref = w.reference.is_some();
        let (parts, fully_read) = (&read[i].0, read[i].1);
        if has_ref {
            push_string_chars(&mut files, parts);
        } else {
            assert(files@.map_values(|c: Vec<char>| c@) =~= fb + Seq::<Seq<char>>::empty());
        }
        if !has_ref || !fully_read {
            kept.push(chars_of(w.word.as_str()));
            assert(kept@.map_values(|c: Vec<char>| c@) =~= kb + seq![w.word@]);
        } else {
            assert(kept@.map_values(|c: Vec<char>| c@) =~= kb + Seq::<Seq<char>>::empty());
        }
        assert(files@.map_values(|c: Vec<char>| c@) =~= head + word_parts(wv.take(i + 1), rv.take(i + 1)));
        i += 1;
    }
    assert(wv.take(wv.len() as int) =~= wv);
    assert(rv.take(rv.len() as int) =~= rv);
    let mut rest_parts: Vec<Vec<char>> = Vec::new();
    if quoted_read {
        match quoted {
            Some(q) => {
                let b = crate::text::trim_exec(chars_of(q.before.as_str()).as_slice());
                if b.len() > 0 {
                    rest_parts.push(b);
                }
                let a = crate::text::trim_exec(chars_of(q.after.as_str()).as_slice());
                if a.len() > 0 {
                    rest_parts.push(a);
                }
            },
            None => {},
        }
    }
    let ghost around = rest_parts@.map_values(|c: Vec<char>| c@);
    assert(around =~= around_parts(quoted_view(*quoted), quoted_read));
    let sp: Vec<char> = vec![' '];
    proof {
        reveal_strlit(" ");
        assert(sp@ =~= " "@);
    }
    let ghost kv = kept_words(wv, rv);
    assert(kept@.map_values(|c: Vec<char>| c@) == kv);
    if kept.len() > 0 {
        let k = crate::text::join_chars(&kept, sp.as_slice());
        rest_parts.push(k);
        assert(rest_parts@.map_values(|c: Vec<char>| c@) =~= around + seq![join(kv, " "@)]);
    } else {
        assert(rest_parts@.map_values(|c: Vec<char>| c@) =~= around + Seq::<Seq<char>>::empty());
    }
    let rest = crate::text::join_chars(&rest_parts, sp.as_slice());
    let ghost fv = files@.map_values(|c: Vec<char>| c@);
    assert(fv == quoted_parts@.map_values(|x: String| x@) + word_parts(wv, rv));
    if rest.len() > 0 {
        files.push(rest);
        assert(files@.map_values(|c: Vec<char>| c@) =~= fv + seq![rest@]);
    } else {
        assert(files@.map_values(|c: Vec<char>| c@) =~= fv + Seq::<Seq<char>>::empty());
    }
    let nn: Vec<char> = vec!['\n', '\n'];
    proof {
        reveal_strlit("\n\n");
        assert(nn@ =~= "\n\n"@);
    }
    let out = crate::text::join_chars(&files, nn.as_slice());
    string_of(out.as_slice())
}

} // verus!
