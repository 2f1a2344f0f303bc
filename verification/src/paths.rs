//! File paths, held as strings.  The parts of a path are what
//! `std::path::Path` computes; the library names those results and builds
//! on them.

use vstd::prelude::*;

verus! {

/// The parent of path `p` as `Path::parent` gives it.
pub uninterp spec fn path_parent(p: Seq<char>) -> Option<Seq<char>>;

/// The last component of path `p` as `Path::file_name` gives it.
pub uninterp spec fn path_file_name(p: Seq<char>) -> Option<Seq<char>>;

/// The file name of path `p` without its extension, as `Path::file_stem`
/// gives it.
pub uninterp spec fn path_file_stem(p: Seq<char>) -> Option<Seq<char>>;

/// The extension of path `p` as `Path::extension` gives it.
pub uninterp spec fn path_extension(p: Seq<char>) -> Option<Seq<char>>;

/// Path `a` extended by `b`, as `Path::join` gives it.
pub uninterp spec fn path_join(a: Seq<char>, b: Seq<char>) -> Seq<char>;

/// The view of an optional string.
pub open spec fn opt_str_view(o: Option<String>) -> Option<Seq<char>> {
    match o {
        Some(s) => Some(s@),
        None => None,
    }
}

/// `Path::parent` on a path given as a string; the result is the parent's
/// text.  Nothing is claimed of it beyond its name.
#[verifier::external_body]
pub(crate) fn parent_of(p: &str) -> (r: Option<String>)
    ensures
        opt_str_view(r) == path_parent(p@),
{
    std::path::Path::new(p).parent().map(|q| q.to_string_lossy().into_owned())
}

/// `Path::file_name` on a path given as a string.
#[verifier::external_body]
pub(crate) fn file_name_of(p: &str) -> (r: Option<String>)
    ensures
        opt_str_view(r) == path_file_name(p@),
{
    std::path::Path::new(p).file_name().map(|q| q.to_string_lossy().into_owned())
}

/// `Path::file_stem` on a path given as a string.
#[verifier::external_body]
pub(crate) fn file_stem_of(p: &str) -> (r: Option<String>)
    ensures
        opt_str_view(r) == path_file_stem(p@),
{
    std::path::Path::new(p).file_stem().map(|q| q.to_string_lossy().into_owned())
}

/// `Path::extension` on a path given as a string.
#[verifier::external_body]
pub(crate) fn extension_of(p: &str) -> (r: Option<String>)
    ensures
        opt_str_view(r) == path_extension(p@),
{
    std::path::Path::new(p).extension().map(|q| q.to_string_lossy().into_owned())
}

/// `Path::join` on paths given as strings.
#[verifier::external_body]
pub(crate) fn join_path(a: &str, b: &str) -> (r: String)
    ensures
        r@ == path_join(a@, b@),
{
    std::path::Path::new(a).join(b).to_string_lossy().into_owned()
}

/// Whether path `p` is absolute, as `Path::is_absolute` tells.
pub uninterp spec fn path_is_absolute(p: Seq<char>) -> bool;

/// `p` relative to `base`, as `Path::strip_prefix` gives it.
pub uninterp spec fn path_strip_prefix(p: Seq<char>, base: Seq<char>) -> Option<Seq<char>>;

/// `Path::is_absolute` on a path given as a string.
#[verifier::external_body]
pub(crate) fn is_absolute_path(p: &str) -> (r: bool)
    ensures
        r == path_is_absolute(p@),
{
    std::path::Path::new(p).is_absolute()
}

/// `Path::strip_prefix` on paths given as strings; `None` when `base` is
/// not a prefix of `p`.
#[verifier::external_body]
pub(crate) fn strip_path_prefix(p: &str, base: &str) -> (r: Option<String>)
    ensures
        opt_str_view(r) == path_strip_prefix(p@, base@),
{
    std::path::Path::new(p).strip_prefix(base).ok().map(|q| q.to_string_lossy().into_owned())
}

/// Where a file reference points: itself when absolute, under the working
/// directory otherwise.
pub open spec fn resolved_path(file_ref: Seq<char>, cwd: Seq<char>) -> Seq<char> {
    if path_is_absolute(file_ref) {
        file_ref
    } else {
        path_join(cwd, file_ref)
    }
}

/// Where a file reference points.
pub fn resolve_file_path(file_ref: &str, cwd: &str) -> (r: String)
    ensures
        r@ == resolved_path(file_ref@, cwd@),
{
    if is_absolute_path(file_ref) {
        file_ref.to_string()
    } else {
        join_path(cwd, file_ref)
    }
}

/// How a file found by expanding a reference is named: relative to the
/// working directory when under it, as found otherwise.
pub fn display_name(path: &str, cwd: &str) -> (r: String)
    ensures
        r@ == match path_strip_prefix(path@, cwd@) {
            Some(rel) => rel,
            None => path@,
        },
{
    match strip_path_prefix(path, cwd) {
        Some(rel) => rel,
        None => path.to_string(),
    }
}

} // verus!
