//! The `std::path` operations the editor relies on, for paths held as
//! strings.
//!
//! `Path` compares, splits and joins paths by their components, which is
//! more than the editor's logic needs to know: each result is named here,
//! with only the facts that std's documentation plainly gives.
use vstd::prelude::*;

verus! {

/// Whether `Path` counts two paths as the same path although they are
/// different strings (such as `"a//b"` and `"a/b"`).
pub uninterp spec fn same_path_apart(a: Seq<char>, b: Seq<char>) -> bool;

/// Whether `Path` counts two paths as the same path: equal strings always
/// are, and different strings where their components agree.
pub open spec fn same_path(a: Seq<char>, b: Seq<char>) -> bool {
    a == b || same_path_apart(a, b)
}

/// Whether `a` and `b` name the same path (`==` on `Path`, which compares
/// the paths component by component, so that `"a//b"` equals `"a/b"`).
/// Only that equal strings are the same path is stated; for different
/// strings the answer is named.
#[verifier::external_body]
pub(crate) fn path_eq(a: &str, b: &str) -> (r: bool)
    ensures
        r == (a@ == b@ || same_path_apart(a@, b@)),
{
    std::path::Path::new(a) == std::path::Path::new(b)
}

/// What `Path::file_name` gives for a path.
pub uninterp spec fn file_name_of(path: Seq<char>) -> Option<Seq<char>>;

/// The last component of `path` (`Path::file_name`), or `None` where the
/// path ends in `..` or is a root.
#[verifier::external_body]
pub(crate) fn path_file_name(path: &str) -> (name: Option<String>)
    ensures
        match name {
            Some(n) => file_name_of(path@) == Some(n@),
            None => file_name_of(path@) is None,
        },
{
    std::path::Path::new(path).file_name().and_then(|n| n.to_str()).map(|n| n.to_string())
}

/// What `Path::parent` gives for a path.
pub uninterp spec fn parent_of(path: Seq<char>) -> Option<Seq<char>>;

/// The path without its last component (`Path::parent`), or `None` for a
/// root or an empty path.
#[verifier::external_body]
pub(crate) fn path_parent(path: &str) -> (parent: Option<String>)
    ensures
        match parent {
            Some(p) => parent_of(path@) == Some(p@),
            None => parent_of(path@) is None,
        },
{
    std::path::Path::new(path).parent().and_then(|p| p.to_str()).map(|p| p.to_string())
}

/// What `Path::join` gives for two paths.
pub uninterp spec fn joined(base: Seq<char>, name: Seq<char>) -> Seq<char>;

/// `base` with `name` appended as a further component (`Path::join`).
#[verifier::external_body]
pub(crate) fn path_join(base: &str, name: &str) -> (p: String)
    ensures
        p@ == joined(base@, name@),
{
    std::path::Path::new(base).join(name).to_string_lossy().to_string()
}

/// What `Path::starts_with` says of two paths.
pub uninterp spec fn has_prefix_path(path: Seq<char>, base: Seq<char>) -> bool;

/// Whether the components of `base` begin those of `path`
/// (`Path::starts_with`).
#[verifier::external_body]
pub(crate) fn path_starts_with(path: &str, base: &str) -> (r: bool)
    ensures
        r == has_prefix_path(path@, base@),
{
    std::path::Path::new(path).starts_with(base)
}

} // verus!
