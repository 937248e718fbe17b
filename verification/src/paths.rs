//! File-system paths as text, and the operations of `std::path` on them.
//!
//! A path is held as a `String`; what `std::path` computes from it is named
//! here and trusted as the standard library documents it.

use vstd::prelude::*;

verus! {

/// The components of a path, as `std::path::Path::components` yields them:
/// repeated separators, inner `.` components and a trailing separator do
/// not show.
pub uninterp spec fn path_components(path: Seq<char>) -> Seq<Seq<char>>;

/// The path without its last component, as `std::path::Path::parent` gives
/// it; `None` where the path ends in a root or is empty.
pub uninterp spec fn path_parent(path: Seq<char>) -> Option<Seq<char>>;

/// The last component of a path, as `std::path::Path::file_name` gives it;
/// `None` where the path ends in `..` or has no component.
pub uninterp spec fn path_file_name(path: Seq<char>) -> Option<Seq<char>>;

/// What is left of a path behind the prefix `base`, as
/// `std::path::Path::strip_prefix` gives it; `None` where `base` is no
/// prefix of the path.
pub uninterp spec fn path_strip_prefix(path: Seq<char>, base: Seq<char>) -> Option<Seq<char>>;

/// The path `rel` adjoined to `base`, as `std::path::Path::join` gives it.
pub uninterp spec fn path_join(base: Seq<char>, rel: Seq<char>) -> Seq<char>;

/// Two paths are the same path when their components are equal.
pub open spec fn same_path(a: Seq<char>, b: Seq<char>) -> bool {
    path_components(a) == path_components(b)
}

/// Two optional paths are the same when both are absent or both are present
/// and the same path.
pub open spec fn same_opt_path(a: Option<Seq<char>>, b: Option<Seq<char>>) -> bool {
    match (a, b) {
        (None, None) => true,
        (Some(x), Some(y)) => same_path(x, y),
        _ => false,
    }
}

/// The view of an optional path.
pub open spec fn opt_text(p: Option<String>) -> Option<Seq<char>> {
    match p {
        Some(s) => Some(s@),
        None => None,
    }
}

/// Calls `std::path::Path::eq`. Believed of it: two paths are equal exactly
/// if they have the same components.
#[verifier::external_body]
pub(crate) fn paths_equal(a: &str, b: &str) -> (r: bool)
    ensures
        r == (path_components(a@) == path_components(b@)),
{
    std::path::Path::new(a) == std::path::Path::new(b)
}

/// Calls `std::path::Path::parent` on the text as a path. Believed of it:
/// the result depends on the text alone, and is text again.
#[verifier::external_body]
pub(crate) fn parent_dir(path: &str) -> (r: Option<String>)
    ensures
        opt_text(r) == path_parent(path@),
{
    match std::path::Path::new(path).parent() {
        Some(p) => Some(p.to_string_lossy().into_owned()),
        None => None,
    }
}

/// Calls `std::path::Path::file_name` on the text as a path. Believed of
/// it: the result depends on the text alone, and is text again.
#[verifier::external_body]
pub(crate) fn last_component(path: &str) -> (r: Option<String>)
    ensures
        opt_text(r) == path_file_name(path@),
{
    match std::path::Path::new(path).file_name() {
        Some(name) => Some(name.to_string_lossy().into_owned()),
        None => None,
    }
}

/// Calls `std::path::Path::strip_prefix` on the texts as paths. Believed
/// of it: the result depends on the two texts alone, and is text again.
#[verifier::external_body]
pub(crate) fn strip_base(path: &str, base: &str) -> (r: Option<String>)
    ensures
        opt_text(r) == path_strip_prefix(path@, base@),
{
    match std::path::Path::new(path).strip_prefix(base) {
        Ok(p) => Some(p.to_string_lossy().into_owned()),
        Err(_) => None,
    }
}

/// Calls `std::path::Path::join` on the texts as paths. Believed of it:
/// the result depends on the two texts alone, and is text again.
#[verifier::external_body]
pub(crate) fn join_path(base: &str, rel: &str) -> (r: String)
    ensures
        r@ == path_join(base@, rel@),
{
    std::path::Path::new(base).join(rel).to_string_lossy().into_owned()
}

/// Whether a path has a parent: it has none where it ends in a root or is
/// empty.
pub fn has_parent(path: &str) -> (b: bool)
    ensures
        b == (path_parent(path@) is Some),
{
    parent_dir(path).is_some()
}

/// Whether a path has a file name: it has none where it ends in `..` or
/// has no component at all.
pub fn has_file_name(path: &str) -> (b: bool)
    ensures
        b == (path_file_name(path@) is Some),
{
    last_component(path).is_some()
}

/// Whether two optional paths are the same.
pub(crate) fn opt_paths_equal(a: &Option<String>, b: &Option<String>) -> (r: bool)
    ensures
        r == same_opt_path(opt_text(*a), opt_text(*b)),
{
    match (a, b) {
        (None, None) => true,
        (Some(x), Some(y)) => paths_equal(x.as_str(), y.as_str()),
        _ => false,
    }
}

} // verus!
