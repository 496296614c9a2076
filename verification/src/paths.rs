//! Paths of the host, held as text and read by the standard library.
//!
//! What the standard library makes of a path depends on the texts handed
//! to it alone, so each result has a name; what the name stands for the
//! standard library decides.

use vstd::prelude::*;

verus! {

/// The path that `Path::join` makes of `base` and `part`: `part` adjoined
/// to `base`, or `part` itself where it is absolute.
pub uninterp spec fn joined_path(base: Seq<char>, part: Seq<char>) -> Seq<char>;

/// Whether `Path::eq` takes both texts for the same path: it compares
/// them component by component.
pub uninterp spec fn same_paths(one: Seq<char>, other: Seq<char>) -> bool;

/// The parent that `Path::parent` finds: the path without its last
/// component, if it has one.
pub uninterp spec fn parent_of(path: Seq<char>) -> Option<Seq<char>>;

/// The last component of a path that `Path::file_name` finds, if the path
/// has one and does not end in `..`.
pub uninterp spec fn last_component(path: Seq<char>) -> Option<Seq<char>>;

/// Joins `part` to `base` with `Path::join`. The result is the one that
/// `joined_path` names.
#[verifier::external_body]
pub(crate) fn join_path(base: &str, part: &str) -> (joined: String)
    ensures
        joined@ == joined_path(base@, part@),
{
    std::path::Path::new(base).join(part).to_string_lossy().into_owned()
}

/// Compares two paths with `Path::eq`. The result is the one that
/// `same_paths` names.
#[verifier::external_body]
pub(crate) fn same_path(one: &str, other: &str) -> (same: bool)
    ensures
        same == same_paths(one@, other@),
{
    std::path::Path::new(one) == std::path::Path::new(other)
}

/// Asks `Path::parent` for the parent of a path. The result is the one
/// that `parent_of` names.
#[verifier::external_body]
pub(crate) fn parent_path(path: &str) -> (parent: Option<String>)
    ensures
        match parent {
            Some(parent) => parent_of(path@) == Some(parent@),
            None => parent_of(path@) is None,
        },
{
    std::path::Path::new(path).parent().map(|parent| parent.to_string_lossy().into_owned())
}

/// Asks `Path::file_name` for the last component of a path. The result is
/// the one that `last_component` names.
#[verifier::external_body]
pub(crate) fn file_name_of(path: &str) -> (name: Option<String>)
    ensures
        match name {
            Some(name) => last_component(path@) == Some(name@),
            None => last_component(path@) is None,
        },
{
    std::path::Path::new(path).file_name().map(|name| name.to_string_lossy().into_owned())
}

} // verus!
