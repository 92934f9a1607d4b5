//! Path arithmetic on path strings. Parent, file name and join are taken from
//! `std::path`, whose rules for separators and dots are not restated here.

use crate::text::{opt_text, to_chars};
use std::path::Path;
use vstd::prelude::*;

verus! {

/// What `std::path::Path::parent` returns for `path`: the path without its
/// last component, or nothing where `path` ends in a root or is empty.
pub uninterp spec fn parent_of(path: Seq<char>) -> Option<Seq<char>>;

/// What `std::path::Path::file_name` returns for `path`: its last component,
/// or nothing where `path` ends in `..` or has no component.
pub uninterp spec fn file_name_of(path: Seq<char>) -> Option<Seq<char>>;

/// What `std::path::Path::join` returns for `base` and `tail`.
pub uninterp spec fn joined(base: Seq<char>, tail: Seq<char>) -> Seq<char>;

/// Whether `path` is absolute: it starts at the root directory.
pub open spec fn is_absolute(path: Seq<char>) -> bool {
    path.len() > 0 && path[0] == '/'
}

/// Calls `std::path::Path::parent` on `path`. The contract only gives the
/// result its name: it is a function of `path` alone.
#[verifier::external_body]
pub(crate) fn path_parent(path: &str) -> (r: Option<String>)
    ensures
        opt_text(r) == parent_of(path@),
{
    match Path::new(path).parent() {
        Some(p) => Some(p.to_string_lossy().into_owned()),
        None => None,
    }
}

/// Calls `std::path::Path::file_name` on `path`. The contract only gives the
/// result its name: it is a function of `path` alone.
#[verifier::external_body]
pub(crate) fn path_file_name(path: &str) -> (r: Option<String>)
    ensures
        opt_text(r) == file_name_of(path@),
{
    match Path::new(path).file_name() {
        Some(n) => Some(n.to_string_lossy().into_owned()),
        None => None,
    }
}

/// Calls `std::path::Path::join` on `base` with `tail`. The contract only
/// gives the result its name: it is a function of the two paths alone.
#[verifier::external_body]
pub(crate) fn path_join(base: &str, tail: &str) -> (r: String)
    ensures
        r@ == joined(base@, tail@),
{
    Path::new(base).join(tail).to_string_lossy().into_owned()
}

/// Tells whether `path` is absolute.
pub fn is_absolute_path(path: &str) -> (r: bool)
    ensures
        r == is_absolute(path@),
{
    let chars = to_chars(path);
    chars.len() > 0 && chars[0] == '/'
}

} // verus!
