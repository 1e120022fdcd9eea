//! Paths held as text.
//!
//! How a path falls into components is left to `std::path::Path`. It goes
//! by the rules of the platform and looks at no file system, so what it
//! answers depends on the text of the path alone. That answer is given a
//! name here, and the functions that ask for it are trusted to return just
//! that. What an extension is, is defined and computed here.

use std::path::Path;
use vstd::prelude::*;
use vstd::string::*;
use crate::text::{lowered, positions, same_lowered};

verus! {

/// The final component of `path`, where it has one: what
/// `std::path::Path::file_name` returns for a path with this text.
pub uninterp spec fn path_file_name(path: Seq<char>) -> Option<Seq<char>>;

/// Whether `path` is relative: what `std::path::Path::is_relative` returns
/// for a path with this text.
pub uninterp spec fn path_is_relative(path: Seq<char>) -> bool;

/// `path` without its final component, where it has one: what
/// `std::path::Path::parent` returns for a path with this text.
pub uninterp spec fn path_parent(path: Seq<char>) -> Option<Seq<char>>;

/// `name` adjoined to `base`: what `std::path::Path::join` returns for
/// paths with these texts.
pub uninterp spec fn path_join(base: Seq<char>, name: Seq<char>) -> Seq<char>;

/// Calls `std::path::Path::file_name`. Trusted, not proved: the answer
/// depends on the text of `path` alone, and is `path_file_name` of it.
#[verifier::external_body]
pub(crate) fn file_name(path: &str) -> (name: Option<&str>)
    ensures
        name.deep_view() == path_file_name(path@),
{
    Path::new(path).file_name()?.to_str()
}

/// Calls `std::path::Path::is_relative`. Trusted, not proved: the answer
/// depends on the text of `path` alone, and is `path_is_relative` of it.
#[verifier::external_body]
pub(crate) fn is_relative(path: &str) -> (relative: bool)
    ensures
        relative == path_is_relative(path@),
{
    Path::new(path).is_relative()
}

/// Calls `std::path::Path::parent`. Trusted, not proved: the answer depends
/// on the text of `path` alone, and is `path_parent` of it.
#[verifier::external_body]
pub(crate) fn parent(path: &str) -> (directory: Option<&str>)
    ensures
        directory.deep_view() == path_parent(path@),
{
    Path::new(path).parent()?.to_str()
}

/// Calls `std::path::Path::join`. Trusted, not proved: the answer depends
/// on the two texts alone, and is `path_join` of them.
#[verifier::external_body]
pub(crate) fn join(base: &str, name: &str) -> (joined: String)
    ensures
        joined@ == path_join(base@, name@),
{
    Path::new(base).join(name).to_string_lossy().into_owned()
}

/// The extension of a file with the name `name`: what follows the last `.`
/// of the name, unless that `.` is the name's first character or the name
/// has none.
pub open spec fn extension_of(name: Seq<char>) -> Option<Seq<char>> {
    match name.index_of_last('.') {
        Some(dot) if dot > 0 => Some(name.subrange(dot + 1, name.len() as int)),
        _ => None,
    }
}

/// The extension of a file name, without the dot before it.
pub fn extension(name: &str) -> (found: Option<&str>)
    ensures
        found.deep_view() == extension_of(name@),
{
    let n = name.unicode_len();
    proof {
        name@.index_of_last_ensures('.');
    }
    match positions(name, '.') {
        Some((_, dot)) if dot > 0 => Some(name.substring_char(dot + 1, n)),
        _ => None,
    }
}

/// Whether a file with the name `name` has the extension `extension`, the
/// case of ASCII letters aside.
pub open spec fn fits(name: Seq<char>, extension: Seq<char>) -> bool {
    extension_of(name) matches Some(actual) && lowered(actual) == lowered(extension)
}

/// Whether a file name has a given extension, the case of ASCII letters
/// aside: both extensions are compared in lower case. A name without an
/// extension has none.
pub fn has_extension(name: &str, extension: &str) -> (has: bool)
    ensures
        has == fits(name@, extension@),
{
    match self::extension(name) {
        Some(actual) => same_lowered(actual, extension),
        None => false,
    }
}

} // verus!
