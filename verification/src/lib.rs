//! Auxiliary routines for testing.
//!
//! The library looks for files in a directory and plans the copy of a file
//! together with the files that it refers to. It touches no file system
//! itself: a caller reads directories, asks what lies at a path, copies and
//! writes, and hands what it learned to the functions here, which decide.

use vstd::prelude::*;

pub mod copy;
pub mod find;
pub mod path;
pub mod scan;
pub mod text;

verus! {

/// What a file system shows at a path.
#[derive(Clone, Copy, Debug, PartialEq, Eq, Structural)]
pub enum Status {
    /// Nothing that can be examined: there is nothing at the path, or what
    /// is there cannot be looked at.
    Missing,
    /// A directory.
    Directory,
    /// Anything else.
    File,
}

impl Status {
    /// What a query about a path shows: nothing where the query failed,
    /// and else a directory or a file, as the query tells.
    pub fn of(directory: Option<bool>) -> (status: Status)
        ensures
            status == match directory {
                None => Status::Missing,
                Some(true) => Status::Directory,
                Some(false) => Status::File,
            },
    {
        match directory {
            None => Status::Missing,
            Some(true) => Status::Directory,
            Some(false) => Status::File,
        }
    }
}

/// Check if what a path shows exists and is not a directory.
pub fn file_exists(status: Status) -> (found: bool)
    ensures
        found == (status == Status::File),
{
    match status {
        Status::File => true,
        _ => false,
    }
}

} // verus!
