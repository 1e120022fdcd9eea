//! Routines for copying.
//!
//! A file is copied line by line. A line may refer to another file by a
//! path between quotation marks. Where that file exists, it is copied
//! beside the copy of the first file, and the line is written with the path
//! of that new copy between the quotation marks. Every other line is
//! written as it stands. The files so copied are not looked into.
//!
//! The functions here decide; the caller acts. It gets a [`Copier`] from
//! [`with_references`], hands it each line, and is told to write a text or
//! to find out what lies at a path; with that answer the [`Reference`]
//! tells what to copy and what to write.

use vstd::prelude::*;
use vstd::string::*;
use crate::path::{file_name, is_relative, join, parent};
use crate::path::{path_file_name, path_is_relative, path_join, path_parent};
use crate::text::positions;
use crate::Status;

verus! {

/// Why a copy cannot be planned.
#[derive(Clone, Copy, Debug, PartialEq, Eq, Structural)]
pub enum Error {
    /// A path has no parent directory.
    NoParent,
}

/// The parts of a line around its first and its last quotation mark, where
/// these are two: what ends with the first, what lies between them, and
/// what starts with the last.
pub open spec fn cut(line: Seq<char>) -> Option<(Seq<char>, Seq<char>, Seq<char>)> {
    match (line.index_of_first('"'), line.index_of_last('"')) {
        (Some(first), Some(last)) if first < last => Some(
            (
                line.subrange(0, first + 1),
                line.subrange(first + 1, last),
                line.subrange(last, line.len() as int),
            ),
        ),
        _ => None,
    }
}

/// A line is cut where it has two quotation marks or more. Its parts make
/// up the line; the first part ends with a quotation mark and has no other,
/// and the last part starts with one and has no other.
pub proof fn lemma_cut(line: Seq<char>)
    ensures
        cut(line) is Some <==> exists|i: int, j: int|
            0 <= i < j < line.len() && line[i] == '"' && line[j] == '"',
        cut(line) matches Some((prefix, middle, suffix)) ==> {
            &&& prefix + middle + suffix == line
            &&& prefix.len() > 0 && prefix.last() == '"' && !prefix.drop_last().contains('"')
            &&& suffix.len() > 0 && suffix.first() == '"' && !suffix.drop_first().contains('"')
        },
        !line.contains('"') ==> cut(line) is None,
{
    line.index_of_first_ensures('"');
    line.index_of_last_ensures('"');
}

/// Whether `line` refers to a file: it has a part between quotation marks,
/// and that part, read as a path, has a final component.
pub open spec fn refers(line: Seq<char>) -> bool {
    cut(line) matches Some((_, middle, _)) && path_file_name(middle) is Some
}

/// A file without a quotation mark refers to no file: none of its lines
/// does. So each of them is written as it is, and nothing is looked for or
/// copied.
pub proof fn lemma_plain_file(lines: Seq<Seq<char>>)
    requires
        forall|i: int| 0 <= i < lines.len() ==> !(#[trigger] lines[i]).contains('"'),
    ensures
        forall|i: int| 0 <= i < lines.len() ==> !refers(#[trigger] lines[i]),
{
    assert forall|i: int| 0 <= i < lines.len() implies !refers(#[trigger] lines[i]) by {
        lemma_cut(lines[i]);
    }
}

/// Cut a line at its first and its last quotation mark.
pub fn split(line: &str) -> (parts: Option<(&str, &str, &str)>)
    ensures
        match parts {
            Some((prefix, middle, suffix)) => cut(line@) == Some((prefix@, middle@, suffix@)),
            None => cut(line@) is None,
        },
{
    let n = line.unicode_len();
    proof {
        line@.index_of_first_ensures('"');
        line@.index_of_last_ensures('"');
    }
    match positions(line, '"') {
        Some((first, last)) if first < last => Some(
            (
                line.substring_char(0, first + 1),
                line.substring_char(first + 1, last),
                line.substring_char(last, n),
            ),
        ),
        _ => None,
    }
}

/// A line as it is written out: its text and a line feed.
pub open spec fn terminated(line: Seq<char>) -> Seq<char> {
    line.push('\n')
}

/// The text `line`, followed by a line feed.
fn terminate(line: String) -> (text: String)
    ensures
        text@ == terminated(line@),
{
    proof {
        reveal_strlit("\n");
    }
    line.concat("\n")
}

/// A line that refers to a file, with the places of that file and of its
/// copy.
#[derive(Clone, Debug, PartialEq, Eq)]
pub struct Reference {
    /// The line.
    pub line: String,
    /// The line up to its first quotation mark, the mark included.
    pub prefix: String,
    /// The line from its last quotation mark on.
    pub suffix: String,
    /// Where the file is looked for.
    pub source: String,
    /// Where the copy of the file is put.
    pub destination: String,
}

/// What is to be done about a line.
#[derive(Clone, Debug, PartialEq, Eq)]
pub enum Step {
    /// Write the text.
    Write(String),
    /// Find out what lies at the source of the reference, and let the
    /// reference settle the rest.
    Probe(Reference),
}

/// What is to be done about a reference.
#[derive(Clone, Debug, PartialEq, Eq)]
pub enum Action {
    /// Write the text.
    Write(String),
    /// Copy the file at `source` to `destination`, replacing what may be
    /// there, then write the text. If the copy fails, all has failed.
    Copy {
        /// Where the file is.
        source: String,
        /// Where its copy is put.
        destination: String,
        /// The line with the place of the copy between its outermost
        /// quotation marks, and a line feed.
        text: String,
    },
}

impl Reference {
    /// What is to be done once it is known what lies at the source.
    ///
    /// A file is copied, and the line is written with the copy's place
    /// between its outermost quotation marks. Where there is no file, or a
    /// directory, nothing is copied and the line is written as it is.
    pub fn settle(self, status: Status) -> (action: Action)
        ensures
            status == Status::File ==> (action matches Action::Copy { source, destination, text }
                && source@ == self.source@ && destination@ == self.destination@ && text@
                == terminated(self.prefix@ + self.destination@ + self.suffix@)),
            status != Status::File ==> (action matches Action::Write(text) && text@ == terminated(
                self.line@,
            )),
    {
        match status {
            Status::File => {
                let mut text = self.prefix;
                text.append(self.destination.as_str());
                text.append(self.suffix.as_str());
                Action::Copy {
                    source: self.source,
                    destination: self.destination,
                    text: terminate(text),
                }
            },
            _ => Action::Write(terminate(self.line)),
        }
    }
}

/// The copy of one file into another place.
#[derive(Clone, Debug, PartialEq, Eq)]
pub struct Copier {
    /// The directory of the file.
    pub from: String,
    /// The directory of its copy.
    pub into: String,
}

impl Copier {
    /// Where the file that a line refers to by `middle` is looked for: under
    /// its name in the directory of the file that is copied, if `middle` is
    /// relative, and at `middle` itself, if it is not.
    pub open spec fn origin(self, middle: Seq<char>) -> Seq<char> {
        if path_is_relative(middle) {
            path_join(self.from@, path_file_name(middle).unwrap())
        } else {
            middle
        }
    }

    /// Where the copy of the file that a line refers to by `middle` is put:
    /// under its name in the directory of the copy.
    pub open spec fn target(self, middle: Seq<char>) -> Seq<char> {
        path_join(self.into@, path_file_name(middle).unwrap())
    }

    /// The copy from one directory into another, where both are known.
    pub fn between(from: Option<&str>, into: Option<&str>) -> (copier: Result<Copier, Error>)
        ensures
            match copier {
                Ok(copier) => from.deep_view() == Some(copier.from@) && into.deep_view() == Some(
                    copier.into@,
                ),
                Err(error) => error == Error::NoParent && (from is None || into is None),
            },
    {
        match (from, into) {
            (Some(from), Some(into)) => Ok(
                Copier { from: String::from_str(from), into: String::from_str(into) },
            ),
            _ => Err(Error::NoParent),
        }
    }

    /// Where the file that a line refers to by `middle` is looked for and
    /// where its copy is put, given what is known of `middle` as a path: its
    /// final component, and whether it is relative. Without a final
    /// component there is no file to look for.
    pub fn locate(&self, middle: &str, name: Option<&str>, relative: bool) -> (places: Option<
        (String, String),
    >)
        ensures
            match name {
                Some(name) => places matches Some((source, destination)) && source@ == (
                if relative {
                    path_join(self.from@, name@)
                } else {
                    middle@
                }) && destination@ == path_join(self.into@, name@),
                None => places is None,
            },
    {
        match name {
            Some(name) => {
                let source = if relative {
                    join(self.from.as_str(), name)
                } else {
                    String::from_str(middle)
                };
                Some((source, join(self.into.as_str(), name)))
            },
            None => None,
        }
    }

    /// What is to be done about one line of the file.
    ///
    /// A line that refers to no file is written as it is; so is every line
    /// without a quotation mark. For a line that does refer to a file, the
    /// places of the file and of its copy are worked out.
    pub fn read(&self, line: &str) -> (step: Step)
        ensures
            match step {
                Step::Write(text) => !refers(line@) && text@ == terminated(line@),
                Step::Probe(reference) => {
                    &&& reference.line@ == line@
                    &&& cut(line@) matches Some((prefix, middle, suffix))
                    &&& path_file_name(middle) is Some
                    &&& reference.prefix@ == prefix
                    &&& reference.suffix@ == suffix
                    &&& reference.source@ == self.origin(middle)
                    &&& reference.destination@ == self.target(middle)
                },
            },
            !line@.contains('"') ==> step is Write,
    {
        proof {
            lemma_cut(line@);
        }
        if let Some((prefix, middle, suffix)) = split(line) {
            if let Some((source, destination)) = self.locate(
                middle,
                file_name(middle),
                is_relative(middle),
            ) {
                return Step::Probe(
                    Reference {
                        line: String::from_str(line),
                        prefix: String::from_str(prefix),
                        suffix: String::from_str(suffix),
                        source,
                        destination,
                    },
                );
            }
        }
        Step::Write(terminate(String::from_str(line)))
    }
}

/// Copy a file along with those files that the file refers to.
///
/// The references are taken to lie beside the file, and their copies are
/// put beside its copy: so both `source` and `destination` need a parent
/// directory.
pub fn with_references(source: &str, destination: &str) -> (copier: Result<Copier, Error>)
    ensures
        match copier {
            Ok(copier) => path_parent(source@) == Some(copier.from@) && path_parent(destination@)
                == Some(copier.into@),
            Err(error) => error == Error::NoParent && (path_parent(source@) is None || path_parent(
                destination@,
            ) is None),
        },
{
    Copier::between(parent(source), parent(destination))
}

} // verus!
