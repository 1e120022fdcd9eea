//! Looking for files among the entries of one directory.
//!
//! A directory is handed over as a listing: what reading it gave, entry by
//! entry, in the order in which the entries came. The searches here walk
//! the listing once, ask a condition about the files, and return the paths
//! that the condition accepts. They never descend into a directory and
//! never return one.

use vstd::prelude::*;
use crate::path::{file_name, fits, has_extension, path_file_name};
use crate::Status;
use crate::scan::{
    admits, answers, computes, each, ends, examined, follows, head, kept, keeps, lists, scan,
    until, verdicts_of,
};
use crate::scan::{
    lemma_kept_accepted, lemma_kept_ended, lemma_kept_next, lemma_kept_once, lemma_kept_scan,
};

verus! {

/// A decision with respect to a file.
#[derive(Clone, Copy, Debug, PartialEq, Eq, Structural)]
pub enum Verdict {
    /// Accept and keep searching.
    AcceptMore,
    /// Accept and stop searching.
    AcceptStop,
    /// Reject and keep searching.
    RejectMore,
    /// Reject and stop searching.
    RejectStop,
}

impl Verdict {
    /// Whether the file is part of the result.
    pub open spec fn accepts(self) -> bool {
        self == Verdict::AcceptMore || self == Verdict::AcceptStop
    }

    /// Whether the search ends with the file.
    pub open spec fn stops(self) -> bool {
        self == Verdict::AcceptStop || self == Verdict::RejectStop
    }
}

/// What reading one entry of a directory gave.
#[derive(Clone, Debug, PartialEq, Eq)]
pub enum Entry {
    /// Something that is not a directory, with its path.
    File(String),
    /// A directory, with its path.
    Directory(String),
    /// A failure: the entry could not be read or looked at, or the directory
    /// could not be read at all.
    Unreadable,
}

impl Entry {
    /// The entry at `path`, given what the file system shows there. What
    /// cannot be looked at counts as unreadable.
    pub fn of(path: String, status: Status) -> (entry: Entry)
        ensures
            match status {
                Status::File => entry matches Entry::File(found) && found == path,
                Status::Directory => entry matches Entry::Directory(found) && found == path,
                Status::Missing => entry is Unreadable,
            },
    {
        match status {
            Status::File => Entry::File(path),
            Status::Directory => Entry::Directory(path),
            Status::Missing => Entry::Unreadable,
        }
    }
}

/// Look for some files satisfying a condition.
///
/// The entries are taken in order. Directories are passed over. On each
/// file `condition` is called: an accepted path joins the result, and a
/// verdict that stops ends the search. An unreadable entry ends it too, and
/// what was found before is returned.
///
/// Whatever `condition` does, the result is what a scan keeps under
/// verdicts that `condition` gave on the files examined. Where `condition`
/// returns a function of the path's text, the result is the scan under that
/// function.
pub fn some<F: Fn(&str) -> Verdict>(listing: &[Entry], condition: F) -> (found: Vec<String>)
    requires
        admits(condition, listing@),
    ensures
        exists|verdicts: Seq<Verdict>|
            follows(condition, |verdict: Verdict| verdict, listing@, verdicts) && found.deep_view()
                == kept(listing@, verdicts),
        forall|verdict: spec_fn(Seq<char>) -> Verdict| #[trigger]
            computes(condition, verdict) ==> found.deep_view() == scan(listing@, verdict),
{
    let mut found: Vec<String> = Vec::new();
    let ghost mut verdicts: Seq<Verdict> = Seq::new(listing@.len(), |i: int| Verdict::RejectMore);
    let mut done = false;
    let mut i: usize = 0;
    while !done && i < listing.len()
        invariant
            i <= listing@.len(),
            admits(condition, listing@),
            verdicts.len() == listing@.len(),
            forall|k: int|
                0 <= k < i ==> (#[trigger] listing@[k] matches Entry::File(path) ==> answers(
                    condition,
                    path@,
                    verdicts[k],
                )),
            found.deep_view() == kept(listing@.take(i as int), verdicts.take(i as int)),
            !done ==> examined(listing@, verdicts, i as int),
            done ==> 0 < i && examined(listing@, verdicts, i - 1) && ends(
                listing@[i - 1],
                verdicts[i - 1],
            ),
        decreases listing@.len() - i,
    {
        let ghost before = verdicts;
        match &listing[i] {
            Entry::Unreadable => {
                done = true;
            },
            Entry::Directory(_) => {},
            Entry::File(path) => {
                let verdict = condition(path.as_str());
                proof {
                    verdicts = verdicts.update(i as int, verdict);
                }
                match verdict {
                    Verdict::AcceptMore => {
                        found.push(path.clone());
                    },
                    Verdict::AcceptStop => {
                        found.push(path.clone());
                        done = true;
                    },
                    Verdict::RejectMore => {},
                    Verdict::RejectStop => {
                        done = true;
                    },
                }
            },
        }
        proof {
            assert(verdicts.take(i as int) =~= before.take(i as int));
            lemma_kept_next(listing@, verdicts, i as int);
        }
        i = i + 1;
    }
    proof {
        if done {
            lemma_kept_ended(listing@, verdicts, i - 1);
        } else {
            assert(listing@.take(i as int) =~= listing@);
            assert(verdicts.take(i as int) =~= verdicts);
        }
        assert forall|verdict: spec_fn(Seq<char>) -> Verdict| #[trigger]
            computes(condition, verdict) implies found.deep_view() == scan(listing@, verdict) by {
            lemma_kept_scan(condition, |given: Verdict| given, verdict, listing@, verdicts);
        }
    }
    found
}

/// A search under a condition that hands on the answers of another goes by
/// verdicts that the other gives rise to.
proof fn lemma_follows_lifted<F: Fn(&str) -> bool, G: Fn(&str) -> Verdict>(
    condition: F,
    lifted: G,
    lift: spec_fn(bool) -> Verdict,
    listing: Seq<Entry>,
    verdicts: Seq<Verdict>,
)
    requires
        follows(lifted, |verdict: Verdict| verdict, listing, verdicts),
        forall|p: &str, verdict: Verdict| #[trigger]
            lifted.ensures((p,), verdict) ==> condition.ensures((p,), verdict.accepts())
                && verdict == lift(verdict.accepts()),
    ensures
        follows(condition, lift, listing, verdicts),
{
    assert forall|i: int|
        0 <= i < listing.len() && examined(listing, verdicts, i) implies (
    #[trigger] listing[i] matches Entry::File(path) ==> exists|answer: bool|
        answers(condition, path@, answer) && verdicts[i] == lift(answer)) by {
        if let Entry::File(path) = listing[i] {
            let verdict = choose|verdict: Verdict|
                answers(lifted, path@, verdict) && verdicts[i] == verdict;
            let p = choose|p: &str| p@ == path@ && #[trigger] lifted.ensures((p,), verdict);
            assert(answers(condition, path@, verdict.accepts()));
        }
    }
}

/// Each path that a search by verdicts of a condition returns is that of a
/// file of the listing on which the condition answered with an accepting
/// verdict.
proof fn lemma_found_answered<F: Fn(&str) -> bool>(
    condition: F,
    lift: spec_fn(bool) -> Verdict,
    listing: Seq<Entry>,
    verdicts: Seq<Verdict>,
    k: int,
)
    requires
        follows(condition, lift, listing, verdicts),
        !lift(false).accepts(),
        0 <= k < kept(listing, verdicts).len(),
    ensures
        lists(listing, kept(listing, verdicts)[k]),
        answers(condition, kept(listing, verdicts)[k], true),
{
    lemma_kept_accepted(listing, verdicts, k);
}

/// Look for all files satisfying a condition.
///
/// Every file before the first unreadable entry is examined, and those for
/// which `condition` holds are returned in the order of the listing: the
/// result is that of `some` for a condition that accepts where `condition`
/// holds and never stops. Each path returned is that of a file of the
/// listing for which `condition` held.
pub fn all<F: Fn(&str) -> bool>(listing: &[Entry], condition: F) -> (found: Vec<String>)
    requires
        admits(condition, listing@),
    ensures
        exists|verdicts: Seq<Verdict>|
            follows(condition, |accept: bool| each(accept), listing@, verdicts) && found.deep_view()
                == kept(listing@, verdicts),
        forall|accept: spec_fn(Seq<char>) -> bool| #[trigger]
            computes(condition, accept) ==> found.deep_view() == scan(
                listing@,
                |path: Seq<char>| each(accept(path)),
            ),
        forall|k: int|
            0 <= k < found@.len() ==> lists(listing@, #[trigger] found@[k]@) && answers(
                condition,
                found@[k]@,
                true,
            ),
{
    let asked = &condition;
    let every = |path: &str| -> (verdict: Verdict)
        requires
            asked.requires((path,)),
        ensures
            asked.ensures((path,), verdict.accepts()),
            verdict == each(verdict.accepts()),
        {
            if asked(path) {
                Verdict::AcceptMore
            } else {
                Verdict::RejectMore
            }
        };
    let found = some(listing, every);
    proof {
        let verdicts = choose|verdicts: Seq<Verdict>|
            follows(every, |verdict: Verdict| verdict, listing@, verdicts) && found.deep_view()
                == kept(listing@, verdicts);
        lemma_follows_lifted(condition, every, |accept: bool| each(accept), listing@, verdicts);
        assert forall|accept: spec_fn(Seq<char>) -> bool| #[trigger]
            computes(condition, accept) implies found.deep_view() == scan(
            listing@,
            |path: Seq<char>| each(accept(path)),
        ) by {
            lemma_kept_scan(
                condition,
                |accept: bool| each(accept),
                |path: Seq<char>| each(accept(path)),
                listing@,
                verdicts,
            );
        }
        assert forall|k: int| 0 <= k < found@.len() implies lists(
            listing@,
            #[trigger] found@[k]@,
        ) && answers(condition, found@[k]@, true) by {
            lemma_found_answered(condition, |accept: bool| each(accept), listing@, verdicts, k);
        }
    }
    found
}

/// Look for the first file satisfying a condition.
///
/// The files are examined in the order of the listing, up to the first for
/// which `condition` holds or the first unreadable entry. The result is the
/// first path that `some` returns for a condition that accepts where
/// `condition` holds, and stops there; it is nothing where `some` returns
/// nothing.
pub fn first<F: Fn(&str) -> bool>(listing: &[Entry], condition: F) -> (found: Option<String>)
    requires
        admits(condition, listing@),
    ensures
        exists|verdicts: Seq<Verdict>|
            follows(condition, |accept: bool| until(accept), listing@, verdicts) && found.deep_view()
                == head(kept(listing@, verdicts)),
        forall|accept: spec_fn(Seq<char>) -> bool| #[trigger]
            computes(condition, accept) ==> found.deep_view() == head(
                scan(listing@, |path: Seq<char>| until(accept(path))),
            ),
        found matches Some(path) ==> lists(listing@, path@) && answers(condition, path@, true),
{
    let asked = &condition;
    let one = |path: &str| -> (verdict: Verdict)
        requires
            asked.requires((path,)),
        ensures
            asked.ensures((path,), verdict.accepts()),
            verdict == until(verdict.accepts()),
        {
            if asked(path) {
                Verdict::AcceptStop
            } else {
                Verdict::RejectMore
            }
        };
    let mut found = some(listing, one);
    proof {
        let verdicts = choose|verdicts: Seq<Verdict>|
            follows(one, |verdict: Verdict| verdict, listing@, verdicts) && found.deep_view() == kept(
                listing@,
                verdicts,
            );
        lemma_follows_lifted(condition, one, |accept: bool| until(accept), listing@, verdicts);
        lemma_kept_once(listing@, verdicts);
        assert forall|accept: spec_fn(Seq<char>) -> bool| #[trigger]
            computes(condition, accept) implies kept(listing@, verdicts) == scan(
            listing@,
            |path: Seq<char>| until(accept(path)),
        ) by {
            lemma_kept_scan(
                condition,
                |accept: bool| until(accept),
                |path: Seq<char>| until(accept(path)),
                listing@,
                verdicts,
            );
        }
        if found@.len() > 0 {
            lemma_found_answered(condition, |accept: bool| until(accept), listing@, verdicts, 0);
        }
    }
    found.pop()
}

/// Whether the file at `path` is one with the extension `extension`, the
/// case of ASCII letters aside: its name is the final component of the path.
pub open spec fn with_extension(path: Seq<char>, extension: Seq<char>) -> bool {
    path_file_name(path) matches Some(name) && fits(name, extension)
}

/// Look for the first file with a particular extension.
///
/// The extension is given without a dot, and is compared with that of a
/// file after both are put in ASCII lower case.
pub fn first_with_extension(listing: &[Entry], extension: &str) -> (found: Option<String>)
    ensures
        found.deep_view() == head(
            scan(listing@, |path: Seq<char>| until(with_extension(path, extension@))),
        ),
        found matches Some(path) ==> lists(listing@, path@) && with_extension(path@, extension@),
{
    let ghost accept = |path: Seq<char>| with_extension(path, extension@);
    let wanted = |path: &str| -> (has: bool)
        ensures
            has == with_extension(path@, extension@),
        {
            match file_name(path) {
                Some(name) => has_extension(name, extension),
                None => false,
            }
        };
    proof {
        assert(computes(wanted, accept));
    }
    let found = first(listing, wanted);
    proof {
        assert(verdicts_of(listing@, |path: Seq<char>| until(accept(path))) =~= verdicts_of(
            listing@,
            |path: Seq<char>| until(with_extension(path, extension@)),
        ));
    }
    found
}

} // verus!
