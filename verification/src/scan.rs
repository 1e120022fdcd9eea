//! What a scan of a listing returns.
//!
//! A scan takes the entries of a listing in order and ends at the first
//! unreadable entry, at the first file whose verdict stops, or behind the
//! last entry. Until then it passes over directories and keeps the path of
//! every file whose verdict accepts.
//!
//! The verdicts come from a condition that the caller supplies, and of
//! which only its contract is known. So the result is stated for a given
//! sequence of verdicts, one for each position of the listing, of which only
//! those on the examined files matter; and a scan goes by verdicts that the
//! condition may give. Where the condition is a function of the path, the
//! verdicts are fixed, and so is the result.

use vstd::prelude::*;
use crate::find::{Entry, Verdict};

verus! {

/// Whether a scan goes no further than `entry`, given the verdict on it.
pub open spec fn ends(entry: Entry, verdict: Verdict) -> bool {
    match entry {
        Entry::File(_) => verdict.stops(),
        Entry::Directory(_) => false,
        Entry::Unreadable => true,
    }
}

/// What `entry` adds to the result of a scan, given the verdict on it.
pub open spec fn keeps(entry: Entry, verdict: Verdict) -> Seq<Seq<char>> {
    match entry {
        Entry::File(path) if verdict.accepts() => seq![path@],
        _ => Seq::empty(),
    }
}

/// The result of a scan of `listing` in which the entry at each position
/// gets the verdict at the same position of `verdicts`.
pub open spec fn kept(listing: Seq<Entry>, verdicts: Seq<Verdict>) -> Seq<Seq<char>>
    decreases listing.len(),
{
    if listing.len() == 0 {
        Seq::empty()
    } else if ends(listing[0], verdicts[0]) {
        keeps(listing[0], verdicts[0])
    } else {
        keeps(listing[0], verdicts[0]) + kept(listing.skip(1), verdicts.skip(1))
    }
}

/// Whether a scan gets as far as the entry at position `i`.
pub open spec fn examined(listing: Seq<Entry>, verdicts: Seq<Verdict>, i: int) -> bool {
    forall|k: int| 0 <= k < i ==> !#[trigger] ends(listing[k], verdicts[k])
}

/// Whether `path` is the path of a file of `listing`.
pub open spec fn lists(listing: Seq<Entry>, path: Seq<char>) -> bool {
    exists|i: int|
        0 <= i < listing.len() && (#[trigger] listing[i] matches Entry::File(found) && found@
            == path)
}

/// The first element of `paths`, if there is one.
pub open spec fn head(paths: Seq<Seq<char>>) -> Option<Seq<char>> {
    if paths.len() == 0 {
        None
    } else {
        Some(paths[0])
    }
}

/// The verdict of a search for every match: accept or reject, and go on.
pub open spec fn each(accept: bool) -> Verdict {
    if accept {
        Verdict::AcceptMore
    } else {
        Verdict::RejectMore
    }
}

/// The verdict of a search for one match: stop at the first that is
/// accepted.
pub open spec fn until(accept: bool) -> Verdict {
    if accept {
        Verdict::AcceptStop
    } else {
        Verdict::RejectMore
    }
}

/// Whether `condition`, called on a path with the text `path`, may return
/// `answer`.
pub open spec fn answers<R, F: Fn(&str) -> R>(condition: F, path: Seq<char>, answer: R) -> bool {
    exists|p: &str| p@ == path && #[trigger] condition.ensures((p,), answer)
}

/// Whether `condition` may be called on the path of every file of `listing`.
pub open spec fn admits<R, F: Fn(&str) -> R>(condition: F, listing: Seq<Entry>) -> bool {
    forall|i: int, p: &str|
        0 <= i < listing.len() && (#[trigger] listing[i] matches Entry::File(path) && path@ == p@)
            ==> #[trigger] condition.requires((p,))
}

/// Whether `verdicts` is what a scan of `listing` under `condition` may go
/// by: the verdict on each file that the scan examines is `lift` of an
/// answer of `condition` on that file's path.
pub open spec fn follows<R, F: Fn(&str) -> R>(
    condition: F,
    lift: spec_fn(R) -> Verdict,
    listing: Seq<Entry>,
    verdicts: Seq<Verdict>,
) -> bool {
    &&& verdicts.len() == listing.len()
    &&& forall|i: int|
        0 <= i < listing.len() && examined(listing, verdicts, i) ==> (
        #[trigger] listing[i] matches Entry::File(path) ==> exists|answer: R|
            answers(condition, path@, answer) && verdicts[i] == lift(answer))
}

/// Whether `condition` is the function `answer` of the text of a path: it
/// returns nothing else.
pub open spec fn computes<R, F: Fn(&str) -> R>(
    condition: F,
    answer: spec_fn(Seq<char>) -> R,
) -> bool {
    forall|p: &str, given: R| #[trigger] condition.ensures((p,), given) ==> given == answer(p@)
}

/// The verdicts that the function `verdict` of a path's text gives on the
/// files of `listing`.
pub open spec fn verdicts_of(
    listing: Seq<Entry>,
    verdict: spec_fn(Seq<char>) -> Verdict,
) -> Seq<Verdict> {
    Seq::new(
        listing.len(),
        |i: int|
            match listing[i] {
                Entry::File(path) => verdict(path@),
                _ => Verdict::RejectMore,
            },
    )
}

/// The result of a scan of `listing` under a condition that is the function
/// `verdict` of a path's text.
pub open spec fn scan(listing: Seq<Entry>, verdict: spec_fn(Seq<char>) -> Verdict) -> Seq<
    Seq<char>,
> {
    kept(listing, verdicts_of(listing, verdict))
}

/// A scan that gets as far as position `n` returns what it kept before `n`,
/// and then what a scan of the rest keeps.
pub proof fn lemma_kept_split(listing: Seq<Entry>, verdicts: Seq<Verdict>, n: int)
    requires
        verdicts.len() == listing.len(),
        0 <= n <= listing.len(),
        examined(listing, verdicts, n),
    ensures
        kept(listing, verdicts) == kept(listing.take(n), verdicts.take(n)) + kept(
            listing.skip(n),
            verdicts.skip(n),
        ),
    decreases n,
{
    if n == 0 {
        assert(listing.skip(0) =~= listing);
        assert(verdicts.skip(0) =~= verdicts);
    } else {
        let rest = listing.skip(1);
        let after = verdicts.skip(1);
        lemma_kept_split(rest, after, n - 1);
        assert(rest.take(n - 1) =~= listing.take(n).skip(1));
        assert(after.take(n - 1) =~= verdicts.take(n).skip(1));
        assert(rest.skip(n - 1) =~= listing.skip(n));
        assert(after.skip(n - 1) =~= verdicts.skip(n));
    }
}

/// A scan that gets as far as position `i` has by then kept what it kept
/// before `i`, and what the entry at `i` adds.
pub proof fn lemma_kept_next(listing: Seq<Entry>, verdicts: Seq<Verdict>, i: int)
    requires
        verdicts.len() == listing.len(),
        0 <= i < listing.len(),
        examined(listing, verdicts, i),
    ensures
        kept(listing.take(i + 1), verdicts.take(i + 1)) == kept(
            listing.take(i),
            verdicts.take(i),
        ) + keeps(listing[i], verdicts[i]),
{
    let upto = listing.take(i + 1);
    let so_far = verdicts.take(i + 1);
    lemma_kept_split(upto, so_far, i);
    assert(upto.take(i) =~= listing.take(i));
    assert(so_far.take(i) =~= verdicts.take(i));
    assert(kept(upto.skip(i).skip(1), so_far.skip(i).skip(1)) =~= Seq::<Seq<char>>::empty());
}

/// What lies behind the end of a scan has no part in its result: a scan
/// that ends at position `i` returns what a scan of the first `i + 1`
/// entries returns.
pub proof fn lemma_kept_ended(listing: Seq<Entry>, verdicts: Seq<Verdict>, i: int)
    requires
        verdicts.len() == listing.len(),
        0 <= i < listing.len(),
        examined(listing, verdicts, i),
        ends(listing[i], verdicts[i]),
    ensures
        kept(listing, verdicts) == kept(listing.take(i + 1), verdicts.take(i + 1)),
        forall|k: int| i < k ==> !examined(listing, verdicts, k),
{
    lemma_kept_next(listing, verdicts, i);
    lemma_kept_split(listing, verdicts, i);
}

/// Only the verdicts on the files that a scan examines bear on its result.
pub proof fn lemma_kept_agree(listing: Seq<Entry>, verdicts: Seq<Verdict>, others: Seq<Verdict>)
    requires
        verdicts.len() == listing.len(),
        others.len() == listing.len(),
        forall|i: int|
            0 <= i < listing.len() && examined(listing, verdicts, i) && #[trigger] listing[i] is File
                ==> verdicts[i] == others[i],
    ensures
        kept(listing, verdicts) == kept(listing, others),
    decreases listing.len(),
{
    if listing.len() > 0 {
        if !ends(listing[0], verdicts[0]) {
            let rest = listing.skip(1);
            let after = verdicts.skip(1);
            assert forall|i: int|
                0 <= i < rest.len() && examined(rest, after, i)
                    && #[trigger] rest[i] is File implies after[i] == others.skip(1)[i] by {
                assert forall|k: int| 0 <= k < i + 1 implies !#[trigger] ends(
                    listing[k],
                    verdicts[k],
                ) by {
                    if k > 0 {
                        assert(!ends(rest[k - 1], after[k - 1]));
                    }
                }
            }
            lemma_kept_agree(rest, after, others.skip(1));
        }
    }
}

/// Under a condition whose verdict is a function of the path's text, a scan
/// returns what that function gives.
pub proof fn lemma_kept_scan<R, F: Fn(&str) -> R>(
    condition: F,
    lift: spec_fn(R) -> Verdict,
    verdict: spec_fn(Seq<char>) -> Verdict,
    listing: Seq<Entry>,
    verdicts: Seq<Verdict>,
)
    requires
        follows(condition, lift, listing, verdicts),
        forall|p: &str, given: R| #[trigger]
            condition.ensures((p,), given) ==> lift(given) == verdict(p@),
    ensures
        kept(listing, verdicts) == scan(listing, verdict),
{
    lemma_kept_agree(listing, verdicts, verdicts_of(listing, verdict));
}

/// A scan returns only files, and only such as it examined and accepted:
/// each path of its result is that of a file at a position that the scan
/// got to and where the verdict accepts. No directory is among them.
pub proof fn lemma_kept_accepted(listing: Seq<Entry>, verdicts: Seq<Verdict>, k: int) -> (i: int)
    requires
        verdicts.len() == listing.len(),
        0 <= k < kept(listing, verdicts).len(),
    ensures
        0 <= i < listing.len(),
        examined(listing, verdicts, i),
        verdicts[i].accepts(),
        listing[i] matches Entry::File(path) && path@ == kept(listing, verdicts)[k],
    decreases listing.len(),
{
    let first = keeps(listing[0], verdicts[0]);
    if k < first.len() {
        0
    } else {
        let rest = listing.skip(1);
        let after = verdicts.skip(1);
        let i = lemma_kept_accepted(rest, after, k - first.len());
        assert forall|j: int| 0 <= j < i + 1 implies !#[trigger] ends(listing[j], verdicts[j]) by {
            if j > 0 {
                assert(!ends(rest[j - 1], after[j - 1]));
            }
        }
        i + 1
    }
}

/// A scan returns every file that it examined and accepted.
pub proof fn lemma_kept_all(listing: Seq<Entry>, verdicts: Seq<Verdict>, i: int) -> (k: int)
    requires
        verdicts.len() == listing.len(),
        0 <= i < listing.len(),
        examined(listing, verdicts, i),
        listing[i] is File,
        verdicts[i].accepts(),
    ensures
        0 <= k < kept(listing, verdicts).len(),
        listing[i] matches Entry::File(path) && path@ == kept(listing, verdicts)[k],
{
    lemma_kept_split(listing, verdicts, i);
    kept(listing.take(i), verdicts.take(i)).len() as int
}

/// The result of a scan starts with the first file that it accepts.
pub proof fn lemma_kept_first(listing: Seq<Entry>, verdicts: Seq<Verdict>, i: int)
    requires
        verdicts.len() == listing.len(),
        0 <= i < listing.len(),
        examined(listing, verdicts, i),
        listing[i] is File,
        verdicts[i].accepts(),
        forall|k: int| 0 <= k < i && #[trigger] listing[k] is File ==> !verdicts[k].accepts(),
    ensures
        listing[i] matches Entry::File(path) && head(kept(listing, verdicts)) == Some(path@),
{
    if kept(listing.take(i), verdicts.take(i)).len() > 0 {
        lemma_kept_accepted(listing.take(i), verdicts.take(i), 0);
    }
    lemma_kept_all(listing, verdicts, i);
    lemma_kept_split(listing, verdicts, i);
}

/// A scan that accepts none of the files that it examines returns nothing.
pub proof fn lemma_kept_none(listing: Seq<Entry>, verdicts: Seq<Verdict>)
    requires
        verdicts.len() == listing.len(),
        forall|i: int|
            0 <= i < listing.len() && examined(listing, verdicts, i) && #[trigger] listing[i] is File
                ==> !verdicts[i].accepts(),
    ensures
        kept(listing, verdicts).len() == 0,
{
    if kept(listing, verdicts).len() > 0 {
        lemma_kept_accepted(listing, verdicts, 0);
    }
}

/// A scan that stops at each file that it accepts returns one path at most.
pub proof fn lemma_kept_once(listing: Seq<Entry>, verdicts: Seq<Verdict>)
    requires
        verdicts.len() == listing.len(),
        forall|i: int|
            0 <= i < listing.len() && examined(listing, verdicts, i) && #[trigger] listing[i] is File
                && verdicts[i].accepts() ==> verdicts[i].stops(),
    ensures
        kept(listing, verdicts).len() <= 1,
    decreases listing.len(),
{
    if listing.len() > 0 && !ends(listing[0], verdicts[0]) {
        let rest = listing.skip(1);
        let after = verdicts.skip(1);
        assert forall|i: int|
            0 <= i < rest.len() && examined(rest, after, i) && #[trigger] rest[i] is File
                && after[i].accepts() implies after[i].stops() by {
            assert forall|k: int| 0 <= k < i + 1 implies !#[trigger] ends(
                listing[k],
                verdicts[k],
            ) by {
                if k > 0 {
                    assert(!ends(rest[k - 1], after[k - 1]));
                }
            }
        }
        lemma_kept_once(rest, after);
    }
}

/// A scan under a function of the path goes on behind its first entry as a
/// scan of the rest under the same function.
pub proof fn lemma_scan_rest(listing: Seq<Entry>, verdict: spec_fn(Seq<char>) -> Verdict)
    requires
        listing.len() > 0,
    ensures
        verdicts_of(listing, verdict).skip(1) == verdicts_of(listing.skip(1), verdict),
        scan(listing, verdict) == if ends(listing[0], verdicts_of(listing, verdict)[0]) {
            keeps(listing[0], verdicts_of(listing, verdict)[0])
        } else {
            keeps(listing[0], verdicts_of(listing, verdict)[0]) + scan(listing.skip(1), verdict)
        },
{
    assert(verdicts_of(listing, verdict).skip(1) =~= verdicts_of(listing.skip(1), verdict));
}

/// The first file that a search for one match finds is the first of those
/// that a search for every match finds, and it finds none only where the
/// other finds none.
pub proof fn lemma_first_of_all(listing: Seq<Entry>, accept: spec_fn(Seq<char>) -> bool)
    ensures
        head(scan(listing, |path: Seq<char>| until(accept(path)))) == head(
            scan(listing, |path: Seq<char>| each(accept(path))),
        ),
    decreases listing.len(),
{
    if listing.len() > 0 {
        lemma_scan_rest(listing, |path: Seq<char>| until(accept(path)));
        lemma_scan_rest(listing, |path: Seq<char>| each(accept(path)));
        lemma_first_of_all(listing.skip(1), accept);
    }
}

} // verus!
