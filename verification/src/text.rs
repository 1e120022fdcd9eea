//! Text as a sequence of characters: where a character stands in it, and
//! comparison without regard to the case of ASCII letters.

use vstd::prelude::*;
use vstd::std_specs::iter::IteratorSpec;
use vstd::string::*;

verus! {

/// The ASCII lower case of `c`: the letters `A` to `Z` become `a` to `z`,
/// every other character stays as it is.
pub open spec fn lower(c: char) -> char {
    if 'A' <= c && c <= 'Z' {
        ((c as u8) + 32) as char
    } else {
        c
    }
}

/// `text` with each character in ASCII lower case.
pub open spec fn lowered(text: Seq<char>) -> Seq<char> {
    text.map_values(|c: char| lower(c))
}

/// The ASCII lower case of a character.
pub fn to_lower(c: char) -> (low: char)
    ensures
        low == lower(c),
{
    if 'A' <= c && c <= 'Z' {
        ((c as u8) + 32) as char
    } else {
        c
    }
}

/// Whether two texts are equal once both are in ASCII lower case.
pub fn same_lowered(a: &str, b: &str) -> (same: bool)
    ensures
        same == (lowered(a@) == lowered(b@)),
{
    let mut others = b.chars();
    let mut i: usize = 0;
    let n = a.unicode_len();
    for c in it: a.chars()
        invariant
            it.seq() == a@,
            n == a@.len(),
            i == it.index(),
            i <= b@.len(),
            others.remaining() == b@.skip(i as int),
            others.obeys_prophetic_iter_laws(),
            forall|k: int| 0 <= k < i ==> lower(a@[k]) == lower(b@[k]),
    {
        match others.next() {
            None => {
                assert(lowered(a@).len() != lowered(b@).len());
                return false;
            },
            Some(other) => {
                if to_lower(c) != to_lower(other) {
                    assert(lowered(a@)[i as int] != lowered(b@)[i as int]);
                    return false;
                }
            },
        }
        i = i + 1;
    }
    match others.next() {
        None => {
            assert(lowered(a@) =~= lowered(b@));
            true
        },
        Some(_) => false,
    }
}

/// The first and the last position of `c` in `text`, counted in characters,
/// where `c` occurs at all.
pub fn positions(text: &str, c: char) -> (ends: Option<(usize, usize)>)
    ensures
        match ends {
            Some((first, last)) => text@.index_of_first(c) == Some(first as int)
                && text@.index_of_last(c) == Some(last as int),
            None => !text@.contains(c),
        },
{
    let n = text.unicode_len();
    let mut i: usize = 0;
    let mut ends: Option<(usize, usize)> = None;
    for letter in it: text.chars()
        invariant
            it.seq() == text@,
            n == text@.len(),
            i == it.index(),
            match ends {
                Some((first, last)) => {
                    &&& first <= last < i
                    &&& text@[first as int] == c
                    &&& text@[last as int] == c
                    &&& forall|k: int| 0 <= k < first ==> text@[k] != c
                    &&& forall|k: int| last < k < i ==> text@[k] != c
                },
                None => forall|k: int| 0 <= k < i ==> text@[k] != c,
            },
    {
        if letter == c {
            ends = match ends {
                Some((first, _)) => Some((first, i)),
                None => Some((i, i)),
            };
        }
        i = i + 1;
    }
    proof {
        text@.index_of_first_ensures(c);
        text@.index_of_last_ensures(c);
    }
    ends
}

} // verus!
