//! Looking for a literal pattern in a text.

use vstd::prelude::*;

verus! {

/// Whether `pattern` stands in `text` at place `at`.
pub open spec fn occurs_at(text: Seq<char>, pattern: Seq<char>, at: int) -> bool {
    &&& 0 <= at
    &&& at + pattern.len() <= text.len()
    &&& text.subrange(at, at + pattern.len()) == pattern
}

/// How far the search moves on after a match: past the match, and by one
/// character where the pattern is empty.
pub open spec fn stride(pattern: Seq<char>) -> int {
    if pattern.len() == 0 {
        1
    } else {
        pattern.len() as int
    }
}

/// The places of the matches of `pattern` in `text` at or after `from`,
/// taken from left to right so that no two of them overlap. The empty
/// pattern matches before every character and at the end.
pub open spec fn matches_from(text: Seq<char>, pattern: Seq<char>, from: int) -> Seq<int>
    decreases text.len() - from + 1,
{
    if from < 0 || from + pattern.len() > text.len() {
        Seq::empty()
    } else if occurs_at(text, pattern, from) {
        seq![from] + matches_from(text, pattern, from + stride(pattern))
    } else {
        matches_from(text, pattern, from + 1)
    }
}

/// The number of disjoint matches of `pattern` in `text`.
pub open spec fn count_matches(text: Seq<char>, pattern: Seq<char>) -> nat {
    matches_from(text, pattern, 0).len()
}

/// The places in a vector of indices, as integers.
pub open spec fn places_of(v: Seq<usize>) -> Seq<int> {
    Seq::new(v.len(), |i: int| v[i] as int)
}

/// Whether `pattern` stands in `text` at place `at`.
pub fn matches_at(text: &[char], pattern: &[char], at: usize) -> (found: bool)
    requires
        at + pattern@.len() <= text@.len(),
    ensures
        found == occurs_at(text@, pattern@, at as int),
{
    let n = text.len();
    let m = pattern.len();
    let mut k: usize = 0;
    while k < m
        invariant
            n == text@.len(),
            m == pattern@.len(),
            at + m <= n,
            k <= m,
            forall|j: int| 0 <= j < k ==> text@[at + j] == pattern@[j],
        decreases m - k,
    {
        if text[at + k] != pattern[k] {
            assert(text@.subrange(at as int, at + m)[k as int] != pattern@[k as int]);
            return false;
        }
        k += 1;
    }
    assert(text@.subrange(at as int, at + m) =~= pattern@);
    true
}

/// The places of the disjoint matches of `pattern` in `text`, from left to
/// right.
pub fn find_matches(text: &[char], pattern: &[char]) -> (places: Vec<usize>)
    ensures
        places_of(places@) == matches_from(text@, pattern@, 0),
{
    let n = text.len();
    let m = pattern.len();
    let mut places: Vec<usize> = Vec::new();
    let mut at: usize = 0;
    let mut done = m > n;
    assert(places_of(places@) == Seq::<int>::empty());
    while !done
        invariant
            n == text@.len(),
            m == pattern@.len(),
            !done ==> at + m <= n,
            matches_from(text@, pattern@, 0) == places_of(places@) + if done {
                Seq::<int>::empty()
            } else {
                matches_from(text@, pattern@, at as int)
            },
        decreases
                if done {
                    0
                } else {
                    n - at + 1
                },
    {
        let ghost found = places_of(places@);
        let step = if matches_at(text, pattern, at) {
            places.push(at);
            assert(places_of(places@) == found.push(at as int));
            if m == 0 {
                1
            } else {
                m
            }
        } else {
            assert(m > 0) by {
                if m == 0 {
                    assert(text@.subrange(at as int, at as int) =~= pattern@);
                }
            }
            1
        };
        assert(matches_from(text@, pattern@, 0) == places_of(places@) + matches_from(
            text@,
            pattern@,
            at + step,
        ));
        if step > n - at - m {
            done = true;
        } else {
            at += step;
        }
    }
    assert(places_of(places@) + Seq::<int>::empty() == places_of(places@));
    places
}

} // verus!
