//! Functions that take borrowed text: a `&str` parameter serves callers
//! that hold a `String` and callers that hold a slice of one alike.

use crate::chars::{is_vowel, vowel};
use crate::strings::{chars_of, string_of, to_uppercase, uppercase_of};
use crate::words::{first_word_bounds, split, split_on, tokens};
use vstd::prelude::*;
use vstd::string::StrSliceExecFns;

verus! {

/// Whether three vowels stand in `s` at the places `i`, `i + 1`, `i + 2`.
pub open spec fn vowels_at(s: Seq<char>, i: int) -> bool {
    &&& 0 <= i
    &&& i + 3 <= s.len()
    &&& vowel(s[i])
    &&& vowel(s[i + 1])
    &&& vowel(s[i + 2])
}

/// Whether `s` holds three vowels in a row.
pub open spec fn has_three_vowels(s: Seq<char>) -> bool {
    exists|i: int| vowels_at(s, i)
}

/// Those of `pieces` that hold three vowels in a row, in their order.
pub open spec fn vowel_rich(pieces: Seq<Seq<char>>) -> Seq<Seq<char>>
    decreases pieces.len(),
{
    if pieces.len() == 0 {
        pieces
    } else if has_three_vowels(pieces.last()) {
        vowel_rich(pieces.drop_last()).push(pieces.last())
    } else {
        vowel_rich(pieces.drop_last())
    }
}

fn three_vowels_in(word: &[char]) -> (found: bool)
    ensures
        found == has_three_vowels(word@),
{
    let n = word.len();
    let mut run: usize = 0;
    let mut k: usize = 0;
    while k < n
        invariant
            n == word@.len(),
            k <= n,
            run <= 2,
            run <= k,
            forall|j: int| k - run <= j < k ==> vowel(#[trigger] word@[j]),
            run < k ==> !vowel(word@[k - run - 1]),
            forall|i: int| i + 3 <= k ==> !vowels_at(word@, i),
        decreases n - k,
    {
        if is_vowel(word[k]) {
            if run == 2 {
                assert(vowels_at(word@, k - 2));
                return true;
            }
            run += 1;
        } else {
            run = 0;
        }
        k += 1;
    }
    assert forall|i: int| !vowels_at(word@, i) by {
        if vowels_at(word@, i) {
            assert(i + 3 <= n);
        }
    }
    false
}

/// Whether `word` holds three vowels in a row.
pub fn three_vowels(word: &str) -> (found: bool)
    ensures
        found == has_three_vowels(word@),
{
    let chars = chars_of(word);
    three_vowels_in(chars.as_slice())
}

/// The pieces of `sentence` between single spaces that hold three vowels
/// in a row.
pub fn words_with_three_vowels(sentence: &str) -> (found: Vec<String>)
    ensures
        found.deep_view() == vowel_rich(split(sentence@, ' ')),
{
    let chars = chars_of(sentence);
    let pieces = split_on(chars.as_slice(), ' ');
    let mut found: Vec<String> = Vec::new();
    let n = pieces.len();
    let mut i: usize = 0;
    let ghost all = pieces.deep_view();
    assert(all.take(0) == Seq::<Seq<char>>::empty());
    assert(found.deep_view() == Seq::<Seq<char>>::empty());
    while i < n
        invariant
            n == pieces@.len(),
            all == pieces.deep_view(),
            i <= n,
            found.deep_view() == vowel_rich(all.take(i as int)),
        decreases n - i,
    {
        let ghost before = found.deep_view();
        assert(all.take(i + 1).drop_last() == all.take(i as int));
        assert(all.take(i + 1).last() == pieces@[i as int]@);
        if three_vowels(pieces[i].as_str()) {
            found.push(pieces[i].clone());
            assert(found.deep_view() == before.push(pieces@[i as int]@));
        }
        i += 1;
    }
    assert(all.take(n as int) == all);
    found
}

/// The first word of `words`, as a string of its own.
pub fn first_word(words: &str) -> (first: String)
    requires
        tokens(words@).len() > 0,
    ensures
        first@ == tokens(words@)[0],
{
    let chars = chars_of(words);
    match first_word_bounds(chars.as_slice()) {
        Some((from, to)) => string_of(chars.as_slice(), from, to),
        None => String::new(),
    }
}

/// The first word of `words`, borrowed from it.
pub fn first_word2(words: &str) -> (first: &str)
    requires
        tokens(words@).len() > 0,
    ensures
        first@ == tokens(words@)[0],
{
    let chars = chars_of(words);
    match first_word_bounds(chars.as_slice()) {
        Some((from, to)) => words.substring_char(from, to),
        None => words,
    }
}

/// The first word of `words` in upper case.
pub fn first_word_uppercase(words: &str) -> (first: String)
    requires
        tokens(words@).len() > 0,
    ensures
        first@ == uppercase_of(tokens(words@)[0]),
{
    to_uppercase(first_word2(words))
}

} // verus!
