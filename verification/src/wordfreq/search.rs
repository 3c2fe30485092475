//! Counting: one word where a query is given, every word where none is.

use crate::chars::{punctuation, whitespace};
use crate::strings::{chars_of, lowercase_of};
use crate::wordfreq::config::Config;
use crate::wordfreq::counts::{
    distinct, keys_of, lemma_distinct, lemma_tally_as_map, lemma_total_of_tally, tally, total,
    word_counts, Entry, WordCounts,
};
use crate::wordfreq::failure::Failure;
use crate::wordfreq::matching::{count_matches, find_matches};
use crate::wordfreq::normalize::{lemma_without_punctuation, normalize, normalized};
use crate::words::{lemma_tokens, split_whitespace, tokens};
use vstd::prelude::*;

verus! {

/// What counting in `contents` gives. An empty text is refused. With a
/// query the table has one line, the query with the number of its disjoint
/// matches; without one it is the tally of the words of the text.
pub open spec fn outcome(query: Option<Seq<char>>, contents: Seq<char>) -> Result<
    Seq<Entry>,
    Failure,
> {
    if contents.len() == 0 {
        Err(Failure::EmptyInput)
    } else {
        match query {
            Some(q) => Ok(seq![(q, count_matches(contents, q))]),
            None => Ok(tally(tokens(contents))),
        }
    }
}

/// The characters of an optional query.
pub open spec fn query_text(query: Option<&str>) -> Option<Seq<char>> {
    match query {
        Some(q) => Some(q@),
        None => None,
    }
}

/// Whether `result` is the table, or the failure, that `expected` names.
pub open spec fn agrees(
    result: Result<WordCounts, Failure>,
    expected: Result<Seq<Entry>, Failure>,
) -> bool {
    match result {
        Ok(table) => expected == Ok::<Seq<Entry>, Failure>(table.entries()),
        Err(failure) => expected == Err::<Seq<Entry>, Failure>(failure),
    }
}

/// Counts in `contents`, which is taken as it is: the matches of `query`
/// if there is one, else every word.
pub fn search(query: Option<&str>, contents: &str) -> (result: Result<WordCounts, Failure>)
    ensures
        agrees(result, outcome(query_text(query), contents@)),
        result is Err <==> contents@.len() == 0,
        query is None ==> (result matches Ok(table) ==> {
            &&& table@ == word_counts(tokens(contents@))
            &&& total(table.entries()) == tokens(contents@).len()
        }),
{
    proof {
        lemma_total_of_tally(tokens(contents@));
        lemma_tally_as_map(tokens(contents@));
    }
    let text = chars_of(contents);
    if text.len() == 0 {
        return Err(Failure::EmptyInput);
    }
    match query {
        Some(q) => {
            let pattern = chars_of(q);
            let places = find_matches(text.as_slice(), pattern.as_slice());
            Ok(WordCounts::single(q.to_owned(), places.len()))
        },
        None => {
            let words = split_whitespace(text.as_slice());
            Ok(WordCounts::of_words(&words))
        },
    }
}

/// Counts in the normal form of `raw`, the contents of the file that
/// `config` names, as `config` asks.
pub fn execute(config: &Config, raw: &str) -> (result: Result<WordCounts, Failure>)
    ensures
        agrees(result, outcome(config@.query, normalized(raw@))),
        result is Err <==> normalized(raw@).len() == 0,
        raw@.len() == 0 ==> result == Err::<WordCounts, Failure>(Failure::EmptyInput),
        config@.query is None ==> (result matches Ok(table) ==> {
            &&& table@ == word_counts(tokens(normalized(raw@)))
            &&& total(table.entries()) == tokens(normalized(raw@)).len()
        }),
{
    let text = normalize(raw);
    proof {
        law_empty_input(config@.query, raw@);
    }
    search(config.query(), text.as_str())
}

/// Where every word is counted, the counts add up to the number of words:
/// of the text that is searched and, for a raw text, of its normal form.
pub proof fn law_counts_add_up(raw: Seq<char>)
    ensures
        outcome(None, raw) matches Ok(entries) ==> total(entries) == tokens(raw).len(),
        outcome(None, normalized(raw)) matches Ok(entries) ==> total(entries) == tokens(
            normalized(raw),
        ).len(),
{
    lemma_total_of_tally(tokens(raw));
    lemma_total_of_tally(tokens(normalized(raw)));
}

/// An empty text is refused, with a query and without one, and so is a raw
/// text that is empty.
pub proof fn law_empty_input(query: Option<Seq<char>>, raw: Seq<char>)
    ensures
        outcome(query, Seq::empty()) == Err::<Seq<Entry>, Failure>(Failure::EmptyInput),
        raw.len() == 0 ==> outcome(query, normalized(raw)) == Err::<Seq<Entry>, Failure>(
            Failure::EmptyInput,
        ),
        outcome(query, normalized(raw)) is Err <==> normalized(raw).len() == 0,
{
    if raw.len() == 0 {
        lemma_without_punctuation(lowercase_of(raw));
    }
}

/// The words of a table made from a raw text without a query: no word
/// stands twice, none is empty, and none holds whitespace or ASCII
/// punctuation.
pub proof fn law_table_words(raw: Seq<char>)
    ensures
        match outcome(None, normalized(raw)) {
            Ok(entries) => {
                &&& keys_of(entries).no_duplicates()
                &&& forall|i: int|
                    0 <= i < entries.len() ==> (#[trigger] entries[i]).0.len() > 0
                &&& forall|i: int, j: int|
                    0 <= i < entries.len() && 0 <= j < entries[i].0.len() ==> {
                        let c = #[trigger] entries[i].0[j];
                        !whitespace(c) && !punctuation(c)
                    }
            },
            Err(_) => true,
        },
{
    let text = normalized(raw);
    let words = tokens(text);
    let entries = tally(words);
    lemma_distinct(words);
    lemma_tokens(text);
    lemma_without_punctuation(lowercase_of(raw));
    assert(keys_of(entries) == distinct(words));
    assert forall|i: int| 0 <= i < entries.len() implies (#[trigger] entries[i]).0.len() > 0
        && forall|j: int|
        0 <= j < entries[i].0.len() ==> !whitespace(#[trigger] entries[i].0[j]) && !punctuation(
            entries[i].0[j],
        ) by {
        let w = entries[i].0;
        assert(distinct(words)[i] == w);
        assert(distinct(words).contains(w));
        assert(words.contains(w));
        let k = choose|k: int| 0 <= k < words.len() && words[k] == w;
        assert(words[k].len() > 0);
        assert forall|j: int| 0 <= j < w.len() implies !whitespace(#[trigger] w[j])
            && !punctuation(w[j]) by {
            assert(text.contains(words[k][j]));
            let p = choose|p: int| 0 <= p < text.len() && text[p] == w[j];
        }
    }
}

} // verus!
