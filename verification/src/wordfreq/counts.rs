//! The table of counts and its mathematical model.

use crate::strings::same_text;
use vstd::prelude::*;

verus! {

/// One line of a table: a word and how often it occurs.
pub type Entry = (Seq<char>, nat);

/// How many times `w` occurs in `words`.
pub open spec fn occurrences(words: Seq<Seq<char>>, w: Seq<char>) -> nat
    decreases words.len(),
{
    if words.len() == 0 {
        0
    } else {
        occurrences(words.drop_last(), w) + if words.last() == w {
            1nat
        } else {
            0nat
        }
    }
}

/// The words of `words` without repetition, each at the place of its first
/// occurrence.
pub open spec fn distinct(words: Seq<Seq<char>>) -> Seq<Seq<char>>
    decreases words.len(),
{
    if words.len() == 0 {
        Seq::empty()
    } else if words.drop_last().contains(words.last()) {
        distinct(words.drop_last())
    } else {
        distinct(words.drop_last()).push(words.last())
    }
}

/// Each of `keys` with the number of its occurrences in `words`.
pub open spec fn counted(keys: Seq<Seq<char>>, words: Seq<Seq<char>>) -> Seq<Entry> {
    Seq::new(keys.len(), |i: int| (keys[i], occurrences(words, keys[i])))
}

/// The table for `words`: every distinct word, in order of first
/// occurrence, with the number of its occurrences.
pub open spec fn tally(words: Seq<Seq<char>>) -> Seq<Entry> {
    counted(distinct(words), words)
}

/// The same table as a mapping, which forgets the order.
pub open spec fn word_counts(words: Seq<Seq<char>>) -> Map<Seq<char>, nat> {
    Map::new(|w: Seq<char>| words.contains(w), |w: Seq<char>| occurrences(words, w))
}

/// The sum of the counts of a table.
pub open spec fn total(entries: Seq<Entry>) -> nat
    decreases entries.len(),
{
    if entries.len() == 0 {
        0
    } else {
        total(entries.drop_last()) + entries.last().1
    }
}

/// The words of a table, in its order.
pub open spec fn keys_of(entries: Seq<Entry>) -> Seq<Seq<char>> {
    Seq::new(entries.len(), |i: int| entries[i].0)
}

/// The mapping that a table stands for. Where a word stands twice, the
/// later entry counts; a well-formed table has no such word.
pub open spec fn as_map(entries: Seq<Entry>) -> Map<Seq<char>, nat>
    decreases entries.len(),
{
    if entries.len() == 0 {
        Map::empty()
    } else {
        as_map(entries.drop_last()).insert(entries.last().0, entries.last().1)
    }
}

pub proof fn lemma_occurrences(words: Seq<Seq<char>>, w: Seq<char>)
    ensures
        occurrences(words, w) <= words.len(),
        occurrences(words, w) > 0 <==> words.contains(w),
    decreases words.len(),
{
    if words.len() > 0 {
        let init = words.drop_last();
        lemma_occurrences(init, w);
        if init.contains(w) {
            let i = choose|i: int| 0 <= i < init.len() && init[i] == w;
            assert(words[i] == w);
        }
        if words.contains(w) && words.last() != w {
            let i = choose|i: int| 0 <= i < words.len() && words[i] == w;
            assert(init[i] == w);
        }
    }
}

pub proof fn lemma_distinct(words: Seq<Seq<char>>)
    ensures
        distinct(words).no_duplicates(),
        distinct(words).len() <= words.len(),
        forall|w: Seq<char>| #[trigger] distinct(words).contains(w) <==> words.contains(w),
    decreases words.len(),
{
    if words.len() > 0 {
        let init = words.drop_last();
        let x = words.last();
        lemma_distinct(init);
        let d = distinct(init);
        assert forall|w: Seq<char>| #[trigger] distinct(words).contains(w) <==> words.contains(
            w,
        ) by {
            if words.contains(w) {
                let i = choose|i: int| 0 <= i < words.len() && words[i] == w;
                if i < init.len() {
                    assert(init[i] == w);
                    assert(d.contains(w));
                    let j = choose|j: int| 0 <= j < d.len() && d[j] == w;
                    assert(distinct(words)[j] == w);
                } else {
                    assert(w == x);
                    if init.contains(x) {
                        assert(d.contains(x));
                    } else {
                        assert(distinct(words)[d.len() as int] == x);
                    }
                }
            }
            if distinct(words).contains(w) {
                let j = choose|j: int| 0 <= j < distinct(words).len() && distinct(words)[j] == w;
                if j < d.len() {
                    assert(d[j] == w);
                    assert(d.contains(w));
                    let i = choose|i: int| 0 <= i < init.len() && init[i] == w;
                    assert(words[i] == w);
                } else {
                    assert(words[words.len() - 1] == w);
                }
            }
        }
        if !init.contains(x) {
            assert(!d.contains(x));
        }
    }
}

/// One more word adds one to the count of that word and to no other.
pub proof fn lemma_occurrences_push(words: Seq<Seq<char>>, x: Seq<char>, w: Seq<char>)
    ensures
        occurrences(words.push(x), w) == occurrences(words, w) + if x == w {
            1nat
        } else {
            0nat
        },
{
    assert(words.push(x).drop_last() == words);
}

proof fn lemma_total_push(entries: Seq<Entry>, e: Entry)
    ensures
        total(entries.push(e)) == total(entries) + e.1,
{
    assert(entries.push(e).drop_last() == entries);
}

/// Counting one more word raises the sum over duplicate-free `keys` by one
/// if the word is among them, and leaves it otherwise.
proof fn lemma_total_counted_push(keys: Seq<Seq<char>>, words: Seq<Seq<char>>, x: Seq<char>)
    requires
        keys.no_duplicates(),
    ensures
        total(counted(keys, words.push(x))) == total(counted(keys, words)) + if keys.contains(x) {
            1nat
        } else {
            0nat
        },
    decreases keys.len(),
{
    let after = counted(keys, words.push(x));
    let before = counted(keys, words);
    if keys.len() > 0 {
        let init = keys.drop_last();
        let k = keys.last();
        lemma_total_counted_push(init, words, x);
        assert(after.drop_last() == counted(init, words.push(x)));
        assert(before.drop_last() == counted(init, words));
        lemma_occurrences_push(words, x, k);
        if k == x {
            if init.contains(x) {
                let i = choose|i: int| 0 <= i < init.len() && init[i] == x;
                assert(keys[i] == keys[keys.len() - 1]);
            }
            assert(keys[keys.len() - 1] == x);
        } else {
            if keys.contains(x) {
                let i = choose|i: int| 0 <= i < keys.len() && keys[i] == x;
                assert(init[i] == x);
            }
            if init.contains(x) {
                let i = choose|i: int| 0 <= i < init.len() && init[i] == x;
                assert(keys[i] == x);
            }
        }
    }
}

/// The counts of a table add up to the number of words counted.
pub proof fn lemma_total_of_tally(words: Seq<Seq<char>>)
    ensures
        total(tally(words)) == words.len(),
    decreases words.len(),
{
    if words.len() > 0 {
        let init = words.drop_last();
        let x = words.last();
        let d = distinct(init);
        assert(init.push(x) == words);
        lemma_total_of_tally(init);
        lemma_distinct(init);
        lemma_total_counted_push(d, init, x);
        if init.contains(x) {
            assert(d.contains(x));
        } else {
            assert(!d.contains(x));
            lemma_occurrences(init, x);
            lemma_occurrences_push(init, x, x);
            lemma_total_push(counted(d, words), (x, occurrences(words, x)));
            assert(counted(d.push(x), words) == counted(d, words).push((x, occurrences(words, x))));
        }
    }
}

/// A table of duplicate-free keys stands for the mapping that sends each
/// key to its count.
proof fn lemma_as_map_counted(keys: Seq<Seq<char>>, words: Seq<Seq<char>>)
    requires
        keys.no_duplicates(),
    ensures
        as_map(counted(keys, words)) == Map::new(
            |w: Seq<char>| keys.contains(w),
            |w: Seq<char>| occurrences(words, w),
        ),
    decreases keys.len(),
{
    let m = Map::new(|w: Seq<char>| keys.contains(w), |w: Seq<char>| occurrences(words, w));
    if keys.len() == 0 {
        assert(as_map(counted(keys, words)) =~= m);
    } else {
        let init = keys.drop_last();
        let k = keys.last();
        lemma_as_map_counted(init, words);
        assert(counted(keys, words).drop_last() == counted(init, words));
        assert forall|w: Seq<char>| keys.contains(w) <==> (init.contains(w) || w == k) by {
            if keys.contains(w) {
                let i = choose|i: int| 0 <= i < keys.len() && keys[i] == w;
                if i < init.len() {
                    assert(init[i] == w);
                }
            }
            if init.contains(w) {
                let i = choose|i: int| 0 <= i < init.len() && init[i] == w;
                assert(keys[i] == w);
            }
            assert(keys[keys.len() - 1] == k);
        }
        assert(as_map(counted(keys, words)) =~= m);
    }
}

/// As a mapping, the table for `words` sends every word that occurs to the
/// number of its occurrences, and holds nothing else.
pub proof fn lemma_tally_as_map(words: Seq<Seq<char>>)
    ensures
        as_map(tally(words)) == word_counts(words),
{
    lemma_distinct(words);
    lemma_as_map_counted(distinct(words), words);
    assert(as_map(tally(words)) =~= word_counts(words));
}

/// In a table without repeated words, the mapping holds exactly the words
/// of the table, each with the count that stands beside it.
pub proof fn lemma_as_map(entries: Seq<Entry>)
    requires
        keys_of(entries).no_duplicates(),
    ensures
        forall|i: int|
            0 <= i < entries.len() ==> as_map(entries).contains_key(#[trigger] entries[i].0)
                && as_map(entries)[entries[i].0] == entries[i].1,
        forall|w: Seq<char>| #[trigger]
            as_map(entries).contains_key(w) ==> keys_of(entries).contains(w),
    decreases entries.len(),
{
    if entries.len() > 0 {
        let init = entries.drop_last();
        let last = entries.last();
        assert(keys_of(init) == keys_of(entries).drop_last());
        lemma_as_map(init);
        assert forall|i: int| 0 <= i < entries.len() implies as_map(entries).contains_key(
            #[trigger] entries[i].0,
        ) && as_map(entries)[entries[i].0] == entries[i].1 by {
            if i < init.len() {
                assert(init[i] == entries[i]);
                assert(keys_of(entries)[i] != keys_of(entries)[entries.len() - 1]);
            }
        }
        assert forall|w: Seq<char>| #[trigger]
            as_map(entries).contains_key(w) implies keys_of(entries).contains(w) by {
            if w == last.0 {
                assert(keys_of(entries)[entries.len() - 1] == w);
            } else {
                assert(as_map(entries) == as_map(init).insert(last.0, last.1));
                assert(as_map(init).contains_key(w));
                assert(keys_of(init).contains(w));
                let i = choose|i: int| 0 <= i < keys_of(init).len() && keys_of(init)[i] == w;
                assert(init[i] == entries[i]);
                assert(keys_of(entries)[i] == w);
            }
        }
    }
}

/// A table of words and counts, in which no word stands twice.
///
/// Its model is the sequence `entries()`; as a mapping from words to counts
/// it is `self@`.
#[derive(Debug)]
pub struct WordCounts {
    words: Vec<String>,
    counts: Vec<usize>,
}

impl View for WordCounts {
    type V = Map<Seq<char>, nat>;

    open spec fn view(&self) -> Map<Seq<char>, nat> {
        as_map(self.entries())
    }
}

impl WordCounts {
    /// The lines of the table, in order.
    pub closed spec fn entries(&self) -> Seq<Entry> {
        Seq::new(self.words@.len(), |i: int| (self.words@[i]@, self.counts@[i] as nat))
    }

    #[verifier::type_invariant]
    closed spec fn inv(&self) -> bool {
        &&& self.words@.len() == self.counts@.len()
        &&& keys_of(self.entries()).no_duplicates()
    }

    /// The table with the single line `word: count`.
    pub fn single(word: String, count: usize) -> (table: WordCounts)
        ensures
            table.entries() == seq![(word@, count as nat)],
    {
        let mut words: Vec<String> = Vec::new();
        let mut counts: Vec<usize> = Vec::new();
        words.push(word);
        counts.push(count);
        let table = WordCounts { words, counts };
        assert(table.entries() == seq![(word@, count as nat)]);
        table
    }

    /// Counts the given words.
    pub fn of_words(list: &Vec<String>) -> (table: WordCounts)
        ensures
            table.entries() == tally(list.deep_view()),
    {
        let ghost all = list.deep_view();
        let mut words: Vec<String> = Vec::new();
        let mut counts: Vec<usize> = Vec::new();
        let n = list.len();
        let mut k: usize = 0;
        assert(all.take(0) == Seq::<Seq<char>>::empty());
        assert(words.deep_view() == distinct(all.take(0)));
        while k < n
            invariant
                n == list@.len(),
                all == list.deep_view(),
                k <= n,
                words@.len() == counts@.len(),
                words.deep_view() == distinct(all.take(k as int)),
                forall|j: int|
                    0 <= j < counts@.len() ==> #[trigger] counts@[j] == occurrences(
                        all.take(k as int),
                        words@[j]@,
                    ),
            decreases n - k,
        {
            let ghost seen = all.take(k as int);
            let ghost next = all.take(k + 1);
            let ghost x = list@[k as int]@;
            let ghost keys = words.deep_view();
            proof {
                assert(next.drop_last() == seen);
                assert(next.last() == x);
                lemma_distinct(seen);
            }
            // Look for the word among those already in the table.
            let m = words.len();
            let mut j: usize = 0;
            while j < m && !same_text(words[j].as_str(), list[k].as_str())
                invariant
                    m == words@.len(),
                    j <= m,
                    k < list@.len(),
                    x == list@[k as int]@,
                    forall|i: int| 0 <= i < j ==> words@[i]@ != x,
                decreases m - j,
            {
                j += 1;
            }
            if j < m {
                proof {
                    assert(keys[j as int] == x);
                    assert(keys.contains(x));
                    assert(seen.contains(x));
                    lemma_occurrences(seen, x);
                    lemma_occurrences(next, x);
                    assert forall|i: int| 0 <= i < m && i != j implies words@[i]@ != x by {
                        assert(keys[i] != keys[j as int]);
                    }
                }
                let count = counts[j];
                counts.set(j, count + 1);
            } else {
                proof {
                    assert forall|i: int| 0 <= i < keys.len() implies keys[i] != x by {
                        assert(keys[i] == words@[i]@);
                    }
                    assert(!keys.contains(x));
                    assert(!seen.contains(x));
                    lemma_occurrences(seen, x);
                }
                words.push(list[k].clone());
                counts.push(1);
                assert(words.deep_view() == keys.push(x));
            }
            k += 1;
        }
        proof {
            assert(all.take(n as int) == all);
            lemma_distinct(all);
        }
        let ghost keys = words.deep_view();
        assert(keys_of(Seq::new(words@.len(), |i: int| (words@[i]@, counts@[i] as nat))) == keys);
        let table = WordCounts { words, counts };
        assert(table.entries() == tally(all));
        table
    }

    /// The number of lines.
    pub fn len(&self) -> (n: usize)
        ensures
            n == self.entries().len(),
    {
        self.words.len()
    }

    /// The line at place `i`, if the table has that many lines.
    pub fn entry(&self, i: usize) -> (line: Option<(&str, usize)>)
        ensures
            match line {
                Some((word, count)) => i < self.entries().len() && word@ == self.entries()[i as int].0
                    && count == self.entries()[i as int].1,
                None => i >= self.entries().len(),
            },
    {
        proof {
            use_type_invariant(self);
        }
        if i < self.words.len() {
            Some((self.words[i].as_str(), self.counts[i]))
        } else {
            None
        }
    }

    /// The count that stands beside `word`, if the table holds the word.
    pub fn get(&self, word: &str) -> (count: Option<usize>)
        ensures
            match count {
                Some(n) => self@.contains_key(word@) && self@[word@] == n,
                None => !self@.contains_key(word@),
            },
    {
        proof {
            use_type_invariant(self);
            lemma_as_map(self.entries());
        }
        let m = self.words.len();
        let mut j: usize = 0;
        while j < m
            invariant
                m == self.words@.len(),
                m == self.counts@.len(),
                j <= m,
                forall|i: int| 0 <= i < j ==> self.words@[i]@ != word@,
            decreases m - j,
        {
            if same_text(self.words[j].as_str(), word) {
                proof {
                    use_type_invariant(self);
                    lemma_as_map(self.entries());
                    assert(self.entries()[j as int].0 == word@);
                }
                return Some(self.counts[j]);
            }
            j += 1;
        }
        proof {
            if self@.contains_key(word@) {
                let i = choose|i: int|
                    0 <= i < self.entries().len() && keys_of(self.entries())[i] == word@;
                assert(self.words@[i]@ == word@);
            }
        }
        None
    }
}

} // verus!
