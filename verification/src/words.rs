//! Cutting text into pieces: words between whitespace, fields between
//! separators, and trimming.

use crate::chars::{is_whitespace, whitespace};
use crate::strings::{chars_of, string_of};
use vstd::prelude::*;

verus! {

/// The number of characters at the start of `s` before the first whitespace
/// character (all of `s` if it holds none).
pub open spec fn word_len(s: Seq<char>) -> nat
    decreases s.len(),
{
    if s.len() == 0 || whitespace(s[0]) {
        0
    } else {
        1 + word_len(s.drop_first())
    }
}

/// The words of `s`: its maximal runs of non-whitespace characters, from
/// left to right.
pub open spec fn tokens(s: Seq<char>) -> Seq<Seq<char>>
    decreases s.len(),
{
    if s.len() == 0 {
        Seq::empty()
    } else if whitespace(s[0]) {
        tokens(s.drop_first())
    } else {
        let n = word_len(s) as int;
        if 0 < n <= s.len() {
            seq![s.take(n)] + tokens(s.skip(n))
        } else {
            Seq::empty()
        }
    }
}

/// `word_len` never runs past the end, and stops exactly at the first
/// whitespace character.
pub proof fn lemma_word_len(s: Seq<char>)
    ensures
        word_len(s) <= s.len(),
        forall|i: int| 0 <= i < word_len(s) ==> !whitespace(#[trigger] s[i]),
        word_len(s) < s.len() ==> whitespace(s[word_len(s) as int]),
    decreases s.len(),
{
    if s.len() == 0 || whitespace(s[0]) {
    } else {
        let t = s.drop_first();
        lemma_word_len(t);
        assert forall|i: int| 0 <= i < word_len(s) implies !whitespace(#[trigger] s[i]) by {
            if i > 0 {
                assert(s[i] == t[i - 1]);
            }
        }
        if word_len(s) < s.len() {
            assert(s[word_len(s) as int] == t[word_len(t) as int]);
        }
    }
}

/// A stretch of non-whitespace characters followed by the end or by
/// whitespace is a whole word.
pub proof fn lemma_word_len_is(s: Seq<char>, n: int)
    requires
        0 <= n <= s.len(),
        forall|i: int| 0 <= i < n ==> !whitespace(#[trigger] s[i]),
        n < s.len() ==> whitespace(s[n]),
    ensures
        word_len(s) == n,
    decreases s.len(),
{
    if n == 0 {
    } else {
        let t = s.drop_first();
        assert forall|i: int| 0 <= i < n - 1 implies !whitespace(#[trigger] t[i]) by {
            assert(t[i] == s[i + 1]);
        }
        lemma_word_len_is(t, n - 1);
    }
}

/// Every word is a non-empty stretch of the text that holds no whitespace.
pub proof fn lemma_tokens(s: Seq<char>)
    ensures
        tokens(s).len() <= s.len(),
        forall|k: int| 0 <= k < tokens(s).len() ==> (#[trigger] tokens(s)[k]).len() > 0,
        forall|k: int, j: int|
            0 <= k < tokens(s).len() && 0 <= j < tokens(s)[k].len() ==> {
                let c = #[trigger] tokens(s)[k][j];
                !whitespace(c) && s.contains(c)
            },
    decreases s.len(),
{
    if s.len() == 0 {
    } else if whitespace(s[0]) {
        let t = s.drop_first();
        lemma_tokens(t);
        assert forall|k: int, j: int|
            0 <= k < tokens(s).len() && 0 <= j < tokens(s)[k].len() implies {
            let c = #[trigger] tokens(s)[k][j];
            !whitespace(c) && s.contains(c)
        } by {
            let c = tokens(t)[k][j];
            assert(t.contains(c));
            let p = choose|p: int| 0 <= p < t.len() && t[p] == c;
            assert(s[p + 1] == c);
        }
    } else {
        lemma_word_len(s);
        let n = word_len(s) as int;
        let t = s.skip(n);
        lemma_tokens(t);
        assert forall|k: int, j: int|
            0 <= k < tokens(s).len() && 0 <= j < tokens(s)[k].len() implies {
            let c = #[trigger] tokens(s)[k][j];
            !whitespace(c) && s.contains(c)
        } by {
            if k == 0 {
                assert(tokens(s)[0][j] == s[j]);
            } else {
                let c = tokens(t)[k - 1][j];
                assert(tokens(s)[k] == tokens(t)[k - 1]);
                assert(t.contains(c));
                let p = choose|p: int| 0 <= p < t.len() && t[p] == c;
                assert(s[p + n] == c);
            }
        }
    }
}

/// Splits `text` on whitespace.
pub fn split_whitespace(text: &[char]) -> (words: Vec<String>)
    ensures
        words.deep_view() == tokens(text@),
{
    let n = text.len();
    let mut words: Vec<String> = Vec::new();
    let mut i: usize = 0;
    assert(text@.skip(0) == text@);
    assert(words.deep_view() == Seq::<Seq<char>>::empty());
    while i < n
        invariant
            n == text@.len(),
            i <= n,
            tokens(text@) == words.deep_view() + tokens(text@.skip(i as int)),
        decreases n - i,
    {
        let ghost rest = text@.skip(i as int);
        if is_whitespace(text[i]) {
            assert(rest.drop_first() == text@.skip(i + 1));
            i += 1;
        } else {
            let start = i;
            while i < n && !is_whitespace(text[i])
                invariant
                    n == text@.len(),
                    start <= i <= n,
                    forall|k: int| start <= k < i ==> !whitespace(#[trigger] text@[k]),
                decreases n - i,
            {
                i += 1;
            }
            let word = string_of(text, start, i);
            proof {
                let len = i - start;
                assert forall|k: int| 0 <= k < len implies !whitespace(#[trigger] rest[k]) by {
                    assert(rest[k] == text@[start + k]);
                }
                lemma_word_len_is(rest, len);
                assert(rest.take(len) == text@.subrange(start as int, i as int));
                assert(rest.skip(len) == text@.skip(i as int));
                assert(words.deep_view().push(word@) + tokens(text@.skip(i as int))
                    == words.deep_view() + tokens(rest));
            }
            let ghost before = words.deep_view();
            words.push(word);
            assert(words.deep_view() == before.push(word@));
        }
    }
    assert(text@.skip(n as int).len() == 0);
    words
}

/// The place of the first word of `text`, if it has a word.
pub fn first_word_bounds(text: &[char]) -> (found: Option<(usize, usize)>)
    ensures
        match found {
            Some((from, to)) => {
                &&& from < to <= text@.len()
                &&& tokens(text@).len() > 0
                &&& tokens(text@)[0] == text@.subrange(from as int, to as int)
            },
            None => tokens(text@).len() == 0,
        },
{
    let n = text.len();
    let mut from: usize = 0;
    assert(text@.skip(0) == text@);
    while from < n && is_whitespace(text[from])
        invariant
            n == text@.len(),
            from <= n,
            tokens(text@) == tokens(text@.skip(from as int)),
        decreases n - from,
    {
        assert(text@.skip(from as int).drop_first() == text@.skip(from + 1));
        from += 1;
    }
    if from == n {
        assert(text@.skip(n as int).len() == 0);
        return None;
    }
    let mut to: usize = from + 1;
    while to < n && !is_whitespace(text[to])
        invariant
            n == text@.len(),
            from < to <= n,
            forall|k: int| from <= k < to ==> !whitespace(#[trigger] text@[k]),
        decreases n - to,
    {
        to += 1;
    }
    proof {
        let rest = text@.skip(from as int);
        let len = to - from;
        assert forall|k: int| 0 <= k < len implies !whitespace(#[trigger] rest[k]) by {
            assert(rest[k] == text@[from + k]);
        }
        lemma_word_len_is(rest, len);
        assert(rest.take(len) == text@.subrange(from as int, to as int));
    }
    Some((from, to))
}

/// `s` without the whitespace at its start.
pub open spec fn trim_start(s: Seq<char>) -> Seq<char>
    decreases s.len(),
{
    if s.len() > 0 && whitespace(s[0]) {
        trim_start(s.drop_first())
    } else {
        s
    }
}

/// `s` without the whitespace at its end.
pub open spec fn trim_end(s: Seq<char>) -> Seq<char>
    decreases s.len(),
{
    if s.len() > 0 && whitespace(s.last()) {
        trim_end(s.drop_last())
    } else {
        s
    }
}

/// `s` without the whitespace at its start and at its end.
pub open spec fn trimmed(s: Seq<char>) -> Seq<char> {
    trim_end(trim_start(s))
}

/// A text is blank if nothing but whitespace stands in it.
pub open spec fn blank(s: Seq<char>) -> bool {
    trimmed(s).len() == 0
}

/// Trimming at the start drops exactly the leading whitespace.
pub proof fn lemma_trim_start(s: Seq<char>, a: int)
    requires
        0 <= a <= s.len(),
        forall|i: int| 0 <= i < a ==> whitespace(#[trigger] s[i]),
        a < s.len() ==> !whitespace(s[a]),
    ensures
        trim_start(s) == s.skip(a),
    decreases a,
{
    if a == 0 {
        assert(s.skip(0) == s);
    } else {
        let t = s.drop_first();
        assert(whitespace(s[0]));
        assert forall|i: int| 0 <= i < a - 1 implies whitespace(#[trigger] t[i]) by {
            assert(t[i] == s[i + 1]);
        }
        lemma_trim_start(t, a - 1);
        assert(t.skip(a - 1) == s.skip(a));
    }
}

/// Trimming at the end drops exactly the trailing whitespace.
pub proof fn lemma_trim_end(s: Seq<char>, b: int)
    requires
        0 <= b <= s.len(),
        forall|i: int| b <= i < s.len() ==> whitespace(#[trigger] s[i]),
        b > 0 ==> !whitespace(s[b - 1]),
    ensures
        trim_end(s) == s.take(b),
    decreases s.len() - b,
{
    if b == s.len() {
        assert(s.take(b) == s);
    } else {
        let t = s.drop_last();
        assert(whitespace(s[s.len() - 1]));
        assert forall|i: int| b <= i < t.len() implies whitespace(#[trigger] t[i]) by {
            assert(t[i] == s[i]);
        }
        lemma_trim_end(t, b);
        assert(t.take(b) == s.take(b));
    }
}

/// The part of `text[from..to]` that is left when it is trimmed.
pub fn trim_bounds(text: &[char], from: usize, to: usize) -> (bounds: (usize, usize))
    requires
        from <= to <= text@.len(),
    ensures
        from <= bounds.0 <= bounds.1 <= to,
        text@.subrange(bounds.0 as int, bounds.1 as int) == trimmed(
            text@.subrange(from as int, to as int),
        ),
{
    let mut a: usize = from;
    while a < to && is_whitespace(text[a])
        invariant
            from <= a <= to <= text@.len(),
            forall|i: int| from <= i < a ==> whitespace(#[trigger] text@[i]),
        decreases to - a,
    {
        a += 1;
    }
    let mut b: usize = to;
    while b > a && is_whitespace(text[b - 1])
        invariant
            a <= b <= to <= text@.len(),
            forall|i: int| b <= i < to ==> whitespace(#[trigger] text@[i]),
        decreases b,
    {
        b -= 1;
    }
    proof {
        let s = text@.subrange(from as int, to as int);
        let u = text@.subrange(a as int, to as int);
        assert forall|i: int| 0 <= i < a - from implies whitespace(#[trigger] s[i]) by {
            assert(s[i] == text@[from + i]);
        }
        lemma_trim_start(s, a - from);
        assert(s.skip(a - from) == u);
        assert forall|i: int| b - a <= i < u.len() implies whitespace(#[trigger] u[i]) by {
            assert(u[i] == text@[a + i]);
        }
        lemma_trim_end(u, b - a);
        assert(u.take(b - a) == text@.subrange(a as int, b as int));
    }
    (a, b)
}

/// `text` without the whitespace at its start and at its end.
pub fn trim(text: &str) -> (kept: String)
    ensures
        kept@ == trimmed(text@),
{
    let chars = chars_of(text);
    assert(chars@.subrange(0, chars@.len() as int) == chars@);
    let (a, b) = trim_bounds(chars.as_slice(), 0, chars.len());
    string_of(chars.as_slice(), a, b)
}

/// Whether nothing but whitespace stands in `line`.
pub fn is_blank(line: &str) -> (empty: bool)
    ensures
        empty == blank(line@),
{
    let chars = chars_of(line);
    assert(chars@.subrange(0, chars@.len() as int) == chars@);
    let (a, b) = trim_bounds(chars.as_slice(), 0, chars.len());
    a == b
}

/// The number of characters at the start of `s` before the first `sep`
/// (all of `s` if it holds none).
pub open spec fn field_len(s: Seq<char>, sep: char) -> nat
    decreases s.len(),
{
    if s.len() == 0 || s[0] == sep {
        0
    } else {
        1 + field_len(s.drop_first(), sep)
    }
}

/// The pieces of `s` between the occurrences of `sep`. There is one piece
/// more than there are separators; a piece may be empty.
pub open spec fn split(s: Seq<char>, sep: char) -> Seq<Seq<char>>
    decreases s.len(),
{
    let n = field_len(s, sep) as int;
    if n >= s.len() {
        seq![s]
    } else {
        seq![s.take(n)] + split(s.skip(n + 1), sep)
    }
}

/// A stretch without separator that is followed by the end or by a
/// separator is a whole piece.
pub proof fn lemma_field_len_is(s: Seq<char>, sep: char, n: int)
    requires
        0 <= n <= s.len(),
        forall|i: int| 0 <= i < n ==> #[trigger] s[i] != sep,
        n < s.len() ==> s[n] == sep,
    ensures
        field_len(s, sep) == n,
    decreases s.len(),
{
    if n > 0 {
        let t = s.drop_first();
        assert forall|i: int| 0 <= i < n - 1 implies #[trigger] t[i] != sep by {
            assert(t[i] == s[i + 1]);
        }
        lemma_field_len_is(t, sep, n - 1);
    }
}

/// Splits `text` at every `sep`.
pub fn split_on(text: &[char], sep: char) -> (pieces: Vec<String>)
    ensures
        pieces.deep_view() == split(text@, sep),
{
    let n = text.len();
    let mut pieces: Vec<String> = Vec::new();
    let mut start: usize = 0;
    let mut done = false;
    assert(text@.skip(0) == text@);
    assert(pieces.deep_view() == Seq::<Seq<char>>::empty());
    while !done
        invariant
            n == text@.len(),
            start <= n,
            split(text@, sep) == if done {
                pieces.deep_view()
            } else {
                pieces.deep_view() + split(text@.skip(start as int), sep)
            },
        decreases
                if done {
                    0
                } else {
                    n - start + 1
                },
    {
        let ghost rest = text@.skip(start as int);
        let ghost before = pieces.deep_view();
        let mut i: usize = start;
        while i < n && text[i] != sep
            invariant
                n == text@.len(),
                start <= i <= n,
                forall|k: int| start <= k < i ==> #[trigger] text@[k] != sep,
            decreases n - i,
        {
            i += 1;
        }
        let piece = string_of(text, start, i);
        proof {
            let len = i - start;
            assert forall|k: int| 0 <= k < len implies #[trigger] rest[k] != sep by {
                assert(rest[k] == text@[start + k]);
            }
            lemma_field_len_is(rest, sep, len);
            assert(rest.take(len) == text@.subrange(start as int, i as int));
            if i < n {
                assert(rest.skip(len + 1) == text@.skip(i + 1));
            } else {
                assert(rest.take(len) == rest);
            }
        }
        pieces.push(piece);
        assert(pieces.deep_view() == before.push(piece@));
        if i < n {
            start = i + 1;
            assert(split(text@, sep) == pieces.deep_view() + split(text@.skip(start as int), sep));
        } else {
            done = true;
            assert(before + seq![rest] == before.push(rest));
        }
    }
    pieces
}

} // verus!
