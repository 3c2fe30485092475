//! Bringing a text into the form in which its words are counted.

use crate::chars::{is_ascii_punctuation, punctuation};
use crate::strings::{chars_of, lowercase_of, string_of, to_lowercase};
use vstd::prelude::*;

verus! {

/// `s` with its ASCII punctuation characters taken out.
pub open spec fn without_punctuation(s: Seq<char>) -> Seq<char>
    decreases s.len(),
{
    if s.len() == 0 {
        s
    } else if punctuation(s.last()) {
        without_punctuation(s.drop_last())
    } else {
        without_punctuation(s.drop_last()).push(s.last())
    }
}

/// The normal form of `raw`: in lower case, and without ASCII punctuation.
pub open spec fn normalized(raw: Seq<char>) -> Seq<char> {
    without_punctuation(lowercase_of(raw))
}

/// What is left holds no punctuation, and is no longer than the text was.
pub proof fn lemma_without_punctuation(s: Seq<char>)
    ensures
        without_punctuation(s).len() <= s.len(),
        forall|i: int|
            0 <= i < without_punctuation(s).len() ==> !punctuation(
                #[trigger] without_punctuation(s)[i],
            ),
    decreases s.len(),
{
    if s.len() > 0 {
        lemma_without_punctuation(s.drop_last());
    }
}

/// `text` without its ASCII punctuation characters.
pub fn strip_punctuation(text: &str) -> (stripped: String)
    ensures
        stripped@ == without_punctuation(text@),
{
    let chars = chars_of(text);
    let mut kept: Vec<char> = Vec::new();
    let n = chars.len();
    let mut i: usize = 0;
    assert(chars@.take(0) =~= Seq::<char>::empty());
    while i < n
        invariant
            n == chars@.len(),
            i <= n,
            kept@ == without_punctuation(chars@.take(i as int)),
        decreases n - i,
    {
        assert(chars@.take(i + 1).drop_last() == chars@.take(i as int));
        if !is_ascii_punctuation(chars[i]) {
            kept.push(chars[i]);
        }
        i += 1;
    }
    assert(chars@.take(n as int) == chars@);
    let stripped = string_of(kept.as_slice(), 0, kept.len());
    assert(kept@.subrange(0, kept@.len() as int) == kept@);
    stripped
}

/// The normal form of `raw`.
pub fn normalize(raw: &str) -> (text: String)
    ensures
        text@ == normalized(raw@),
{
    let lower = to_lowercase(raw);
    strip_punctuation(lower.as_str())
}

} // verus!
