//! Writing a table down, one line for each word.

use crate::strings::string_of;
use crate::wordfreq::counts::{Entry, WordCounts};
use vstd::prelude::*;
use vstd::string::StringExecFns;

verus! {

/// The decimal digit for `d`, which is below ten.
pub open spec fn digit(d: nat) -> char {
    (('0' as nat) + d) as char
}

/// `n` in decimal notation, without leading zeros.
pub open spec fn decimal(n: nat) -> Seq<char>
    decreases n,
{
    if n < 10 {
        seq![digit(n)]
    } else {
        decimal(n / 10).push(digit(n % 10))
    }
}

/// The line for one entry: the word, a colon and a space, and the count.
pub open spec fn line_of(entry: Entry) -> Seq<char> {
    entry.0 + ": "@ + decimal(entry.1)
}

/// The lines for a table, in its order.
pub open spec fn lines_of(entries: Seq<Entry>) -> Seq<Seq<char>> {
    Seq::new(entries.len(), |i: int| line_of(entries[i]))
}

fn digit_char(d: usize) -> (c: char)
    requires
        d < 10,
    ensures
        c == digit(d as nat),
{
    (('0' as u8) + (d as u8)) as char
}

/// `n` in decimal notation.
pub fn to_decimal(n: usize) -> (text: String)
    ensures
        text@ == decimal(n as nat),
{
    let mut digits: Vec<char> = Vec::new();
    digits.push(digit_char(n % 10));
    let mut rest: usize = n / 10;
    while rest > 0
        invariant
            decimal(n as nat) == if rest > 0 {
                decimal(rest as nat) + digits@
            } else {
                digits@
            },
        decreases rest,
    {
        digits.insert(0, digit_char(rest % 10));
        rest = rest / 10;
    }
    let text = string_of(digits.as_slice(), 0, digits.len());
    assert(digits@.subrange(0, digits@.len() as int) == digits@);
    text
}

/// The line `word: count`.
pub fn render_line(word: &str, count: usize) -> (line: String)
    ensures
        line@ == line_of((word@, count as nat)),
{
    let mut line = String::from_str(word);
    line.append(": ");
    let number = to_decimal(count);
    line.append(number.as_str());
    line
}

/// The lines of `table`, in its order.
pub fn render(table: &WordCounts) -> (lines: Vec<String>)
    ensures
        lines.deep_view() == lines_of(table.entries()),
{
    let mut lines: Vec<String> = Vec::new();
    let n = table.len();
    let mut i: usize = 0;
    while i < n
        invariant
            n == table.entries().len(),
            i <= n,
            lines.deep_view() == lines_of(table.entries()).take(i as int),
        decreases n - i,
    {
        let ghost before = lines.deep_view();
        match table.entry(i) {
            Some((word, count)) => {
                let line = render_line(word, count);
                lines.push(line);
            },
            None => {},
        }
        assert(lines.deep_view() == before.push(lines_of(table.entries())[i as int]));
        i += 1;
    }
    lines
}

} // verus!
