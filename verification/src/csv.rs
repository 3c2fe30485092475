//! The header row of a file of comma-separated values.

use crate::strings::chars_of;
use crate::words::{blank, is_blank, split, split_on, trim, trimmed};
use vstd::prelude::*;

verus! {

/// The model of a `CsvReader`.
pub struct CsvReaderView {
    pub path: Seq<char>,
    pub column: Option<Seq<char>>,
}

/// The file to read and the column of interest, if one is chosen.
#[derive(Debug)]
pub struct CsvReader {
    path: String,
    column: Option<String>,
}

impl View for CsvReader {
    type V = CsvReaderView;

    closed spec fn view(&self) -> CsvReaderView {
        CsvReaderView {
            path: self.path@,
            column: match self.column {
                Some(c) => Some(c@),
                None => None,
            },
        }
    }
}

/// The characters of an optional text.
pub open spec fn text_of(s: Option<String>) -> Option<Seq<char>> {
    match s {
        Some(t) => Some(t@),
        None => None,
    }
}

impl CsvReader {
    /// A reader for `path`. Every path and column is accepted.
    pub fn new(path: String, column: Option<String>) -> (made: Result<CsvReader, String>)
        ensures
            made matches Ok(reader) && reader@ == (CsvReaderView {
                path: path@,
                column: text_of(column),
            }),
    {
        Ok(CsvReader { path, column })
    }

    /// The file to read.
    pub fn path(&self) -> (path: &str)
        ensures
            path@ == self@.path,
    {
        self.path.as_str()
    }

    /// The column of interest, if one is chosen.
    pub fn column(&self) -> (column: Option<&str>)
        ensures
            match column {
                Some(c) => self@.column == Some(c@),
                None => self@.column is None,
            },
    {
        match &self.column {
            Some(c) => Some(c.as_str()),
            None => None,
        }
    }
}

/// The names in a header line: the pieces between its commas, each
/// trimmed.
pub open spec fn fields(line: Seq<char>) -> Seq<Seq<char>> {
    Seq::new(split(line, ',').len(), |i: int| trimmed(split(line, ',')[i]))
}

/// The header of a file: the names in its first line that is not blank,
/// and nothing if it has no such line.
pub open spec fn header(lines: Seq<Seq<char>>) -> Seq<Seq<char>>
    decreases lines.len(),
{
    if lines.len() == 0 {
        Seq::empty()
    } else if blank(lines[0]) {
        header(lines.drop_first())
    } else {
        fields(lines[0])
    }
}

/// The names in the header line `line`.
pub fn split_fields(line: &str) -> (names: Vec<String>)
    ensures
        names.deep_view() == fields(line@),
{
    let chars = chars_of(line);
    let pieces = split_on(chars.as_slice(), ',');
    let mut names: Vec<String> = Vec::new();
    let n = pieces.len();
    let mut i: usize = 0;
    assert(names.deep_view() == fields(line@).take(0));
    while i < n
        invariant
            n == pieces@.len(),
            pieces.deep_view() == split(line@, ','),
            i <= n,
            names.deep_view() == fields(line@).take(i as int),
        decreases n - i,
    {
        let ghost before = names.deep_view();
        let name = trim(pieces[i].as_str());
        assert(pieces.deep_view()[i as int] == pieces@[i as int]@);
        names.push(name);
        assert(names.deep_view() == before.push(name@));
        i += 1;
    }
    assert(fields(line@).take(n as int) == fields(line@));
    names
}

/// The header of the file whose lines are `lines`.
pub fn read_header(lines: &Vec<String>) -> (names: Vec<String>)
    ensures
        names.deep_view() == header(lines.deep_view()),
{
    let n = lines.len();
    let mut i: usize = 0;
    let ghost all = lines.deep_view();
    assert(all.skip(0) == all);
    while i < n
        invariant
            n == lines@.len(),
            all == lines.deep_view(),
            i <= n,
            header(all) == header(all.skip(i as int)),
        decreases n - i,
    {
        assert(all.skip(i as int)[0] == lines@[i as int]@);
        if !is_blank(lines[i].as_str()) {
            return split_fields(lines[i].as_str());
        }
        assert(all.skip(i as int).drop_first() == all.skip(i + 1));
        i += 1;
    }
    assert(all.skip(n as int).len() == 0);
    let names: Vec<String> = Vec::new();
    assert(names.deep_view() == Seq::<Seq<char>>::empty());
    names
}

} // verus!
