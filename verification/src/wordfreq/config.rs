//! What a run is asked to do.

use crate::wordfreq::failure::Failure;
use vstd::prelude::*;

verus! {

/// The model of a `Config`.
pub struct ConfigView {
    pub path: Seq<char>,
    pub query: Option<Seq<char>>,
}

/// The file to read and, if only one word is of interest, that word.
#[derive(Debug)]
pub struct Config {
    query: Option<String>,
    path: String,
}

impl View for Config {
    type V = ConfigView;

    closed spec fn view(&self) -> ConfigView {
        ConfigView {
            path: self.path@,
            query: match self.query {
                Some(q) => Some(q@),
                None => None,
            },
        }
    }
}

/// The configuration that an argument list asks for, if it names a file.
/// The list starts with the name of the program; the file comes next, and
/// a query after it if there is one.
pub open spec fn parsed(args: Seq<String>) -> Result<ConfigView, Failure> {
    if args.len() < 2 {
        Err(Failure::MissingArgument)
    } else {
        Ok(
            ConfigView {
                path: args[1]@,
                query: if args.len() >= 3 {
                    Some(args[2]@)
                } else {
                    None
                },
            },
        )
    }
}

impl Config {
    /// Reads the argument list of the process.
    pub fn new(args: &[String]) -> (made: Result<Config, Failure>)
        ensures
            match made {
                Ok(config) => parsed(args@) == Ok::<ConfigView, Failure>(config@),
                Err(failure) => parsed(args@) == Err::<ConfigView, Failure>(failure),
            },
            made is Err <==> args@.len() < 2,
            made is Err ==> made == Err::<Config, Failure>(Failure::MissingArgument),
    {
        if args.len() < 2 {
            return Err(Failure::MissingArgument);
        }
        let path = args[1].clone();
        let query = if args.len() >= 3 {
            Some(args[2].clone())
        } else {
            None
        };
        Ok(Config { query, path })
    }

    /// The file to read.
    pub fn path(&self) -> (path: &str)
        ensures
            path@ == self@.path,
    {
        self.path.as_str()
    }

    /// The one word of interest, if there is one.
    pub fn query(&self) -> (query: Option<&str>)
        ensures
            match query {
                Some(q) => self@.query == Some(q@),
                None => self@.query is None,
            },
    {
        match &self.query {
            Some(q) => Some(q.as_str()),
            None => None,
        }
    }
}

} // verus!
