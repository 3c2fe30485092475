//! The ways in which a run can fail.

use vstd::prelude::*;

verus! {

/// Why a run produced no table.
#[derive(Debug, Clone, Copy, PartialEq, Eq, Structural)]
pub enum Failure {
    /// The argument list names no file.
    MissingArgument,
    /// The file could not be read. The library reads no file itself: the
    /// caller that does reports its failure with this value.
    FileReadError,
    /// There is no text to count in.
    EmptyInput,
}

impl Failure {
    /// The text that explains the failure to the user.
    pub open spec fn message_text(self) -> Seq<char> {
        match self {
            Failure::MissingArgument => "Not enough arguments provided!"@,
            Failure::FileReadError => "File could not be read!"@,
            Failure::EmptyInput => "File is empty!"@,
        }
    }

    /// What the message is introduced by: a failure to understand the
    /// arguments is announced differently from one met while running.
    pub open spec fn heading_text(self) -> Seq<char> {
        match self {
            Failure::MissingArgument => "Problem parsing arguments: "@,
            _ => "Application error: "@,
        }
    }

    /// The text that explains the failure to the user.
    pub fn message(&self) -> (text: &'static str)
        ensures
            text@ == self.message_text(),
    {
        match self {
            Failure::MissingArgument => "Not enough arguments provided!",
            Failure::FileReadError => "File could not be read!",
            Failure::EmptyInput => "File is empty!",
        }
    }

    /// What the message is introduced by.
    pub fn heading(&self) -> (text: &'static str)
        ensures
            text@ == self.heading_text(),
    {
        match self {
            Failure::MissingArgument => "Problem parsing arguments: ",
            _ => "Application error: ",
        }
    }

    /// The status with which the process ends after this failure.
    pub fn exit_code(&self) -> (code: i32)
        ensures
            code == 1,
    {
        1
    }
}

} // verus!
