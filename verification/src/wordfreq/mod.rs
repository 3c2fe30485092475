//! The word-frequency counter: from an argument list and the contents of a
//! file to a table of words and how often each occurs.

pub mod config;
pub mod counts;
pub mod failure;
pub mod matching;
pub mod normalize;
pub mod report;
pub mod search;
