//! Verified text utilities and a word-frequency counter, together with a
//! handful of small verified idioms.

pub mod chars;
pub mod csv;
pub mod idioms;
pub mod strings;
pub mod wordfreq;
pub mod words;
