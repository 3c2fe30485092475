//! Small idioms, each with its contract.

pub mod borrowed;
pub mod constructors;
pub mod mem_replace;
