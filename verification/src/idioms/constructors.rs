//! A constructor is an associated function, by convention `new`; a type
//! that has an obvious default value implements `Default` as well.

use vstd::prelude::*;

verus! {

/// A span of time in whole seconds.
#[derive(Debug, Clone, Copy)]
pub struct Second {
    value: u64,
}

impl View for Second {
    type V = u64;

    closed spec fn view(&self) -> u64 {
        self.value
    }
}

impl Second {
    /// The span of `value` seconds.
    pub fn new(value: u64) -> (made: Self)
        ensures
            made@ == value,
    {
        Self { value }
    }

    /// The length of the span in seconds.
    pub fn value(&self) -> (value: u64)
        ensures
            value == self@,
    {
        self.value
    }
}

impl Default for Second {
    /// The empty span.
    fn default() -> (made: Self)
        ensures
            made@ == 0,
    {
        Self { value: 0 }
    }
}

} // verus!
