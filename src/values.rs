//! Runtime values of the language, as the later stages hold them.
use vstd::prelude::*;

verus! {

/// An integer value.
pub struct Int {
    pub value: i32,
}

impl Int {
    pub fn new(value: i32) -> (r: Int)
        ensures
            r.value == value,
    {
        Int { value }
    }
}

/// A boolean value.
pub struct Bool {
    pub value: bool,
}

/// A string value.
pub struct Str {
    pub value: String,
}

} // verus!
