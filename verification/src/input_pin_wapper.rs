//! The error type of a pin that is only read.

use vstd::prelude::*;

verus! {

/// The error of an input pin.  Reading a pin cannot fail, and the only
/// value is of the kind "other".
#[derive(Debug, Clone, Copy, PartialEq, Eq)]
pub enum InputPinWapperError {
    Other,
}

impl InputPinWapperError {
    /// The number that stands for the error.
    pub fn code(&self) -> (c: i32)
        ensures
            c == 0,
    {
        0
    }
}

} // verus!
