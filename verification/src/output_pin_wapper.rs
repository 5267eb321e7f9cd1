//! The error type of a pin that is only driven.

use vstd::prelude::*;

verus! {

/// The error of an output pin.  Driving a pin cannot fail, and the
/// only value is of the kind "other".
#[derive(Debug, Clone, Copy, PartialEq, Eq)]
pub enum OutputPinWapperError {
    Other,
}

impl OutputPinWapperError {
    /// The number that stands for the error.
    pub fn code(&self) -> (c: i32)
        ensures
            c == 0,
    {
        0
    }
}

} // verus!
