//! The marker for the system's monotonic clock.

use vstd::prelude::*;

verus! {

/// Stands for the monotonic clock of the operating system.  It holds no
/// state: reading the clock is left to the caller.
#[derive(Debug, Clone, Copy, PartialEq, Eq)]
pub struct StdClock {}

impl StdClock {
    /// The clock.
    pub fn new() -> (clock: Self)
        ensures
            clock == (StdClock {  }),
    {
        StdClock {  }
    }
}

} // verus!
