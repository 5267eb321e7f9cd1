//! A pin that is switched between reading and driving on demand.

use vstd::prelude::*;

verus! {

/// The error of a pin that is both read and driven.  Neither can fail, and
/// the only value is of the kind "other".
#[derive(Debug, Clone, Copy, PartialEq, Eq)]
pub enum IoPinWapperError {
    Other,
}

impl IoPinWapperError {
    /// The number that stands for the error.
    pub fn code(&self) -> (c: i32)
        ensures
            c == 0,
    {
        0
    }
}

/// The direction that a pin is set up for.
#[derive(Debug, Clone, Copy, PartialEq, Eq, Structural)]
pub enum PinMode {
    /// Not set up yet.
    Null,
    /// Set up for reading.
    Input,
    /// Set up for driving.
    Output,
}

/// What has to be done to the pin before it can be used in a direction.
#[derive(Debug, Clone, Copy, PartialEq, Eq, Structural)]
pub enum ModeChange {
    /// The pin is set up already.
    Keep,
    /// The pin has to be switched to the given direction first.
    Switch(PinMode),
}

/// Tracks the direction of a pin, so that it is switched only when the
/// direction of use changes.
#[derive(Debug, Clone, Copy, PartialEq, Eq)]
pub struct IoPinWapper {
    /// The direction that the pin was last switched to.
    pub mode: PinMode,
}

impl IoPinWapper {
    /// A pin that is not set up yet.
    pub fn new() -> (pin: Self)
        ensures
            pin.mode == PinMode::Null,
    {
        IoPinWapper { mode: PinMode::Null }
    }

    /// Prepares the pin for use in direction `wanted`: tells whether it has
    /// to be switched, and remembers the new direction.
    pub fn prepare(&mut self, wanted: PinMode) -> (change: ModeChange)
        ensures
            final(self).mode == wanted,
            change == if old(self).mode == wanted {
                ModeChange::Keep
            } else {
                ModeChange::Switch(wanted)
            },
    {
        if self.mode == wanted {
            ModeChange::Keep
        } else {
            self.mode = wanted;
            ModeChange::Switch(wanted)
        }
    }
}

} // verus!
