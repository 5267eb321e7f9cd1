//! A push button: what a press means to a program that polls or hears of
//! its state.

use vstd::prelude::*;

verus! {

/// The pause that filters the bouncing of the contact, in milliseconds.
pub const DEBOUNCE_MS: u64 = 50;

/// A switch that every new press of a button flips.
#[derive(Debug, Clone, Copy, PartialEq, Eq)]
pub struct PressToggle {
    /// Whether the button was down when it was last looked at.
    pub pressed: bool,
    /// Whether the switch is on.
    pub on: bool,
}

impl PressToggle {
    /// The toggle after the button was seen in state `pressed`: a button
    /// that is down now and was not before flips the switch.
    pub open spec fn after(self, pressed: bool) -> PressToggle {
        PressToggle {
            pressed,
            on: if pressed && !self.pressed {
                !self.on
            } else {
                self.on
            },
        }
    }

    /// A toggle that is off, with the button up.
    pub fn new() -> (toggle: Self)
        ensures
            toggle == (PressToggle { pressed: false, on: false }),
    {
        PressToggle { pressed: false, on: false }
    }

    /// Takes note of the state of the button.  Gives the new state of the
    /// switch if this was a new press, and `None` otherwise.
    pub fn update(&mut self, pressed: bool) -> (flipped: Option<bool>)
        ensures
            *final(self) == old(self).after(pressed),
            flipped == if pressed && !old(self).pressed {
                Some(!old(self).on)
            } else {
                None
            },
    {
        let new_press = pressed && !self.pressed;
        self.pressed = pressed;
        if new_press {
            self.on = !self.on;
            Some(self.on)
        } else {
            None
        }
    }
}

/// While the button is held, however often it is looked at, the switch
/// flips no more than once.
pub proof fn lemma_held_button_flips_once(toggle: PressToggle)
    ensures
        toggle.after(true).after(true) == toggle.after(true),
        toggle.after(false).after(false) == toggle.after(false),
        toggle.after(false).on == toggle.on,
{
}

} // verus!
