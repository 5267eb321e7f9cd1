//! The stepper motor behind a four-channel driver: the sequence in which
//! its coils are energised, and the position within that sequence.

use vstd::prelude::*;

verus! {

/// The shortest pause between two steps that the motor follows without
/// losing steps, in nanoseconds.
pub const MIN_STEP_DELAY_NS: u128 = 3_000_000;

/// The direction of rotation.
#[derive(Debug, Clone, Copy, PartialEq, Eq, Structural)]
pub enum Direction {
    /// Clockwise.
    Clockwise,
    /// Counter-clockwise.
    CounterClockwise,
}

/// The way the coils are energised.
#[derive(Debug, Clone, Copy, PartialEq, Eq, Structural)]
pub enum StepMode {
    /// One coil at a time, four steps.
    WaveDrive,
    /// Two neighbouring coils at a time, four steps.
    FullStep,
    /// One coil and two coils in turn, eight steps.
    HalfStep,
}

/// The number of steps in the sequence of a mode.
pub open spec fn sequence_len(mode: StepMode) -> nat {
    match mode {
        StepMode::WaveDrive => 4,
        StepMode::FullStep => 4,
        StepMode::HalfStep => 8,
    }
}

/// Whether coil `coil` is energised at step `step` of the sequence of
/// `mode`.  In wave drive step `i` energises coil `i`; in full step it
/// energises coil `i` and the next one; in half step the even steps are
/// those of wave drive and the odd steps those of full step.
pub open spec fn coil_on(mode: StepMode, step: int, coil: int) -> bool {
    match mode {
        StepMode::WaveDrive => coil == step,
        StepMode::FullStep => coil == step || coil == (step + 1) % 4,
        StepMode::HalfStep => if step % 2 == 0 {
            coil == step / 2
        } else {
            coil == step / 2 || coil == (step / 2 + 1) % 4
        },
    }
}

/// `sequence` is the sequence of `mode`.
pub open spec fn is_sequence_of(sequence: Seq<[bool; 4]>, mode: StepMode) -> bool {
    &&& sequence.len() == sequence_len(mode)
    &&& forall|step: int, coil: int|
        0 <= step < sequence.len() && 0 <= coil < 4 ==> #[trigger] sequence[step]@[coil] == coil_on(
            mode,
            step,
            coil,
        )
}

/// The position after one step from `position` in a sequence of `len`
/// steps: clockwise goes forward and wraps to the start, counter-clockwise
/// goes back and wraps to the end.
pub open spec fn next_position(position: nat, len: nat, direction: Direction) -> nat {
    match direction {
        Direction::Clockwise => (position + 1) % len,
        Direction::CounterClockwise => if position == 0 {
            (len - 1) as nat
        } else {
            (position - 1) as nat
        },
    }
}

/// The direction against `direction`.
pub open spec fn opposite(direction: Direction) -> Direction {
    match direction {
        Direction::Clockwise => Direction::CounterClockwise,
        Direction::CounterClockwise => Direction::Clockwise,
    }
}

/// A step and a step back lead to where the motor was.
pub proof fn lemma_step_back(position: nat, len: nat, direction: Direction)
    requires
        position < len,
    ensures
        next_position(position, len, direction) < len,
        next_position(next_position(position, len, direction), len, opposite(direction))
            == position,
{
    vstd::arithmetic::div_mod::lemma_mod_self_0(len as int);
    if position + 1 < len {
        vstd::arithmetic::div_mod::lemma_small_mod(position + 1, len);
    }
    vstd::arithmetic::div_mod::lemma_small_mod(position, len);
}

/// The number of steps to take for a signed step count.
pub fn step_count(steps: i32) -> (n: usize)
    ensures
        n == if steps < 0 {
            -steps
        } else {
            steps as int
        },
{
    if steps < 0 {
        (-(steps as i64)) as usize
    } else {
        steps as usize
    }
}

/// The pause to keep after a step when `step_delay_ns` nanoseconds were
/// asked for: never less than `MIN_STEP_DELAY_NS`.
pub fn effective_delay_ns(step_delay_ns: u128) -> (delay: u128)
    ensures
        delay == if step_delay_ns < MIN_STEP_DELAY_NS {
            MIN_STEP_DELAY_NS
        } else {
            step_delay_ns
        },
{
    if step_delay_ns < MIN_STEP_DELAY_NS {
        MIN_STEP_DELAY_NS
    } else {
        step_delay_ns
    }
}

/// The state of the motor: the mode, its sequence and the position in it.
pub struct ULN2003A {
    step_mode: StepMode,
    step_sequence: Vec<[bool; 4]>,
    current_step: usize,
}

impl ULN2003A {
    #[verifier::type_invariant]
    spec fn sequence_fits(self) -> bool {
        &&& is_sequence_of(self.step_sequence@, self.step_mode)
        &&& self.current_step < self.step_sequence@.len()
    }

    /// The mode.
    pub closed spec fn mode(self) -> StepMode {
        self.step_mode
    }

    /// The position in the sequence.
    pub closed spec fn position(self) -> nat {
        self.current_step as nat
    }

    /// The sequence.
    pub closed spec fn sequence(self) -> Seq<[bool; 4]> {
        self.step_sequence@
    }

    /// The sequence of coil patterns of a mode.
    pub fn generate_step_sequence(mode: StepMode) -> (sequence: Vec<[bool; 4]>)
        ensures
            is_sequence_of(sequence@, mode),
    {
        match mode {
            StepMode::WaveDrive => {
                vec![
                    [true, false, false, false],
                    [false, true, false, false],
                    [false, false, true, false],
                    [false, false, false, true],
                ]
            },
            StepMode::FullStep => {
                vec![
                    [true, true, false, false],
                    [false, true, true, false],
                    [false, false, true, true],
                    [true, false, false, true],
                ]
            },
            StepMode::HalfStep => {
                vec![
                    [true, false, false, false],
                    [true, true, false, false],
                    [false, true, false, false],
                    [false, true, true, false],
                    [false, false, true, false],
                    [false, false, true, true],
                    [false, false, false, true],
                    [true, false, false, true],
                ]
            },
        }
    }

    /// A motor in the given mode, at the start of its sequence.
    pub fn new(mode: StepMode) -> (motor: Self)
        ensures
            motor.mode() == mode,
            motor.position() == 0,
            is_sequence_of(motor.sequence(), mode),
    {
        ULN2003A {
            step_mode: mode,
            step_sequence: Self::generate_step_sequence(mode),
            current_step: 0,
        }
    }

    /// Changes the mode.  A new mode starts at the beginning of its
    /// sequence; the mode that is set already leaves the position alone.
    pub fn set_step_mode(&mut self, mode: StepMode)
        ensures
            final(self).mode() == mode,
            final(self).position() < sequence_len(mode),
            is_sequence_of(final(self).sequence(), mode),
            final(self).position() == if mode == old(self).mode() {
                old(self).position()
            } else {
                0
            },
    {
        proof {
            use_type_invariant(&*self);
        }
        if mode != self.step_mode {
            *self = ULN2003A {
                step_mode: mode,
                step_sequence: Self::generate_step_sequence(mode),
                current_step: 0,
            };
        }
    }

    /// The pattern of the current position: which of the four coils are
    /// energised.
    pub fn apply_step(&self) -> (pattern: [bool; 4])
        ensures
            self.position() < sequence_len(self.mode()),
            forall|coil: int|
                0 <= coil < 4 ==> #[trigger] pattern@[coil] == coil_on(
                    self.mode(),
                    self.position() as int,
                    coil,
                ),
    {
        proof {
            use_type_invariant(self);
        }
        self.step_sequence[self.current_step]
    }

    /// Moves one step in the given direction and gives the pattern to put
    /// on the coils.
    pub fn step(&mut self, direction: Direction) -> (pattern: [bool; 4])
        ensures
            final(self).mode() == old(self).mode(),
            final(self).position() < sequence_len(old(self).mode()),
            final(self).position() == next_position(
                old(self).position(),
                sequence_len(old(self).mode()),
                direction,
            ),
            forall|coil: int|
                0 <= coil < 4 ==> #[trigger] pattern@[coil] == coil_on(
                    final(self).mode(),
                    final(self).position() as int,
                    coil,
                ),
    {
        proof {
            use_type_invariant(&*self);
        }
        let seq_len = self.step_sequence.len();
        let next = match direction {
            Direction::Clockwise => (self.current_step + 1) % seq_len,
            Direction::CounterClockwise => if self.current_step == 0 {
                seq_len - 1
            } else {
                self.current_step - 1
            },
        };
        self.current_step = next;
        self.apply_step()
    }

    /// The pattern that lets go of the motor: no coil is energised.
    pub fn release(&self) -> (pattern: [bool; 4])
        ensures
            forall|coil: int| 0 <= coil < 4 ==> !#[trigger] pattern@[coil],
    {
        [false, false, false, false]
    }

    /// The position in the sequence.
    pub fn current_position(&self) -> (position: usize)
        ensures
            position == self.position(),
    {
        self.current_step
    }

    /// The number of steps in the sequence.
    pub fn sequence_length(&self) -> (len: usize)
        ensures
            len == self.sequence().len(),
            len == sequence_len(self.mode()),
            is_sequence_of(self.sequence(), self.mode()),
    {
        proof {
            use_type_invariant(self);
        }
        self.step_sequence.len()
    }
}

} // verus!
