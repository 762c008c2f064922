//! Models of the two digital pin kinds the firmware touches: an input
//! pin with a pull-resistor configuration and an output pin with a
//! drive level. The hardware register access itself is an external
//! collaborator; these types carry the logic level that the registers
//! would show, so that the task logic over them can be verified.

use vstd::prelude::*;

verus! {

/// The binary electrical state of a digital pin.
#[derive(Clone, Copy, PartialEq, Eq, Structural, Debug)]
pub enum Level {
    High,
    Low,
}

/// A pin's idle-state bias resistor configuration, which decides the
/// level an undriven input pin reads.
#[derive(Clone, Copy, PartialEq, Eq, Structural, Debug)]
pub enum Pull {
    Floating,
    Up,
    Down,
}

/// The logical complement of a level.
pub open spec fn flip(l: Level) -> Level {
    match l {
        Level::High => Level::Low,
        Level::Low => Level::High,
    }
}

/// The level an undriven input pin shows under a given pull
/// configuration; with no bias resistor the line floats and this model
/// treats it as reading low.
pub open spec fn idle_level(pull: Pull) -> Level {
    match pull {
        Pull::Up => Level::High,
        Pull::Down => Level::Low,
        Pull::Floating => Level::Low,
    }
}

/// A digital input pin: its pull configuration and the level currently
/// on the line. The level changes only when the outside world drives
/// the line, never as a side effect of reading it.
#[derive(Clone, Copy, PartialEq, Eq, Structural, Debug)]
pub struct InputPin {
    pub pull: Pull,
    pub level: Level,
}

impl InputPin {
    /// Configures an input pin with the given pull mode; the line is
    /// undriven at configuration time, so it reads the pull's idle level.
    pub fn new(pull: Pull) -> (r: InputPin)
        ensures
            r.pull == pull,
            r.level == idle_level(pull),
    {
        let level = match pull {
            Pull::Up => Level::High,
            Pull::Down => Level::Low,
            Pull::Floating => Level::Low,
        };
        InputPin { pull, level }
    }

    /// Reads the pin's logic level. Reading is infallible and has no
    /// side effect on the pin.
    pub fn read_level(&self) -> (r: Level)
        ensures
            r == self.level,
    {
        self.level
    }

    /// True exactly when the pin reads high.
    pub fn is_high(&self) -> (r: bool)
        ensures
            r == (self.level == Level::High),
    {
        match self.level {
            Level::High => true,
            Level::Low => false,
        }
    }

    /// Models the outside world driving the line to a new level; this
    /// is the only way an input pin's level changes.
    pub fn drive(&mut self, level: Level)
        ensures
            final(self).pull == old(self).pull,
            final(self).level == level,
    {
        self.level = level;
    }
}

/// A digital output pin: the level it currently drives. Only its owner
/// mutates it, via `set_level` or `toggle`.
#[derive(Clone, Copy, PartialEq, Eq, Structural, Debug)]
pub struct OutputPin {
    pub level: Level,
}

impl OutputPin {
    /// Configures an output pin driving the given initial level.
    pub fn new(initial: Level) -> (r: OutputPin)
        ensures
            r.level == initial,
    {
        OutputPin { level: initial }
    }

    /// Drives the pin to the given level.
    pub fn set_level(&mut self, level: Level)
        ensures
            final(self).level == level,
    {
        self.level = level;
    }

    /// Drives the pin high.
    pub fn set_high(&mut self)
        ensures
            final(self).level == Level::High,
    {
        self.level = Level::High;
    }

    /// Flips the pin's level to its logical complement; the physical
    /// pin reflects the new level immediately and infallibly.
    pub fn toggle(&mut self)
        ensures
            final(self).level == flip(old(self).level),
    {
        self.level = match self.level {
            Level::High => Level::Low,
            Level::Low => Level::High,
        };
    }
}

} // verus!
