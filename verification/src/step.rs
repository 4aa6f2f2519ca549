//! The vocabulary of a pattern: levels and steps.

use std::time::Duration;
use vstd::prelude::*;

verus! {

/// Logic level of an output pin.
#[derive(Clone, Copy, Debug, PartialEq, Eq, Structural)]
pub enum Level {
    Low,
    High,
}

/// One request to the device, or one pause between requests.
#[derive(Clone, Copy, Debug, PartialEq, Eq)]
pub enum Step {
    /// Configure the pin as an output.
    Configure { pin: u8 },
    /// Drive the pin to the level.
    Write { pin: u8, level: Level },
    /// Block for the duration before the next step.
    Wait { duration: Duration },
}

} // verus!
