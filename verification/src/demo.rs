//! The demonstration run: every pattern once, at a fixed pace.

use crate::engine::RaspberryGpio;
use crate::script::{cross_script, cycle_script, flash_script, setup_script, trail_script};
use crate::step::Step;
use std::time::Duration;
use vstd::prelude::*;

verus! {

/// The pause of the demonstration run, in milliseconds.
pub const HOWLONG: u64 = 100;

/// The duration that `Duration::from_millis` makes of a number of
/// milliseconds.
pub uninterp spec fn duration_of_millis(millis: u64) -> Duration;

/// `std::time::Duration::from_millis`: the result depends on the argument
/// alone. Nothing more is claimed of it.
pub assume_specification[ Duration::from_millis ](millis: u64) -> (duration: Duration)
    ensures
        duration == duration_of_millis(millis),
;

/// The demonstration run on `pins`: the setup, then the sweep, the blink, the
/// chase and the alternation, each once and in that order, with a pause of
/// `HOWLONG` milliseconds.
pub open spec fn demo_script(pins: Seq<u8>) -> Seq<Step> {
    let pause = duration_of_millis(HOWLONG);
    setup_script(pins) + cycle_script(pins, pause) + flash_script(pins, pause) + trail_script(
        pins,
        pause,
    ) + cross_script(pins, pause)
}

/// The steps of the demonstration run on `pins`.
pub fn demo(pins: Vec<u8>) -> (script: Vec<Step>)
    ensures
        script@ == demo_script(pins@),
{
    let rgpio = RaspberryGpio::new(Duration::from_millis(HOWLONG), pins);
    let mut script: Vec<Step> = rgpio.setup();
    let mut part: Vec<Step> = rgpio.cycle();
    script.append(&mut part);
    part = rgpio.flash();
    script.append(&mut part);
    part = rgpio.trail();
    script.append(&mut part);
    part = rgpio.cross();
    script.append(&mut part);
    script
}

} // verus!
