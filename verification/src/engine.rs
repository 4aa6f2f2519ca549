//! The pattern engine: a pin list, a pause, and the four patterns.

use crate::laws::{
    cross_batches, cross_counts, cross_ends_dark, cycle_alternates, cycle_counts, cycle_ends_dark,
    flash_batches, flash_counts, flash_ends_dark, trail_counts, trail_final_levels,
    trail_leaves_first_on,
};
use crate::observe::{alternates, level_after, levels_of, pauses, slots, writes};
use crate::script::{
    all_off, batch, blink, cross_round, cross_script, cross_slots, cycle_script, evens,
    flash_script, flash_slots, light, odds, only_first_on, repeated, setup_script, trail_end,
    trail_script, visit, CROSS_ROUNDS, FLASH_ROUNDS,
};
use crate::step::{Level, Step};
use std::time::Duration;
use vstd::prelude::*;

verus! {

/// What an engine is made of, as plain values.
pub struct EngineView {
    /// The pause between two lighting changes.
    pub sleep_duration: Duration,
    /// The pins, in the order in which the patterns walk them. An id may occur
    /// more than once.
    pub pins: Seq<u8>,
}

/// Plays light patterns on an ordered list of output pins.
///
/// Nothing here touches a device. Each pattern is returned as the steps to
/// perform, in order; the steps of `setup` come before those of any pattern.
///
/// The list may repeat an id: every entry is played at its position. It may
/// be empty: no pin is then written to, `cycle` and `trail` are empty, and
/// `flash` and `cross` only pause. The pause may be zero: every `Wait` is then
/// of zero length.
pub struct RaspberryGpio {
    sleep_duration: Duration,
    pins: Vec<u8>,
}

impl View for RaspberryGpio {
    type V = EngineView;

    closed spec fn view(&self) -> EngineView {
        EngineView { sleep_duration: self.sleep_duration, pins: self.pins@ }
    }
}

impl RaspberryGpio {
    /// An engine for `pins` that pauses for `sleep_duration`.
    pub fn new(sleep_duration: Duration, pins: Vec<u8>) -> (engine: RaspberryGpio)
        ensures
            engine@ == (EngineView { sleep_duration, pins: pins@ }),
    {
        RaspberryGpio { sleep_duration, pins }
    }

    /// The pins, in playing order.
    pub fn pins(&self) -> (pins: &[u8])
        ensures
            pins@ == self@.pins,
    {
        self.pins.as_slice()
    }

    /// The pause between two lighting changes.
    pub fn sleep_duration(&self) -> (pause: Duration)
        ensures
            pause == self@.sleep_duration,
    {
        self.sleep_duration
    }

    /// The steps that configure every entry of the pin list as an output, in
    /// list order.
    pub fn setup(&self) -> (script: Vec<Step>)
        ensures
            script@ == setup_script(self@.pins),
    {
        let mut script: Vec<Step> = Vec::new();
        let mut i: usize = 0;
        while i < self.pins.len()
            invariant
                i <= self.pins.len(),
                script@ == setup_script(self.pins@.take(i as int)),
            decreases self.pins.len() - i,
        {
            script.push(Step::Configure { pin: self.pins[i] });
            i = i + 1;
            assert(script@ =~= setup_script(self.pins@.take(i as int)));
        }
        assert(self.pins@.take(i as int) =~= self.pins@);
        script
    }

    /// Appends one pause to `script`.
    pub fn wait(&self, script: &mut Vec<Step>)
        ensures
            final(script)@ == old(script)@.push(Step::Wait { duration: self@.sleep_duration }),
    {
        script.push(Step::Wait { duration: self.sleep_duration });
    }

    /// Appends the step that drives `pin` low.
    pub fn off(&self, script: &mut Vec<Step>, pin: u8)
        ensures
            final(script)@ == old(script)@.push(Step::Write { pin, level: Level::Low }),
    {
        script.push(Step::Write { pin, level: Level::Low });
    }

    /// Appends the steps that drive each of `pins` low, in order and with no
    /// pause between them.
    pub fn off_slice(&self, script: &mut Vec<Step>, pins: &[u8])
        ensures
            final(script)@ == old(script)@ + batch(pins@, Level::Low),
    {
        let mut i: usize = 0;
        while i < pins.len()
            invariant
                i <= pins.len(),
                script@ == old(script)@ + batch(pins@.take(i as int), Level::Low),
            decreases pins.len() - i,
        {
            self.off(script, pins[i]);
            i = i + 1;
            assert(script@ =~= old(script)@ + batch(pins@.take(i as int), Level::Low));
        }
        assert(pins@.take(i as int) =~= pins@);
    }

    /// Appends the step that drives `pin` high.
    pub fn on(&self, script: &mut Vec<Step>, pin: u8)
        ensures
            final(script)@ == old(script)@.push(Step::Write { pin, level: Level::High }),
    {
        script.push(Step::Write { pin, level: Level::High });
    }

    /// Appends the steps that drive each of `pins` high, in order and with no
    /// pause between them.
    pub fn on_slice(&self, script: &mut Vec<Step>, pins: &[u8])
        ensures
            final(script)@ == old(script)@ + batch(pins@, Level::High),
    {
        let mut i: usize = 0;
        while i < pins.len()
            invariant
                i <= pins.len(),
                script@ == old(script)@ + batch(pins@.take(i as int), Level::High),
            decreases pins.len() - i,
        {
            self.on(script, pins[i]);
            i = i + 1;
            assert(script@ =~= old(script)@ + batch(pins@.take(i as int), Level::High));
        }
        assert(pins@.take(i as int) =~= pins@);
    }

    /// The sweep: each entry of the pin list in turn is switched on, held for
    /// one pause and switched off; the next entry follows at once.
    ///
    /// There is one on, one pause and one off for each entry. Every pin goes
    /// on and off in turn, and all pins of the list are off at the end.
    pub fn cycle(&self) -> (script: Vec<Step>)
        ensures
            script@ == cycle_script(self@.pins, self@.sleep_duration),
            writes(script@, Level::High) == self@.pins.len(),
            writes(script@, Level::Low) == self@.pins.len(),
            pauses(script@) == self@.pins.len(),
            forall|pin: u8| alternates(#[trigger] levels_of(script@, pin)),
            forall|pin: u8| #[trigger] level_after(script@, pin) == all_off(self@.pins, pin),
    {
        let mut script: Vec<Step> = Vec::new();
        let mut i: usize = 0;
        while i < self.pins.len()
            invariant
                i <= self.pins.len(),
                script@ == cycle_script(self.pins@.take(i as int), self.sleep_duration),
            decreases self.pins.len() - i,
        {
            let pin: u8 = self.pins[i];
            let ghost before = script@;
            self.on(&mut script, pin);
            self.wait(&mut script);
            self.off(&mut script, pin);
            i = i + 1;
            proof {
                let seen = self.pins@.take(i as int);
                assert(seen.drop_last() =~= self.pins@.take(i - 1));
                assert(script@ =~= before + visit(pin, self.sleep_duration));
            }
        }
        proof {
            assert(self.pins@.take(i as int) =~= self.pins@);
            cycle_counts(self.pins@, self.sleep_duration);
            assert forall|pin: u8| alternates(#[trigger] levels_of(script@, pin)) by {
                cycle_alternates(self.pins@, self.sleep_duration, pin);
            }
            assert forall|pin: u8| #[trigger]
                level_after(script@, pin) == all_off(self.pins@, pin) by {
                cycle_ends_dark(self.pins@, self.sleep_duration, pin);
            }
        }
        script
    }

    /// The blink: the whole bank is switched on, held for one pause, switched
    /// off and left dark for one pause, `FLASH_ROUNDS` times.
    ///
    /// Each switching is one batch: its writes reach the device in one time
    /// slot. All pins of the list are off at the end.
    pub fn flash(&self) -> (script: Vec<Step>)
        ensures
            script@ == flash_script(self@.pins, self@.sleep_duration),
            slots(script@) == flash_slots(self@.pins),
            pauses(script@) == 2 * FLASH_ROUNDS,
            writes(script@, Level::High) == FLASH_ROUNDS * self@.pins.len(),
            writes(script@, Level::Low) == FLASH_ROUNDS * self@.pins.len(),
            forall|pin: u8| #[trigger] level_after(script@, pin) == all_off(self@.pins, pin),
    {
        let mut script: Vec<Step> = Vec::new();
        let mut round: usize = 0;
        while round < FLASH_ROUNDS
            invariant
                round <= FLASH_ROUNDS,
                script@ == repeated(blink(self.pins@, self.sleep_duration), round as nat),
            decreases FLASH_ROUNDS - round,
        {
            let ghost before = script@;
            self.on_slice(&mut script, self.pins.as_slice());
            self.wait(&mut script);
            self.off_slice(&mut script, self.pins.as_slice());
            self.wait(&mut script);
            round = round + 1;
            assert(script@ =~= before + blink(self.pins@, self.sleep_duration));
        }
        proof {
            flash_batches(self.pins@, self.sleep_duration);
            flash_counts(self.pins@, self.sleep_duration);
            assert forall|pin: u8| #[trigger]
                level_after(script@, pin) == all_off(self.pins@, pin) by {
                flash_ends_dark(self.pins@, self.sleep_duration, pin);
            }
        }
        script
    }

    /// The chase: each entry of the pin list in turn is switched on and held
    /// for one pause; every entry but the first is then switched off itself,
    /// and the first entry is not switched off at all.
    ///
    /// A pin that occurs after the first entry is off at the end. The pin of
    /// the first entry is on at the end unless it occurs again; where it does
    /// not, it is the only pin left on.
    pub fn trail(&self) -> (script: Vec<Step>)
        ensures
            script@ == trail_script(self@.pins, self@.sleep_duration),
            writes(script@, Level::High) == self@.pins.len(),
            self@.pins.len() >= 1 ==> writes(script@, Level::Low) == self@.pins.len() - 1,
            pauses(script@) == self@.pins.len(),
            self@.pins.len() >= 1 ==> forall|pin: u8| #[trigger]
                level_after(script@, pin) == trail_end(self@.pins, pin),
            self@.pins.len() >= 1 && !self@.pins.drop_first().contains(self@.pins[0])
                ==> forall|pin: u8| #[trigger]
                level_after(script@, pin) == only_first_on(self@.pins, pin),
    {
        let mut script: Vec<Step> = Vec::new();
        let mut lastpin: Option<u8> = None;
        let mut i: usize = 0;
        while i < self.pins.len()
            invariant
                i <= self.pins.len(),
                lastpin.is_some() <==> i > 0,
                script@ == trail_script(self.pins@.take(i as int), self.sleep_duration),
            decreases self.pins.len() - i,
        {
            let pin: u8 = self.pins[i];
            let ghost before = script@;
            self.on(&mut script, pin);
            self.wait(&mut script);
            if lastpin.is_some() {
                self.off(&mut script, pin);
            }
            lastpin = Some(pin);
            i = i + 1;
            proof {
                let seen = self.pins@.take(i as int);
                assert(seen.drop_last() =~= self.pins@.take(i - 1));
                if i == 1 {
                    assert(script@ =~= light(pin, self.sleep_duration));
                } else {
                    assert(script@ =~= before + visit(pin, self.sleep_duration));
                }
            }
        }
        proof {
            assert(self.pins@.take(i as int) =~= self.pins@);
            if self.pins@.len() >= 1 {
                trail_counts(self.pins@, self.sleep_duration);
                assert forall|pin: u8| #[trigger]
                    level_after(script@, pin) == trail_end(self.pins@, pin) by {
                    trail_final_levels(self.pins@, self.sleep_duration, pin);
                }
                if !self.pins@.drop_first().contains(self.pins@[0]) {
                    assert forall|pin: u8| #[trigger]
                        level_after(script@, pin) == only_first_on(self.pins@, pin) by {
                        trail_leaves_first_on(self.pins@, self.sleep_duration, pin);
                    }
                }
            }
        }
        script
    }

    /// The two groups that `cross` blinks in turn: the entries at the even
    /// positions of the pin list, and those at the odd positions. An entry
    /// goes by its position, whatever its id.
    pub fn subsets(&self) -> (parts: (Vec<u8>, Vec<u8>))
        ensures
            parts.0@ == evens(self@.pins),
            parts.1@ == odds(self@.pins),
            parts.0@.len() + parts.1@.len() == self@.pins.len(),
    {
        let cap: usize = self.pins.len() / 2;
        let mut subset1: Vec<u8> = Vec::with_capacity(cap + 1);
        let mut subset2: Vec<u8> = Vec::with_capacity(cap);
        let mut i: usize = 0;
        while i < self.pins.len()
            invariant
                i <= self.pins.len(),
                subset1@ == evens(self.pins@.take(i as int)),
                subset2@ == odds(self.pins@.take(i as int)),
            decreases self.pins.len() - i,
        {
            let pin: u8 = self.pins[i];
            if i % 2 == 0 {
                subset1.push(pin);
            } else {
                subset2.push(pin);
            }
            i = i + 1;
            assert(subset1@ =~= evens(self.pins@.take(i as int)));
            assert(subset2@ =~= odds(self.pins@.take(i as int)));
        }
        assert(self.pins@.take(i as int) =~= self.pins@);
        (subset1, subset2)
    }

    /// The alternation: the even positions blink, then the odd positions,
    /// `CROSS_ROUNDS` times.
    ///
    /// Each switching is one batch: its writes reach the device in one time
    /// slot. All pins of the list are off at the end.
    pub fn cross(&self) -> (script: Vec<Step>)
        ensures
            script@ == cross_script(self@.pins, self@.sleep_duration),
            slots(script@) == cross_slots(self@.pins),
            pauses(script@) == 4 * CROSS_ROUNDS,
            writes(script@, Level::High) == CROSS_ROUNDS * self@.pins.len(),
            writes(script@, Level::Low) == CROSS_ROUNDS * self@.pins.len(),
            forall|pin: u8| #[trigger] level_after(script@, pin) == all_off(self@.pins, pin),
    {
        let (subset1, subset2) = self.subsets();
        let mut script: Vec<Step> = Vec::new();
        let mut round: usize = 0;
        while round < CROSS_ROUNDS
            invariant
                round <= CROSS_ROUNDS,
                subset1@ == evens(self.pins@),
                subset2@ == odds(self.pins@),
                script@ == repeated(cross_round(self.pins@, self.sleep_duration), round as nat),
            decreases CROSS_ROUNDS - round,
        {
            let ghost before = script@;
            self.on_slice(&mut script, subset1.as_slice());
            self.wait(&mut script);
            self.off_slice(&mut script, subset1.as_slice());
            self.wait(&mut script);
            self.on_slice(&mut script, subset2.as_slice());
            self.wait(&mut script);
            self.off_slice(&mut script, subset2.as_slice());
            self.wait(&mut script);
            round = round + 1;
            assert(script@ =~= before + cross_round(self.pins@, self.sleep_duration));
        }
        proof {
            cross_batches(self.pins@, self.sleep_duration);
            cross_counts(self.pins@, self.sleep_duration);
            assert forall|pin: u8| #[trigger]
                level_after(script@, pin) == all_off(self.pins@, pin) by {
                cross_ends_dark(self.pins@, self.sleep_duration, pin);
            }
        }
        script
    }
}

} // verus!
