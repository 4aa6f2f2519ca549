//! What each pattern is, as a sequence of steps.
//!
//! A script is a `Seq<Step>`: the steps in the order in which the device
//! receives them. Steps that follow one another without a `Wait` between them
//! reach the device in the same time slot.

use crate::step::{Level, Step};
use std::time::Duration;
use vstd::prelude::*;

verus! {

/// How often `flash` blinks the bank.
pub const FLASH_ROUNDS: usize = 2;

/// How often `cross` blinks its two groups in turn.
pub const CROSS_ROUNDS: usize = 6;

/// One write of `level` to each pin of `pins`, in order, with no pause between
/// them.
pub open spec fn batch(pins: Seq<u8>, level: Level) -> Seq<Step> {
    Seq::new(pins.len(), |i: int| Step::Write { pin: pins[i], level })
}

/// One blink of a group: all on, pause, all off, pause.
pub open spec fn blink(pins: Seq<u8>, pause: Duration) -> Seq<Step> {
    batch(pins, Level::High).push(Step::Wait { duration: pause }) + batch(pins, Level::Low).push(
        Step::Wait { duration: pause },
    )
}

/// `n` copies of `part`, one after the other.
pub open spec fn repeated<A>(part: Seq<A>, n: nat) -> Seq<A>
    decreases n,
{
    if n == 0 {
        Seq::empty()
    } else {
        repeated(part, (n - 1) as nat) + part
    }
}

/// One pin lit for one pause: on, pause, off.
pub open spec fn visit(pin: u8, pause: Duration) -> Seq<Step> {
    seq![
        Step::Write { pin, level: Level::High },
        Step::Wait { duration: pause },
        Step::Write { pin, level: Level::Low },
    ]
}

/// One pin lit and left on: on, pause.
pub open spec fn light(pin: u8, pause: Duration) -> Seq<Step> {
    seq![Step::Write { pin, level: Level::High }, Step::Wait { duration: pause }]
}

/// The pins at positions 0, 2, 4, ... of `pins`, in order.
pub open spec fn evens(pins: Seq<u8>) -> Seq<u8> {
    Seq::new(((pins.len() + 1) / 2) as nat, |i: int| pins[2 * i])
}

/// The pins at positions 1, 3, 5, ... of `pins`, in order.
pub open spec fn odds(pins: Seq<u8>) -> Seq<u8> {
    Seq::new((pins.len() / 2) as nat, |i: int| pins[2 * i + 1])
}

/// Configuration of every entry of `pins` as an output, in order.
pub open spec fn setup_script(pins: Seq<u8>) -> Seq<Step> {
    Seq::new(pins.len(), |i: int| Step::Configure { pin: pins[i] })
}

/// The sweep: every entry of `pins` is visited in order.
pub open spec fn cycle_script(pins: Seq<u8>, pause: Duration) -> Seq<Step>
    decreases pins.len(),
{
    if pins.len() == 0 {
        Seq::empty()
    } else {
        cycle_script(pins.drop_last(), pause) + visit(pins.last(), pause)
    }
}

/// The whole bank blinks `FLASH_ROUNDS` times.
pub open spec fn flash_script(pins: Seq<u8>, pause: Duration) -> Seq<Step> {
    repeated(blink(pins, pause), FLASH_ROUNDS as nat)
}

/// The chase: the first entry of `pins` is lit and left on, every later entry
/// is visited.
pub open spec fn trail_script(pins: Seq<u8>, pause: Duration) -> Seq<Step>
    decreases pins.len(),
{
    if pins.len() == 0 {
        Seq::empty()
    } else if pins.len() == 1 {
        light(pins[0], pause)
    } else {
        trail_script(pins.drop_last(), pause) + visit(pins.last(), pause)
    }
}

/// One round of `cross`: the even positions blink, then the odd ones.
pub open spec fn cross_round(pins: Seq<u8>, pause: Duration) -> Seq<Step> {
    blink(evens(pins), pause) + blink(odds(pins), pause)
}

/// The batch that `cross` plays in time slot `t`: the even positions on, the
/// even positions off, the odd positions on, the odd positions off, and so
/// on from the start.
pub open spec fn cross_batch(pins: Seq<u8>, t: int) -> Seq<Step> {
    batch(
        if t % 4 < 2 {
            evens(pins)
        } else {
            odds(pins)
        },
        if t % 2 == 0 {
            Level::High
        } else {
            Level::Low
        },
    )
}

/// The two groups blink in turn, `CROSS_ROUNDS` times.
pub open spec fn cross_script(pins: Seq<u8>, pause: Duration) -> Seq<Step> {
    repeated(cross_round(pins, pause), CROSS_ROUNDS as nat)
}

/// The time slots of `flash`: the whole list on, the whole list off, both
/// once more, and an empty slot after the last pause.
pub open spec fn flash_slots(pins: Seq<u8>) -> Seq<Seq<Step>> {
    seq![
        batch(pins, Level::High),
        batch(pins, Level::Low),
        batch(pins, Level::High),
        batch(pins, Level::Low),
        Seq::empty(),
    ]
}

/// The time slots of `cross`: `4 * CROSS_ROUNDS` batches, and an empty slot
/// after the last pause.
pub open spec fn cross_slots(pins: Seq<u8>) -> Seq<Seq<Step>> {
    Seq::new(
        (4 * CROSS_ROUNDS + 1) as nat,
        |t: int|
            if t < 4 * CROSS_ROUNDS {
                cross_batch(pins, t)
            } else {
                Seq::empty()
            },
    )
}

/// Where `pin` stands when every pin of `pins` has been switched off and no
/// other pin has been touched: low if it is in `pins`, else as it was.
pub open spec fn all_off(pins: Seq<u8>, pin: u8) -> Option<Level> {
    if pins.contains(pin) {
        Some(Level::Low)
    } else {
        None
    }
}

/// Where `trail` leaves `pin`: low if it occurs in `pins` after the first
/// entry; else high if it is the first entry; else as it was.
pub open spec fn trail_end(pins: Seq<u8>, pin: u8) -> Option<Level>
    recommends
        pins.len() >= 1,
{
    if pins.drop_first().contains(pin) {
        Some(Level::Low)
    } else if pin == pins[0] {
        Some(Level::High)
    } else {
        None
    }
}

/// Where `pin` stands when the first entry of `pins` is the only pin left
/// on: high if it is that entry, else low if it is in `pins`, else as it was.
pub open spec fn only_first_on(pins: Seq<u8>, pin: u8) -> Option<Level>
    recommends
        pins.len() >= 1,
{
    if pin == pins[0] {
        Some(Level::High)
    } else {
        all_off(pins, pin)
    }
}

} // verus!
