//! Facts about the pieces that the patterns are put together from.

use crate::observe::{
    configures_nothing, level_after, level_after_concat, levels_of, pause_free, pauses,
    pauses_of_concat, slots, slots_count, slots_of_concat, slots_of_pause_free, writes,
    writes_of_concat,
};
use crate::script::{all_off, batch, blink, light, repeated, visit};
use crate::step::{Level, Step};
use std::time::Duration;
use vstd::prelude::*;

verus! {

/// The other level.
pub open spec fn opposite(level: Level) -> Level {
    match level {
        Level::Low => Level::High,
        Level::High => Level::Low,
    }
}

/// A batch holds one write of its level for each pin, nothing else, and no
/// pause.
pub proof fn batch_counts(pins: Seq<u8>, level: Level)
    ensures
        batch(pins, level).len() == pins.len(),
        pause_free(batch(pins, level)),
        pauses(batch(pins, level)) == 0,
        writes(batch(pins, level), level) == pins.len(),
        writes(batch(pins, level), opposite(level)) == 0,
    decreases pins.len(),
{
    if pins.len() > 0 {
        batch_counts(pins.drop_last(), level);
        assert(batch(pins, level).drop_last() =~= batch(pins.drop_last(), level));
    }
}

/// A batch drives each of its pins to its level, however often the pin
/// occurs, and no other pin.
pub proof fn batch_levels(pins: Seq<u8>, level: Level, pin: u8)
    ensures
        forall|j: int|
            0 <= j < levels_of(batch(pins, level), pin).len() ==> levels_of(
                batch(pins, level),
                pin,
            )[j] == level,
        levels_of(batch(pins, level), pin).len() > 0 <==> pins.contains(pin),
        pins.contains(pin) ==> level_after(batch(pins, level), pin) == Some(level),
        !pins.contains(pin) ==> level_after(batch(pins, level), pin).is_none(),
    decreases pins.len(),
{
    if pins.len() > 0 {
        let shorter = pins.drop_last();
        batch_levels(shorter, level, pin);
        assert(batch(pins, level).drop_last() =~= batch(shorter, level));
        if shorter.contains(pin) {
            let i = choose|i: int| 0 <= i < shorter.len() && shorter[i] == pin;
            assert(pins[i] == pin);
        }
        if pins.last() == pin {
            assert(pins[pins.len() - 1] == pin);
        }
        if pins.contains(pin) && pins.last() != pin {
            let i = choose|i: int| 0 <= i < pins.len() && pins[i] == pin;
            assert(shorter[i] == pin);
        }
    }
}

/// One visit: one pause between the pin's on and its off.
pub proof fn visit_facts(target: u8, pause: Duration, pin: u8)
    ensures
        pauses(visit(target, pause)) == 1,
        writes(visit(target, pause), Level::High) == 1,
        writes(visit(target, pause), Level::Low) == 1,
        levels_of(visit(target, pause), pin) == (if target == pin {
            seq![Level::High, Level::Low]
        } else {
            Seq::empty()
        }),
{
    let script = visit(target, pause);
    let two = script.drop_last();
    let one = two.drop_last();
    assert(one.drop_last() =~= Seq::<Step>::empty());
    assert(one.last() == script[0]);
    assert(two.last() == script[1]);
    assert(script.last() == script[2]);
    reveal_with_fuel(pauses, 4);
    reveal_with_fuel(writes, 4);
    reveal_with_fuel(levels_of, 4);
    assert(levels_of(script, pin) =~= if target == pin {
        seq![Level::High, Level::Low]
    } else {
        Seq::empty()
    });
}

/// One lighting: the pin's on, then one pause.
pub proof fn light_facts(target: u8, pause: Duration, pin: u8)
    ensures
        pauses(light(target, pause)) == 1,
        writes(light(target, pause), Level::High) == 1,
        writes(light(target, pause), Level::Low) == 0,
        levels_of(light(target, pause), pin) == (if target == pin {
            seq![Level::High]
        } else {
            Seq::empty()
        }),
{
    let script = light(target, pause);
    let one = script.drop_last();
    assert(one.drop_last() =~= Seq::<Step>::empty());
    assert(one.last() == script[0]);
    assert(script.last() == script[1]);
    reveal_with_fuel(pauses, 3);
    reveal_with_fuel(writes, 3);
    reveal_with_fuel(levels_of, 3);
    assert(levels_of(script, pin) =~= if target == pin {
        seq![Level::High]
    } else {
        Seq::empty()
    });
}

/// One blink: two pauses, each pin written high once and low once; every
/// pin of the group is left low and no other pin is touched.
pub proof fn blink_facts(pins: Seq<u8>, pause: Duration, pin: u8)
    ensures
        pauses(blink(pins, pause)) == 2,
        writes(blink(pins, pause), Level::High) == pins.len(),
        writes(blink(pins, pause), Level::Low) == pins.len(),
        level_after(blink(pins, pause), pin) == all_off(pins, pin),
{
    let wait = Step::Wait { duration: pause };
    let on = batch(pins, Level::High);
    let off = batch(pins, Level::Low);
    batch_counts(pins, Level::High);
    batch_counts(pins, Level::Low);
    batch_levels(pins, Level::High, pin);
    batch_levels(pins, Level::Low, pin);
    assert(on.push(wait).drop_last() =~= on);
    assert(off.push(wait).drop_last() =~= off);
    pauses_of_concat(on.push(wait), off.push(wait));
    writes_of_concat(on.push(wait), off.push(wait), Level::High);
    writes_of_concat(on.push(wait), off.push(wait), Level::Low);
    level_after_concat(on.push(wait), off.push(wait), pin);
}

/// One blink takes two time slots, the group on in the first and off in the
/// second, and ends with a pause.
pub proof fn blink_slots(pins: Seq<u8>, pause: Duration)
    ensures
        slots(blink(pins, pause)) == seq![
            batch(pins, Level::High),
            batch(pins, Level::Low),
            Seq::empty(),
        ],
{
    let wait = Step::Wait { duration: pause };
    let on = batch(pins, Level::High);
    let off = batch(pins, Level::Low);
    batch_counts(pins, Level::High);
    batch_counts(pins, Level::Low);
    slots_of_pause_free(on);
    slots_of_pause_free(off);
    assert(on.push(wait).drop_last() =~= on);
    assert(off.push(wait).drop_last() =~= off);
    assert(slots(on.push(wait)) =~= seq![on, Seq::empty()]);
    assert(slots(off.push(wait)) =~= seq![off, Seq::empty()]);
    slots_of_concat(on.push(wait), off.push(wait));
    assert(slots(blink(pins, pause)) =~= seq![on, off, Seq::empty()]);
}

/// The length of a repetition.
pub proof fn repeated_len<A>(part: Seq<A>, n: nat)
    ensures
        repeated(part, n).len() == n * part.len(),
    decreases n,
{
    if n > 0 {
        repeated_len(part, (n - 1) as nat);
        assert((n - 1) * part.len() + part.len() == n * part.len()) by (nonlinear_arith);
    } else {
        assert(0 * part.len() == 0) by (nonlinear_arith);
    }
}

/// Entry `j` of copy `r` of a repetition is entry `j` of the part.
pub proof fn repeated_index<A>(part: Seq<A>, n: nat, r: int, j: int)
    requires
        0 <= r < n,
        0 <= j < part.len(),
    ensures
        0 <= r * part.len() + j < repeated(part, n).len(),
        repeated(part, n)[r * part.len() + j] == part[j],
    decreases n,
{
    let len = part.len() as int;
    repeated_len(part, n);
    repeated_len(part, (n - 1) as nat);
    assert(0 <= r * len && r * len + len <= n * len) by (nonlinear_arith)
        requires
            0 <= r < n,
            0 <= len,
    ;
    if r == n - 1 {
    } else {
        repeated_index(part, (n - 1) as nat, r, j);
    }
}

/// The pauses and writes of a repetition are those of the part, times the
/// number of copies.
pub proof fn repeated_counts(part: Seq<Step>, n: nat)
    ensures
        pauses(repeated(part, n)) == n * pauses(part),
        writes(repeated(part, n), Level::High) == n * writes(part, Level::High),
        writes(repeated(part, n), Level::Low) == n * writes(part, Level::Low),
    decreases n,
{
    let p = pauses(part);
    let h = writes(part, Level::High);
    let l = writes(part, Level::Low);
    if n > 0 {
        let fewer = repeated(part, (n - 1) as nat);
        repeated_counts(part, (n - 1) as nat);
        pauses_of_concat(fewer, part);
        writes_of_concat(fewer, part, Level::High);
        writes_of_concat(fewer, part, Level::Low);
        assert((n - 1) * p + p == n * p) by (nonlinear_arith);
        assert((n - 1) * h + h == n * h) by (nonlinear_arith);
        assert((n - 1) * l + l == n * l) by (nonlinear_arith);
    } else {
        assert(0 * p == 0 && 0 * h == 0 && 0 * l == 0) by (nonlinear_arith);
    }
}

/// A repetition of a part that writes to a pin leaves the pin where the part
/// leaves it; one of a part that does not, leaves it untouched.
pub proof fn repeated_level_after(part: Seq<Step>, n: nat, pin: u8)
    requires
        n > 0,
    ensures
        level_after(repeated(part, n), pin) == level_after(part, pin),
    decreases n,
{
    let fewer = repeated(part, (n - 1) as nat);
    level_after_concat(fewer, part, pin);
    if n == 1 {
        assert(fewer =~= Seq::<Step>::empty());
        assert(fewer + part =~= part);
    } else {
        repeated_level_after(part, (n - 1) as nat, pin);
    }
}

/// The time slots of a repetition of a part that ends with a pause are those
/// of the part, as often as it is repeated, and one empty slot at the end.
pub proof fn repeated_slots(part: Seq<Step>, n: nat)
    requires
        slots(part).last().len() == 0,
    ensures
        slots(repeated(part, n)) == repeated(slots(part).drop_last(), n).push(Seq::empty()),
    decreases n,
{
    slots_count(part);
    let groups = slots(part).drop_last();
    if n == 0 {
        assert(repeated(groups, 0).push(Seq::empty()) =~= seq![Seq::<Step>::empty()]);
    } else {
        let fewer = repeated(part, (n - 1) as nat);
        repeated_slots(part, (n - 1) as nat);
        assert(slots(fewer).last() == Seq::<Step>::empty());
        slots_of_concat(fewer, part);
        assert(slots(fewer).drop_last() =~= repeated(groups, (n - 1) as nat));
        assert(slots(part).last() =~= Seq::<Step>::empty());
        assert(slots(part) =~= groups.push(Seq::empty()));
        assert(slots(repeated(part, n)) =~= repeated(groups, n).push(Seq::empty()));
    }
}

/// A repetition of a part that configures no pin configures none.
pub proof fn repeated_configures_nothing(part: Seq<Step>, n: nat)
    requires
        configures_nothing(part),
    ensures
        configures_nothing(repeated(part, n)),
    decreases n,
{
    if n > 0 {
        repeated_configures_nothing(part, (n - 1) as nat);
    }
}

} // verus!
