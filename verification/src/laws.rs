//! What holds of the patterns, whatever the pin list and the pause.

use crate::blocks::{
    blink_facts, blink_slots, light_facts, repeated_configures_nothing, repeated_counts,
    repeated_index, repeated_len, repeated_level_after, repeated_slots, visit_facts,
};
use crate::demo::{demo_script, duration_of_millis, HOWLONG};
use crate::engine::RaspberryGpio;
use crate::observe::{
    alternates, configures_nothing, level_after, level_after_concat, levels_of, levels_of_concat,
    pauses, pauses_of_concat, slots, slots_of_concat, writes, writes_of_concat,
};
use crate::script::{
    all_off, batch, blink, cross_round, cross_script, cross_slots, cycle_script, evens,
    flash_script, flash_slots, light, odds, only_first_on, repeated, setup_script, trail_end,
    trail_script, visit, CROSS_ROUNDS, FLASH_ROUNDS,
};
use crate::step::{Level, Step};
use std::time::Duration;
use vstd::prelude::*;

verus! {

/// The sweep of a list that is followed by more pins is the sweep of the
/// list, then the sweep of the rest.
pub proof fn cycle_of_concat(a: Seq<u8>, b: Seq<u8>, pause: Duration)
    ensures
        cycle_script(a + b, pause) == cycle_script(a, pause) + cycle_script(b, pause),
    decreases b.len(),
{
    if b.len() == 0 {
        assert(a + b =~= a);
        assert(cycle_script(a, pause) + cycle_script(b, pause) =~= cycle_script(a, pause));
    } else {
        assert((a + b).drop_last() =~= a + b.drop_last());
        cycle_of_concat(a, b.drop_last(), pause);
        assert(cycle_script(a + b, pause) =~= cycle_script(a, pause) + cycle_script(b, pause));
    }
}

/// The sweep holds three steps for each entry of the list: one on, one
/// pause, one off.
pub proof fn cycle_counts(pins: Seq<u8>, pause: Duration)
    ensures
        cycle_script(pins, pause).len() == 3 * pins.len(),
        writes(cycle_script(pins, pause), Level::High) == pins.len(),
        writes(cycle_script(pins, pause), Level::Low) == pins.len(),
        pauses(cycle_script(pins, pause)) == pins.len(),
    decreases pins.len(),
{
    if pins.len() > 0 {
        let before = cycle_script(pins.drop_last(), pause);
        let last = visit(pins.last(), pause);
        cycle_counts(pins.drop_last(), pause);
        visit_facts(pins.last(), pause, pins.last());
        pauses_of_concat(before, last);
        writes_of_concat(before, last, Level::High);
        writes_of_concat(before, last, Level::Low);
    }
}

/// The sweep handles entry `k` of the list in its steps `3k` to `3k + 2`:
/// the pin goes on, one pause passes, the same pin goes off.
pub proof fn cycle_order(pins: Seq<u8>, pause: Duration, k: int)
    requires
        0 <= k < pins.len(),
    ensures
        cycle_script(pins, pause).len() == 3 * pins.len(),
        cycle_script(pins, pause)[3 * k] == (Step::Write { pin: pins[k], level: Level::High }),
        cycle_script(pins, pause)[3 * k + 1] == (Step::Wait { duration: pause }),
        cycle_script(pins, pause)[3 * k + 2] == (Step::Write { pin: pins[k], level: Level::Low }),
    decreases pins.len(),
{
    cycle_counts(pins, pause);
    cycle_counts(pins.drop_last(), pause);
    if k < pins.len() - 1 {
        cycle_order(pins.drop_last(), pause, k);
    }
}

/// In the sweep every pin, whether it occurs once or more often, goes on and
/// off in turn, starts with on and ends with off.
pub proof fn cycle_alternates(pins: Seq<u8>, pause: Duration, pin: u8)
    ensures
        alternates(levels_of(cycle_script(pins, pause), pin)),
    decreases pins.len(),
{
    if pins.len() > 0 {
        let before = cycle_script(pins.drop_last(), pause);
        let last = visit(pins.last(), pause);
        cycle_alternates(pins.drop_last(), pause, pin);
        visit_facts(pins.last(), pause, pin);
        levels_of_concat(before, last, pin);
    }
}

/// The sweep ends with every pin of the list off, and touches no pin that is
/// not in the list.
pub proof fn cycle_ends_dark(pins: Seq<u8>, pause: Duration, pin: u8)
    ensures
        level_after(cycle_script(pins, pause), pin) == all_off(pins, pin),
    decreases pins.len(),
{
    if pins.len() > 0 {
        let shorter = pins.drop_last();
        let before = cycle_script(shorter, pause);
        let last = visit(pins.last(), pause);
        cycle_ends_dark(shorter, pause, pin);
        visit_facts(pins.last(), pause, pin);
        level_after_concat(before, last, pin);
        if shorter.contains(pin) {
            let i = choose|i: int| 0 <= i < shorter.len() && shorter[i] == pin;
            assert(pins[i] == pin);
        }
        if pins.last() == pin {
            assert(pins[pins.len() - 1] == pin);
        }
        if pins.contains(pin) && pins.last() != pin {
            let i = choose|i: int| 0 <= i < pins.len() && pins[i] == pin;
            assert(shorter[i] == pin);
        }
    }
}

/// While pause `k` of the sweep runs, the pin of entry `k` is on, and it is
/// the only pin that the sweep has left on.
pub proof fn cycle_one_at_a_time(pins: Seq<u8>, pause: Duration, k: int, pin: u8)
    requires
        0 <= k < pins.len(),
    ensures
        3 * k + 2 <= cycle_script(pins, pause).len(),
        level_after(cycle_script(pins, pause).take(3 * k + 2), pin) == Some(Level::High) <==> pin
            == pins[k],
{
    let head = pins.take(k);
    let rest = pins.skip(k + 1);
    let target = pins[k];
    assert(pins =~= head.push(target) + rest);
    cycle_of_concat(head.push(target), rest, pause);
    assert(head.push(target).drop_last() =~= head);
    cycle_counts(head, pause);
    cycle_counts(pins, pause);
    let script = cycle_script(pins, pause);
    assert(script.take(3 * k + 2) =~= cycle_script(head, pause) + light(target, pause));
    cycle_ends_dark(head, pause, pin);
    light_facts(target, pause, pin);
    level_after_concat(cycle_script(head, pause), light(target, pause), pin);
}

/// The chase of a list is its first pin lit and left on, then the sweep of
/// the rest: every entry but the first goes on and off within its own turn.
pub proof fn trail_is_light_then_cycle(pins: Seq<u8>, pause: Duration)
    requires
        pins.len() >= 1,
    ensures
        trail_script(pins, pause) == light(pins[0], pause) + cycle_script(
            pins.drop_first(),
            pause,
        ),
    decreases pins.len(),
{
    let first = light(pins[0], pause);
    if pins.len() == 1 {
        assert(first + cycle_script(pins.drop_first(), pause) =~= first);
    } else {
        trail_is_light_then_cycle(pins.drop_last(), pause);
        assert(pins.drop_first().drop_last() =~= pins.drop_last().drop_first());
        assert(trail_script(pins, pause) =~= first + cycle_script(pins.drop_first(), pause));
    }
}

/// The chase holds one on and one pause for each entry of the list, and one
/// off for each entry but the first.
pub proof fn trail_counts(pins: Seq<u8>, pause: Duration)
    requires
        pins.len() >= 1,
    ensures
        writes(trail_script(pins, pause), Level::High) == pins.len(),
        writes(trail_script(pins, pause), Level::Low) == pins.len() - 1,
        pauses(trail_script(pins, pause)) == pins.len(),
{
    let first = light(pins[0], pause);
    let rest = cycle_script(pins.drop_first(), pause);
    trail_is_light_then_cycle(pins, pause);
    light_facts(pins[0], pause, pins[0]);
    cycle_counts(pins.drop_first(), pause);
    pauses_of_concat(first, rest);
    writes_of_concat(first, rest, Level::High);
    writes_of_concat(first, rest, Level::Low);
}

/// Where the chase leaves each pin: off, if it occurs in the list after the
/// first entry; else on, if it is the first entry; else untouched.
pub proof fn trail_final_levels(pins: Seq<u8>, pause: Duration, pin: u8)
    requires
        pins.len() >= 1,
    ensures
        level_after(trail_script(pins, pause), pin) == trail_end(pins, pin),
{
    let first = light(pins[0], pause);
    let rest = cycle_script(pins.drop_first(), pause);
    trail_is_light_then_cycle(pins, pause);
    light_facts(pins[0], pause, pin);
    cycle_ends_dark(pins.drop_first(), pause, pin);
    level_after_concat(first, rest, pin);
}

/// The chase of a list whose first pin does not occur again leaves that pin
/// on and every other pin of the list off: the first pin is the only one that
/// it leaves on.
pub proof fn trail_leaves_first_on(pins: Seq<u8>, pause: Duration, pin: u8)
    requires
        pins.len() >= 1,
        !pins.drop_first().contains(pins[0]),
    ensures
        level_after(trail_script(pins, pause), pin) == only_first_on(pins, pin),
{
    trail_final_levels(pins, pause, pin);
    let rest = pins.drop_first();
    if rest.contains(pin) {
        let i = choose|i: int| 0 <= i < rest.len() && rest[i] == pin;
        assert(pins[i + 1] == pin);
    }
    if pins.contains(pin) && pin != pins[0] {
        let i = choose|i: int| 0 <= i < pins.len() && pins[i] == pin;
        assert(rest[i - 1] == pin);
    }
}

/// The blink is four batches, each closed by a pause: the whole list on,
/// the whole list off, and both once more. The writes of a batch reach the
/// device in one time slot.
pub proof fn flash_batches(pins: Seq<u8>, pause: Duration)
    ensures
        pauses(flash_script(pins, pause)) == 2 * FLASH_ROUNDS,
        slots(flash_script(pins, pause)) == flash_slots(pins),
{
    let part = blink(pins, pause);
    let groups = seq![batch(pins, Level::High), batch(pins, Level::Low)];
    blink_slots(pins, pause);
    blink_facts(pins, pause, 0);
    assert(slots(part).drop_last() =~= groups);
    repeated_slots(part, FLASH_ROUNDS as nat);
    repeated_counts(part, FLASH_ROUNDS as nat);
    reveal_with_fuel(repeated, 3);
    assert(repeated(groups, 2).push(Seq::empty()) =~= seq![
        batch(pins, Level::High),
        batch(pins, Level::Low),
        batch(pins, Level::High),
        batch(pins, Level::Low),
        Seq::empty(),
    ]);
}

/// The blink writes every entry of the list high twice and low twice.
pub proof fn flash_counts(pins: Seq<u8>, pause: Duration)
    ensures
        writes(flash_script(pins, pause), Level::High) == FLASH_ROUNDS * pins.len(),
        writes(flash_script(pins, pause), Level::Low) == FLASH_ROUNDS * pins.len(),
{
    blink_facts(pins, pause, 0);
    repeated_counts(blink(pins, pause), FLASH_ROUNDS as nat);
}

/// The blink ends with every pin of the list off, and touches no pin that is
/// not in the list.
pub proof fn flash_ends_dark(pins: Seq<u8>, pause: Duration, pin: u8)
    ensures
        level_after(flash_script(pins, pause), pin) == all_off(pins, pin),
{
    blink_facts(pins, pause, pin);
    repeated_level_after(blink(pins, pause), FLASH_ROUNDS as nat, pin);
}

/// The two groups of the alternation split the list by position: an entry at
/// an even position is in the first group, one at an odd position in the
/// second, each at half its position. No entry is lost or merged with an
/// equal one.
pub proof fn subsets_partition(pins: Seq<u8>)
    ensures
        evens(pins).len() + odds(pins).len() == pins.len(),
        forall|i: int| 0 <= i < evens(pins).len() ==> #[trigger] evens(pins)[i] == pins[2 * i],
        forall|i: int| 0 <= i < odds(pins).len() ==> #[trigger] odds(pins)[i] == pins[2 * i + 1],
        forall|i: int|
            0 <= i < pins.len() ==> #[trigger] pins[i] == (if i % 2 == 0 {
                evens(pins)[i / 2]
            } else {
                odds(pins)[i / 2]
            }),
{
}

/// A pin is in the list just when it is in one of the two groups.
pub proof fn subsets_cover(pins: Seq<u8>, pin: u8)
    ensures
        pins.contains(pin) <==> evens(pins).contains(pin) || odds(pins).contains(pin),
{
    subsets_partition(pins);
    if pins.contains(pin) {
        let i = choose|i: int| 0 <= i < pins.len() && pins[i] == pin;
        if i % 2 == 0 {
            assert(evens(pins)[i / 2] == pin);
        } else {
            assert(odds(pins)[i / 2] == pin);
        }
    }
    if evens(pins).contains(pin) {
        let i = choose|i: int| 0 <= i < evens(pins).len() && evens(pins)[i] == pin;
        assert(pins[2 * i] == pin);
    }
    if odds(pins).contains(pin) {
        let i = choose|i: int| 0 <= i < odds(pins).len() && odds(pins)[i] == pin;
        assert(pins[2 * i + 1] == pin);
    }
}

/// One round of the alternation is four batches, each closed by a pause.
proof fn cross_round_slots(pins: Seq<u8>, pause: Duration)
    ensures
        slots(cross_round(pins, pause)) == seq![
            batch(evens(pins), Level::High),
            batch(evens(pins), Level::Low),
            batch(odds(pins), Level::High),
            batch(odds(pins), Level::Low),
            Seq::empty(),
        ],
{
    blink_slots(evens(pins), pause);
    blink_slots(odds(pins), pause);
    slots_of_concat(blink(evens(pins), pause), blink(odds(pins), pause));
    assert(slots(cross_round(pins, pause)) =~= seq![
        batch(evens(pins), Level::High),
        batch(evens(pins), Level::Low),
        batch(odds(pins), Level::High),
        batch(odds(pins), Level::Low),
        Seq::empty(),
    ]);
}

/// The alternation is `4 * CROSS_ROUNDS` batches, each closed by a pause:
/// round after round the first group on, the first group off, the second
/// group on, the second group off. The writes of a batch reach the device in
/// one time slot.
pub proof fn cross_batches(pins: Seq<u8>, pause: Duration)
    ensures
        pauses(cross_script(pins, pause)) == 4 * CROSS_ROUNDS,
        slots(cross_script(pins, pause)) == cross_slots(pins),
{
    let part = cross_round(pins, pause);
    let groups = seq![
        batch(evens(pins), Level::High),
        batch(evens(pins), Level::Low),
        batch(odds(pins), Level::High),
        batch(odds(pins), Level::Low),
    ];
    let played = slots(cross_script(pins, pause));
    let stated = cross_slots(pins);
    cross_round_slots(pins, pause);
    assert(slots(part).drop_last() =~= groups);
    repeated_slots(part, CROSS_ROUNDS as nat);
    repeated_len(groups, CROSS_ROUNDS as nat);
    cross_counts(pins, pause);
    assert(played.len() == stated.len());
    assert forall|t: int| 0 <= t < played.len() implies played[t] == stated[t] by {
        if t < 4 * CROSS_ROUNDS {
            repeated_index(groups, CROSS_ROUNDS as nat, t / 4, t % 4);
            assert((t / 4) * 4 + t % 4 == t);
        }
    }
    assert(played =~= stated);
}

/// The alternation holds four pauses for each round, and writes every entry
/// of the list high once and low once in each round.
pub proof fn cross_counts(pins: Seq<u8>, pause: Duration)
    ensures
        pauses(cross_script(pins, pause)) == 4 * CROSS_ROUNDS,
        writes(cross_script(pins, pause), Level::High) == CROSS_ROUNDS * pins.len(),
        writes(cross_script(pins, pause), Level::Low) == CROSS_ROUNDS * pins.len(),
{
    let first = blink(evens(pins), pause);
    let second = blink(odds(pins), pause);
    blink_facts(evens(pins), pause, 0);
    blink_facts(odds(pins), pause, 0);
    pauses_of_concat(first, second);
    writes_of_concat(first, second, Level::High);
    writes_of_concat(first, second, Level::Low);
    subsets_partition(pins);
    repeated_counts(cross_round(pins, pause), CROSS_ROUNDS as nat);
}

/// The alternation ends with every pin of the list off, and touches no pin
/// that is not in the list.
pub proof fn cross_ends_dark(pins: Seq<u8>, pause: Duration, pin: u8)
    ensures
        level_after(cross_script(pins, pause), pin) == all_off(pins, pin),
{
    let first = blink(evens(pins), pause);
    let second = blink(odds(pins), pause);
    blink_facts(evens(pins), pause, pin);
    blink_facts(odds(pins), pause, pin);
    level_after_concat(first, second, pin);
    subsets_cover(pins, pin);
    repeated_level_after(cross_round(pins, pause), CROSS_ROUNDS as nat, pin);
}

/// What an engine plays depends on its pin list and its pause alone: two
/// engines made of the same list and the same pause play the same steps,
/// pattern by pattern, and so does one engine that is asked twice.
pub proof fn same_engine_same_steps(a: RaspberryGpio, b: RaspberryGpio)
    requires
        a@ == b@,
    ensures
        cycle_script(a@.pins, a@.sleep_duration) == cycle_script(b@.pins, b@.sleep_duration),
        flash_script(a@.pins, a@.sleep_duration) == flash_script(b@.pins, b@.sleep_duration),
        trail_script(a@.pins, a@.sleep_duration) == trail_script(b@.pins, b@.sleep_duration),
        cross_script(a@.pins, a@.sleep_duration) == cross_script(b@.pins, b@.sleep_duration),
{
}

/// No pattern configures a pin: all four only drive pins and pause.
pub proof fn patterns_configure_nothing(pins: Seq<u8>, pause: Duration)
    ensures
        configures_nothing(cycle_script(pins, pause)),
        configures_nothing(flash_script(pins, pause)),
        configures_nothing(trail_script(pins, pause)),
        configures_nothing(cross_script(pins, pause)),
    decreases pins.len(),
{
    if pins.len() > 0 {
        patterns_configure_nothing(pins.drop_last(), pause);
    }
    repeated_configures_nothing(blink(pins, pause), FLASH_ROUNDS as nat);
    repeated_configures_nothing(cross_round(pins, pause), CROSS_ROUNDS as nat);
}

/// The demonstration run configures every entry of the list as an output,
/// once and in list order, before it plays anything, and configures nothing
/// after that.
pub proof fn demo_configures_first(pins: Seq<u8>)
    ensures
        pins.len() <= demo_script(pins).len(),
        demo_script(pins).take(pins.len() as int) == setup_script(pins),
        configures_nothing(demo_script(pins).skip(pins.len() as int)),
{
    let pause = duration_of_millis(HOWLONG);
    let played = cycle_script(pins, pause) + flash_script(pins, pause) + trail_script(pins, pause)
        + cross_script(pins, pause);
    patterns_configure_nothing(pins, pause);
    assert(demo_script(pins) =~= setup_script(pins) + played);
    assert(demo_script(pins).take(pins.len() as int) =~= setup_script(pins));
    assert(demo_script(pins).skip(pins.len() as int) =~= played);
}

} // verus!
