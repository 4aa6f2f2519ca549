//! What can be read off a script: how many pauses and writes it holds, what
//! it does to a single pin, and which steps share a time slot.

use crate::step::{Level, Step};
use vstd::prelude::*;

verus! {

/// Whether `step` drives some pin to `level`.
pub open spec fn is_write(step: Step, level: Level) -> bool {
    match step {
        Step::Write { pin: _, level: l } => l == level,
        _ => false,
    }
}

/// Whether `step` touches the device: anything but a pause.
pub open spec fn is_request(step: Step) -> bool {
    !(step is Wait)
}

/// Whether `script` only drives pins and pauses: it configures none.
pub open spec fn configures_nothing(script: Seq<Step>) -> bool {
    forall|i: int| 0 <= i < script.len() ==> !(#[trigger] script[i] is Configure)
}

/// Whether `script` holds no pause, so that all of it falls in one time slot.
pub open spec fn pause_free(script: Seq<Step>) -> bool {
    forall|i: int| 0 <= i < script.len() ==> is_request(#[trigger] script[i])
}

/// The number of pauses in `script`.
pub open spec fn pauses(script: Seq<Step>) -> nat
    decreases script.len(),
{
    if script.len() == 0 {
        0
    } else {
        pauses(script.drop_last()) + if script.last() is Wait {
            1nat
        } else {
            0nat
        }
    }
}

/// The number of steps in `script` that drive a pin to `level`.
pub open spec fn writes(script: Seq<Step>, level: Level) -> nat
    decreases script.len(),
{
    if script.len() == 0 {
        0
    } else {
        writes(script.drop_last(), level) + if is_write(script.last(), level) {
            1nat
        } else {
            0nat
        }
    }
}

/// The levels that `script` drives `pin` to, in order.
pub open spec fn levels_of(script: Seq<Step>, pin: u8) -> Seq<Level>
    decreases script.len(),
{
    if script.len() == 0 {
        Seq::empty()
    } else {
        let before = levels_of(script.drop_last(), pin);
        match script.last() {
            Step::Write { pin: p, level } => if p == pin {
                before.push(level)
            } else {
                before
            },
            _ => before,
        }
    }
}

/// The level that `script` leaves `pin` at: that of its last write to `pin`,
/// or `None` where it never writes to `pin` and the pin stays as it was.
pub open spec fn level_after(script: Seq<Step>, pin: u8) -> Option<Level> {
    let levels = levels_of(script, pin);
    if levels.len() == 0 {
        None
    } else {
        Some(levels.last())
    }
}

/// Whether `levels` goes high, low, high, low and so on, and ends low.
pub open spec fn alternates(levels: Seq<Level>) -> bool {
    &&& levels.len() % 2 == 0
    &&& forall|j: int|
        0 <= j < levels.len() ==> #[trigger] levels[j] == if j % 2 == 0 {
            Level::High
        } else {
            Level::Low
        }
}

/// The time slots of `script`: slot `t` holds, in order, the steps that the
/// device receives after the `t`-th pause has passed and before the next one
/// begins. There is one slot more than there are pauses; the last slot is
/// empty where the script ends with a pause.
pub open spec fn slots(script: Seq<Step>) -> Seq<Seq<Step>>
    decreases script.len(),
{
    if script.len() == 0 {
        seq![Seq::empty()]
    } else {
        let before = slots(script.drop_last());
        if script.last() is Wait {
            before.push(Seq::empty())
        } else {
            before.drop_last().push(before.last().push(script.last()))
        }
    }
}

/// The pauses of two scripts played one after the other add up.
pub proof fn pauses_of_concat(a: Seq<Step>, b: Seq<Step>)
    ensures
        pauses(a + b) == pauses(a) + pauses(b),
    decreases b.len(),
{
    if b.len() == 0 {
        assert(a + b =~= a);
    } else {
        assert((a + b).drop_last() =~= a + b.drop_last());
        pauses_of_concat(a, b.drop_last());
    }
}

/// The writes of two scripts played one after the other add up.
pub proof fn writes_of_concat(a: Seq<Step>, b: Seq<Step>, level: Level)
    ensures
        writes(a + b, level) == writes(a, level) + writes(b, level),
    decreases b.len(),
{
    if b.len() == 0 {
        assert(a + b =~= a);
    } else {
        assert((a + b).drop_last() =~= a + b.drop_last());
        writes_of_concat(a, b.drop_last(), level);
    }
}

/// What two scripts played one after the other do to a pin is what the first
/// does, then what the second does.
pub proof fn levels_of_concat(a: Seq<Step>, b: Seq<Step>, pin: u8)
    ensures
        levels_of(a + b, pin) == levels_of(a, pin) + levels_of(b, pin),
    decreases b.len(),
{
    if b.len() == 0 {
        assert(a + b =~= a);
        assert(levels_of(a, pin) + levels_of(b, pin) =~= levels_of(a, pin));
    } else {
        assert((a + b).drop_last() =~= a + b.drop_last());
        levels_of_concat(a, b.drop_last(), pin);
        assert(levels_of(a + b, pin) =~= levels_of(a, pin) + levels_of(b, pin));
    }
}

/// After two scripts played one after the other, a pin is where the second
/// left it, or, where the second never wrote to it, where the first left it.
pub proof fn level_after_concat(a: Seq<Step>, b: Seq<Step>, pin: u8)
    ensures
        level_after(a + b, pin) == match level_after(b, pin) {
            Some(level) => Some(level),
            None => level_after(a, pin),
        },
{
    levels_of_concat(a, b, pin);
    if levels_of(b, pin).len() == 0 {
        assert(levels_of(a, pin) + levels_of(b, pin) =~= levels_of(a, pin));
    }
}

/// There is one time slot more than there are pauses.
pub proof fn slots_count(script: Seq<Step>)
    ensures
        slots(script).len() == pauses(script) + 1,
    decreases script.len(),
{
    if script.len() > 0 {
        slots_count(script.drop_last());
    }
}

/// A script played after one that is empty or ends with a pause starts in
/// a time slot of its own: the slots of the whole are those of the first,
/// without its empty last one, and then those of the second.
pub proof fn slots_of_concat(a: Seq<Step>, b: Seq<Step>)
    requires
        slots(a).last().len() == 0,
    ensures
        slots(a + b) == slots(a).drop_last() + slots(b),
    decreases b.len(),
{
    slots_count(a);
    slots_count(b);
    if b.len() == 0 {
        assert(a + b =~= a);
        assert(slots(a).last() =~= Seq::<Step>::empty());
        assert(slots(a).drop_last() + slots(b) =~= slots(a));
    } else {
        let shorter = b.drop_last();
        assert((a + b).drop_last() =~= a + shorter);
        slots_of_concat(a, shorter);
        slots_count(shorter);
        if b.last() is Wait {
            assert(slots(a + b) =~= slots(a).drop_last() + slots(b));
        } else {
            let whole = slots(a + shorter);
            assert(whole.last() == slots(shorter).last());
            assert(whole.drop_last() =~= slots(a).drop_last() + slots(shorter).drop_last());
            assert(slots(a + b) =~= slots(a).drop_last() + slots(b));
        }
    }
}

/// A script without a pause is one time slot.
pub proof fn slots_of_pause_free(group: Seq<Step>)
    requires
        pause_free(group),
    ensures
        slots(group) == seq![group],
    decreases group.len(),
{
    if group.len() == 0 {
        assert(group =~= Seq::<Step>::empty());
    } else {
        let shorter = group.drop_last();
        assert(is_request(group[group.len() - 1]));
        assert forall|i: int| 0 <= i < shorter.len() implies is_request(#[trigger] shorter[i]) by {
            assert(shorter[i] == group[i]);
        }
        slots_of_pause_free(shorter);
        assert(shorter.push(group.last()) =~= group);
        assert(slots(group) =~= seq![group]);
    }
}

} // verus!
