use led_sequencer::engine::RaspberryGpio;
use led_sequencer::script::{CROSS_ROUNDS, FLASH_ROUNDS};
use led_sequencer::step::{Level, Step};
use std::time::Duration;

const BANK: [u8; 6] = [13, 19, 26, 21, 20, 16];

fn pace() -> Duration {
    Duration::from_millis(100)
}

fn engine(pins: &[u8]) -> RaspberryGpio {
    RaspberryGpio::new(pace(), pins.to_vec())
}

fn on(pin: u8) -> Step {
    Step::Write { pin, level: Level::High }
}

fn off(pin: u8) -> Step {
    Step::Write { pin, level: Level::Low }
}

fn wait() -> Step {
    Step::Wait { duration: pace() }
}

fn count_writes(script: &[Step], wanted: Level) -> usize {
    script.iter().filter(|step| matches!(step, Step::Write { level, .. } if *level == wanted)).count()
}

fn count_waits(script: &[Step]) -> usize {
    script.iter().filter(|step| matches!(step, Step::Wait { .. })).count()
}

/// The level that the last write to `pin` gave it, if there was one.
fn level_after(script: &[Step], pin: u8) -> Option<Level> {
    let mut found = None;
    for step in script {
        if let Step::Write { pin: p, level } = *step {
            if p == pin {
                found = Some(level);
            }
        }
    }
    found
}

/// The steps between the pauses, one group for each time slot.
fn slots(script: &[Step]) -> Vec<Vec<Step>> {
    let mut all = vec![Vec::new()];
    for step in script {
        if matches!(step, Step::Wait { .. }) {
            all.push(Vec::new());
        } else {
            all.last_mut().unwrap().push(*step);
        }
    }
    all
}

fn batch(pins: &[u8], level: Level) -> Vec<Step> {
    pins.iter().map(|&pin| Step::Write { pin, level }).collect()
}

#[test]
fn new_keeps_pins_and_pause() {
    let engine = RaspberryGpio::new(Duration::from_millis(250), vec![4, 4, 7]);
    assert_eq!(engine.pins(), &[4, 4, 7]);
    assert_eq!(engine.sleep_duration(), Duration::from_millis(250));
}

#[test]
fn setup_configures_every_entry_in_order() {
    let script = engine(&[13, 19, 13]).setup();
    assert_eq!(
        script,
        vec![Step::Configure { pin: 13 }, Step::Configure { pin: 19 }, Step::Configure { pin: 13 }]
    );
}

#[test]
fn setup_of_empty_list_is_empty() {
    assert_eq!(engine(&[]).setup(), vec![]);
}

#[test]
fn primitives_append_one_step_each() {
    let engine = engine(&[1]);
    let mut script = vec![Step::Configure { pin: 9 }];
    engine.on(&mut script, 3);
    engine.wait(&mut script);
    engine.off(&mut script, 3);
    assert_eq!(script, vec![Step::Configure { pin: 9 }, on(3), wait(), off(3)]);
}

#[test]
fn slices_append_in_order_without_pause() {
    let engine = engine(&[1]);
    let mut script = vec![wait()];
    engine.on_slice(&mut script, &[7, 8, 7]);
    engine.off_slice(&mut script, &[8, 7]);
    engine.on_slice(&mut script, &[]);
    assert_eq!(script, vec![wait(), on(7), on(8), on(7), off(8), off(7)]);
}

#[test]
fn cycle_of_the_bank() {
    let script = engine(&BANK).cycle();
    let expected = vec![
        on(13), wait(), off(13),
        on(19), wait(), off(19),
        on(26), wait(), off(26),
        on(21), wait(), off(21),
        on(20), wait(), off(20),
        on(16), wait(), off(16),
    ];
    assert_eq!(script, expected);
    let writes: Vec<Step> =
        script.iter().cloned().filter(|step| matches!(step, Step::Write { .. })).collect();
    assert_eq!(
        writes,
        vec![
            on(13), off(13), on(19), off(19), on(26), off(26),
            on(21), off(21), on(20), off(20), on(16), off(16),
        ]
    );
    assert_eq!(writes.len(), 12);
    assert_eq!(count_waits(&script), 6);
}

#[test]
fn cycle_counts_and_ends_dark() {
    let pins = [2, 9, 2, 2, 30];
    let script = engine(&pins).cycle();
    assert_eq!(script.len(), 15);
    assert_eq!(count_writes(&script, Level::High), 5);
    assert_eq!(count_writes(&script, Level::Low), 5);
    assert_eq!(count_waits(&script), 5);
    for pin in pins {
        assert_eq!(level_after(&script, pin), Some(Level::Low));
    }
    assert_eq!(level_after(&script, 3), None);
}

#[test]
fn cycle_alternates_on_each_pin() {
    let script = engine(&[2, 9, 2, 2, 30]).cycle();
    let levels: Vec<Level> = script
        .iter()
        .filter_map(|step| match *step {
            Step::Write { pin: 2, level } => Some(level),
            _ => None,
        })
        .collect();
    assert_eq!(
        levels,
        vec![Level::High, Level::Low, Level::High, Level::Low, Level::High, Level::Low]
    );
}

#[test]
fn cycle_lights_one_pin_at_a_time() {
    let pins = [13, 19, 26];
    let script = engine(&pins).cycle();
    for k in 0..pins.len() {
        let so_far = &script[..3 * k + 2];
        for pin in pins {
            assert_eq!(level_after(so_far, pin) == Some(Level::High), pin == pins[k]);
        }
    }
}

#[test]
fn cycle_of_empty_list_is_empty() {
    assert_eq!(engine(&[]).cycle(), vec![]);
}

#[test]
fn flash_of_two_pins() {
    let script = engine(&[5, 6]).flash();
    assert_eq!(
        script,
        vec![
            on(5), on(6), wait(), off(5), off(6), wait(),
            on(5), on(6), wait(), off(5), off(6), wait(),
        ]
    );
}

#[test]
fn flash_is_two_on_and_two_off_batches() {
    let script = engine(&BANK).flash();
    assert_eq!(FLASH_ROUNDS, 2);
    assert_eq!(
        slots(&script),
        vec![
            batch(&BANK, Level::High),
            batch(&BANK, Level::Low),
            batch(&BANK, Level::High),
            batch(&BANK, Level::Low),
            vec![],
        ]
    );
    assert_eq!(count_waits(&script), 4);
    assert_eq!(count_writes(&script, Level::High), 12);
    assert_eq!(count_writes(&script, Level::Low), 12);
    for pin in BANK {
        assert_eq!(level_after(&script, pin), Some(Level::Low));
    }
}

#[test]
fn flash_of_empty_list_only_pauses() {
    assert_eq!(engine(&[]).flash(), vec![wait(), wait(), wait(), wait()]);
}

#[test]
fn trail_of_the_bank() {
    let script = engine(&BANK).trail();
    let expected = vec![
        on(13), wait(),
        on(19), wait(), off(19),
        on(26), wait(), off(26),
        on(21), wait(), off(21),
        on(20), wait(), off(20),
        on(16), wait(), off(16),
    ];
    assert_eq!(script, expected);
    assert_eq!(level_after(&script, 13), Some(Level::High));
    for pin in [19, 26, 21, 20, 16] {
        assert_eq!(level_after(&script, pin), Some(Level::Low));
    }
    assert_eq!(count_writes(&script, Level::High), 6);
    assert_eq!(count_writes(&script, Level::Low), 5);
    assert_eq!(count_waits(&script), 6);
}

#[test]
fn trail_of_one_pin_leaves_it_on() {
    let script = engine(&[17]).trail();
    assert_eq!(script, vec![on(17), wait()]);
    assert_eq!(level_after(&script, 17), Some(Level::High));
}

#[test]
fn trail_of_empty_list_is_empty() {
    assert_eq!(engine(&[]).trail(), vec![]);
}

#[test]
fn trail_switches_off_a_first_pin_that_comes_again() {
    let script = engine(&[5, 5]).trail();
    assert_eq!(script, vec![on(5), wait(), on(5), wait(), off(5)]);
    assert_eq!(level_after(&script, 5), Some(Level::Low));
}

#[test]
fn trail_goes_by_position_for_pin_zero() {
    let script = engine(&[0, 3]).trail();
    assert_eq!(script, vec![on(0), wait(), on(3), wait(), off(3)]);
}

#[test]
fn subsets_of_the_bank() {
    let (subset1, subset2) = engine(&BANK).subsets();
    assert_eq!(subset1, vec![13, 26, 20]);
    assert_eq!(subset2, vec![19, 21, 16]);
}

#[test]
fn subsets_split_equal_pins_by_position() {
    let (subset1, subset2) = engine(&[5, 5, 5, 5]).subsets();
    assert_eq!(subset1, vec![5, 5]);
    assert_eq!(subset2, vec![5, 5]);
}

#[test]
fn subsets_of_odd_and_short_lists() {
    assert_eq!(engine(&[1, 2, 3]).subsets(), (vec![1, 3], vec![2]));
    assert_eq!(engine(&[8]).subsets(), (vec![8], vec![]));
    assert_eq!(engine(&[]).subsets(), (vec![], vec![]));
}

#[test]
fn cross_of_three_pins() {
    let script = engine(&[1, 2, 3]).cross();
    let round = vec![
        on(1), on(3), wait(), off(1), off(3), wait(),
        on(2), wait(), off(2), wait(),
    ];
    let mut expected = Vec::new();
    for _ in 0..6 {
        expected.extend(round.iter().cloned());
    }
    assert_eq!(script, expected);
}

#[test]
fn cross_is_twenty_four_batches() {
    let script = engine(&BANK).cross();
    assert_eq!(CROSS_ROUNDS, 6);
    let groups = slots(&script);
    assert_eq!(groups.len(), 25);
    assert_eq!(count_waits(&script), 24);
    for round in 0..6 {
        assert_eq!(groups[4 * round], batch(&[13, 26, 20], Level::High));
        assert_eq!(groups[4 * round + 1], batch(&[13, 26, 20], Level::Low));
        assert_eq!(groups[4 * round + 2], batch(&[19, 21, 16], Level::High));
        assert_eq!(groups[4 * round + 3], batch(&[19, 21, 16], Level::Low));
    }
    assert_eq!(groups[24], vec![]);
    assert_eq!(count_writes(&script, Level::High), 36);
    assert_eq!(count_writes(&script, Level::Low), 36);
    for pin in BANK {
        assert_eq!(level_after(&script, pin), Some(Level::Low));
    }
    assert_eq!(level_after(&script, 1), None);
}

#[test]
fn cross_of_empty_list_only_pauses() {
    let script = engine(&[]).cross();
    assert_eq!(script, vec![wait(); 24]);
}

#[test]
fn patterns_repeat_themselves() {
    let engine = engine(&BANK);
    assert_eq!(engine.cycle(), engine.cycle());
    assert_eq!(engine.flash(), engine.flash());
    assert_eq!(engine.trail(), engine.trail());
    assert_eq!(engine.cross(), engine.cross());
    let twin = RaspberryGpio::new(pace(), BANK.to_vec());
    assert_eq!(engine.cycle(), twin.cycle());
    assert_eq!(engine.cross(), twin.cross());
    assert_eq!(engine.pins(), &BANK);
    assert_eq!(engine.sleep_duration(), pace());
}

#[test]
fn zero_pause_gives_pauses_of_zero_length() {
    let engine = RaspberryGpio::new(Duration::from_millis(0), vec![4]);
    let still = Step::Wait { duration: Duration::from_millis(0) };
    assert_eq!(engine.cycle(), vec![on(4), still, off(4)]);
    assert_eq!(engine.flash(), vec![on(4), still, off(4), still, on(4), still, off(4), still]);
}

#[test]
fn pause_is_carried_by_every_wait() {
    let engine = RaspberryGpio::new(Duration::from_micros(1500), vec![4, 5]);
    for script in [engine.cycle(), engine.flash(), engine.trail(), engine.cross()] {
        for step in script {
            if let Step::Wait { duration } = step {
                assert_eq!(duration, Duration::from_micros(1500));
            }
        }
    }
}
