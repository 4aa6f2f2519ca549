use led_sequencer::demo::{demo, HOWLONG};
use led_sequencer::engine::RaspberryGpio;
use led_sequencer::step::{Level, Step};
use std::time::Duration;

#[test]
fn demo_pause_is_a_tenth_of_a_second() {
    assert_eq!(HOWLONG, 100);
    let script = demo(vec![13]);
    let waits: Vec<Duration> = script
        .iter()
        .filter_map(|step| match *step {
            Step::Wait { duration } => Some(duration),
            _ => None,
        })
        .collect();
    assert_eq!(waits.len(), 1 + 4 + 1 + 24);
    for duration in waits {
        assert_eq!(duration, Duration::from_millis(100));
        assert_eq!(duration.as_millis(), 100);
    }
}

#[test]
fn demo_is_setup_then_the_four_patterns() {
    let pins = vec![13, 19, 26, 21, 20, 16];
    let engine = RaspberryGpio::new(Duration::from_millis(100), pins.clone());
    let mut expected = engine.setup();
    expected.extend(engine.cycle());
    expected.extend(engine.flash());
    expected.extend(engine.trail());
    expected.extend(engine.cross());
    assert_eq!(demo(pins), expected);
}

#[test]
fn demo_of_one_pin() {
    let on = Step::Write { pin: 7, level: Level::High };
    let off = Step::Write { pin: 7, level: Level::Low };
    let wait = Step::Wait { duration: Duration::from_millis(100) };
    let mut expected = vec![Step::Configure { pin: 7 }];
    expected.extend([on, wait, off]);
    expected.extend([on, wait, off, wait, on, wait, off, wait]);
    expected.extend([on, wait]);
    for _ in 0..6 {
        expected.extend([on, wait, off, wait, wait, wait]);
    }
    assert_eq!(demo(vec![7]), expected);
}

#[test]
fn demo_of_the_full_run_list() {
    let bank = [13u8, 19, 26, 21, 20, 16];
    let mut pins = Vec::new();
    for _ in 0..5 {
        pins.extend(bank.iter().cloned());
    }
    let script = demo(pins.clone());
    let configured: Vec<u8> = script
        .iter()
        .filter_map(|step| match *step {
            Step::Configure { pin } => Some(pin),
            _ => None,
        })
        .collect();
    assert_eq!(configured, pins);
    assert_eq!(script.len(), 30 + 90 + 124 + 89 + 6 * 64);
    for step in &script[30..] {
        assert!(!matches!(step, Step::Configure { .. }));
    }
}

#[test]
fn demo_of_empty_list_only_pauses() {
    let script = demo(vec![]);
    assert_eq!(script, vec![Step::Wait { duration: Duration::from_millis(100) }; 28]);
}
