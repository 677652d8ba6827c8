use std::time::SystemTime;

use price_action::double::Double;
use price_action::market::Bar;
use price_action::strategy::{ConsecutiveCloses, Signal, Strategy};

fn d(x: f64) -> Double {
    Double::from_bits(x.to_bits())
}

fn feed(strategy: &mut ConsecutiveCloses, closes: &[f64]) -> Vec<Signal> {
    closes
        .iter()
        .map(|&close| {
            let bar = Bar::new(SystemTime::UNIX_EPOCH, d(close), d(close), d(close), d(close), d(0.0))
                .expect("valid bar");
            strategy.on_bar(&bar).unwrap()
        })
        .collect()
}

#[test]
fn goes_long_after_threshold_higher_closes() {
    let mut strategy = ConsecutiveCloses::new(2);
    let signals = feed(&mut strategy, &[10.0, 11.0, 12.0]);
    assert_eq!(signals, vec![Signal::Flat, Signal::Flat, Signal::Long]);
}

#[test]
fn goes_short_after_threshold_lower_closes() {
    let mut strategy = ConsecutiveCloses::new(2);
    let signals = feed(&mut strategy, &[12.0, 11.0, 10.0]);
    assert_eq!(signals, vec![Signal::Flat, Signal::Flat, Signal::Short]);
}

#[test]
fn run_resets_on_direction_change() {
    let mut strategy = ConsecutiveCloses::new(3);
    let signals = feed(&mut strategy, &[10.0, 11.0, 12.0, 11.5]);
    assert_eq!(signals, vec![Signal::Flat, Signal::Flat, Signal::Flat, Signal::Flat]);
}

#[test]
fn zero_threshold_is_treated_as_one() {
    let mut strategy = ConsecutiveCloses::new(0);
    let signals = feed(&mut strategy, &[10.0, 11.0]);
    assert_eq!(signals, vec![Signal::Flat, Signal::Long]);
}

#[test]
fn equal_close_interrupts_a_streak() {
    let mut strategy = ConsecutiveCloses::new(2);
    let signals = feed(&mut strategy, &[10.0, 11.0, 11.0, 12.0, 13.0]);
    assert_eq!(
        signals,
        vec![Signal::Flat, Signal::Flat, Signal::Flat, Signal::Flat, Signal::Long]
    );
}

#[test]
fn signal_stays_while_the_streak_continues() {
    let mut strategy = ConsecutiveCloses::new(1);
    let signals = feed(&mut strategy, &[5.0, 4.0, 3.0, 2.0, 2.5]);
    assert_eq!(
        signals,
        vec![Signal::Flat, Signal::Short, Signal::Short, Signal::Short, Signal::Long]
    );
}

#[test]
fn negative_zero_equals_zero() {
    let mut strategy = ConsecutiveCloses::new(1);
    let signals = feed(&mut strategy, &[0.0, -0.0, -1.0]);
    assert_eq!(signals, vec![Signal::Flat, Signal::Flat, Signal::Short]);
}

#[test]
fn name_is_consecutive_closes() {
    let strategy = ConsecutiveCloses::new(3);
    assert_eq!(strategy.name(), "consecutive-closes");
}

#[test]
fn on_close_matches_on_bar() {
    let mut strategy = ConsecutiveCloses::new(2);
    assert_eq!(strategy.on_close(d(1.0)), Signal::Flat);
    assert_eq!(strategy.on_close(d(2.0)), Signal::Flat);
    assert_eq!(strategy.on_close(d(3.0)), Signal::Long);
}

#[test]
fn signal_labels_match_debug() {
    for s in [Signal::Flat, Signal::Long, Signal::Short] {
        assert_eq!(s.label(), format!("{s:?}"));
    }
}
