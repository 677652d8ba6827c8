use std::time::SystemTime;

use price_action::double::Double;
use price_action::error::Error;
use price_action::market::{Bar, BarSeries};

fn d(x: f64) -> Double {
    Double::from_bits(x.to_bits())
}

fn f(x: Double) -> f64 {
    f64::from_bits(x.to_bits())
}

fn bar(close: f64) -> Bar {
    Bar::new(SystemTime::UNIX_EPOCH, d(close), d(close), d(close), d(close), d(0.0)).expect("valid bar")
}

fn assert_close(actual: f64, expected: f64) {
    assert!((actual - expected).abs() < f64::EPSILON, "{actual} != {expected}");
}

#[test]
fn series_respects_capacity() {
    let mut series = BarSeries::new(3);
    for i in 0..5 {
        series.push(bar(f64::from(i)));
    }
    assert_eq!(series.len(), 3);
    let closes: Vec<f64> = series.iter().map(|b| f(b.close())).collect();
    assert_eq!(closes, vec![2.0, 3.0, 4.0]);
    assert_eq!(series.last().map(|b| f(b.close())), Some(4.0));
}

#[test]
fn new_corrects_inverted_high_low() {
    let b = Bar::new(SystemTime::UNIX_EPOCH, d(5.0), d(3.0), d(7.0), d(5.0), d(1.0)).expect("valid");
    assert_close(f(b.high()), 7.0);
    assert_close(f(b.low()), 3.0);
    assert_close(f(b.high()) - f(b.low()), 4.0);
}

#[test]
fn body_and_direction() {
    let b = Bar::new(SystemTime::UNIX_EPOCH, d(10.0), d(12.0), d(9.0), d(8.0), d(100.0)).expect("valid");
    assert!(b.is_bearish());
    assert!(!b.is_bullish());
    assert_close((f(b.close()) - f(b.open())).abs(), 2.0);
}

#[test]
fn doji_is_both_bullish_and_bearish() {
    let b = bar(10.0);
    assert!(b.is_bullish());
    assert!(b.is_bearish());
}

#[test]
fn new_rejects_non_finite_values() {
    for bad in [f64::INFINITY, f64::NEG_INFINITY, f64::NAN] {
        let err = Bar::new(SystemTime::UNIX_EPOCH, d(1.0), d(2.0), d(bad), d(1.5), d(3.0)).unwrap_err();
        assert!(matches!(err, Error::MarketData(_)));
        let err = Bar::new(SystemTime::UNIX_EPOCH, d(1.0), d(2.0), d(0.5), d(1.5), d(bad)).unwrap_err();
        assert!(matches!(err, Error::MarketData(_)));
    }
}

#[test]
fn new_keeps_ordered_values_and_timestamp() {
    let b = Bar::new(SystemTime::UNIX_EPOCH, d(1.0), d(2.0), d(0.5), d(1.5), d(3.0)).expect("valid");
    assert_eq!(b.timestamp(), SystemTime::UNIX_EPOCH);
    assert_eq!(f(b.open()), 1.0);
    assert_eq!(f(b.high()), 2.0);
    assert_eq!(f(b.low()), 0.5);
    assert_eq!(f(b.close()), 1.5);
    assert_eq!(f(b.volume()), 3.0);
}

#[test]
fn zero_capacity_is_treated_as_one() {
    let mut series = BarSeries::new(0);
    assert!(series.is_empty());
    assert!(series.last().is_none());
    series.push(bar(1.0));
    series.push(bar(2.0));
    assert_eq!(series.len(), 1);
    assert_eq!(series.bars().len(), 1);
    assert_eq!(f(series.bars()[0].close()), 2.0);
}

#[test]
fn series_clone_keeps_bars() {
    let mut series = BarSeries::new(2);
    series.push(bar(1.0));
    let copy = series.clone();
    assert_eq!(copy.len(), 1);
    assert_eq!(f(copy.bars()[0].close()), 1.0);
}
