use std::time::SystemTime;

use price_action::double::Double;
use price_action::engine::{target_position, Engine};
use price_action::error::Error;
use price_action::execution::{Broker, PaperBroker, Position};
use price_action::market::Bar;
use price_action::strategy::{ConsecutiveCloses, Signal, Strategy};

fn d(x: f64) -> Double {
    Double::from_bits(x.to_bits())
}

fn bar(close: f64) -> Bar {
    Bar::new(SystemTime::UNIX_EPOCH, d(close), d(close), d(close), d(close), d(0.0)).expect("valid bar")
}

#[test]
fn engine_moves_broker_with_signals() {
    let mut engine = Engine::new(ConsecutiveCloses::new(2), PaperBroker::new());
    for close in [10.0, 11.0, 12.0] {
        engine.on_bar(&bar(close)).unwrap();
    }
    assert_eq!(engine.last_signal(), Signal::Long);
}

/// Counts the bars it is fed and always asks for a long position.
struct CountingStrategy {
    seen: usize,
}

impl Strategy for CountingStrategy {
    fn name(&self) -> &'static str {
        "counting"
    }

    fn on_bar(&mut self, _bar: &Bar) -> Result<Signal, Error> {
        self.seen += 1;
        Ok(Signal::Long)
    }
}

/// Fails every `set_position` while `failing` is set.
struct FlakyBroker {
    failing: std::rc::Rc<std::cell::Cell<bool>>,
    position: Position,
}

impl Broker for FlakyBroker {
    fn set_position(&mut self, target: Position) -> Result<(), Error> {
        if self.failing.get() {
            Err(Error::Execution("venue unavailable".to_string()))
        } else {
            self.position = target;
            Ok(())
        }
    }
}

#[test]
fn failed_execution_becomes_pending_and_blocks_later_bars() {
    let failing = std::rc::Rc::new(std::cell::Cell::new(true));
    let broker = FlakyBroker { failing: failing.clone(), position: Position::Flat };
    let mut engine = Engine::new(CountingStrategy { seen: 0 }, broker);

    let err = engine.on_bar(&bar(1.0)).unwrap_err();
    assert!(matches!(err, Error::Execution(_)));
    assert_eq!(engine.pending_position(), Some(Position::Long));
    assert_eq!(engine.last_signal(), Signal::Flat);

    // The retry fails again: bar 2 is never fed to the strategy.
    let err = engine.on_bar(&bar(2.0)).unwrap_err();
    assert!(matches!(err, Error::Execution(_)));
    assert_eq!(engine.pending_position(), Some(Position::Long));
    assert_eq!(engine.last_signal(), Signal::Flat);

    failing.set(false);
    let signal = engine.on_bar(&bar(3.0)).unwrap();
    assert_eq!(signal, Signal::Long);
    assert_eq!(engine.pending_position(), None);
    assert_eq!(engine.last_signal(), Signal::Long);
}

#[test]
fn new_engine_is_flat_with_nothing_pending() {
    let engine = Engine::new(ConsecutiveCloses::new(3), PaperBroker::new());
    assert_eq!(engine.last_signal(), Signal::Flat);
    assert_eq!(engine.pending_position(), None);
}

#[test]
fn signals_map_one_to_one_onto_positions() {
    assert_eq!(target_position(Signal::Flat), Position::Flat);
    assert_eq!(target_position(Signal::Long), Position::Long);
    assert_eq!(target_position(Signal::Short), Position::Short);
}
