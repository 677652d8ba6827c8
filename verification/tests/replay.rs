use std::time::{Duration, SystemTime};

use price_action::error::Error;
use price_action::config::Config;
use price_action::double::Double;
use price_action::market::Bar;
use price_action::replay::{
    render_table, replay_signals, require_bars, result_line, settings_line, title_line, ts_secs,
    ReplayTally, TraceNote,
};
use price_action::strategy::Signal;

#[test]
fn ts_secs_reflects_unix_seconds() {
    assert_eq!(ts_secs(SystemTime::UNIX_EPOCH), 0);
    let one_day = Duration::new(86_400, 0);
    assert_eq!(ts_secs(SystemTime::UNIX_EPOCH + one_day), 86_400);
    assert_eq!(ts_secs(SystemTime::UNIX_EPOCH - Duration::from_secs(5)), 0);
}

#[test]
fn replay_rejects_empty_input() {
    let err = require_bars(0).expect_err("no bars");
    assert!(matches!(err, Error::MarketData(_)));
    assert_eq!(err, Error::MarketData("no bars to replay".to_string()));
    assert!(require_bars(1).is_ok());
}

#[test]
fn tally_counts_entries_and_final_signal() {
    let mut tally = ReplayTally::new();
    assert_eq!(tally.final_signal(), Signal::Flat);
    let notes: Vec<TraceNote> = [Signal::Flat, Signal::Flat, Signal::Flat, Signal::Long, Signal::Flat]
        .into_iter()
        .map(|s| tally.record(s, false))
        .collect();
    assert_eq!(
        notes,
        vec![TraceNote::Plain, TraceNote::Plain, TraceNote::Plain, TraceNote::Entry, TraceNote::Plain]
    );
    assert_eq!(tally.bars(), 5);
    assert_eq!(tally.entries(), 1);
    assert_eq!(tally.skipped_entries(), 0);
    assert_eq!(tally.final_signal(), Signal::Flat);
}

#[test]
fn tally_reversal_is_no_new_entry() {
    let mut tally = ReplayTally::new();
    assert_eq!(tally.record(Signal::Short, false), TraceNote::Entry);
    assert_eq!(tally.record(Signal::Long, false), TraceNote::Plain);
    assert_eq!(tally.record(Signal::Flat, false), TraceNote::Plain);
    assert_eq!(tally.record(Signal::Long, false), TraceNote::Entry);
    assert_eq!(tally.entries(), 2);
    assert_eq!(tally.final_signal(), Signal::Long);
}

#[test]
fn tally_marks_skipped_entries() {
    let mut tally = ReplayTally::new();
    assert_eq!(tally.record(Signal::Flat, false), TraceNote::Plain);
    assert_eq!(tally.record(Signal::Short, true), TraceNote::InsufficientFunds);
    assert_eq!(tally.entries(), 1);
    assert_eq!(tally.skipped_entries(), 1);
    assert_eq!(tally.final_signal(), Signal::Short);
}

#[test]
fn trace_note_texts() {
    assert_eq!(TraceNote::Plain.text(), "");
    assert_eq!(TraceNote::Entry.text(), "   (entry)");
    assert_eq!(TraceNote::InsufficientFunds.text(), "   (insufficient funds)");
}

fn cells(rows: &[&[&str]]) -> Vec<Vec<String>> {
    rows.iter().map(|r| r.iter().map(|c| c.to_string()).collect()).collect()
}

#[test]
fn table_pads_columns_to_widest_cell() {
    let lines = render_table(&cells(&[&["day", "entries"], &["2024-09-04", "1"], &["x", "12345678"]]));
    assert_eq!(
        lines,
        vec![
            "  day        entries ".to_string(),
            "  2024-09-04 1       ".to_string(),
            "  x          12345678".to_string(),
        ]
    );
}

#[test]
fn table_of_no_rows_is_empty() {
    assert!(render_table(&Vec::new()).is_empty());
}

#[test]
fn table_widths_count_utf8_bytes() {
    let lines = render_table(&cells(&[&["é", "b"], &["ab", "c"]]));
    assert_eq!(lines, vec!["  é b".to_string(), "  ab c".to_string()]);
}

#[test]
fn report_header_and_result_lines() {
    assert_eq!(title_line(25), "price-action replay - 25 bars");
    assert_eq!(
        settings_line(&Config::default()),
        "symbol=AAPL mode=Paper quantity=1 strategy=consecutive-closes threshold=3"
    );
    assert_eq!(
        result_line(Signal::Flat, 2, 25),
        "result: signal=Flat entries=2 of 25 bars - paper execution only, no orders placed"
    );
}

fn bar(close: f64, secs: u64) -> Bar {
    let c = Double::from_bits(close.to_bits());
    let v = Double::from_bits(1_000.0f64.to_bits());
    Bar::new(SystemTime::UNIX_EPOCH + Duration::from_secs(secs), c, c, c, c, v).expect("valid bar")
}

fn tally_of(signals: &[Signal], skipped: &[bool]) -> ReplayTally {
    let mut tally = ReplayTally::new();
    for (s, k) in signals.iter().zip(skipped) {
        tally.record(*s, *k);
    }
    tally
}

#[test]
fn signals_and_tally_of_a_rising_run() {
    let bars = vec![bar(10.0, 0), bar(11.0, 60), bar(12.0, 120), bar(13.0, 180), bar(9.0, 240)];
    let signals = replay_signals(3, &bars);
    assert_eq!(signals, vec![Signal::Flat, Signal::Flat, Signal::Flat, Signal::Long, Signal::Flat]);
    let tally = tally_of(&signals, &[false; 5]);
    assert_eq!(tally.bars(), 5);
    assert_eq!(tally.entries(), 1);
    assert_eq!(tally.skipped_entries(), 0);
    assert!(!matches!(tally.final_signal(), Signal::Long));
}

#[test]
fn threshold_one_signals_at_the_first_move() {
    let bars = vec![bar(10.0, 0), bar(9.0, 60), bar(8.0, 120)];
    let signals = replay_signals(1, &bars);
    assert_eq!(signals, vec![Signal::Flat, Signal::Short, Signal::Short]);
    let tally = tally_of(&signals, &[false; 3]);
    assert_eq!(tally.entries(), 1);
    assert!(matches!(tally.final_signal(), Signal::Short));
}

#[test]
fn replay_of_no_bars_gives_no_signals() {
    assert!(replay_signals(3, &[]).is_empty());
}
