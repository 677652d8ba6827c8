use std::time::{Duration, SystemTime};

use price_action::accounting::{day_table, unix_secs, utc_day, ClosedTrade, Side, TradeBook};
use price_action::double::Double;
use price_action::strategy::Signal;

fn d(x: f64) -> Double {
    Double::from_bits(x.to_bits())
}

const D_BASE: i64 = 1_725_458_400; // 2024-09-04 (UTC)

#[test]
fn utc_day_known_dates() {
    assert_eq!(utc_day(0), "1970-01-01");
    assert_eq!(utc_day(86_399), "1970-01-01");
    assert_eq!(utc_day(86_400), "1970-01-02");
    assert_eq!(utc_day(1_725_458_400), "2024-09-04");
    assert_eq!(utc_day(1_709_164_800), "2024-02-29");
    assert_eq!(utc_day(-5), "1970-01-01");
}

#[test]
fn utc_day_century_rules() {
    assert_eq!(utc_day(951_782_400), "2000-02-29"); // 2000 is a leap year
    assert_eq!(utc_day(4_107_542_400), "2100-03-01"); // 2100 is not
    assert_eq!(utc_day(253_402_300_799), "9999-12-31");
    assert_eq!(utc_day(253_402_300_800), "10000-01-01");
    assert_eq!(utc_day(i64::MAX), "292277026596-12-04");
}

#[test]
fn unix_secs_of_instants() {
    assert_eq!(unix_secs(SystemTime::UNIX_EPOCH), 0);
    assert_eq!(unix_secs(SystemTime::UNIX_EPOCH + Duration::from_secs(42)), 42);
    assert_eq!(unix_secs(SystemTime::UNIX_EPOCH - Duration::from_secs(42)), 0);
}

fn round_trip(book: &mut TradeBook, side: Side, entry: (usize, i64, f64), exit: (usize, i64, f64)) {
    book.enter(side, entry.0, entry.1, d(entry.2), d(entry.2), d(0.0));
    book.close(exit.0, exit.1, d(exit.2), d(exit.2 - entry.2), d(0.0), d(exit.2 - entry.2));
}

#[test]
fn book_decides_exit_then_entry() {
    let mut book = TradeBook::new();
    assert!(!book.is_open());
    assert_eq!(book.held_signal(), Signal::Flat);
    assert!(!book.must_exit(Signal::Long));
    assert_eq!(book.entry_wanted(Signal::Flat), None);
    assert_eq!(book.entry_wanted(Signal::Long), Some(Side::Long));

    book.enter(Side::Long, 0, D_BASE, d(10.0), d(10.0), d(0.005));
    assert!(book.is_open());
    assert_eq!(book.held_signal(), Signal::Long);
    assert!(!book.must_exit(Signal::Long));
    assert!(book.must_exit(Signal::Short)); // reversal exits first
    assert!(book.must_exit(Signal::Flat));
    assert_eq!(book.entry_wanted(Signal::Short), None); // not while open
    let leg = book.open_leg().as_ref().expect("open");
    assert_eq!(leg.entry_day, "2024-09-04");
    assert_eq!(leg.entry_price, d(10.0));

    book.close(1, D_BASE + 900, d(12.0), d(2.0), d(0.011), d(1.989));
    assert!(!book.is_open());
    let trades = book.closed_trades();
    assert_eq!(trades.len(), 1);
    let t = &trades[0];
    assert_eq!(t.index, 1);
    assert!(t.side_is_long);
    assert_eq!(t.entry_bar_index, 0);
    assert_eq!(t.exit_bar_index, 1);
    assert_eq!(t.entry_day, "2024-09-04");
    assert_eq!(t.exit_day, "2024-09-04");
    assert_eq!(t.investment, d(10.0));
    assert_eq!(t.net_pl, d(1.989));
    assert_eq!(book.entry_wanted(Signal::Short), Some(Side::Short));
}

#[test]
fn trades_are_numbered_in_exit_order() {
    let mut book = TradeBook::new();
    round_trip(&mut book, Side::Long, (0, D_BASE, 10.0), (1, D_BASE + 60, 11.0));
    round_trip(&mut book, Side::Short, (1, D_BASE + 60, 11.0), (2, D_BASE + 120, 9.0));
    let indices: Vec<usize> = book.closed_trades().iter().map(|t| t.index).collect();
    assert_eq!(indices, vec![1, 2]);
    assert!(!book.closed_trades()[1].side_is_long);
}

fn trade(entry_ts: i64, exit_ts: i64) -> ClosedTrade {
    ClosedTrade {
        index: 0,
        side_is_long: true,
        entry_bar_index: 0,
        entry_price: d(1.0),
        entry_ts_secs: entry_ts,
        entry_day: utc_day(entry_ts),
        exit_bar_index: 0,
        exit_price: d(1.0),
        exit_ts_secs: exit_ts,
        exit_day: utc_day(exit_ts),
        investment: d(1.0),
        fees_paid: d(0.0),
        gross_pl: d(0.0),
        net_pl: d(0.0),
    }
}

#[test]
fn day_table_splits_by_entry_and_exit_days() {
    // Entered 2024-09-04, exited 2024-09-05 (16h later).
    let trades = vec![trade(D_BASE, D_BASE + 57_600)];
    let rows = day_table(&trades);
    assert_eq!(rows.len(), 2);
    assert_eq!(rows[0].day, "2024-09-04");
    assert_eq!((rows[0].entries, rows[0].exits), (1, 0));
    assert!(rows[0].exit_trades.is_empty());
    assert_eq!(rows[1].day, "2024-09-05");
    assert_eq!((rows[1].entries, rows[1].exits), (0, 1));
    assert_eq!(rows[1].exit_trades, vec![0]);
}

#[test]
fn day_table_is_sorted_and_lists_exits_in_order() {
    let day = 86_400;
    let trades = vec![
        trade(D_BASE + 2 * day, D_BASE + 2 * day + 60),
        trade(D_BASE, D_BASE + 60),
        trade(D_BASE + 2 * day + 120, D_BASE + 2 * day + 180),
        trade(D_BASE - day, D_BASE + 200),
    ];
    let rows = day_table(&trades);
    let days: Vec<&str> = rows.iter().map(|r| r.day.as_str()).collect();
    assert_eq!(days, vec!["2024-09-03", "2024-09-04", "2024-09-06"]);
    assert_eq!((rows[0].entries, rows[0].exits), (1, 0));
    assert_eq!((rows[1].entries, rows[1].exits), (1, 2));
    assert_eq!(rows[1].exit_trades, vec![1, 3]);
    assert_eq!((rows[2].entries, rows[2].exits), (2, 2));
    assert_eq!(rows[2].exit_trades, vec![0, 2]);
}

#[test]
fn day_table_of_no_trades_is_empty() {
    assert!(day_table(&[]).is_empty());
}

#[test]
fn single_day_lists_every_trade_in_exit_order() {
    let trades = vec![trade(D_BASE, D_BASE + 60), trade(D_BASE + 60, D_BASE + 120), trade(D_BASE + 120, D_BASE + 180)];
    let rows = day_table(&trades);
    assert_eq!(rows.len(), 1);
    assert_eq!(rows[0].exit_trades, vec![0, 1, 2]);
}

#[test]
fn utc_day_texts_sort_in_day_order() {
    let instants = [0i64, 86_399, 86_400, 951_782_400, 1_709_164_800, 1_725_458_400, 253_402_300_799];
    for w in instants.windows(2) {
        let (a, b) = (utc_day(w[0]), utc_day(w[1]));
        assert!(a <= b, "{a} {b}");
        assert_eq!(a == b, w[0] / 86_400 == w[1] / 86_400);
    }
    assert_eq!(utc_day(253_402_300_799), "9999-12-31");
}
