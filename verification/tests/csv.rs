use std::time::{Duration, SystemTime};

use price_action::csv::{bars_from_text, number_field, unix_secs, BarFileReader, HEADER};
use price_action::double::Double;
use price_action::error::Error;
use price_action::market::Bar;

fn parse(text: &str) -> Option<Double> {
    text.parse::<f64>().ok().map(|x| Double::from_bits(x.to_bits()))
}

fn load_text(text: &str) -> Result<Vec<Bar>, Error> {
    bars_from_text(text, &parse)
}

fn message(err: Error) -> String {
    err.message()
}

fn close_of(b: &Bar) -> f64 {
    f64::from_bits(b.close().to_bits())
}

#[test]
fn load_reads_rows_in_file_order() {
    let text = format!("{HEADER}\n0,1.00,2.00,0.50,10.00,5\n1,2.00,3.50,1.50,22.00,7\n\n42,3.00,4.00,2.50,35.00,9\n");
    let loaded = load_text(&text).expect("load");
    assert_eq!(loaded.len(), 3);
    assert!((close_of(&loaded[0]) - 10.0).abs() < f64::EPSILON * 32.0);
    assert_eq!(unix_secs(loaded[1].timestamp()), 1);
    assert_eq!(unix_secs(loaded[2].timestamp()), "42".parse::<i64>().unwrap_or(0));
}

#[test]
fn load_rejects_bad_header() {
    let err = load_text("date,o,h,l,c\n").expect_err("bad header");
    assert!(message(err).contains("unexpected CSV header"));
}

#[test]
fn bad_header_message_quotes_both_headers() {
    let err = load_text("  date,o,h,l,c  \n").expect_err("bad header");
    assert_eq!(
        err,
        Error::MarketData(
            "line 1: unexpected CSV header `date,o,h,l,c` (expected `timestamp,open,high,low,close,volume`)"
                .to_string()
        )
    );
}

#[test]
fn load_rejects_short_rows() {
    let err = load_text("timestamp,open,high,low,close,volume\n1,2,3\n").expect_err("short row");
    assert!(message(err).contains("expected 6 comma-separated fields"));
}

#[test]
fn short_row_message_counts_fields() {
    let err = load_text("timestamp,open,high,low,close,volume\n\n1,2,3\n").expect_err("short row");
    assert_eq!(
        err,
        Error::MarketData("line 3: expected 6 comma-separated fields, found 3".to_string())
    );
}

#[test]
fn load_rejects_non_numeric() {
    let err = load_text("timestamp,open,high,low,close,volume\n1,oops,2,3,4,5\n").expect_err("non-numeric");
    assert!(message(err).contains("invalid open value"));
}

#[test]
fn load_rejects_infinite_price() {
    let err = load_text("timestamp,open,high,low,close,volume\n1,1,1,inf,1,1\n").expect_err("infinite");
    assert!(message(err).contains("invalid low value"));
}

#[test]
fn load_rejects_bad_timestamp() {
    let err = load_text("timestamp,open,high,low,close,volume\n-1,1,1,1,1,1\n").expect_err("timestamp");
    assert_eq!(
        err,
        Error::MarketData("line 2: invalid timestamp value `-1` (expected a finite number)".to_string())
    );
}

#[test]
fn load_rejects_empty_data() {
    let err = load_text(HEADER).expect_err("no data lines");
    assert!(message(err).contains("no data lines"));
}

#[test]
fn empty_text_has_no_data_lines() {
    let err = load_text("").expect_err("no data lines");
    assert_eq!(err, Error::MarketData("bar file contains no data lines".to_string()));
}

#[test]
fn crlf_lines_and_spaced_timestamps_are_read() {
    let text = "timestamp,open,high,low,close,volume\r\n 7 ,1,2,0.5,1.5,3\r\n";
    let loaded = load_text(text).expect("load");
    assert_eq!(loaded.len(), 1);
    assert_eq!(unix_secs(loaded[0].timestamp()), 7);
}

#[test]
fn rows_carry_line_numbers_and_raw_fields() {
    let mut reader = BarFileReader::new("timestamp,open,high,low,close,volume\n\n5, 1,2,3,4,5\n");
    let row = reader.next_row().expect("row").expect("some row");
    assert_eq!(row.line_no, 3);
    assert_eq!(row.fields, vec![" 1", "2", "3", "4", "5"]);
    assert!(reader.next_row().expect("end").is_none());
    assert!(reader.finish().is_ok());
}

#[test]
fn number_field_accepts_only_finite_values() {
    let one = Double::from_bits(1.0f64.to_bits());
    assert_eq!(number_field(4, "close", "1", Some(one)).map(|d| d.to_bits()), Ok(1.0f64.to_bits()));
    let inf = Double::from_bits(f64::INFINITY.to_bits());
    assert_eq!(
        number_field(4, "close", "inf", Some(inf)).map(|d| d.to_bits()),
        Err(Error::MarketData("line 4: invalid close value `inf` (expected a finite number)".to_string()))
    );
    assert!(number_field(4, "close", "x", None).is_err());
}

#[test]
fn unix_secs_helper_handles_epoch_and_offsets() {
    assert_eq!(unix_secs(SystemTime::UNIX_EPOCH), 0);
    assert_eq!(unix_secs(SystemTime::UNIX_EPOCH + Duration::from_secs(9)), 9);
}

#[test]
fn unix_secs_clamps_pre_epoch_instants() {
    assert_eq!(unix_secs(SystemTime::UNIX_EPOCH - Duration::from_secs(5)), 0);
}

#[test]
fn the_first_bad_row_is_reported() {
    let text = "timestamp,open,high,low,close,volume\n1,1,1,1,x,1\n2,1\n";
    let err = load_text(text).expect_err("bad close");
    assert_eq!(
        err,
        Error::MarketData("line 2: invalid close value `x` (expected a finite number)".to_string())
    );
}

#[test]
fn values_are_handed_over_trimmed() {
    let seen = std::cell::RefCell::new(Vec::new());
    let record = |t: &str| {
        seen.borrow_mut().push(t.to_string());
        parse(t)
    };
    let bars = bars_from_text("timestamp,open,high,low,close,volume\n3, 1 ,2,0.5,1.5, 9\n", &record)
        .expect("load");
    assert_eq!(bars.len(), 1);
    assert_eq!(*seen.borrow(), vec!["1", "2", "0.5", "1.5", "9"]);
}

#[test]
fn a_blank_first_line_is_no_header() {
    let err = load_text("\n1,1,1,1,1,1\n").expect_err("no header");
    assert_eq!(
        err,
        Error::MarketData(
            "line 1: unexpected CSV header `` (expected `timestamp,open,high,low,close,volume`)"
                .to_string()
        )
    );
}

#[test]
fn the_first_bad_value_in_column_order_is_named() {
    let err = load_text("timestamp,open,high,low,close,volume\n1,1,1,inf,x,1\n").expect_err("bad low");
    assert!(message(err).contains("invalid low value"));
}

#[test]
fn timestamps_up_to_year_9999_load() {
    let loaded = load_text("timestamp,open,high,low,close,volume\n253402300799,1,1,1,1,1\n").expect("load");
    assert_eq!(unix_secs(loaded[0].timestamp()), 253_402_300_799);
}
