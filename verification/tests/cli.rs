use price_action::cli::{parse_args, ready_line, refuse_live, status_line, Command, LIVE_REFUSED, USAGE};
use price_action::config::{Config, Mode};
use price_action::error::Error;
use price_action::strategy::Signal;

fn args(a: &[&str]) -> Vec<String> {
    a.iter().map(|s| s.to_string()).collect()
}

#[test]
fn no_arguments_is_a_normal_run() {
    assert_eq!(parse_args(&args(&[])), Ok(Command::Ready));
}

#[test]
fn replay_takes_exactly_one_path() {
    assert_eq!(
        parse_args(&args(&["replay", "samples/sample-bars.csv"])),
        Ok(Command::Replay("samples/sample-bars.csv".to_string()))
    );
    let usage = Err(Error::Config(USAGE.to_string()));
    assert_eq!(parse_args(&args(&["replay"])), usage);
    assert_eq!(parse_args(&args(&["replay", "a.csv", "b.csv"])), usage);
    assert_eq!(parse_args(&args(&["backtest", "a.csv"])), usage);
    assert!(USAGE.starts_with("usage: price-action replay <bars.csv>"));
}

#[test]
fn live_mode_is_refused_for_a_normal_run() {
    assert!(refuse_live(Mode::Paper).is_ok());
    assert_eq!(refuse_live(Mode::Live), Err(Error::Execution(LIVE_REFUSED.to_string())));
}

#[test]
fn status_and_ready_lines() {
    let config = Config::default();
    assert_eq!(
        status_line(&config),
        "price-action: symbol=AAPL mode=Paper quantity=1 bar_interval=60s threshold=3"
    );
    assert_eq!(
        ready_line(Signal::Flat),
        "price-action: engine ready, last signal = Flat (no market-data source configured yet)"
    );
}
