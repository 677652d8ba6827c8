use std::collections::BTreeMap;

use price_action::config::{
    set_value,
    Config, ConfigError, EnvValues, FileConfig, FileLayer, Mode, DEFAULT_STARTING_BALANCE_BITS,
};
use price_action::double::Double;
use price_action::error::Error;

fn env_from(map: BTreeMap<&'static str, &'static str>) -> impl Fn(&str) -> Option<String> {
    move |var: &str| map.get(var).map(|v| (*v).to_string())
}

fn parse_amount(s: &String) -> Result<Double, String> {
    s.parse::<f64>().map(|v| Double::from_bits(v.to_bits())).map_err(|e| e.to_string())
}

const PATH: &str = "price-action-config-test.toml";

fn load_from(file: FileLayer, env: &impl Fn(&str) -> Option<String>) -> Result<Config, ConfigError> {
    Config::resolve(&file, PATH, &EnvValues::read(env), &parse_amount, true)
}

fn no_file() -> FileLayer {
    FileLayer::Missing
}

fn empty_file() -> FileConfig {
    FileConfig {
        symbol: None,
        quantity: None,
        mode: None,
        bar_interval_secs: None,
        series_capacity: None,
        consecutive_closes_threshold: None,
        starting_balance: None,
        trade_fee_bps: None,
        broker_url: None,
        broker_api_key: None,
    }
}

fn balance(c: &Config) -> f64 {
    f64::from_bits(c.starting_balance.to_bits())
}

#[test]
fn defaults_apply_with_no_file_no_env() {
    let cfg = load_from(no_file(), &env_from(BTreeMap::new())).unwrap();
    assert!(cfg == Config::default());
    assert_eq!(cfg.mode, Mode::Paper);
}

#[test]
fn file_overrides_defaults() {
    let file = FileConfig {
        symbol: Some("MSFT".to_string()),
        quantity: Some(10),
        mode: Some("paper".to_string()),
        bar_interval_secs: Some(300),
        ..empty_file()
    };
    let cfg = load_from(FileLayer::Parsed(file), &env_from(BTreeMap::new())).unwrap();
    assert_eq!(cfg.symbol, "MSFT");
    assert_eq!(cfg.quantity, 10);
    assert_eq!(cfg.bar_interval_secs, 300);
    assert_eq!(cfg.series_capacity, Config::default().series_capacity);
}

#[test]
fn env_overrides_file() {
    let file = FileConfig { symbol: Some("MSFT".to_string()), quantity: Some(10), ..empty_file() };
    let env = env_from(BTreeMap::from([
        ("PRICE_ACTION_SYMBOL", "NVDA"),
        ("PRICE_ACTION_MODE", "paper"),
    ]));
    let cfg = load_from(FileLayer::Parsed(file), &env).unwrap();
    assert_eq!(cfg.symbol, "NVDA");
    assert_eq!(cfg.quantity, 10);
}

#[test]
fn invalid_env_value_is_reported_with_var_name() {
    let env = env_from(BTreeMap::from([("PRICE_ACTION_QUANTITY", "lots")]));
    let err = load_from(no_file(), &env).err().expect("an error");
    assert!(err.message().contains("PRICE_ACTION_QUANTITY"), "{}", err.message());
}

#[test]
fn unknown_mode_is_rejected() {
    let env = env_from(BTreeMap::from([("PRICE_ACTION_MODE", "yolo")]));
    let err = load_from(no_file(), &env).err().expect("an error");
    assert!(err.message().contains("unknown mode"), "{}", err.message());
}

#[test]
fn live_mode_requires_broker_url() {
    let env = env_from(BTreeMap::from([("PRICE_ACTION_MODE", "live")]));
    let err = load_from(no_file(), &env).err().expect("an error");
    assert!(err.message().contains("broker_url"), "{}", err.message());

    let env = env_from(BTreeMap::from([
        ("PRICE_ACTION_MODE", "live"),
        ("PRICE_ACTION_BROKER_URL", "https://broker.example/api"),
    ]));
    let cfg = load_from(no_file(), &env).unwrap();
    assert_eq!(cfg.mode, Mode::Live);
}

#[test]
fn zero_quantity_is_rejected() {
    let env = env_from(BTreeMap::from([("PRICE_ACTION_QUANTITY", "0")]));
    let err = load_from(no_file(), &env).err().expect("an error");
    assert!(err.message().contains("quantity"), "{}", err.message());
}

#[test]
fn accounting_defaults() {
    let cfg = Config::default();
    assert!((balance(&cfg) - 10_000.0).abs() < f64::EPSILON * 32.0);
    assert_eq!(cfg.trade_fee_bps, 5);
}

#[test]
fn accounting_settings_file_and_env_precedence() {
    let file = || FileConfig {
        starting_balance: Some(Double::from_bits(25_000.0f64.to_bits())),
        trade_fee_bps: Some(10),
        ..empty_file()
    };
    let env = env_from(BTreeMap::from([
        ("PRICE_ACTION_STARTING_BALANCE", "500"),
        ("PRICE_ACTION_TRADE_FEE_BPS", "2"),
    ]));
    let cfg = load_from(FileLayer::Parsed(file()), &env).unwrap();
    assert!((balance(&cfg) - 500.0).abs() < f64::EPSILON * 32.0);
    assert_eq!(cfg.trade_fee_bps, 2);

    let cfg = load_from(FileLayer::Parsed(file()), &env_from(BTreeMap::new())).unwrap();
    assert!((balance(&cfg) - 25_000.0).abs() < f64::EPSILON * 32.0);
    assert_eq!(cfg.trade_fee_bps, 10);
}

#[test]
fn zero_or_non_finite_starting_balance_is_rejected() {
    for raw in ["0", "-1", "inf", "NaN"] {
        let env = env_from(BTreeMap::from([("PRICE_ACTION_STARTING_BALANCE", raw)]));
        let err = load_from(no_file(), &env).err().expect("an error");
        assert!(err.message().contains("starting_balance"), "for {raw}: {}", err.message());
    }
}

#[test]
fn live_mode_rejects_whitespace_only_broker_url() {
    let env = env_from(BTreeMap::from([
        ("PRICE_ACTION_MODE", "live"),
        ("PRICE_ACTION_BROKER_URL", "   "),
    ]));
    let err = load_from(no_file(), &env).err().expect("an error");
    assert!(err.message().contains("broker_url"), "{}", err.message());
}

#[test]
fn default_starting_balance_bits_are_ten_thousand() {
    assert_eq!(DEFAULT_STARTING_BALANCE_BITS, 10_000.0f64.to_bits());
}

#[test]
fn replay_path_skips_the_broker_rule() {
    let env = env_from(BTreeMap::from([("PRICE_ACTION_MODE", "LIVE")]));
    let cfg = Config::resolve(&no_file(), PATH, &EnvValues::read(&env), &parse_amount, false).unwrap();
    assert_eq!(cfg.mode, Mode::Live);
}

#[test]
fn mode_parse_ignores_ascii_case() {
    assert_eq!(Mode::parse("PaPeR").unwrap(), Mode::Paper);
    assert_eq!(Mode::parse("LIVE").unwrap(), Mode::Live);
    let err = Mode::parse("Yolo").err().expect("an error");
    assert_eq!(
        err.message(),
        "invalid config value for 'mode': unknown mode \"yolo\"; expected \"paper\" or \"live\""
    );
    assert_eq!(Mode::Paper.label(), "paper");
    assert_eq!(Mode::Live.label(), "live");
    assert_eq!(Mode::default(), Mode::Paper);
}

#[test]
fn unreadable_file_is_a_file_error() {
    let err = load_from(FileLayer::Failed("permission denied".to_string()), &env_from(BTreeMap::new()))
        .err().expect("an error");
    assert_eq!(err.message(), format!("config file {:?}: permission denied", PATH));
    match err {
        ConfigError::File { path, reason } => {
            assert_eq!(path, PATH);
            assert_eq!(reason, "permission denied");
        }
        ConfigError::Invalid { .. } => panic!("expected a file error"),
    }
}

#[test]
fn bad_file_mode_is_a_file_error() {
    let file = FileConfig { mode: Some("turbo".to_string()), ..empty_file() };
    let err = load_from(FileLayer::Parsed(file), &env_from(BTreeMap::new())).err().expect("an error");
    assert!(matches!(err, ConfigError::File { .. }));
    assert!(err.message().contains("invalid mode: invalid config value for 'mode': unknown mode"));
}

#[test]
fn env_errors_name_the_first_bad_variable() {
    let env = env_from(BTreeMap::from([
        ("PRICE_ACTION_TRADE_FEE_BPS", "-1"),
        ("PRICE_ACTION_BAR_INTERVAL_SECS", "soon"),
    ]));
    let err = load_from(no_file(), &env).err().expect("an error");
    assert!(err.message().contains("PRICE_ACTION_BAR_INTERVAL_SECS"), "{}", err.message());

    let env = env_from(BTreeMap::from([("PRICE_ACTION_TRADE_FEE_BPS", "-1")]));
    let err = load_from(no_file(), &env).err().expect("an error");
    assert!(err.message().contains("PRICE_ACTION_TRADE_FEE_BPS"), "{}", err.message());
}

#[test]
fn blank_symbol_is_rejected() {
    let env = env_from(BTreeMap::from([("PRICE_ACTION_SYMBOL", " \t ")]));
    let err = load_from(no_file(), &env).err().expect("an error");
    assert_eq!(err.message(), "invalid config value for 'symbol': must not be empty");
}

#[test]
fn every_zero_setting_is_rejected_by_name() {
    for (var, field) in [
        ("PRICE_ACTION_BAR_INTERVAL_SECS", "bar_interval_secs"),
        ("PRICE_ACTION_SERIES_CAPACITY", "series_capacity"),
        ("PRICE_ACTION_CONSECUTIVE_CLOSES_THRESHOLD", "consecutive_closes_threshold"),
    ] {
        let env = env_from(BTreeMap::from([(var, "0")]));
        let err = load_from(no_file(), &env).err().expect("an error");
        assert_eq!(err.message(), format!("invalid config value for '{field}': must be at least 1"));
    }
}

#[test]
fn plus_signed_integers_parse() {
    let env = env_from(BTreeMap::from([("PRICE_ACTION_QUANTITY", "+7")]));
    let cfg = load_from(no_file(), &env).unwrap();
    assert_eq!(cfg.quantity, 7);
}

#[test]
fn config_error_becomes_crate_error() {
    let err = Mode::parse("x").err().expect("an error");
    match err.into_error() {
        Error::Config(m) => assert_eq!(m, err.message()),
        other => panic!("unexpected {other:?}"),
    }
}

#[test]
fn debug_output_redacts_api_key() {
    let env = env_from(BTreeMap::from([("PRICE_ACTION_BROKER_API_KEY", "super-secret-value")]));
    let cfg = load_from(no_file(), &env).unwrap_or_else(|e| panic!("{}", e.message()));
    let debug = cfg.debug_render(&format!("{:?}", balance(&cfg)));
    assert!(!debug.contains("super-secret-value"), "{debug}");
    assert!(debug.contains("[redacted]"), "{debug}");
    assert!(debug.contains("symbol"), "{debug}");
}

#[test]
fn debug_output_shows_absent_api_key_as_none() {
    let cfg = Config::default();
    let debug = cfg.debug_render(&format!("{:?}", balance(&cfg)));
    assert!(debug.contains("broker_api_key: None"), "{debug}");
    assert_eq!(
        debug,
        "Config { symbol: \"AAPL\", quantity: 1, mode: Paper, bar_interval_secs: 60, series_capacity: 500, consecutive_closes_threshold: 3, starting_balance: 10000.0, trade_fee_bps: 5, broker_url: None, broker_api_key: None }"
    );
}

#[test]
fn integer_env_errors_carry_the_parser_message() {
    let env = env_from(BTreeMap::from([("PRICE_ACTION_QUANTITY", "lots")]));
    let err = load_from(no_file(), &env).err().expect("an error");
    assert_eq!(
        err.message(),
        "invalid config value for 'PRICE_ACTION_QUANTITY': invalid digit found in string"
    );
}

#[test]
fn empty_variables_count_as_unset() {
    assert_eq!(set_value(Some(String::new())), None);
    assert_eq!(set_value(Some("NVDA".to_string())), Some("NVDA".to_string()));
    assert_eq!(set_value(None), None);
}

#[test]
fn mode_names() {
    assert_eq!(Mode::Paper.debug_name(), "Paper");
    assert_eq!(Mode::Live.debug_name(), "Live");
    assert_eq!(Mode::Paper.label(), "paper");
    assert_eq!(Mode::Live.label(), "live");
}

#[test]
fn debug_output_quotes_the_broker_url() {
    let env = env_from(BTreeMap::from([
        ("PRICE_ACTION_BROKER_URL", "https://broker.example/api"),
        ("PRICE_ACTION_BROKER_API_KEY", "k"),
    ]));
    let cfg = load_from(no_file(), &env).unwrap_or_else(|e| panic!("{}", e.message()));
    let debug = cfg.debug_render("10000.0");
    assert!(debug.ends_with(
        "broker_url: Some(\"https://broker.example/api\"), broker_api_key: Some(\"[redacted]\") }"
    ), "{debug}");
}

#[test]
fn env_values_read_before_a_bad_one_stay_applied() {
    let env = env_from(BTreeMap::from([
        ("PRICE_ACTION_QUANTITY", "5"),
        ("PRICE_ACTION_BAR_INTERVAL_SECS", "soon"),
        ("PRICE_ACTION_CONSECUTIVE_CLOSES_THRESHOLD", "7"),
    ]));
    let mut cfg = Config::default();
    let err = cfg.apply_env(&EnvValues::read(&env), &parse_amount).err().expect("an error");
    assert!(err.message().contains("PRICE_ACTION_BAR_INTERVAL_SECS"));
    assert_eq!(cfg.quantity, 5);
    assert_eq!(cfg.bar_interval_secs, 60);
    assert_eq!(cfg.consecutive_closes_threshold, 3);
}
