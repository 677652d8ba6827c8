//! Layered application configuration.
//!
//! Values are resolved in strict precedence order: environment variables
//! (`PRICE_ACTION_*`) override the TOML config file, which overrides the
//! compiled defaults. Reading the environment and the file is the caller's
//! part; this module takes what was read and decides.

use std::num::ParseIntError;

use vstd::prelude::*;

use crate::double::{finite_bits, scaled_value, Double};
use crate::error::Error;
use crate::text::{
    ascii_lower_all, decimal, is_blank, is_blank_str, push_decimal, str_equal, to_ascii_lower,
};

verus! {

/// Environment variable naming the config-file path.
pub const CONFIG_PATH_VAR: &'static str = "PRICE_ACTION_CONFIG";

/// Config-file path used when `CONFIG_PATH_VAR` is unset.
pub const DEFAULT_CONFIG_PATH: &'static str = "price-action.toml";

/// Prefix of every environment variable this module reads.
pub const ENV_PREFIX: &'static str = "PRICE_ACTION_";

/// Where the application should place trades.
#[derive(Debug, Clone, Copy, PartialEq, Eq, Structural)]
pub enum Mode {
    /// Simulated fills only; no real orders. The default.
    Paper,
    /// Real orders via a broker. Requires `broker_url` to be configured.
    Live,
}

impl Default for Mode {
    fn default() -> (m: Self)
        ensures
            m == Mode::Paper,
    {
        Mode::Paper
    }
}

/// `Debug` rendering of a text: quoted, with escapes (what `{:?}` gives).
pub uninterp spec fn debug_quoted(s: Seq<char>) -> Seq<char>;

/// `format!("{s:?}")`: the `Debug` rendering of a text.
#[verifier::external_body]
pub(crate) fn debug_text(s: &str) -> (r: String)
    ensures
        r@ == debug_quoted(s@),
{
    format!("{s:?}")
}

/// `std::num::ParseIntError`, carried opaquely.
#[verifier::external_type_specification]
#[verifier::external_body]
pub struct ExParseIntError(ParseIntError);

/// An ASCII decimal digit.
pub open spec fn is_digit(c: char) -> bool {
    '0' <= c && c <= '9'
}

/// The value of a string of decimal digits.
pub open spec fn digits_value(s: Seq<char>) -> nat
    decreases s.len(),
{
    if s.len() == 0 {
        0
    } else {
        digits_value(s.drop_last()) * 10 + ((s.last() as u32) - ('0' as u32)) as nat
    }
}

/// What `str::parse` accepts for an unsigned integer type with maximum
/// `max`: an optional `+`, then one or more decimal digits whose value fits.
pub open spec fn parse_unsigned(s: Seq<char>, max: nat) -> Option<nat> {
    let body = if s.len() > 0 && s[0] == '+' {
        s.drop_first()
    } else {
        s
    };
    if body.len() > 0 && (forall|i: int| 0 <= i < body.len() ==> is_digit(#[trigger] body[i]))
        && digits_value(body) <= max {
        Some(digits_value(body))
    } else {
        None
    }
}

/// The error `<u32 as FromStr>::from_str` gives for a text it refuses.
pub uninterp spec fn u32_parse_error(s: Seq<char>) -> ParseIntError;

/// The error `<u64 as FromStr>::from_str` gives for a text it refuses.
pub uninterp spec fn u64_parse_error(s: Seq<char>) -> ParseIntError;

/// The error `<usize as FromStr>::from_str` gives for a text it refuses.
pub uninterp spec fn usize_parse_error(s: Seq<char>) -> ParseIntError;

/// The text the `Display` rendering of a `ParseIntError` gives.
pub uninterp spec fn int_error_message(e: ParseIntError) -> Seq<char>;

/// `<u32 as FromStr>::from_str`: an optional `+` and decimal digits whose
/// value fits; the error of a refused text is named.
#[verifier::external_body]
pub(crate) fn parse_u32(s: &str) -> (r: Result<u32, ParseIntError>)
    ensures
        r is Ok <==> parse_unsigned(s@, u32::MAX as nat) is Some,
        r matches Ok(v) ==> parse_unsigned(s@, u32::MAX as nat) == Some(v as nat),
        r matches Err(e) ==> e == u32_parse_error(s@),
{
    s.parse::<u32>()
}

/// `<u64 as FromStr>::from_str`, as `parse_u32` with the `u64` range.
#[verifier::external_body]
pub(crate) fn parse_u64(s: &str) -> (r: Result<u64, ParseIntError>)
    ensures
        r is Ok <==> parse_unsigned(s@, u64::MAX as nat) is Some,
        r matches Ok(v) ==> parse_unsigned(s@, u64::MAX as nat) == Some(v as nat),
        r matches Err(e) ==> e == u64_parse_error(s@),
{
    s.parse::<u64>()
}

/// `<usize as FromStr>::from_str`, as `parse_u32` with the `usize` range.
#[verifier::external_body]
pub(crate) fn parse_usize(s: &str) -> (r: Result<usize, ParseIntError>)
    ensures
        r is Ok <==> parse_unsigned(s@, usize::MAX as nat) is Some,
        r matches Ok(v) ==> parse_unsigned(s@, usize::MAX as nat) == Some(v as nat),
        r matches Err(e) ==> e == usize_parse_error(s@),
{
    s.parse::<usize>()
}

/// `ParseIntError::to_string`: the error's message, by name.
#[verifier::external_body]
pub(crate) fn int_error_text(e: &ParseIntError) -> (r: String)
    ensures
        r@ == int_error_message(*e),
{
    e.to_string()
}

/// Configuration loading or validation failure.
#[derive(Debug, Clone, PartialEq, Eq)]
pub enum ConfigError {
    /// The config file could not be read or parsed.
    File {
        /// Path that failed.
        path: String,
        /// What went wrong.
        reason: String,
    },
    /// A value from the environment or the resolved config is invalid.
    Invalid {
        /// Variable or field name.
        source: String,
        /// What went wrong.
        reason: String,
    },
}

/// The text of a `ConfigError::File`.
pub open spec fn file_message(path: Seq<char>, reason: Seq<char>) -> Seq<char> {
    "config file "@ + debug_quoted(path) + ": "@ + reason
}

/// The text of a `ConfigError::Invalid`.
pub open spec fn invalid_message(source: Seq<char>, reason: Seq<char>) -> Seq<char> {
    "invalid config value for '"@ + source + "': "@ + reason
}

/// `e` is an `Invalid` error naming `source` with reason `reason`.
pub open spec fn invalid_with(e: ConfigError, source: Seq<char>, reason: Seq<char>) -> bool {
    e matches ConfigError::Invalid { source: s, reason: r } && s@ == source && r@ == reason
}

/// The reason given for an unknown mode (`raw` already lower-cased).
pub open spec fn unknown_mode_reason(lowered: Seq<char>) -> Seq<char> {
    "unknown mode "@ + debug_quoted(lowered) + "; expected \"paper\" or \"live\""@
}

/// A mode's name, as its `Debug` rendering shows it.
pub open spec fn mode_debug_name(m: Mode) -> Seq<char> {
    match m {
        Mode::Paper => "Paper"@,
        Mode::Live => "Live"@,
    }
}

/// The mode a text names, ignoring ASCII case.
pub open spec fn mode_named(raw: Seq<char>) -> Option<Mode> {
    if ascii_lower_all(raw) == "paper"@ {
        Some(Mode::Paper)
    } else if ascii_lower_all(raw) == "live"@ {
        Some(Mode::Live)
    } else {
        None
    }
}

impl ConfigError {
    /// A file error for `path`.
    pub fn file(path: &str, reason: String) -> (e: Self)
        ensures
            e matches ConfigError::File { path: p, reason: r } && p@ == path@ && r@ == reason@,
    {
        ConfigError::File { path: String::from_str(path), reason }
    }

    /// An invalid-value error for `source`.
    pub fn invalid(source: &str, reason: String) -> (e: Self)
        ensures
            invalid_with(e, source@, reason@),
    {
        ConfigError::Invalid { source: String::from_str(source), reason }
    }

    /// The error's message, as its `Display` rendering shows it.
    pub open spec fn message_of(&self) -> Seq<char> {
        match self {
            ConfigError::File { path, reason } => file_message(path@, reason@),
            ConfigError::Invalid { source, reason } => invalid_message(source@, reason@),
        }
    }

    /// Renders the error's message.
    pub fn message(&self) -> (m: String)
        ensures
            m@ == self.message_of(),
    {
        match self {
            ConfigError::File { path, reason } => {
                let mut m = String::from_str("config file ");
                let q = debug_text(path.as_str());
                m.append(q.as_str());
                m.append(": ");
                m.append(reason.as_str());
                m
            },
            ConfigError::Invalid { source, reason } => {
                let mut m = String::from_str("invalid config value for '");
                m.append(source.as_str());
                m.append("': ");
                m.append(reason.as_str());
                m
            },
        }
    }

    /// The crate-wide error this becomes: `Error::Config` with the message.
    pub fn into_error(&self) -> (e: Error)
        ensures
            e matches Error::Config(m) && m@ == self.message_of(),
    {
        Error::Config(self.message())
    }
}

impl Mode {
    /// Parses a mode name, ignoring ASCII case: `"paper"` or `"live"`.
    pub fn parse(raw: &str) -> (r: Result<Mode, ConfigError>)
        ensures
            r is Ok <==> mode_named(raw@) is Some,
            r matches Ok(m) ==> mode_named(raw@) == Some(m),
            r matches Err(e) ==> invalid_with(
                e,
                "mode"@,
                unknown_mode_reason(ascii_lower_all(raw@)),
            ),
    {
        let lower = to_ascii_lower(raw);
        if str_equal(lower.as_str(), "paper") {
            proof {
                reveal_strlit("paper");
            }
            Ok(Mode::Paper)
        } else if str_equal(lower.as_str(), "live") {
            proof {
                reveal_strlit("live");
                reveal_strlit("paper");
            }
            Ok(Mode::Live)
        } else {
            proof {
                reveal_strlit("live");
                reveal_strlit("paper");
            }
            let mut reason = String::from_str("unknown mode ");
            let q = debug_text(lower.as_str());
            reason.append(q.as_str());
            reason.append("; expected \"paper\" or \"live\"");
            Err(ConfigError::invalid("mode", reason))
        }
    }

    /// The mode's name, as its `Debug` rendering shows it.
    pub fn debug_name(&self) -> (s: &'static str)
        ensures
            s@ == mode_debug_name(*self),
    {
        match self {
            Mode::Paper => "Paper",
            Mode::Live => "Live",
        }
    }

    /// The mode's name, as its `Display` rendering shows it.
    pub fn label(&self) -> (s: &'static str)
        ensures
            s@ == match self {
                Mode::Paper => "paper"@,
                Mode::Live => "live"@,
            },
    {
        match self {
            Mode::Paper => "paper",
            Mode::Live => "live",
        }
    }
}

/// Fully resolved application configuration.
#[derive(Clone, PartialEq)]
pub struct Config {
    /// Instrument symbol to trade, e.g. `AAPL`.
    pub symbol: String,
    /// Shares/contracts per trade. Must be at least 1.
    pub quantity: u32,
    /// Paper (simulated) or live trading. Defaults to paper.
    pub mode: Mode,
    /// Bar interval in seconds. Must be at least 1.
    pub bar_interval_secs: u64,
    /// Number of recent bars retained in the rolling window.
    pub series_capacity: usize,
    /// Consecutive higher/lower closes before the example strategy signals.
    pub consecutive_closes_threshold: u32,
    /// Starting funds for replay paper-accounting (a binary64 value). Must be
    /// greater than 0 and finite.
    pub starting_balance: Double,
    /// Fee charged in basis points on each side's trade notional at entry
    /// and exit during replay accounting (5 = 0.05%).
    pub trade_fee_bps: u32,
    /// Broker/venue API base URL. Required in live mode.
    pub broker_url: Option<String>,
    /// Broker API key.
    pub broker_api_key: Option<String>,
}

/// The contents of a `Config`, with texts as character sequences.
pub struct ConfigView {
    pub symbol: Seq<char>,
    pub quantity: u32,
    pub mode: Mode,
    pub bar_interval_secs: u64,
    pub series_capacity: usize,
    pub consecutive_closes_threshold: u32,
    pub starting_balance: Double,
    pub trade_fee_bps: u32,
    pub broker_url: Option<Seq<char>>,
    pub broker_api_key: Option<Seq<char>>,
}

/// The characters of an optional text.
pub open spec fn opt_text(o: Option<String>) -> Option<Seq<char>> {
    match o {
        Some(s) => Some(s@),
        None => None,
    }
}

/// `10000.0` as a binary64 bit pattern.
pub const DEFAULT_STARTING_BALANCE_BITS: u64 = 0x40C3_8800_0000_0000;

impl View for Config {
    type V = ConfigView;

    open spec fn view(&self) -> ConfigView {
        ConfigView {
            symbol: self.symbol@,
            quantity: self.quantity,
            mode: self.mode,
            bar_interval_secs: self.bar_interval_secs,
            series_capacity: self.series_capacity,
            consecutive_closes_threshold: self.consecutive_closes_threshold,
            starting_balance: self.starting_balance,
            trade_fee_bps: self.trade_fee_bps,
            broker_url: opt_text(self.broker_url),
            broker_api_key: opt_text(self.broker_api_key),
        }
    }
}

/// The compiled defaults.
pub open spec fn default_view() -> ConfigView {
    ConfigView {
        symbol: "AAPL"@,
        quantity: 1,
        mode: Mode::Paper,
        bar_interval_secs: 60,
        series_capacity: 500,
        consecutive_closes_threshold: 3,
        starting_balance: Double::of_bits(DEFAULT_STARTING_BALANCE_BITS),
        trade_fee_bps: 5,
        broker_url: None,
        broker_api_key: None,
    }
}

impl Default for Config {
    fn default() -> (c: Self)
        ensures
            c@ == default_view(),
    {
        Config {
            symbol: String::from_str("AAPL"),
            quantity: 1,
            mode: Mode::Paper,
            bar_interval_secs: 60,
            series_capacity: 500,
            consecutive_closes_threshold: 3,
            starting_balance: Double::from_bits(DEFAULT_STARTING_BALANCE_BITS),
            trade_fee_bps: 5,
            broker_url: None,
            broker_api_key: None,
        }
    }
}

/// The config file's values: every field optional so the file only
/// overrides what it actually sets.
pub struct FileConfig {
    pub symbol: Option<String>,
    pub quantity: Option<u32>,
    pub mode: Option<String>,
    pub bar_interval_secs: Option<u64>,
    pub series_capacity: Option<usize>,
    pub consecutive_closes_threshold: Option<u32>,
    pub starting_balance: Option<Double>,
    pub trade_fee_bps: Option<u32>,
    pub broker_url: Option<String>,
    pub broker_api_key: Option<String>,
}

/// What reading the config file gave.
pub enum FileLayer {
    /// No file at the path: not an error.
    Missing,
    /// The file could not be read or parsed, for the given reason.
    Failed(String),
    /// The file's values.
    Parsed(FileConfig),
}

/// The raw values of the `PRICE_ACTION_*` variables (an empty variable
/// counts as unset).
pub struct EnvValues {
    pub symbol: Option<String>,
    pub quantity: Option<String>,
    pub bar_interval_secs: Option<String>,
    pub series_capacity: Option<String>,
    pub consecutive_closes_threshold: Option<String>,
    pub starting_balance: Option<String>,
    pub trade_fee_bps: Option<String>,
    pub mode: Option<String>,
    pub broker_url: Option<String>,
    pub broker_api_key: Option<String>,
}

/// `new` over `old` when present.
pub open spec fn pick<T>(new: Option<T>, old: T) -> T {
    match new {
        Some(v) => v,
        None => old,
    }
}

/// `new` over `old` when present, for optional settings.
pub open spec fn pick_opt<T>(new: Option<T>, old: Option<T>) -> Option<T> {
    match new {
        Some(v) => Some(v),
        None => old,
    }
}

/// The file layer laid over `c` (the file's mode must name a mode).
pub open spec fn file_overlay(c: ConfigView, f: FileConfig) -> ConfigView {
    ConfigView {
        symbol: pick(opt_text(f.symbol), c.symbol),
        quantity: pick(f.quantity, c.quantity),
        mode: match f.mode {
            Some(m) => mode_named(m@).unwrap(),
            None => c.mode,
        },
        bar_interval_secs: pick(f.bar_interval_secs, c.bar_interval_secs),
        series_capacity: pick(f.series_capacity, c.series_capacity),
        consecutive_closes_threshold: pick(
            f.consecutive_closes_threshold,
            c.consecutive_closes_threshold,
        ),
        starting_balance: pick(f.starting_balance, c.starting_balance),
        trade_fee_bps: pick(f.trade_fee_bps, c.trade_fee_bps),
        broker_url: pick_opt(opt_text(f.broker_url), c.broker_url),
        broker_api_key: pick_opt(opt_text(f.broker_api_key), c.broker_api_key),
    }
}

/// The file layer is acceptable: its mode, if any, names a mode.
pub open spec fn file_ok(f: FileConfig) -> bool {
    f.mode matches Some(m) ==> mode_named(m@) is Some
}

/// The reason given when the file names an unknown mode.
pub open spec fn file_mode_reason(f: FileConfig) -> Seq<char> {
    "invalid mode: "@ + invalid_message("mode"@, unknown_mode_reason(ascii_lower_all(f.mode->0@)))
}

/// An environment value for an unsigned field: absent, or one that parses.
pub open spec fn env_unsigned_ok(raw: Option<String>, max: nat) -> bool {
    raw matches Some(s) ==> parse_unsigned(s@, max) is Some
}

/// The value an unsigned field takes from its environment variable.
pub open spec fn env_unsigned(raw: Option<String>, max: nat, old: nat) -> nat {
    match raw {
        Some(s) => parse_unsigned(s@, max).unwrap(),
        None => old,
    }
}

/// The environment layer laid over `c`, given what the starting balance's
/// text parsed to (`amount`).
pub open spec fn env_overlay(c: ConfigView, e: EnvValues, amount: Option<Double>) -> ConfigView {
    ConfigView {
        symbol: pick(opt_text(e.symbol), c.symbol),
        quantity: env_unsigned(e.quantity, u32::MAX as nat, c.quantity as nat) as u32,
        mode: match e.mode {
            Some(m) => mode_named(m@).unwrap(),
            None => c.mode,
        },
        bar_interval_secs: env_unsigned(
            e.bar_interval_secs,
            u64::MAX as nat,
            c.bar_interval_secs as nat,
        ) as u64,
        series_capacity: env_unsigned(
            e.series_capacity,
            usize::MAX as nat,
            c.series_capacity as nat,
        ) as usize,
        consecutive_closes_threshold: env_unsigned(
            e.consecutive_closes_threshold,
            u32::MAX as nat,
            c.consecutive_closes_threshold as nat,
        ) as u32,
        starting_balance: pick(amount, c.starting_balance),
        trade_fee_bps: env_unsigned(e.trade_fee_bps, u32::MAX as nat, c.trade_fee_bps as nat)
            as u32,
        broker_url: pick_opt(opt_text(e.broker_url), c.broker_url),
        broker_api_key: pick_opt(opt_text(e.broker_api_key), c.broker_api_key),
    }
}

/// An environment variable whose value cannot be used.
#[derive(PartialEq, Eq, Structural)]
pub enum EnvFault {
    Quantity,
    BarIntervalSecs,
    SeriesCapacity,
    ConsecutiveClosesThreshold,
    StartingBalance,
    TradeFeeBps,
    Mode,
}

/// The variable's name.
pub open spec fn fault_var(f: EnvFault) -> Seq<char> {
    match f {
        EnvFault::Quantity => "PRICE_ACTION_QUANTITY"@,
        EnvFault::BarIntervalSecs => "PRICE_ACTION_BAR_INTERVAL_SECS"@,
        EnvFault::SeriesCapacity => "PRICE_ACTION_SERIES_CAPACITY"@,
        EnvFault::ConsecutiveClosesThreshold => "PRICE_ACTION_CONSECUTIVE_CLOSES_THRESHOLD"@,
        EnvFault::StartingBalance => "PRICE_ACTION_STARTING_BALANCE"@,
        EnvFault::TradeFeeBps => "PRICE_ACTION_TRADE_FEE_BPS"@,
        EnvFault::Mode => "PRICE_ACTION_MODE"@,
    }
}

/// The reason given for a variable whose value cannot be used: the
/// integer parser's message, the starting balance's parse error
/// (`amount`), or the unknown-mode message.
pub open spec fn fault_reason(
    e: EnvValues,
    f: EnvFault,
    amount: Option<Result<Double, String>>,
) -> Seq<char> {
    match f {
        EnvFault::Quantity => int_error_message(u32_parse_error(e.quantity->0@)),
        EnvFault::BarIntervalSecs => int_error_message(u64_parse_error(e.bar_interval_secs->0@)),
        EnvFault::SeriesCapacity => int_error_message(usize_parse_error(e.series_capacity->0@)),
        EnvFault::ConsecutiveClosesThreshold => int_error_message(
            u32_parse_error(e.consecutive_closes_threshold->0@),
        ),
        EnvFault::StartingBalance => amount->0->Err_0@,
        EnvFault::TradeFeeBps => int_error_message(u32_parse_error(e.trade_fee_bps->0@)),
        EnvFault::Mode => invalid_message("mode"@, unknown_mode_reason(ascii_lower_all(e.mode->0@))),
    }
}

/// The first of the integer variables read before the starting balance
/// whose value cannot be used, if any.
pub open spec fn env_failure_early(e: EnvValues) -> Option<EnvFault> {
    if !env_unsigned_ok(e.quantity, u32::MAX as nat) {
        Some(EnvFault::Quantity)
    } else if !env_unsigned_ok(e.bar_interval_secs, u64::MAX as nat) {
        Some(EnvFault::BarIntervalSecs)
    } else if !env_unsigned_ok(e.series_capacity, usize::MAX as nat) {
        Some(EnvFault::SeriesCapacity)
    } else if !env_unsigned_ok(e.consecutive_closes_threshold, u32::MAX as nat) {
        Some(EnvFault::ConsecutiveClosesThreshold)
    } else {
        None
    }
}

/// The first variable from the starting balance on whose value cannot be
/// used, if any, given whether the starting balance's text parsed.
pub open spec fn env_failure_late(e: EnvValues, amount_ok: bool) -> Option<EnvFault> {
    if !amount_ok {
        Some(EnvFault::StartingBalance)
    } else if !env_unsigned_ok(e.trade_fee_bps, u32::MAX as nat) {
        Some(EnvFault::TradeFeeBps)
    } else if e.mode matches Some(m) && mode_named(m@) is None {
        Some(EnvFault::Mode)
    } else {
        None
    }
}

/// The first general validation rule that `c` breaks, as the field it
/// names with the reason given.
pub open spec fn general_failure(c: ConfigView) -> Option<(Seq<char>, Seq<char>)> {
    if is_blank(c.symbol) {
        Some(("symbol"@, "must not be empty"@))
    } else if c.quantity == 0 {
        Some(("quantity"@, "must be at least 1"@))
    } else if c.bar_interval_secs == 0 {
        Some(("bar_interval_secs"@, "must be at least 1"@))
    } else if c.series_capacity == 0 {
        Some(("series_capacity"@, "must be at least 1"@))
    } else if c.consecutive_closes_threshold == 0 {
        Some(("consecutive_closes_threshold"@, "must be at least 1"@))
    } else if !(finite_bits(c.starting_balance@) && scaled_value(c.starting_balance@) > 0) {
        Some(("starting_balance"@, "must be a finite value greater than 0"@))
    } else {
        None
    }
}

/// The reason given when live mode lacks a broker URL.
pub open spec fn live_needs_url_reason() -> Seq<char> {
    "live mode requires a non-empty PRICE_ACTION_BROKER_URL or broker_url in the config file"@
}

/// The execution rule: live mode needs a non-blank broker URL.
pub open spec fn execution_ok(c: ConfigView) -> bool {
    c.mode == Mode::Live ==> (c.broker_url matches Some(u) && !is_blank(u))
}

/// What the starting balance's text parsed to, when it was set.
pub open spec fn amount_read<P: Fn(&String) -> Result<Double, String>>(
    parse_amount: P,
    raw: Option<String>,
    amount: Option<Result<Double, String>>,
) -> bool {
    match raw {
        None => amount is None,
        Some(s) => amount matches Some(res) && parse_amount.ensures((&s,), res),
    }
}

/// The starting balance's text, if set, parsed.
pub open spec fn amount_ok(amount: Option<Result<Double, String>>) -> bool {
    !(amount matches Some(Err(_)))
}

/// The parsed starting balance, if set and parsed.
pub open spec fn amount_value(amount: Option<Result<Double, String>>) -> Option<Double> {
    match amount {
        Some(Ok(d)) => Some(d),
        _ => None,
    }
}

/// The configuration the file layer starts from, or `None` when the file
/// failed.
pub open spec fn file_base(file: FileLayer) -> Option<ConfigView> {
    match file {
        FileLayer::Missing => Some(default_view()),
        FileLayer::Failed(_) => None,
        FileLayer::Parsed(f) => if file_ok(f) {
            Some(file_overlay(default_view(), f))
        } else {
            None
        },
    }
}

/// How reading the environment from the starting balance on ends, given
/// what the starting balance's text parsed to (`amount`): the outcome `r`
/// and the configuration before and after.
pub open spec fn env_late_outcome<P: Fn(&String) -> Result<Double, String>>(
    parse_amount: P,
    env: EnvValues,
    amount: Option<Result<Double, String>>,
    r: Result<(), ConfigError>,
    before: ConfigView,
    after: ConfigView,
) -> bool {
    &&& amount_read(parse_amount, env.starting_balance, amount)
    &&& (r is Ok <==> env_failure_late(env, amount_ok(amount)) is None)
    &&& r is Ok ==> after == env_overlay(before, env, amount_value(amount))
    &&& r matches Err(e) ==> invalid_with(
        e,
        fault_var(env_failure_late(env, amount_ok(amount)).unwrap()),
        fault_reason(env, env_failure_late(env, amount_ok(amount)).unwrap(), amount),
    )
    &&& r is Err ==> after == env_overlay_before(
        before,
        env,
        amount_value(amount),
        fault_step(env_failure_late(env, amount_ok(amount)).unwrap()),
    )
}

/// Where the variable of a fault is read: the settings are taken from the
/// environment in the order symbol, quantity, bar interval, series
/// capacity, threshold, starting balance, fee, mode, broker URL, API key.
pub open spec fn fault_step(f: EnvFault) -> int {
    match f {
        EnvFault::Quantity => 1,
        EnvFault::BarIntervalSecs => 2,
        EnvFault::SeriesCapacity => 3,
        EnvFault::ConsecutiveClosesThreshold => 4,
        EnvFault::StartingBalance => 5,
        EnvFault::TradeFeeBps => 6,
        EnvFault::Mode => 7,
    }
}

/// The environment layer laid over `c` for the first `n` settings in the
/// order `fault_step` gives; the others keep their values in `c`.
pub open spec fn env_overlay_before(
    c: ConfigView,
    e: EnvValues,
    amount: Option<Double>,
    n: int,
) -> ConfigView {
    let full = env_overlay(c, e, amount);
    ConfigView {
        symbol: if 0 < n { full.symbol } else { c.symbol },
        quantity: if 1 < n { full.quantity } else { c.quantity },
        bar_interval_secs: if 2 < n { full.bar_interval_secs } else { c.bar_interval_secs },
        series_capacity: if 3 < n { full.series_capacity } else { c.series_capacity },
        consecutive_closes_threshold: if 4 < n {
            full.consecutive_closes_threshold
        } else {
            c.consecutive_closes_threshold
        },
        starting_balance: if 5 < n { full.starting_balance } else { c.starting_balance },
        trade_fee_bps: if 6 < n { full.trade_fee_bps } else { c.trade_fee_bps },
        mode: if 7 < n { full.mode } else { c.mode },
        broker_url: if 8 < n { full.broker_url } else { c.broker_url },
        broker_api_key: if 9 < n { full.broker_api_key } else { c.broker_api_key },
    }
}

/// An environment variable's value as the configuration reads it: an empty
/// value counts as unset.
pub fn set_value(raw: Option<String>) -> (r: Option<String>)
    ensures
        r == if raw matches Some(v) && v@.len() == 0 {
            None
        } else {
            raw
        },
{
    match raw {
        Some(v) => if v.as_str().unicode_len() == 0 {
            None
        } else {
            Some(v)
        },
        None => None,
    }
}

impl EnvValues {
    /// Looks every `PRICE_ACTION_*` variable up with `env`.
    pub fn read<F: Fn(&str) -> Option<String>>(env: &F) -> (v: EnvValues)
        requires
            forall|name: &str| env.requires((name,)),
        ensures
            env.ensures(("PRICE_ACTION_SYMBOL",), v.symbol),
            env.ensures(("PRICE_ACTION_QUANTITY",), v.quantity),
            env.ensures(("PRICE_ACTION_BAR_INTERVAL_SECS",), v.bar_interval_secs),
            env.ensures(("PRICE_ACTION_SERIES_CAPACITY",), v.series_capacity),
            env.ensures(
                ("PRICE_ACTION_CONSECUTIVE_CLOSES_THRESHOLD",),
                v.consecutive_closes_threshold,
            ),
            env.ensures(("PRICE_ACTION_STARTING_BALANCE",), v.starting_balance),
            env.ensures(("PRICE_ACTION_TRADE_FEE_BPS",), v.trade_fee_bps),
            env.ensures(("PRICE_ACTION_MODE",), v.mode),
            env.ensures(("PRICE_ACTION_BROKER_URL",), v.broker_url),
            env.ensures(("PRICE_ACTION_BROKER_API_KEY",), v.broker_api_key),
    {
        EnvValues {
            symbol: env("PRICE_ACTION_SYMBOL"),
            quantity: env("PRICE_ACTION_QUANTITY"),
            bar_interval_secs: env("PRICE_ACTION_BAR_INTERVAL_SECS"),
            series_capacity: env("PRICE_ACTION_SERIES_CAPACITY"),
            consecutive_closes_threshold: env("PRICE_ACTION_CONSECUTIVE_CLOSES_THRESHOLD"),
            starting_balance: env("PRICE_ACTION_STARTING_BALANCE"),
            trade_fee_bps: env("PRICE_ACTION_TRADE_FEE_BPS"),
            mode: env("PRICE_ACTION_MODE"),
            broker_url: env("PRICE_ACTION_BROKER_URL"),
            broker_api_key: env("PRICE_ACTION_BROKER_API_KEY"),
        }
    }
}

fn clone_opt(o: &Option<String>) -> (r: Option<String>)
    ensures
        opt_text(r) == opt_text(*o),
{
    match o {
        Some(s) => Some(s.clone()),
        None => None,
    }
}

impl Config {
    /// Lays the config file's values over this configuration; a mode the
    /// file names wrongly is a file error for `path`.
    pub fn apply_file(&mut self, file: &FileConfig, path: &str) -> (r: Result<(), ConfigError>)
        ensures
            r is Ok <==> file_ok(*file),
            r is Ok ==> final(self)@ == file_overlay(old(self)@, *file),
            r matches Err(e) ==> e matches ConfigError::File { path: p, reason: why } && p@
                == path@ && why@ == file_mode_reason(*file),
    {
        let mode = match &file.mode {
            Some(raw) => match Mode::parse(raw.as_str()) {
                Ok(m) => m,
                Err(e) => {
                    let mut reason = String::from_str("invalid mode: ");
                    let m = e.message();
                    reason.append(m.as_str());
                    return Err(ConfigError::file(path, reason));
                },
            },
            None => self.mode,
        };
        if let Some(v) = &file.symbol {
            self.symbol = v.clone();
        }
        if let Some(v) = file.quantity {
            self.quantity = v;
        }
        self.mode = mode;
        if let Some(v) = file.bar_interval_secs {
            self.bar_interval_secs = v;
        }
        if let Some(v) = file.series_capacity {
            self.series_capacity = v;
        }
        if let Some(v) = file.consecutive_closes_threshold {
            self.consecutive_closes_threshold = v;
        }
        if let Some(v) = file.starting_balance {
            self.starting_balance = v;
        }
        if let Some(v) = file.trade_fee_bps {
            self.trade_fee_bps = v;
        }
        if file.broker_url.is_some() {
            self.broker_url = clone_opt(&file.broker_url);
        }
        if file.broker_api_key.is_some() {
            self.broker_api_key = clone_opt(&file.broker_api_key);
        }
        Ok(())
    }

    /// Lays the environment's values over this configuration. Integer
    /// variables are parsed here; the starting balance's text is parsed by
    /// `parse_amount` (decimal text to a binary64 value). A variable whose
    /// value cannot be used is reported by name.
    #[verifier::rlimit(30)]
    pub fn apply_env<P: Fn(&String) -> Result<Double, String>>(
        &mut self,
        env: &EnvValues,
        parse_amount: &P,
    ) -> (r: Result<(), ConfigError>)
        requires
            forall|s: &String| parse_amount.requires((s,)),
        ensures
            env_failure_early(*env) matches Some(f) ==> r matches Err(e) && invalid_with(
                e,
                fault_var(f),
                fault_reason(*env, f, None),
            ),
            env_failure_early(*env) matches Some(f) ==> final(self)@ == env_overlay_before(
                old(self)@,
                *env,
                None,
                fault_step(f),
            ),
            env_failure_early(*env) is None ==> exists|amount: Option<Result<Double, String>>|
                #[trigger] env_late_outcome(
                    *parse_amount,
                    *env,
                    amount,
                    r,
                    old(self)@,
                    final(self)@,
                ),
    {
        let ghost amount: Option<Result<Double, String>> = None;
        if let Some(v) = &env.symbol {
            self.symbol = v.clone();
        }
        assert(self@ == env_overlay_before(old(self)@, *env, None, 1));
        if let Some(raw) = &env.quantity {
            match parse_u32(raw.as_str()) {
                Ok(v) => self.quantity = v,
                Err(e) => {
                    assert(self@ == env_overlay_before(old(self)@, *env, None, 1));
                    return Err(ConfigError::invalid("PRICE_ACTION_QUANTITY", int_error_text(&e)));
                },
            }
        }
        assert(self@ == env_overlay_before(old(self)@, *env, None, 2));
        if let Some(raw) = &env.bar_interval_secs {
            match parse_u64(raw.as_str()) {
                Ok(v) => self.bar_interval_secs = v,
                Err(e) => {
                    assert(self@ == env_overlay_before(old(self)@, *env, None, 2));
                    return Err(
                        ConfigError::invalid("PRICE_ACTION_BAR_INTERVAL_SECS", int_error_text(&e)),
                    );
                },
            }
        }
        assert(self@ == env_overlay_before(old(self)@, *env, None, 3));
        if let Some(raw) = &env.series_capacity {
            match parse_usize(raw.as_str()) {
                Ok(v) => self.series_capacity = v,
                Err(e) => {
                    assert(self@ == env_overlay_before(old(self)@, *env, None, 3));
                    return Err(
                        ConfigError::invalid("PRICE_ACTION_SERIES_CAPACITY", int_error_text(&e)),
                    );
                },
            }
        }
        assert(self@ == env_overlay_before(old(self)@, *env, None, 4));
        if let Some(raw) = &env.consecutive_closes_threshold {
            match parse_u32(raw.as_str()) {
                Ok(v) => self.consecutive_closes_threshold = v,
                Err(e) => {
                    assert(self@ == env_overlay_before(old(self)@, *env, None, 4));
                    return Err(
                        ConfigError::invalid(
                            "PRICE_ACTION_CONSECUTIVE_CLOSES_THRESHOLD",
                            int_error_text(&e),
                        ),
                    );
                },
            }
        }
        assert(self@ == env_overlay_before(old(self)@, *env, None, 5));
        if let Some(raw) = &env.starting_balance {
            let res = parse_amount(raw);
            proof {
                amount = Some(res);
            }
            match res {
                Ok(v) => self.starting_balance = v,
                Err(why) => {
                    let r = Err(ConfigError::invalid("PRICE_ACTION_STARTING_BALANCE", why));
                    assert(self@ == env_overlay_before(old(self)@, *env, None, 5));
                    assert(env_late_outcome(*parse_amount, *env, amount, r, old(self)@, self@));
                    return r;
                },
            }
        }
        assert(amount_read(*parse_amount, env.starting_balance, amount));
        assert(self@ == env_overlay_before(old(self)@, *env, amount_value(amount), 6));
        if let Some(raw) = &env.trade_fee_bps {
            match parse_u32(raw.as_str()) {
                Ok(v) => self.trade_fee_bps = v,
                Err(e) => {
                    assert(self@ == env_overlay_before(old(self)@, *env, amount_value(amount), 6));
                    let r = Err(
                        ConfigError::invalid("PRICE_ACTION_TRADE_FEE_BPS", int_error_text(&e)),
                    );
                    assert(env_late_outcome(*parse_amount, *env, amount, r, old(self)@, self@));
                    return r;
                },
            }
        }
        assert(self@ == env_overlay_before(old(self)@, *env, amount_value(amount), 7));
        if let Some(raw) = &env.mode {
            match Mode::parse(raw.as_str()) {
                Ok(m) => self.mode = m,
                Err(e) => {
                    assert(self@ == env_overlay_before(old(self)@, *env, amount_value(amount), 7));
                    let r = Err(ConfigError::invalid("PRICE_ACTION_MODE", e.message()));
                    assert(env_late_outcome(*parse_amount, *env, amount, r, old(self)@, self@));
                    return r;
                },
            }
        }
        if env.broker_url.is_some() {
            self.broker_url = clone_opt(&env.broker_url);
        }
        if env.broker_api_key.is_some() {
            self.broker_api_key = clone_opt(&env.broker_api_key);
        }
        let r = Ok(());
        assert(env_late_outcome(*parse_amount, *env, amount, r, old(self)@, self@));
        r
    }

    /// General validation: symbol presence, positive quantities and strategy
    /// parameters, and a finite positive starting balance.
    pub fn validate_general(&self) -> (r: Result<(), ConfigError>)
        ensures
            r is Ok <==> general_failure(self@) is None,
            r matches Err(e) ==> invalid_with(
                e,
                general_failure(self@).unwrap().0,
                general_failure(self@).unwrap().1,
            ),
    {
        if is_blank_str(self.symbol.as_str()) {
            return Err(ConfigError::invalid("symbol", String::from_str("must not be empty")));
        }
        if self.quantity == 0 {
            return Err(ConfigError::invalid("quantity", String::from_str("must be at least 1")));
        }
        if self.bar_interval_secs == 0 {
            return Err(
                ConfigError::invalid("bar_interval_secs", String::from_str("must be at least 1")),
            );
        }
        if self.series_capacity == 0 {
            return Err(
                ConfigError::invalid("series_capacity", String::from_str("must be at least 1")),
            );
        }
        if self.consecutive_closes_threshold == 0 {
            return Err(
                ConfigError::invalid(
                    "consecutive_closes_threshold",
                    String::from_str("must be at least 1"),
                ),
            );
        }
        if !(self.starting_balance.is_finite() && self.starting_balance.is_positive()) {
            return Err(
                ConfigError::invalid(
                    "starting_balance",
                    String::from_str("must be a finite value greater than 0"),
                ),
            );
        }
        Ok(())
    }

    /// Execution-specific validation: live mode needs a non-blank broker URL.
    pub fn validate_execution(&self) -> (r: Result<(), ConfigError>)
        ensures
            r is Ok <==> execution_ok(self@),
            r matches Err(e) ==> invalid_with(e, "broker_url"@, live_needs_url_reason()),
    {
        let url_missing = match &self.broker_url {
            Some(u) => is_blank_str(u.as_str()),
            None => true,
        };
        if self.mode == Mode::Live && url_missing {
            return Err(
                ConfigError::invalid(
                    "broker_url",
                    String::from_str(
                        "live mode requires a non-empty PRICE_ACTION_BROKER_URL or broker_url in the config file",
                    ),
                ),
            );
        }
        Ok(())
    }
}

/// How resolving the layers ends once the file layer gave `base` and the
/// integer variables before the starting balance were usable, given what
/// the starting balance's text parsed to (`amount`).
pub open spec fn resolve_outcome<P: Fn(&String) -> Result<Double, String>>(
    parse_amount: P,
    env: EnvValues,
    amount: Option<Result<Double, String>>,
    base: ConfigView,
    check_execution: bool,
    r: Result<Config, ConfigError>,
) -> bool {
    &&& amount_read(parse_amount, env.starting_balance, amount)
    &&& match env_failure_late(env, amount_ok(amount)) {
        Some(f) => r matches Err(e) && invalid_with(e, fault_var(f), fault_reason(env, f, amount)),
        None => {
            let c = env_overlay(base, env, amount_value(amount));
            match general_failure(c) {
                Some(g) => r matches Err(e) && invalid_with(e, g.0, g.1),
                None => if check_execution && !execution_ok(c) {
                    r matches Err(e) && invalid_with(e, "broker_url"@, live_needs_url_reason())
                } else {
                    r matches Ok(cfg) && cfg@ == c
                },
            }
        },
    }
}

/// What resolving the layers gives: a file that failed is reported for
/// `path` with its reason, as is a mode the file names wrongly; then the
/// first integer variable that cannot be used is reported by name; past
/// those, the outcome is `resolve_outcome` for what the starting balance's
/// text parsed to.
pub open spec fn resolution<P: Fn(&String) -> Result<Double, String>>(
    parse_amount: P,
    file: FileLayer,
    path: Seq<char>,
    env: EnvValues,
    check_execution: bool,
    r: Result<Config, ConfigError>,
) -> bool {
    &&& file matches FileLayer::Failed(why) ==> r matches Err(e) && e matches ConfigError::File {
        path: p,
        reason: w,
    } && p@ == path && w@ == why@
    &&& file matches FileLayer::Parsed(f) ==> (!file_ok(f) ==> (r matches Err(e)
        && e matches ConfigError::File { path: p, reason: why } && p@ == path && why@
        == file_mode_reason(f)))
    &&& file_base(file) matches Some(base) ==> {
        &&& env_failure_early(env) matches Some(f) ==> r matches Err(e) && invalid_with(
            e,
            fault_var(f),
            fault_reason(env, f, None),
        )
        &&& env_failure_early(env) is None ==> exists|amount: Option<Result<Double, String>>|
            #[trigger] resolve_outcome(parse_amount, env, amount, base, check_execution, r)
    }
}

impl Config {
    /// Resolves the configuration: defaults, then the config file's layer,
    /// then the environment's, then validation (the execution rule only
    /// when `check_execution`). A missing file is not an error; a file that
    /// could not be read or parsed is reported for `path`.
    pub fn resolve<P: Fn(&String) -> Result<Double, String>>(
        file: &FileLayer,
        path: &str,
        env: &EnvValues,
        parse_amount: &P,
        check_execution: bool,
    ) -> (r: Result<Config, ConfigError>)
        requires
            forall|s: &String| parse_amount.requires((s,)),
        ensures
            resolution(*parse_amount, *file, path@, *env, check_execution, r),
    {
        let mut config = Config::default();
        match file {
            FileLayer::Missing => {},
            FileLayer::Failed(why) => {
                return Err(ConfigError::file(path, why.clone()));
            },
            FileLayer::Parsed(f) => {
                match config.apply_file(f, path) {
                    Ok(()) => {},
                    Err(e) => return Err(e),
                }
            },
        }
        let ghost base = config@;
        let applied = config.apply_env(env, parse_amount);
        if applied.is_err() {
            let r = Err(applied.unwrap_err());
            proof {
                if env_failure_early(*env) is None {
                    let amount = choose|a: Option<Result<Double, String>>|
                        #[trigger] env_late_outcome(*parse_amount, *env, a, applied, base, config@);
                    assert(resolve_outcome(*parse_amount, *env, amount, base, check_execution, r));
                }
            }
            return r;
        }
        let ghost amount = choose|a: Option<Result<Double, String>>|
            #[trigger] env_late_outcome(*parse_amount, *env, a, applied, base, config@);
        match config.validate_general() {
            Ok(()) => {},
            Err(e) => {
                let r = Err(e);
                assert(resolve_outcome(*parse_amount, *env, amount, base, check_execution, r));
                return r;
            },
        }
        if check_execution {
            match config.validate_execution() {
                Ok(()) => {},
                Err(e) => {
                    let r = Err(e);
                    assert(resolve_outcome(*parse_amount, *env, amount, base, check_execution, r));
                    return r;
                },
            }
        }
        let ghost c = config@;
        let r = Ok(config);
        assert(resolve_outcome(*parse_amount, *env, amount, base, check_execution, r));
        r
    }
}

/// The value a setting takes from three layers: the environment's when
/// set, else the file's when set, else the compiled default.
pub open spec fn layered<T>(env: Option<T>, file: Option<T>, default: T) -> T {
    match env {
        Some(v) => v,
        None => match file {
            Some(v) => v,
            None => default,
        },
    }
}

/// The same for an optional setting: unset in every layer stays unset.
pub open spec fn layered_opt<T>(env: Option<T>, file: Option<T>, default: Option<T>) -> Option<T> {
    match env {
        Some(v) => Some(v),
        None => match file {
            Some(v) => Some(v),
            None => default,
        },
    }
}

/// The `u32` an environment variable's text gives, when set.
pub open spec fn env_u32(raw: Option<String>) -> Option<u32> {
    match raw {
        Some(s) => Some(parse_unsigned(s@, u32::MAX as nat).unwrap() as u32),
        None => None,
    }
}

/// The `u64` an environment variable's text gives, when set.
pub open spec fn env_u64(raw: Option<String>) -> Option<u64> {
    match raw {
        Some(s) => Some(parse_unsigned(s@, u64::MAX as nat).unwrap() as u64),
        None => None,
    }
}

/// The `usize` an environment variable's text gives, when set.
pub open spec fn env_usize(raw: Option<String>) -> Option<usize> {
    match raw {
        Some(s) => Some(parse_unsigned(s@, usize::MAX as nat).unwrap() as usize),
        None => None,
    }
}

/// The mode a text gives, when set.
pub open spec fn named_mode(raw: Option<String>) -> Option<Mode> {
    match raw {
        Some(s) => mode_named(s@),
        None => None,
    }
}

/// Precedence: every setting of a resolved configuration is the
/// environment's value when its variable is set, else the config file's
/// when the file sets it, else the compiled default.
pub proof fn lemma_env_over_file_over_default<P: Fn(&String) -> Result<Double, String>>(
    parse_amount: P,
    f: FileConfig,
    env: EnvValues,
    amount: Option<Result<Double, String>>,
    check_execution: bool,
    r: Result<Config, ConfigError>,
)
    requires
        file_ok(f),
        resolve_outcome(
            parse_amount,
            env,
            amount,
            file_overlay(default_view(), f),
            check_execution,
            r,
        ),
        r is Ok,
    ensures
        ({
            let c = r->Ok_0@;
            let d = default_view();
            &&& c.symbol == layered(opt_text(env.symbol), opt_text(f.symbol), d.symbol)
            &&& c.quantity == layered(env_u32(env.quantity), f.quantity, d.quantity)
            &&& c.mode == layered(named_mode(env.mode), named_mode(f.mode), d.mode)
            &&& c.bar_interval_secs == layered(
                env_u64(env.bar_interval_secs),
                f.bar_interval_secs,
                d.bar_interval_secs,
            )
            &&& c.series_capacity == layered(
                env_usize(env.series_capacity),
                f.series_capacity,
                d.series_capacity,
            )
            &&& c.consecutive_closes_threshold == layered(
                env_u32(env.consecutive_closes_threshold),
                f.consecutive_closes_threshold,
                d.consecutive_closes_threshold,
            )
            &&& c.starting_balance == layered(
                amount_value(amount),
                f.starting_balance,
                d.starting_balance,
            )
            &&& c.trade_fee_bps == layered(env_u32(env.trade_fee_bps), f.trade_fee_bps, d.trade_fee_bps)
            &&& c.broker_url == layered_opt(
                opt_text(env.broker_url),
                opt_text(f.broker_url),
                d.broker_url,
            )
            &&& c.broker_api_key == layered_opt(
                opt_text(env.broker_api_key),
                opt_text(f.broker_api_key),
                d.broker_api_key,
            )
        }),
{
}

/// The `Debug` rendering of an optional text.
pub open spec fn opt_debug(o: Option<Seq<char>>) -> Seq<char> {
    match o {
        Some(t) => "Some("@ + debug_quoted(t) + ")"@,
        None => "None"@,
    }
}

/// What the `Debug` rendering shows of the API key: only whether it is set.
pub open spec fn key_debug(o: Option<Seq<char>>) -> Seq<char> {
    match o {
        Some(_) => "Some(\"[redacted]\")"@,
        None => "None"@,
    }
}

/// The `Debug` rendering of a configuration, given the rendering of its
/// starting balance; the API key is redacted.
pub open spec fn config_debug(c: ConfigView, balance: Seq<char>) -> Seq<char> {
    "Config { symbol: "@ + debug_quoted(c.symbol) + ", quantity: "@ + decimal(c.quantity as nat)
        + ", mode: "@ + mode_debug_name(c.mode) + ", bar_interval_secs: "@ + decimal(
        c.bar_interval_secs as nat,
    ) + ", series_capacity: "@ + decimal(c.series_capacity as nat)
        + ", consecutive_closes_threshold: "@ + decimal(c.consecutive_closes_threshold as nat)
        + ", starting_balance: "@ + balance + ", trade_fee_bps: "@ + decimal(
        c.trade_fee_bps as nat,
    ) + ", broker_url: "@ + opt_debug(c.broker_url) + ", broker_api_key: "@ + key_debug(
        c.broker_api_key,
    ) + " }"@
}

impl Config {
    /// Renders the configuration as its `Debug` form, `balance` being the
    /// `Debug` rendering of the starting balance. The API key is always
    /// redacted, so formatting a configuration never exposes it.
    pub fn debug_render(&self, balance: &str) -> (s: String)
        ensures
            s@ == config_debug(self@, balance@),
    {
        let mut s = String::from_str("Config { symbol: ");
        let q = debug_text(self.symbol.as_str());
        s.append(q.as_str());
        s.append(", quantity: ");
        push_decimal(&mut s, self.quantity as u64);
        s.append(", mode: ");
        s.append(self.mode.debug_name());
        s.append(", bar_interval_secs: ");
        push_decimal(&mut s, self.bar_interval_secs);
        s.append(", series_capacity: ");
        push_decimal(&mut s, self.series_capacity as u64);
        s.append(", consecutive_closes_threshold: ");
        push_decimal(&mut s, self.consecutive_closes_threshold as u64);
        s.append(", starting_balance: ");
        s.append(balance);
        s.append(", trade_fee_bps: ");
        push_decimal(&mut s, self.trade_fee_bps as u64);
        s.append(", broker_url: ");
        match &self.broker_url {
            Some(u) => {
                s.append("Some(");
                let q = debug_text(u.as_str());
                s.append(q.as_str());
                s.append(")");
            },
            None => s.append("None"),
        }
        s.append(", broker_api_key: ");
        match &self.broker_api_key {
            Some(_) => s.append("Some(\"[redacted]\")"),
            None => s.append("None"),
        }
        s.append(" }");
        s
    }
}

/// Redaction: two configurations that differ only in the value of a set
/// API key render identically, so the rendering cannot reveal the key.
pub proof fn lemma_debug_hides_key(c1: ConfigView, c2: ConfigView, balance: Seq<char>)
    requires
        c1.broker_api_key is Some,
        c2.broker_api_key is Some,
        c1.symbol == c2.symbol,
        c1.quantity == c2.quantity,
        c1.mode == c2.mode,
        c1.bar_interval_secs == c2.bar_interval_secs,
        c1.series_capacity == c2.series_capacity,
        c1.consecutive_closes_threshold == c2.consecutive_closes_threshold,
        c1.trade_fee_bps == c2.trade_fee_bps,
        c1.broker_url == c2.broker_url,
    ensures
        config_debug(c1, balance) == config_debug(c2, balance),
{
}

/// Two configuration errors say the same: the same kind, with the same texts.
pub open spec fn same_error(e1: ConfigError, e2: ConfigError) -> bool {
    match (e1, e2) {
        (ConfigError::File { path: p1, reason: r1 }, ConfigError::File { path: p2, reason: r2 }) => p1@
            == p2@ && r1@ == r2@,
        (
            ConfigError::Invalid { source: s1, reason: r1 },
            ConfigError::Invalid { source: s2, reason: r2 },
        ) => s1@ == s2@ && r1@ == r2@,
        _ => false,
    }
}

/// The starting-balance parser gives one result per text.
pub open spec fn parses_as_function<P: Fn(&String) -> Result<Double, String>>(parse_amount: P) -> bool {
    forall|t: &String, a: Result<Double, String>, b: Result<Double, String>|
        #[trigger] parse_amount.ensures((t,), a) && #[trigger] parse_amount.ensures((t,), b) ==> a
            == b
}

/// From the same layers and the same reading of the starting balance, the
/// replay path and a normal run differ only by the live-mode broker rule.
proof fn lemma_outcomes_differ_only_by_broker_rule<P: Fn(&String) -> Result<Double, String>>(
    parse_amount: P,
    env: EnvValues,
    amount: Option<Result<Double, String>>,
    base: ConfigView,
    run: Result<Config, ConfigError>,
    replay: Result<Config, ConfigError>,
)
    requires
        resolve_outcome(parse_amount, env, amount, base, true, run),
        resolve_outcome(parse_amount, env, amount, base, false, replay),
    ensures
        run matches Ok(c) ==> replay matches Ok(d) && d@ == c@,
        run is Err && replay is Ok ==> invalid_with(
            run->Err_0,
            "broker_url"@,
            live_needs_url_reason(),
        ) && replay->Ok_0@.mode == Mode::Live && !execution_ok(replay->Ok_0@),
        run is Err && replay is Err ==> same_error(run->Err_0, replay->Err_0),
{
}

/// The replay path differs from a normal run only by the live-mode broker
/// rule: resolving the same file and environment with a starting-balance
/// parser that gives one result per text, a configuration a normal run
/// accepts is the one replay accepts; when the normal run refuses only for
/// a live mode without a non-blank broker URL, replay accepts a live
/// configuration; otherwise both refuse with the same error.
pub proof fn lemma_replay_skips_only_the_broker_rule<P: Fn(&String) -> Result<Double, String>>(
    parse_amount: P,
    file: FileLayer,
    path: Seq<char>,
    env: EnvValues,
    run: Result<Config, ConfigError>,
    replay: Result<Config, ConfigError>,
)
    requires
        parses_as_function(parse_amount),
        resolution(parse_amount, file, path, env, true, run),
        resolution(parse_amount, file, path, env, false, replay),
    ensures
        run matches Ok(c) ==> replay matches Ok(d) && d@ == c@,
        run is Err && replay is Ok ==> invalid_with(
            run->Err_0,
            "broker_url"@,
            live_needs_url_reason(),
        ) && replay->Ok_0@.mode == Mode::Live && !execution_ok(replay->Ok_0@),
        run is Err && replay is Err ==> same_error(run->Err_0, replay->Err_0),
{
    match file_base(file) {
        Some(base) => {
            if env_failure_early(env) is None {
                let a1 = choose|a: Option<Result<Double, String>>|
                    #[trigger] resolve_outcome(parse_amount, env, a, base, true, run);
                let a2 = choose|a: Option<Result<Double, String>>|
                    #[trigger] resolve_outcome(parse_amount, env, a, base, false, replay);
                match env.starting_balance {
                    Some(t) => {
                        let x1 = a1->0;
                        let x2 = a2->0;
                        assert(parse_amount.ensures((&t,), x1));
                        assert(parse_amount.ensures((&t,), x2));
                    },
                    None => {},
                }
                assert(a1 == a2);
                lemma_outcomes_differ_only_by_broker_rule(parse_amount, env, a1, base, run, replay);
            }
        },
        None => {},
    }
}

/// General validation refuses only the settings it names: a configuration
/// with a non-blank symbol, a quantity, bar interval, series capacity and
/// streak threshold of at least 1 and a finite positive starting balance
/// passes, whatever its fee (zero fees included), mode, broker URL and key.
pub proof fn lemma_general_accepts_any_fee(c: ConfigView, fee_bps: u32)
    requires
        !is_blank(c.symbol),
        c.quantity >= 1,
        c.bar_interval_secs >= 1,
        c.series_capacity >= 1,
        c.consecutive_closes_threshold >= 1,
        finite_bits(c.starting_balance@),
        scaled_value(c.starting_balance@) > 0,
    ensures
        general_failure(c) is None,
        general_failure(ConfigView { trade_fee_bps: fee_bps, ..c }) is None,
        general_failure(ConfigView { trade_fee_bps: 0, ..c }) is None,
{
}

} // verus!
