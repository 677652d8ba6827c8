//! The command line: what the arguments ask for, and what a run refuses.

use vstd::prelude::*;

use crate::config::{mode_debug_name, Config, Mode};
use crate::error::Error;
use crate::strategy::{signal_label, Signal};
use crate::text::{decimal, push_decimal, str_equal, texts};

verus! {

/// The usage message for a command line that is not understood.
pub const USAGE: &'static str =
    "usage: price-action replay <bars.csv> \u{2014} e.g. `price-action replay samples/sample-bars.csv`";

/// The message for a normal run in live mode.
pub const LIVE_REFUSED: &'static str = "live trading is not implemented yet; run in paper mode";

/// What the command line asks for.
#[derive(Debug, Clone, PartialEq, Eq)]
pub enum Command {
    /// No arguments: load the configuration and report readiness.
    Ready,
    /// `replay <path>`: replay the bar file at `path`.
    Replay(String),
}

/// The arguments (after the program name) ask for a replay of `path`:
/// exactly `replay` and one path.
pub open spec fn asks_replay(args: Seq<Seq<char>>) -> bool {
    args.len() == 2 && args[0] == "replay"@
}

/// Reads the arguments after the program name: none is a normal run,
/// `replay <path>` a replay; a bare `replay`, extra arguments or any other
/// first argument are a usage error.
pub fn parse_args(args: &Vec<String>) -> (r: Result<Command, Error>)
    ensures
        args@.len() == 0 ==> r matches Ok(Command::Ready),
        asks_replay(texts(args@)) ==> (r matches Ok(Command::Replay(p)) && p@ == args@[1]@),
        args@.len() != 0 && !asks_replay(texts(args@)) ==> (r matches Err(Error::Config(m)) && m@
            == USAGE@),
{
    if args.len() == 0 {
        return Ok(Command::Ready);
    }
    if args.len() == 2 && str_equal(args[0].as_str(), "replay") {
        assert(texts(args@)[0] == args@[0]@);
        return Ok(Command::Replay(args[1].clone()));
    }
    proof {
        if args@.len() == 2 {
            assert(texts(args@)[0] == args@[0]@);
        }
    }
    Err(Error::Config(String::from_str(USAGE)))
}

/// A normal run refuses live mode: live trading is not implemented.
pub fn refuse_live(mode: Mode) -> (r: Result<(), Error>)
    ensures
        r is Ok <==> mode == Mode::Paper,
        r matches Err(e) ==> e matches Error::Execution(m) && m@ == LIVE_REFUSED@,
{
    match mode {
        Mode::Paper => Ok(()),
        Mode::Live => Err(Error::Execution(String::from_str(LIVE_REFUSED))),
    }
}

/// The status line of a run: the settings that matter to it.
pub open spec fn status_text(c: Config) -> Seq<char> {
    "price-action: symbol="@ + c.symbol@ + " mode="@ + mode_debug_name(c.mode) + " quantity="@
        + decimal(c.quantity as nat) + " bar_interval="@ + decimal(c.bar_interval_secs as nat)
        + "s threshold="@ + decimal(c.consecutive_closes_threshold as nat)
}

/// Renders the status line of a run.
pub fn status_line(config: &Config) -> (s: String)
    ensures
        s@ == status_text(*config),
{
    let mut s = String::from_str("price-action: symbol=");
    s.append(config.symbol.as_str());
    s.append(" mode=");
    s.append(config.mode.debug_name());
    s.append(" quantity=");
    push_decimal(&mut s, config.quantity as u64);
    s.append(" bar_interval=");
    push_decimal(&mut s, config.bar_interval_secs);
    s.append("s threshold=");
    push_decimal(&mut s, config.consecutive_closes_threshold as u64);
    s
}

/// The readiness line of a normal run.
pub open spec fn ready_text(last: Signal) -> Seq<char> {
    "price-action: engine ready, last signal = "@ + signal_label(last)
        + " (no market-data source configured yet)"@
}

/// Renders the readiness line of a normal run.
pub fn ready_line(last: Signal) -> (s: String)
    ensures
        s@ == ready_text(last),
{
    let mut s = String::from_str("price-action: engine ready, last signal = ");
    s.append(last.label());
    s.append(" (no market-data source configured yet)");
    s
}

} // verus!
