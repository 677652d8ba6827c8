//! Error types shared across the crate.

use vstd::prelude::*;

verus! {

/// Errors produced while running the trading pipeline.
#[derive(Debug, Clone, PartialEq, Eq)]
pub enum Error {
    /// A market-data source failed or produced unusable data.
    MarketData(String),
    /// The execution backend rejected or failed an order.
    Execution(String),
    /// A strategy failed to process a bar.
    Strategy(String),
    /// The configuration could not be loaded or is invalid.
    Config(String),
}

impl Error {
    /// The error's message, as its `Display` rendering shows it.
    pub open spec fn message_of(&self) -> Seq<char> {
        match self {
            Error::MarketData(m) => "market data error: "@ + m@,
            Error::Execution(m) => "execution error: "@ + m@,
            Error::Strategy(m) => "strategy error: "@ + m@,
            Error::Config(m) => "config error: "@ + m@,
        }
    }

    /// Renders the error's message.
    pub fn message(&self) -> (s: String)
        ensures
            s@ == self.message_of(),
    {
        let (mut s, detail) = match self {
            Error::MarketData(m) => (String::from_str("market data error: "), m),
            Error::Execution(m) => (String::from_str("execution error: "), m),
            Error::Strategy(m) => (String::from_str("strategy error: "), m),
            Error::Config(m) => (String::from_str("config error: "), m),
        };
        s.append(detail.as_str());
        s
    }
}

} // verus!
