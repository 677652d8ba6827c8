//! Automated price-action trading, as a verified library.
//!
//! The crate is organised as a pipeline: `market` holds bars, `strategy`
//! turns bars into signals, `execution` carries decisions out, `engine`
//! drives the loop, `accounting` and `replay` hold the bookkeeping of a
//! replayed session, `csv` reads bar files, `config` resolves the layered
//! configuration and `cli` reads the command line. Prices are carried as
//! IEEE-754 binary64 bit patterns (`double::Double`).

pub mod accounting;
pub mod calendar;
pub mod cli;
pub mod config;
pub mod csv;
pub mod double;
pub mod engine;
pub mod error;
pub mod execution;
pub mod market;
pub mod replay;
pub mod strategy;
pub mod text;
pub mod timestamp;
