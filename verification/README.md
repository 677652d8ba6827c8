# price_action

Automated price-action trading: strategies driven by raw price movement
(OHLCV bars), with a replay mode that runs recorded bars through the
strategy against a paper broker and prices every decision as a funded paper
account.

The library under `src/` is written in Verus. Every function in it carries
a contract; Verus proves them all except a handful of small wrappers around
standard-library calls (marked `#[verifier::external_body]`), whose
contracts restate what the standard library documents.

| Module | Contents |
|---|---|
| `market` | `Bar` (finite values, `low <= high`) and the `BarSeries` rolling window |
| `strategy` | `Signal`, the `Strategy` trait, the `ConsecutiveCloses` rule |
| `execution` | `Position`, the `Broker` trait, the in-memory `PaperBroker` |
| `engine` | The bar → signal → position loop, with retry of a failed position |
| `accounting` | The trade book of a paper account, UTC dates, per-day grouping |
| `replay` | Signals of a replay, its tally, and the report's table layout |
| `csv` | Reading bar files: header, rows, fields, line-numbered errors |
| `config` | Layered configuration: environment over file over defaults |
| `cli` | The command line and the status lines of a run |
| `double` | Binary64 values carried as bit patterns: finiteness, sign, order |
| `calendar`, `text`, `timestamp` | Civil dates, text helpers, Unix seconds |

`app/` is the program around the library: process arguments and
environment, file reading and writing, TOML parsing, and the binary64 money
arithmetic and two-decimal formatting of the paper account and its report.
