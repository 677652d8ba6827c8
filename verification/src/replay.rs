//! Replay of recorded bars: the tally of a replayed session and the layout
//! of its report.
//!
//! Replay is read-only by design: it always runs on a paper broker,
//! reports every position change bar by bar, and never executes anything.

use std::time::SystemTime;

use vstd::prelude::*;
use vstd::utf8::encode_utf8;

use crate::accounting::{ClosedTrade, DayTotal, SessionTotals};
use crate::config::{mode_debug_name, Config};
use crate::double::Double;
use crate::engine::{lemma_paper_engine_step, Engine};
use crate::error::Error;
use crate::execution::PaperBroker;
use crate::market::Bar;
use crate::strategy::{consecutive_signal, effective_threshold, signal_label, ConsecutiveCloses, Signal};
use crate::text::{decimal, push_char, push_decimal};
use crate::timestamp::{clamped_secs, epoch_offset, epoch_secs};

verus! {

/// Output of one replay: the per-bar trace, closed paper trades with their
/// realized results, per-UTC-day roll-ups, and a session total.
#[derive(Debug, Clone)]
pub struct ReplayReport {
    /// Number of bars fed to the engine.
    pub bars: usize,
    /// Number of separate entries (transitions from flat into Long/Short).
    pub entries: usize,
    /// Entries the paper account skipped for lack of funds.
    pub skipped_entries: usize,
    /// Final signal after all bars were processed.
    pub final_signal: Signal,
    /// One human-readable line per bar.
    pub trace_lines: Vec<String>,
    /// Closed paper trades in exit order, each net of its fees.
    pub closed_trades: Vec<ClosedTrade>,
    /// Roll-ups by UTC calendar day over the session.
    pub per_day_totals: Vec<DayTotal>,
    /// Whole-session roll-up (equity marked at the final bar's close).
    pub session_totals: SessionTotals,
}

/// Unix-seconds representation of `ts` (the column format used by bar
/// files), clamped for out-of-range timestamps rather than wrapping.
pub fn ts_secs(ts: SystemTime) -> (r: i64)
    ensures
        r == clamped_secs(epoch_offset(ts)),
        r >= 0,
{
    epoch_secs(&ts)
}

/// A replay needs at least one bar; an empty input is a market-data error.
pub fn require_bars(count: usize) -> (r: Result<(), Error>)
    ensures
        r is Ok <==> count > 0,
        r matches Err(e) ==> e matches Error::MarketData(m) && m@ == "no bars to replay"@,
{
    if count == 0 {
        return Err(Error::MarketData(String::from_str("no bars to replay")));
    }
    Ok(())
}

/// The closes of a run of bars, oldest first.
pub open spec fn closes_of(bars: Seq<Bar>) -> Seq<Double> {
    bars.map_values(|b: Bar| b.close_price())
}

/// Runs the bars, in order, through an engine with the consecutive-closes
/// strategy of `threshold` on a paper broker. A paper broker never fails,
/// so every bar is fed exactly once: the signal after bar `i` is the rule
/// over the closes of bars `0..=i`.
pub fn replay_signals(threshold: u32, bars: &[Bar]) -> (signals: Vec<Signal>)
    ensures
        signals@.len() == bars@.len(),
        forall|i: int|
            0 <= i < bars@.len() ==> #[trigger] signals@[i] == consecutive_signal(
                closes_of(bars@.take(i + 1)),
                effective_threshold(threshold),
            ),
{
    let mut engine = Engine::new(ConsecutiveCloses::new(threshold), PaperBroker::new());
    let mut signals: Vec<Signal> = Vec::new();
    let mut i: usize = 0;
    assert(closes_of(bars@.take(0)) =~= Seq::<Double>::empty());
    while i < bars.len()
        invariant
            i <= bars@.len(),
            signals@.len() == i,
            engine.pending() is None,
            engine.strategy_state().fed(closes_of(bars@.take(i as int))),
            engine.strategy_state().threshold_value() == effective_threshold(threshold),
            forall|j: int|
                0 <= j < i ==> #[trigger] signals@[j] == consecutive_signal(
                    closes_of(bars@.take(j + 1)),
                    effective_threshold(threshold),
                ),
        decreases bars@.len() - i,
    {
        let ghost before = engine;
        let bar = &bars[i];
        let r = engine.on_bar(bar);
        proof {
            lemma_paper_engine_step(before, *bar, engine, r, closes_of(bars@.take(i as int)));
            assert(closes_of(bars@.take(i as int)).push(bar.close_price()) =~= closes_of(
                bars@.take(i + 1),
            ));
        }
        let signal = match r {
            Ok(s) => s,
            Err(_) => {
                assert(false);
                Signal::Flat
            },
        };
        signals.push(signal);
        i = i + 1;
    }
    signals
}

/// The report's title line.
pub open spec fn title_text(bars: usize) -> Seq<char> {
    "price-action replay - "@ + decimal(bars as nat) + " bars"@
}

/// Renders the report's title line.
pub fn title_line(bars: usize) -> (s: String)
    ensures
        s@ == title_text(bars),
{
    let mut s = String::from_str("price-action replay - ");
    push_decimal(&mut s, bars as u64);
    s.append(" bars");
    s
}

/// The report's settings line.
pub open spec fn settings_text(c: Config) -> Seq<char> {
    "symbol="@ + c.symbol@ + " mode="@ + mode_debug_name(c.mode) + " quantity="@ + decimal(
        c.quantity as nat,
    ) + " strategy=consecutive-closes threshold="@ + decimal(c.consecutive_closes_threshold as nat)
}

/// Renders the report's settings line.
pub fn settings_line(config: &Config) -> (s: String)
    ensures
        s@ == settings_text(*config),
{
    let mut s = String::from_str("symbol=");
    s.append(config.symbol.as_str());
    s.append(" mode=");
    s.append(config.mode.debug_name());
    s.append(" quantity=");
    push_decimal(&mut s, config.quantity as u64);
    s.append(" strategy=consecutive-closes threshold=");
    push_decimal(&mut s, config.consecutive_closes_threshold as u64);
    s
}

/// The report's closing line.
pub open spec fn result_text(signal: Signal, entries: usize, bars: usize) -> Seq<char> {
    "result: signal="@ + signal_label(signal) + " entries="@ + decimal(entries as nat) + " of "@
        + decimal(bars as nat) + " bars - paper execution only, no orders placed"@
}

/// Renders the report's closing line.
pub fn result_line(signal: Signal, entries: usize, bars: usize) -> (s: String)
    ensures
        s@ == result_text(signal, entries, bars),
{
    let mut s = String::from_str("result: signal=");
    s.append(signal.label());
    s.append(" entries=");
    push_decimal(&mut s, entries as u64);
    s.append(" of ");
    push_decimal(&mut s, bars as u64);
    s.append(" bars - paper execution only, no orders placed");
    s
}

/// The note a trace line carries.
#[derive(Debug, Clone, Copy, PartialEq, Eq, Structural)]
pub enum TraceNote {
    /// Nothing to note.
    Plain,
    /// A transition from flat into a position.
    Entry,
    /// The paper account could not fund the entry.
    InsufficientFunds,
}

impl TraceNote {
    /// The note's text, as appended to the trace line.
    pub fn text(&self) -> (s: &'static str)
        ensures
            s@ == match self {
                TraceNote::Plain => ""@,
                TraceNote::Entry => "   (entry)"@,
                TraceNote::InsufficientFunds => "   (insufficient funds)"@,
            },
    {
        match self {
            TraceNote::Plain => "",
            TraceNote::Entry => "   (entry)",
            TraceNote::InsufficientFunds => "   (insufficient funds)",
        }
    }
}

/// A signal that holds a position.
pub open spec fn in_position(s: Signal) -> bool {
    s == Signal::Long || s == Signal::Short
}

/// Number of entries in a signal trace: transitions from flat (or the start)
/// into Long or Short.
pub open spec fn entry_count(signals: Seq<Signal>) -> nat
    decreases signals.len(),
{
    if signals.len() == 0 {
        0
    } else {
        let prev = if signals.len() == 1 {
            Signal::Flat
        } else {
            signals[signals.len() - 2]
        };
        entry_count(signals.drop_last()) + if in_position(signals.last()) && !in_position(prev) {
            1nat
        } else {
            0nat
        }
    }
}

/// Number of `true`s in a sequence of flags.
pub open spec fn true_count(flags: Seq<bool>) -> nat
    decreases flags.len(),
{
    if flags.len() == 0 {
        0
    } else {
        true_count(flags.drop_last()) + if flags.last() {
            1nat
        } else {
            0nat
        }
    }
}

/// `n` capped at `usize::MAX` (the counters saturate).
pub open spec fn capped(n: nat) -> nat {
    if n > usize::MAX {
        usize::MAX as nat
    } else {
        n
    }
}

/// The running counts of a replay: bars fed, entries, skipped entries and
/// the last signal.
#[derive(Debug, Clone, Copy)]
pub struct ReplayTally {
    bars: usize,
    entries: usize,
    skipped_entries: usize,
    final_signal: Signal,
}

impl ReplayTally {
    /// The tally has recorded exactly the signals `signals` with the skip
    /// flags `skipped`, in bar order.
    pub closed spec fn recorded(&self, signals: Seq<Signal>, skipped: Seq<bool>) -> bool {
        &&& signals.len() == skipped.len()
        &&& self.bars == capped(signals.len())
        &&& self.entries == capped(entry_count(signals))
        &&& self.skipped_entries == capped(true_count(skipped))
        &&& self.final_signal == if signals.len() == 0 {
            Signal::Flat
        } else {
            signals.last()
        }
    }

    /// A tally before any bar.
    pub fn new() -> (t: Self)
        ensures
            t.recorded(Seq::empty(), Seq::empty()),
    {
        ReplayTally { bars: 0, entries: 0, skipped_entries: 0, final_signal: Signal::Flat }
    }

    /// Records one bar's signal and whether its entry was skipped for lack
    /// of funds; returns the note for the bar's trace line: the skip, else
    /// an entry (from flat into a position), else nothing.
    pub fn record(&mut self, signal: Signal, entry_skipped: bool) -> (note: TraceNote)
        ensures
            forall|signals: Seq<Signal>, skipped: Seq<bool>|
                old(self).recorded(signals, skipped) ==> final(self).recorded(
                    signals.push(signal),
                    skipped.push(entry_skipped),
                ),
            note == if entry_skipped {
                TraceNote::InsufficientFunds
            } else if in_position(signal) && !in_position(old(self).last_signal_spec()) {
                TraceNote::Entry
            } else {
                TraceNote::Plain
            },
    {
        let entry = (signal == Signal::Long || signal == Signal::Short) && !(self.final_signal
            == Signal::Long || self.final_signal == Signal::Short);
        if entry {
            self.entries = if self.entries == usize::MAX { usize::MAX } else { self.entries + 1 };
        }
        if entry_skipped {
            self.skipped_entries = if self.skipped_entries == usize::MAX {
                usize::MAX
            } else {
                self.skipped_entries + 1
            };
        }
        self.bars = if self.bars == usize::MAX { usize::MAX } else { self.bars + 1 };
        let ghost prev = old(self).final_signal;
        self.final_signal = signal;
        proof {
            assert forall|signals: Seq<Signal>, skipped: Seq<bool>|
                old(self).recorded(signals, skipped) implies self.recorded(
                signals.push(signal),
                skipped.push(entry_skipped),
            ) by {
                assert(signals.push(signal).drop_last() =~= signals);
                assert(skipped.push(entry_skipped).drop_last() =~= skipped);
                if signals.len() > 0 {
                    assert(signals.push(signal)[signals.len() - 1] == signals.last());
                }
            }
        }
        if entry_skipped {
            TraceNote::InsufficientFunds
        } else if entry {
            TraceNote::Entry
        } else {
            TraceNote::Plain
        }
    }

    /// The last recorded signal, for specifications.
    pub closed spec fn last_signal_spec(&self) -> Signal {
        self.final_signal
    }

    /// Number of bars recorded.
    pub fn bars(&self) -> (n: usize)
        ensures
            forall|signals: Seq<Signal>, skipped: Seq<bool>|
                self.recorded(signals, skipped) ==> n == capped(signals.len()),
    {
        self.bars
    }

    /// Number of entries recorded.
    pub fn entries(&self) -> (n: usize)
        ensures
            forall|signals: Seq<Signal>, skipped: Seq<bool>|
                self.recorded(signals, skipped) ==> n == capped(entry_count(signals)),
    {
        self.entries
    }

    /// Number of skipped entries recorded.
    pub fn skipped_entries(&self) -> (n: usize)
        ensures
            forall|signals: Seq<Signal>, skipped: Seq<bool>|
                self.recorded(signals, skipped) ==> n == capped(true_count(skipped)),
    {
        self.skipped_entries
    }

    /// The last recorded signal (`Flat` before any bar).
    pub fn final_signal(&self) -> (s: Signal)
        ensures
            s == self.last_signal_spec(),
            forall|signals: Seq<Signal>, skipped: Seq<bool>|
                self.recorded(signals, skipped) ==> s == if signals.len() == 0 {
                    Signal::Flat
                } else {
                    signals.last()
                },
    {
        self.final_signal
    }
}

/// Length of a text in UTF-8 bytes, as `str::len` gives it.
pub open spec fn byte_len(s: Seq<char>) -> nat {
    (encode_utf8(s).len() as usize) as nat
}

/// `n` spaces.
pub open spec fn spaces(n: nat) -> Seq<char> {
    Seq::new(n, |i: int| ' ')
}

/// `s` padded on the right with spaces to `width` bytes.
pub open spec fn pad_right(s: Seq<char>, width: nat) -> Seq<char> {
    if byte_len(s) >= width {
        s
    } else {
        s + spaces((width - byte_len(s)) as nat)
    }
}

/// Cells joined by single spaces.
pub open spec fn join_cells(cells: Seq<Seq<char>>) -> Seq<char>
    decreases cells.len(),
{
    if cells.len() == 0 {
        Seq::empty()
    } else if cells.len() == 1 {
        cells[0]
    } else {
        join_cells(cells.drop_last()) + seq![' '] + cells.last()
    }
}

/// Width of column `c`: the widest (in bytes) of its cells over all rows
/// that have that column.
pub open spec fn column_width(rows: Seq<Seq<Seq<char>>>, c: int) -> nat
    decreases rows.len(),
{
    if rows.len() == 0 {
        0
    } else {
        let rest = column_width(rows.drop_last(), c);
        let last = rows.last();
        if c < last.len() && byte_len(last[c]) > rest {
            byte_len(last[c])
        } else {
            rest
        }
    }
}

/// One table line: two spaces, then the row's cells, each padded to its
/// column's width (for the columns of the header row), joined by spaces.
pub open spec fn table_line(rows: Seq<Seq<Seq<char>>>, r: int) -> Seq<char> {
    let ncols = rows[0].len();
    let cells = rows[r];
    "  "@ + join_cells(
        Seq::new(
            cells.len(),
            |c: int|
                if c < ncols {
                    pad_right(cells[c], column_width(rows, c))
                } else {
                    cells[c]
                },
        ),
    )
}

/// Byte length of a text (`str::len`).
fn text_byte_len(s: &String) -> (n: usize)
    ensures
        n == byte_len(s@),
{
    s.as_str().len()
}

/// Renders rows of cells as table lines: per-column left alignment (columns
/// are those of the first row, widths in bytes follow the widest cell), a
/// single space between columns, two leading spaces. No rows, no lines.
pub fn render_table(rows: &Vec<Vec<String>>) -> (lines: Vec<String>)
    ensures
        lines@.len() == rows@.len(),
        forall|r: int|
            0 <= r < rows@.len() ==> #[trigger] lines@[r]@ == table_line(
                table_cells(rows@),
                r,
            ),
{
    let ghost cells = table_cells(rows@);
    let mut lines: Vec<String> = Vec::new();
    if rows.len() == 0 {
        return lines;
    }
    let ncols = rows[0].len();
    let mut widths: Vec<usize> = Vec::new();
    let mut c: usize = 0;
    while c < ncols
        invariant
            ncols == rows@[0]@.len(),
            rows@.len() > 0,
            c <= ncols,
            widths@.len() == c,
            cells == table_cells(rows@),
            forall|j: int| 0 <= j < c ==> #[trigger] widths@[j] == column_width(cells, j),
        decreases ncols - c,
    {
        let mut w: usize = 0;
        let mut r: usize = 0;
        while r < rows.len()
            invariant
                c < ncols,
                ncols == rows@[0]@.len(),
                r <= rows@.len(),
                cells == table_cells(rows@),
                w == column_width(cells.take(r as int), c as int),
            decreases rows@.len() - r,
        {
            proof {
                assert(cells.take(r + 1).drop_last() =~= cells.take(r as int));
                assert(cells.take(r + 1).last() == cells[r as int]);
            }
            if c < rows[r].len() {
                let l = text_byte_len(&rows[r][c]);
                if l > w {
                    w = l;
                }
            }
            r = r + 1;
        }
        proof {
            assert(cells.take(rows@.len() as int) =~= cells);
        }
        widths.push(w);
        c = c + 1;
    }
    let mut r: usize = 0;
    while r < rows.len()
        invariant
            rows@.len() > 0,
            ncols == rows@[0]@.len(),
            widths@.len() == ncols,
            cells == table_cells(rows@),
            forall|j: int| 0 <= j < ncols ==> #[trigger] widths@[j] == column_width(cells, j),
            r <= rows@.len(),
            lines@.len() == r,
            forall|q: int| 0 <= q < r ==> #[trigger] lines@[q]@ == table_line(cells, q),
        decreases rows@.len() - r,
    {
        let row = &rows[r];
        let mut line = String::from_str("  ");
        let n = row.len();
        let ghost padded = Seq::new(
            cells[r as int].len(),
            |k: int|
                if k < ncols {
                    pad_right(cells[r as int][k], column_width(cells, k))
                } else {
                    cells[r as int][k]
                },
        );
        let mut k: usize = 0;
        while k < n
            invariant
                n == row@.len(),
                row == rows@[r as int],
                cells == table_cells(rows@),
                r < rows@.len(),
                ncols == rows@[0]@.len(),
                widths@.len() == ncols,
                forall|j: int| 0 <= j < ncols ==> #[trigger] widths@[j] == column_width(cells, j),
                padded.len() == n,
                padded == Seq::new(
                    cells[r as int].len(),
                    |k: int|
                        if k < ncols {
                            pad_right(cells[r as int][k], column_width(cells, k))
                        } else {
                            cells[r as int][k]
                        },
                ),
                k <= n,
                line@ == "  "@ + join_cells(padded.take(k as int)),
            decreases n - k,
        {
            if k > 0 {
                push_char(&mut line, ' ');
            }
            let ghost before = line@;
            line.append(row[k].as_str());
            if k < ncols {
                let w = widths[k];
                let mut l = text_byte_len(&row[k]);
                let ghost base = line@;
                let ghost cell = row@[k as int]@;
                assert(base + spaces(0) =~= base);
                while l < w
                    invariant
                        l <= w || l == byte_len(cell),
                        byte_len(cell) <= l,
                        line@ == base + spaces((l - byte_len(cell)) as nat),
                    decreases w - l,
                {
                    push_char(&mut line, ' ');
                    proof {
                        assert((base + spaces((l - byte_len(cell)) as nat)).push(' ') =~= base
                            + spaces((l + 1 - byte_len(cell)) as nat));
                    }
                    l = l + 1;
                }
            }
            proof {
                assert(padded.take(k + 1).drop_last() =~= padded.take(k as int));
                assert(cells[r as int][k as int] == row@[k as int]@);
                if k == 0 {
                    assert(padded.take(1) =~= seq![padded[0]]);
                }
            }
            k = k + 1;
        }
        proof {
            assert(padded.take(n as int) =~= padded);
        }
        lines.push(line);
        r = r + 1;
    }
    lines
}

/// The texts of a table of `String` cells.
pub open spec fn table_cells(rows: Seq<Vec<String>>) -> Seq<Seq<Seq<char>>> {
    rows.map_values(|row: Vec<String>| row@.map_values(|s: String| s@))
}

/// Column widths count every row, the header included: when each `w[c]` is
/// the widest cell of column `c` over all rows that have it (at least every
/// such cell's byte length, and equal to one of them), each table line is
/// its row's cells padded to those widths, so a header wider than the data
/// widens its column for every line.
pub proof fn lemma_table_line_widths(rows: Seq<Seq<Seq<char>>>, r: int, w: Seq<nat>)
    requires
        rows.len() > 0,
        0 <= r < rows.len(),
        w.len() == rows[0].len(),
        forall|c: int, i: int|
            0 <= c < w.len() && 0 <= i < rows.len() && c < rows[i].len() ==> byte_len(
                #[trigger] rows[i][c],
            ) <= w[c],
        forall|c: int|
            #![trigger w[c]]
            0 <= c < w.len() ==> exists|i: int|
                0 <= i < rows.len() && c < rows[i].len() && byte_len(#[trigger] rows[i][c])
                    == w[c],
    ensures
        table_line(rows, r) == "  "@ + join_cells(
            Seq::new(
                rows[r].len(),
                |c: int|
                    if c < rows[0].len() {
                        pad_right(rows[r][c], w[c])
                    } else {
                        rows[r][c]
                    },
            ),
        ),
{
    assert forall|c: int| 0 <= c < w.len() implies column_width(rows, c) == w[c] by {
        lemma_column_width_bounds(rows, c);
        let i = choose|i: int|
            0 <= i < rows.len() && c < rows[i].len() && byte_len(#[trigger] rows[i][c]) == w[c];
        assert(byte_len(rows[i][c]) <= column_width(rows, c));
    }
    let ncols = rows[0].len();
    let cells = rows[r];
    assert(Seq::new(
        cells.len(),
        |c: int|
            if c < ncols {
                pad_right(cells[c], column_width(rows, c))
            } else {
                cells[c]
            },
    ) =~= Seq::new(
        cells.len(),
        |c: int|
            if c < ncols {
                pad_right(cells[c], w[c])
            } else {
                cells[c]
            },
    ));
}

/// `column_width` bounds every cell of the column and is 0 or one of them.
proof fn lemma_column_width_bounds(rows: Seq<Seq<Seq<char>>>, c: int)
    ensures
        forall|i: int|
            0 <= i < rows.len() && c < rows[i].len() ==> byte_len(#[trigger] rows[i][c])
                <= column_width(rows, c),
        column_width(rows, c) == 0 || exists|i: int|
            0 <= i < rows.len() && c < rows[i].len() && byte_len(#[trigger] rows[i][c])
                == column_width(rows, c),
    decreases rows.len(),
{
    if rows.len() > 0 {
        let init = rows.drop_last();
        lemma_column_width_bounds(init, c);
        assert forall|i: int|
            0 <= i < rows.len() && c < rows[i].len() implies byte_len(#[trigger] rows[i][c])
            <= column_width(rows, c) by {
            if i < rows.len() - 1 {
                assert(rows[i] == init[i]);
            }
        }
        if column_width(rows, c) != 0 {
            let last = rows.last();
            if c < last.len() && byte_len(last[c]) > column_width(init, c) {
                assert(byte_len(rows[rows.len() - 1][c]) == column_width(rows, c));
            } else {
                let i = choose|i: int|
                    0 <= i < init.len() && c < init[i].len() && byte_len(#[trigger] init[i][c])
                        == column_width(init, c);
                assert(rows[i] == init[i]);
            }
        }
    }
}

} // verus!
