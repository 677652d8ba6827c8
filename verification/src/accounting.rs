//! Bookkeeping of a funded paper account for replayed bars.
//!
//! A paper account prices the strategy's decisions at the close of each
//! bar. The money arithmetic (notional, fees, P/L) is binary64 arithmetic
//! done by the caller; this module decides the transitions (exit first,
//! then enter or skip), keeps the open leg and the closed trades, numbers
//! the trades, dates them in UTC, and rolls them up by calendar day.

use std::time::SystemTime;

use vstd::prelude::*;

use crate::calendar::{
    civil_from_days, is_date_of_day, iso_date, iso_date_string, lemma_date_of_day_unique,
    lemma_date_order, lemma_four_digit_year, lemma_iso_date_order,
};
use crate::double::Double;
use crate::strategy::Signal;
use crate::text::{
    lemma_text_less_irreflexive, lemma_text_less_total, lemma_text_less_transitive, str_equal,
    str_less, text_less,
};
use crate::timestamp::{clamped_secs, epoch_offset, epoch_secs};

verus! {

/// One closed paper trade with its realized results (money fields net of
/// fees where labelled).
#[derive(Debug, Clone, PartialEq)]
pub struct ClosedTrade {
    /// 1-based index in exit order.
    pub index: usize,
    /// Whether the position was long (vs short) while open.
    pub side_is_long: bool,
    /// 0-based bar index of the entry bar (the signal's bar).
    pub entry_bar_index: usize,
    /// Close price the entry executed at.
    pub entry_price: Double,
    /// Entry bar Unix seconds.
    pub entry_ts_secs: i64,
    /// UTC calendar date (`YYYY-MM-DD`) of the entry day.
    pub entry_day: String,
    /// 0-based bar index of the exit bar.
    pub exit_bar_index: usize,
    /// Close price the exit executed at.
    pub exit_price: Double,
    /// Exit bar Unix seconds.
    pub exit_ts_secs: i64,
    /// UTC calendar date (`YYYY-MM-DD`) of the exit day.
    pub exit_day: String,
    /// `quantity * entry_price`, capital committed at entry.
    pub investment: Double,
    /// Entry and exit fees paid for this trade.
    pub fees_paid: Double,
    /// P/L ignoring fees.
    pub gross_pl: Double,
    /// Realized P/L net of `fees_paid`; this is what rolls up into totals.
    pub net_pl: Double,
}

/// Realized activity for one UTC calendar day (only days that saw an entry
/// or exit appear).
#[derive(Debug, Clone, PartialEq)]
pub struct DayTotal {
    /// `YYYY-MM-DD` in UTC.
    pub day: String,
    /// Trades entered during the day.
    pub entries: usize,
    /// Trades exited during the day.
    pub exits: usize,
    /// Sum of net P/L over trades that exited during the day.
    pub net_realized_pl: Double,
}

/// Session-wide roll-up across a whole replay run.
#[derive(Debug, Clone, PartialEq)]
pub struct SessionTotals {
    /// Starting funds before any trade.
    pub starting_balance: Double,
    /// Funds free after the last bar.
    pub final_available: Double,
    /// Equity including a mark of any position open at the final close.
    pub final_equity: Double,
    /// Fees paid on every entry and exit leg, an open position's entry
    /// included.
    pub total_fees_paid: Double,
    /// Sum of net P/L over all closed trades.
    pub total_net_pl: Double,
}

/// Account funds right after a bar is priced.
#[derive(Debug, Clone, Copy, PartialEq)]
pub struct BarState {
    /// Funds currently free (open-position capital/collateral is not free).
    pub available: Double,
    /// `available` plus the open position's mark at the bar's close.
    pub equity: Double,
}

/// The complete result of pricing one strategy signal for the account.
#[derive(Debug, Clone)]
pub struct BarOutcome {
    /// Funds/equity after this bar (equity marked at its close).
    pub state: BarState,
    /// Position actually held afterwards; differs from the raw strategy
    /// signal only when an unfunded entry was skipped.
    pub effective_signal: Signal,
    /// True if this bar's desired entry was skipped for lack of funds.
    pub entry_skipped: bool,
}

/// Side of an open position.
#[derive(Debug, Clone, Copy, PartialEq, Eq, Structural)]
pub enum Side {
    Long,
    Short,
}

/// The signal a held position (or none) stands for.
pub open spec fn signal_of(open: Option<Side>) -> Signal {
    match open {
        None => Signal::Flat,
        Some(Side::Long) => Signal::Long,
        Some(Side::Short) => Signal::Short,
    }
}

/// The side a signal asks to hold, if any.
pub open spec fn side_for(s: Signal) -> Option<Side> {
    match s {
        Signal::Flat => None,
        Signal::Long => Some(Side::Long),
        Signal::Short => Some(Side::Short),
    }
}

/// UTC day number (days since 1970-01-01) of Unix seconds; instants before
/// the epoch count as day 0.
pub open spec fn utc_day_number(ts_secs: i64) -> int {
    if ts_secs < 0 {
        0
    } else {
        ts_secs / 86400
    }
}

/// The text `utc_day` gives: the ISO date of the UTC day of `ts_secs`.
pub open spec fn is_utc_day_text(ts_secs: i64, s: Seq<char>) -> bool {
    exists|y: nat, m: nat, d: nat|
        is_date_of_day(utc_day_number(ts_secs), y as int, m as int, d as int) && s == #[trigger] iso_date(
            y,
            m,
            d,
        )
}

/// UTC calendar date (`YYYY-MM-DD`) for Unix seconds, free of any
/// local-timezone effect. Seconds below the epoch clamp to day 0.
pub fn utc_day(ts_secs: i64) -> (s: String)
    ensures
        is_utc_day_text(ts_secs, s@),
{
    let secs: i64 = if ts_secs < 0 {
        0
    } else {
        ts_secs
    };
    let days: i64 = secs / 86400;
    let (y, m, d) = civil_from_days(days);
    let s = iso_date_string(y as u64, m as u64, d as u64);
    assert(is_date_of_day(utc_day_number(ts_secs), y as nat as int, m as nat as int, d as nat as int));
    s
}

/// Unix seconds of a bar timestamp; pre-epoch instants clamp to 0.
pub fn unix_secs(ts: SystemTime) -> (r: i64)
    ensures
        r == clamped_secs(epoch_offset(ts)),
        r >= 0,
{
    epoch_secs(&ts)
}

/// The open leg of the paper account.
#[derive(Debug, Clone)]
pub struct OpenLeg {
    /// Side held.
    pub side: Side,
    /// Close price the entry executed at.
    pub entry_price: Double,
    /// Capital committed (or collateral reserved) at entry.
    pub entry_notional: Double,
    /// Fee paid at entry.
    pub entry_fee: Double,
    /// 0-based bar index of the entry bar.
    pub entry_bar_index: usize,
    /// Entry bar Unix seconds.
    pub entry_ts_secs: i64,
    /// UTC date of the entry.
    pub entry_day: String,
}

/// The positions of a paper account: the open leg, if any, and the trades
/// closed so far in exit order.
#[derive(Debug)]
pub struct TradeBook {
    open: Option<OpenLeg>,
    closed: Vec<ClosedTrade>,
}

/// Trades are numbered 1, 2, ... in exit order.
pub open spec fn numbered(trades: Seq<ClosedTrade>) -> bool {
    forall|i: int| 0 <= i < trades.len() ==> #[trigger] trades[i].index == i + 1
}

/// Every trade carries the UTC dates of its entry and exit instants.
pub open spec fn dated(trades: Seq<ClosedTrade>) -> bool {
    forall|i: int|
        0 <= i < trades.len() ==> is_utc_day_text(#[trigger] trades[i].entry_ts_secs, trades[i].entry_day@)
            && is_utc_day_text(trades[i].exit_ts_secs, trades[i].exit_day@)
}

impl TradeBook {
    /// The book's invariant: trades numbered in exit order and dated, and an
    /// open leg dated.
    #[verifier::type_invariant]
    closed spec fn wf(&self) -> bool {
        &&& numbered(self.closed@)
        &&& dated(self.closed@)
        &&& self.closed@.len() < usize::MAX
        &&& self.open matches Some(leg) ==> is_utc_day_text(leg.entry_ts_secs, leg.entry_day@)
    }

    /// The side held, for specifications.
    pub closed spec fn held(&self) -> Option<Side> {
        match self.open {
            Some(leg) => Some(leg.side),
            None => None,
        }
    }

    /// The open leg, for specifications.
    pub closed spec fn leg(&self) -> Option<OpenLeg> {
        self.open
    }

    /// The closed trades, for specifications.
    pub closed spec fn trades(&self) -> Seq<ClosedTrade> {
        self.closed@
    }

    /// A book with nothing open and nothing closed.
    pub fn new() -> (b: Self)
        ensures
            b.held() is None,
            b.trades() == Seq::<ClosedTrade>::empty(),
    {
        TradeBook { open: None, closed: Vec::new() }
    }

    /// Whether a position is currently open.
    pub fn is_open(&self) -> (b: bool)
        ensures
            b == self.held() is Some,
    {
        self.open.is_some()
    }

    /// The open leg, if any.
    pub fn open_leg(&self) -> (l: &Option<OpenLeg>)
        ensures
            *l == self.leg(),
            self.held() == match *l {
                Some(leg) => Some(leg.side),
                None => None,
            },
    {
        &self.open
    }

    /// The signal the held position stands for (`Flat` when nothing is open).
    pub fn held_signal(&self) -> (s: Signal)
        ensures
            s == signal_of(self.held()),
    {
        match &self.open {
            None => Signal::Flat,
            Some(leg) => match leg.side {
                Side::Long => Signal::Long,
                Side::Short => Signal::Short,
            },
        }
    }

    /// Whether moving to `next` first exits the held position: a position is
    /// open and no longer matches the signal (a flat target or a reversal).
    pub fn must_exit(&self, next: Signal) -> (b: bool)
        ensures
            b == (self.held() is Some && signal_of(self.held()) != next),
    {
        self.is_open() && self.held_signal() != next
    }

    /// The side an entry would open for `next`: only when flat and the
    /// signal wants a position.
    pub fn entry_wanted(&self, next: Signal) -> (s: Option<Side>)
        ensures
            s == if self.held() is None { side_for(next) } else { None },
    {
        if self.is_open() {
            None
        } else {
            match next {
                Signal::Flat => None,
                Signal::Long => Some(Side::Long),
                Signal::Short => Some(Side::Short),
            }
        }
    }

    /// Opens a position at a bar's close: the leg records the side, the
    /// price, the committed notional and the entry fee, and dates the entry.
    pub fn enter(
        &mut self,
        side: Side,
        bar_index: usize,
        ts_secs: i64,
        price: Double,
        notional: Double,
        fee: Double,
    )
        requires
            old(self).held() is None,
        ensures
            final(self).held() == Some(side),
            final(self).trades() == old(self).trades(),
            final(self).leg() matches Some(leg) && leg.entry_price == price && leg.entry_notional
                == notional && leg.entry_fee == fee && leg.entry_bar_index == bar_index
                && leg.entry_ts_secs == ts_secs && is_utc_day_text(ts_secs, leg.entry_day@),
    {
        let day = utc_day(ts_secs);
        proof {
            use_type_invariant(&*self);
        }
        self.open = Some(
            OpenLeg {
                side,
                entry_price: price,
                entry_notional: notional,
                entry_fee: fee,
                entry_bar_index: bar_index,
                entry_ts_secs: ts_secs,
                entry_day: day,
            },
        );
    }

    /// Closes the open position at a bar's close, recording the trade with
    /// the next index, its entry from the leg, the committed notional as its
    /// investment, and the given results.
    pub fn close(
        &mut self,
        bar_index: usize,
        ts_secs: i64,
        price: Double,
        gross_pl: Double,
        fees_paid: Double,
        net_pl: Double,
    )
        requires
            old(self).held() is Some,
            old(self).trades().len() + 1 < usize::MAX,
        ensures
            final(self).held() is None,
            final(self).trades().len() == old(self).trades().len() + 1,
            final(self).trades().drop_last() == old(self).trades(),
            ({
                let t = final(self).trades().last();
                &&& old(self).leg() matches Some(leg) && t.side_is_long == (leg.side == Side::Long)
                    && t.entry_bar_index == leg.entry_bar_index && t.entry_price == leg.entry_price
                    && t.entry_ts_secs == leg.entry_ts_secs && t.entry_day@ == leg.entry_day@
                    && t.investment == leg.entry_notional
                &&& t.index == old(self).trades().len() + 1
                &&& t.exit_bar_index == bar_index
                &&& t.exit_price == price
                &&& t.exit_ts_secs == ts_secs
                &&& is_utc_day_text(ts_secs, t.exit_day@)
                &&& t.gross_pl == gross_pl
                &&& t.fees_paid == fees_paid
                &&& t.net_pl == net_pl
            }),
    {
        let mut book = TradeBook::new();
        std::mem::swap(&mut book, self);
        proof {
            use_type_invariant(&book);
        }
        let TradeBook { open, mut closed } = book;
        let leg = open.unwrap();
        let exit_day = utc_day(ts_secs);
        let t = ClosedTrade {
            index: closed.len() + 1,
            side_is_long: leg.side == Side::Long,
            entry_bar_index: leg.entry_bar_index,
            entry_price: leg.entry_price,
            entry_ts_secs: leg.entry_ts_secs,
            entry_day: leg.entry_day,
            exit_bar_index: bar_index,
            exit_price: price,
            exit_ts_secs: ts_secs,
            exit_day,
            investment: leg.entry_notional,
            fees_paid,
            gross_pl,
            net_pl,
        };
        closed.push(t);
        assert(closed@.drop_last() == old(self).closed@);
        *self = TradeBook { open: None, closed };
    }

    /// Closed trades in exit order.
    pub fn closed_trades(&self) -> (s: &[ClosedTrade])
        ensures
            s@ == self.trades(),
            numbered(s@),
            dated(s@),
            s@.len() < usize::MAX,
    {
        proof {
            use_type_invariant(self);
        }
        self.closed.as_slice()
    }
}

/// One row of the per-day roll-up, before its money is summed: the day,
/// the trades entered and exited on it, and the positions (in exit order)
/// of the trades that exited on it.
#[derive(Debug)]
pub struct DayRow {
    /// `YYYY-MM-DD` in UTC.
    pub day: String,
    /// Trades entered during the day.
    pub entries: usize,
    /// Trades exited during the day.
    pub exits: usize,
    /// Positions in the closed-trade list of the trades that exited during
    /// the day, ascending; their net P/L sums to the day's realized P/L.
    pub exit_trades: Vec<usize>,
}

/// Number of trades of `t` entered on day `d`.
pub open spec fn entries_on(t: Seq<ClosedTrade>, d: Seq<char>) -> nat
    decreases t.len(),
{
    if t.len() == 0 {
        0
    } else {
        entries_on(t.drop_last(), d) + if t.last().entry_day@ == d { 1nat } else { 0nat }
    }
}

/// Positions of the trades of `t` that exited on day `d`, ascending.
pub open spec fn exits_on(t: Seq<ClosedTrade>, d: Seq<char>) -> Seq<usize>
    decreases t.len(),
{
    if t.len() == 0 {
        Seq::empty()
    } else if t.last().exit_day@ == d {
        exits_on(t.drop_last(), d).push((t.len() - 1) as usize)
    } else {
        exits_on(t.drop_last(), d)
    }
}

/// Days of the rows, in row order.
pub open spec fn row_days(rows: Seq<DayRow>) -> Seq<Seq<char>> {
    rows.map_values(|r: DayRow| r.day@)
}

/// Rows are in strictly ascending day order (ISO dates sort
/// chronologically), so no day appears twice.
pub open spec fn rows_sorted(rows: Seq<DayRow>) -> bool {
    forall|i: int, j: int|
        0 <= i < j < rows.len() ==> text_less(#[trigger] rows[i].day@, #[trigger] rows[j].day@)
}

/// The per-day roll-up of `t`: one row per day that saw an entry or an
/// exit, ascending, with its entries, its exits and the positions of the
/// trades that exited that day.
pub open spec fn day_table_of(t: Seq<ClosedTrade>, rows: Seq<DayRow>) -> bool {
    &&& rows_sorted(rows)
    &&& forall|i: int|
        0 <= i < rows.len() ==> {
            &&& #[trigger] rows[i].entries == entries_on(t, rows[i].day@)
            &&& rows[i].exit_trades@ == exits_on(t, rows[i].day@)
            &&& rows[i].exits == exits_on(t, rows[i].day@).len()
            &&& rows[i].entries + rows[i].exits > 0
        }
    &&& forall|j: int|
        0 <= j < t.len() ==> row_days(rows).contains(#[trigger] t[j].entry_day@) && row_days(
            rows,
        ).contains(t[j].exit_day@)
}

proof fn lemma_entries_bound(t: Seq<ClosedTrade>, d: Seq<char>)
    ensures
        entries_on(t, d) <= t.len(),
    decreases t.len(),
{
    if t.len() > 0 {
        lemma_entries_bound(t.drop_last(), d);
    }
}

proof fn lemma_exits_shape(t: Seq<ClosedTrade>, d: Seq<char>)
    requires
        t.len() <= usize::MAX,
    ensures
        exits_on(t, d).len() <= t.len(),
        forall|i: int|
            0 <= i < exits_on(t, d).len() ==> (#[trigger] exits_on(t, d)[i] as int) < t.len() && t[exits_on(
                t,
                d,
            )[i] as int].exit_day@ == d,
        exits_ascending(exits_on(t, d)),
    decreases t.len(),
{
    if t.len() > 0 {
        let p = t.drop_last();
        lemma_exits_shape(p, d);
        let e = exits_on(p, d);
        assert forall|i: int| 0 <= i < e.len() implies t[e[i] as int] == p[e[i] as int] by {}
        if t.last().exit_day@ == d {
            let f = e.push((t.len() - 1) as usize);
            assert(exits_on(t, d) == f);
            assert forall|i: int, j: int| 0 <= i < j < f.len() implies #[trigger] f[i] < #[trigger] f[j] by {
                assert(f[i] == e[i]);
                if j < e.len() {
                    assert(f[j] == e[j]);
                    assert(e[i] < e[j]);
                } else {
                    assert((e[i] as int) < p.len());
                }
            }
            assert forall|i: int| 0 <= i < f.len() implies (#[trigger] f[i] as int) < t.len() && t[f[i] as int].exit_day@ == d by {
                if i < e.len() {
                    assert(f[i] == e[i]);
                }
            }
        }
    }
}

/// Positions listed in strictly ascending order.
pub open spec fn exits_ascending(e: Seq<usize>) -> bool {
    forall|i: int, j: int| 0 <= i < j < e.len() ==> #[trigger] e[i] < #[trigger] e[j]
}

/// Finds the row for `day`, inserting an empty one at its sorted place
/// when there is none.
fn row_for(rows: &mut Vec<DayRow>, day: &String) -> (idx: usize)
    requires
        rows_sorted(old(rows)@),
    ensures
        rows_sorted(final(rows)@),
        idx < final(rows)@.len(),
        final(rows)@[idx as int].day@ == day@,
        row_days(old(rows)@).contains(day@) ==> final(rows)@ == old(rows)@,
        !row_days(old(rows)@).contains(day@) ==> {
            &&& final(rows)@.len() == old(rows)@.len() + 1
            &&& final(rows)@[idx as int].entries == 0
            &&& final(rows)@[idx as int].exits == 0
            &&& final(rows)@[idx as int].exit_trades@ == Seq::<usize>::empty()
            &&& forall|i: int| 0 <= i < idx ==> #[trigger] final(rows)@[i] == old(rows)@[i]
            &&& forall|i: int|
                idx < i < final(rows)@.len() ==> #[trigger] final(rows)@[i] == old(rows)@[i - 1]
        },
{
    let n = rows.len();
    let mut i: usize = 0;
    while i < n && str_less(rows[i].day.as_str(), day.as_str())
        invariant
            n == rows@.len(),
            i <= n,
            rows_sorted(rows@),
            forall|j: int| 0 <= j < i ==> text_less(#[trigger] rows@[j].day@, day@),
        decreases n - i,
    {
        i = i + 1;
    }
    proof {
        assert forall|j: int| 0 <= j < i implies #[trigger] rows@[j].day@ != day@ by {
            lemma_text_less_irreflexive(day@);
        }
    }
    if i < n && str_equal(rows[i].day.as_str(), day.as_str()) {
        proof {
            assert(row_days(rows@)[i as int] == day@);
        }
        return i;
    }
    proof {
        // No row holds `day`: the rows before `i` are smaller, the rest larger.
        assert forall|j: int| i <= j < n implies text_less(day@, #[trigger] rows@[j].day@) by {
            lemma_text_less_total(rows@[i as int].day@, day@);
            if j > i {
                lemma_text_less_transitive(day@, rows@[i as int].day@, rows@[j].day@);
            }
        }
        assert(!row_days(rows@).contains(day@)) by {
            if row_days(rows@).contains(day@) {
                let k = choose|k: int| 0 <= k < row_days(rows@).len() && row_days(rows@)[k] == day@;
                assert(rows@[k].day@ == day@);
                if k >= i {
                    lemma_text_less_irreflexive(day@);
                }
            }
        }
    }
    let row = DayRow { day: day.clone(), entries: 0, exits: 0, exit_trades: Vec::new() };
    rows.insert(i, row);
    proof {
        assert forall|a: int, b: int| 0 <= a < b < rows@.len() implies text_less(
            #[trigger] rows@[a].day@,
            #[trigger] rows@[b].day@,
        ) by {
            if a < i && b > i {
                lemma_text_less_transitive(rows@[a].day@, day@, rows@[b].day@);
            }
        }
    }
    i
}

proof fn lemma_entries_step(t: Seq<ClosedTrade>, k: int, d: Seq<char>)
    requires
        0 <= k < t.len(),
    ensures
        entries_on(t.take(k + 1), d) == entries_on(t.take(k), d) + if t[k].entry_day@ == d {
            1nat
        } else {
            0nat
        },
{
    assert(t.take(k + 1).drop_last() =~= t.take(k));
}

proof fn lemma_exits_step(t: Seq<ClosedTrade>, k: int, d: Seq<char>)
    requires
        0 <= k < t.len(),
    ensures
        exits_on(t.take(k + 1), d) == if t[k].exit_day@ == d {
            exits_on(t.take(k), d).push(k as usize)
        } else {
            exits_on(t.take(k), d)
        },
{
    assert(t.take(k + 1).drop_last() =~= t.take(k));
}

proof fn lemma_entries_absent(s: Seq<ClosedTrade>, d: Seq<char>)
    requires
        forall|j: int| 0 <= j < s.len() ==> #[trigger] s[j].entry_day@ != d,
    ensures
        entries_on(s, d) == 0,
    decreases s.len(),
{
    if s.len() > 0 {
        let p = s.drop_last();
        assert forall|j: int| 0 <= j < p.len() implies #[trigger] p[j].entry_day@ != d by {
            assert(p[j] == s[j]);
        }
        lemma_entries_absent(p, d);
    }
}

proof fn lemma_exits_absent(s: Seq<ClosedTrade>, d: Seq<char>)
    requires
        forall|j: int| 0 <= j < s.len() ==> #[trigger] s[j].exit_day@ != d,
    ensures
        exits_on(s, d) == Seq::<usize>::empty(),
    decreases s.len(),
{
    if s.len() > 0 {
        let p = s.drop_last();
        assert forall|j: int| 0 <= j < p.len() implies #[trigger] p[j].exit_day@ != d by {
            assert(p[j] == s[j]);
        }
        lemma_exits_absent(p, d);
    }
}

/// Where a row of `mid` came from in `before`, after `row_for` looked `d` up.
proof fn lemma_row_origin(before: Seq<DayRow>, mid: Seq<DayRow>, idx: int, d: Seq<char>, i: int)
    requires
        rows_sorted(mid),
        0 <= idx < mid.len(),
        mid[idx].day@ == d,
        row_days(before).contains(d) ==> mid == before,
        !row_days(before).contains(d) ==> {
            &&& mid.len() == before.len() + 1
            &&& forall|q: int| 0 <= q < idx ==> #[trigger] mid[q] == before[q]
            &&& forall|q: int| idx < q < mid.len() ==> #[trigger] mid[q] == before[q - 1]
        },
        0 <= i < mid.len(),
        i != idx,
    ensures
        mid[i].day@ != d,
        row_days(before).contains(d) ==> mid[i] == before[i],
        !row_days(before).contains(d) ==> (if i < idx {
            mid[i] == before[i]
        } else {
            mid[i] == before[i - 1]
        }),
{
    if i < idx {
        assert(text_less(mid[i].day@, mid[idx].day@));
    } else {
        assert(text_less(mid[idx].day@, mid[i].day@));
    }
    lemma_text_less_irreflexive(d);
}

/// First pass of `day_table`: one row per entry day, in ascending day
/// order, counting the trades entered that day.
#[verifier::spinoff_prover]
fn entry_rows(trades: &[ClosedTrade]) -> (rows: Vec<DayRow>)
    ensures
        rows_sorted(rows@),
        forall|i: int|
            0 <= i < rows@.len() ==> {
                &&& #[trigger] rows@[i].entries == entries_on(trades@, rows@[i].day@)
                &&& rows@[i].exit_trades@ == exits_on(trades@.take(0), rows@[i].day@)
                &&& rows@[i].exits == rows@[i].exit_trades@.len()
                &&& rows@[i].entries + rows@[i].exits > 0
            },
        forall|j: int| 0 <= j < trades@.len() ==> row_days(rows@).contains(#[trigger] trades@[j].entry_day@),
{
    let n = trades.len();
    let ghost t = trades@;
    let mut rows: Vec<DayRow> = Vec::new();
    let mut k: usize = 0;
    while k < n
        invariant
            n == t.len(),
            t == trades@,
            k <= n,
            rows_sorted(rows@),
            forall|i: int|
                0 <= i < rows@.len() ==> {
                    &&& #[trigger] rows@[i].entries == entries_on(t.take(k as int), rows@[i].day@)
                    &&& rows@[i].exit_trades@ == Seq::<usize>::empty()
                    &&& rows@[i].exits == 0
                    &&& rows@[i].entries > 0
                },
            forall|j: int| 0 <= j < k ==> row_days(rows@).contains(#[trigger] t[j].entry_day@),
        decreases n - k,
    {
        let ghost before = rows@;
        let ghost d = t[k as int].entry_day@;
        let idx = row_for(&mut rows, &trades[k].entry_day);
        let ghost mid = rows@;
        proof {
            if !row_days(before).contains(d) {
                assert forall|j: int| 0 <= j < t.take(k as int).len() implies #[trigger] t.take(
                    k as int,
                )[j].entry_day@ != d by {
                    assert(t.take(k as int)[j] == t[j]);
                }
                lemma_entries_absent(t.take(k as int), d);
            } else {
                assert(mid[idx as int] == before[idx as int]);
            }
            lemma_entries_step(t, k as int, d);
            lemma_entries_bound(t.take(k as int), d);
        }
        let mut row = rows.remove(idx);
        row.entries = row.entries + 1;
        rows.insert(idx, row);
        proof {
            assert(rows@ =~= mid.update(idx as int, rows@[idx as int]));
            assert forall|i: int| 0 <= i < rows@.len() implies {
                &&& #[trigger] rows@[i].entries == entries_on(t.take(k + 1), rows@[i].day@)
                &&& rows@[i].exit_trades@ == Seq::<usize>::empty()
                &&& rows@[i].exits == 0
                &&& rows@[i].entries > 0
            } by {
                if i != idx {
                    lemma_row_origin(before, mid, idx as int, d, i);
                    let j = if row_days(before).contains(d) || i < idx {
                        i
                    } else {
                        i - 1
                    };
                    assert(mid[i] == before[j]);
                    assert(before[j].entries == entries_on(t.take(k as int), before[j].day@));
                    lemma_entries_step(t, k as int, mid[i].day@);
                    assert(rows@[i] == mid[i]);
                } else {
                    assert(mid[idx as int].entries == entries_on(t.take(k as int), d));
                }
            }
            assert forall|a: int, b: int| 0 <= a < b < rows@.len() implies text_less(
                #[trigger] rows@[a].day@,
                #[trigger] rows@[b].day@,
            ) by {
                assert(mid[a].day@ == rows@[a].day@);
                assert(mid[b].day@ == rows@[b].day@);
            }
            assert forall|j: int| 0 <= j < k + 1 implies row_days(rows@).contains(
                #[trigger] t[j].entry_day@,
            ) by {
                if j == k {
                    assert(row_days(rows@)[idx as int] == t[j].entry_day@);
                } else {
                    let q = choose|q: int|
                        0 <= q < row_days(before).len() && row_days(before)[q] == t[j].entry_day@;
                    let q2 = if row_days(before).contains(d) || q < idx {
                        q
                    } else {
                        q + 1
                    };
                    assert(row_days(rows@)[q2] == t[j].entry_day@);
                }
            }
        }
        k = k + 1;
    }
    proof {
        assert(t.take(n as int) =~= t);
        assert(t.take(0).len() == 0);
        assert forall|i: int| 0 <= i < rows@.len() implies {
            &&& #[trigger] rows@[i].entries == entries_on(t, rows@[i].day@)
            &&& rows@[i].exit_trades@ == exits_on(t.take(0), rows@[i].day@)
            &&& rows@[i].exits == rows@[i].exit_trades@.len()
            &&& rows@[i].entries + rows@[i].exits > 0
        } by {
            assert(rows@[i].entries == entries_on(t.take(n as int), rows@[i].day@));
        }
    }
    rows
}

/// The rows of the day table after the exits of the first `k` trades were
/// listed.
spec fn exits_listed(t: Seq<ClosedTrade>, rows: Seq<DayRow>, k: int) -> bool {
    &&& rows_sorted(rows)
    &&& forall|i: int|
        0 <= i < rows.len() ==> {
            &&& #[trigger] rows[i].entries == entries_on(t, rows[i].day@)
            &&& rows[i].exit_trades@ == exits_on(t.take(k), rows[i].day@)
            &&& rows[i].exits == rows[i].exit_trades@.len()
            &&& rows[i].entries + rows[i].exits > 0
        }
    &&& forall|j: int| 0 <= j < t.len() ==> row_days(rows).contains(#[trigger] t[j].entry_day@)
    &&& forall|j: int| 0 <= j < k ==> row_days(rows).contains(#[trigger] t[j].exit_day@)
}

/// Second pass of `day_table`: lists trade `k` under its exit day.
#[verifier::spinoff_prover]
fn record_exit(rows: &mut Vec<DayRow>, trades: &[ClosedTrade], k: usize)
    requires
        k < trades@.len(),
        exits_listed(trades@, old(rows)@, k as int),
    ensures
        exits_listed(trades@, final(rows)@, k + 1),
{
    let n = trades.len();
    let ghost t = trades@;
    let ghost before = rows@;
    let ghost d = t[k as int].exit_day@;
    let idx = row_for(rows, &trades[k].exit_day);
    let ghost mid = rows@;
    proof {
        if !row_days(before).contains(d) {
            assert forall|j: int| 0 <= j < t.take(k as int).len() implies #[trigger] t.take(
                k as int,
            )[j].exit_day@ != d by {
                assert(t.take(k as int)[j] == t[j]);
            }
            lemma_exits_absent(t.take(k as int), d);
            assert forall|j: int| 0 <= j < t.len() implies #[trigger] t[j].entry_day@ != d by {}
            lemma_entries_absent(t, d);
        } else {
            assert(mid[idx as int] == before[idx as int]);
        }
        lemma_exits_step(t, k as int, d);
        lemma_exits_shape(t.take(k as int), d);
    }
    let mut row = rows.remove(idx);
    row.exit_trades.push(k);
    row.exits = row.exits + 1;
    rows.insert(idx, row);
    proof {
        assert(rows@ =~= mid.update(idx as int, rows@[idx as int]));
        assert forall|i: int| 0 <= i < rows@.len() implies {
            &&& #[trigger] rows@[i].entries == entries_on(t, rows@[i].day@)
            &&& rows@[i].exit_trades@ == exits_on(t.take(k + 1), rows@[i].day@)
            &&& rows@[i].exits == rows@[i].exit_trades@.len()
            &&& rows@[i].entries + rows@[i].exits > 0
        } by {
            if i != idx {
                lemma_row_origin(before, mid, idx as int, d, i);
                let j = if row_days(before).contains(d) || i < idx {
                    i
                } else {
                    i - 1
                };
                assert(mid[i] == before[j]);
                assert(before[j].entries == entries_on(t, before[j].day@));
                lemma_exits_step(t, k as int, mid[i].day@);
                assert(rows@[i] == mid[i]);
            } else {
                assert(mid[idx as int].entries == entries_on(t, d));
                assert(mid[idx as int].exit_trades@ == exits_on(t.take(k as int), d));
            }
        }
        assert forall|a: int, b: int| 0 <= a < b < rows@.len() implies text_less(
            #[trigger] rows@[a].day@,
            #[trigger] rows@[b].day@,
        ) by {
            assert(mid[a].day@ == rows@[a].day@);
            assert(mid[b].day@ == rows@[b].day@);
        }
        assert forall|j: int| 0 <= j < n implies row_days(rows@).contains(
            #[trigger] t[j].entry_day@,
        ) by {
            let q = choose|q: int|
                0 <= q < row_days(before).len() && row_days(before)[q] == t[j].entry_day@;
            let q2 = if row_days(before).contains(d) || q < idx {
                q
            } else {
                q + 1
            };
            assert(row_days(rows@)[q2] == t[j].entry_day@);
        }
        assert forall|j: int| 0 <= j < k + 1 implies row_days(rows@).contains(
            #[trigger] t[j].exit_day@,
        ) by {
            if j == k {
                assert(row_days(rows@)[idx as int] == t[j].exit_day@);
            } else {
                let q = choose|q: int|
                    0 <= q < row_days(before).len() && row_days(before)[q] == t[j].exit_day@;
                let q2 = if row_days(before).contains(d) || q < idx {
                    q
                } else {
                    q + 1
                };
                assert(row_days(rows@)[q2] == t[j].exit_day@);
            }
        }
    }
}

/// Groups closed trades by UTC day: one row per day that saw an entry or an
/// exit, in ascending day order, counting the trades entered and exited
/// that day and listing the trades that exited it (their net P/L is the
/// day's realized P/L, summed in exit order).
#[verifier::spinoff_prover]
pub fn day_table(trades: &[ClosedTrade]) -> (rows: Vec<DayRow>)
    ensures
        day_table_of(trades@, rows@),
{
    let n = trades.len();
    let ghost t = trades@;
    let mut rows = entry_rows(trades);
    let mut k: usize = 0;
    while k < n
        invariant
            n == t.len(),
            t == trades@,
            k <= n,
            exits_listed(t, rows@, k as int),
        decreases n - k,
    {
        record_exit(&mut rows, trades, k);
        k = k + 1;
    }
    proof {
        assert(t.take(n as int) =~= t);
        assert forall|j: int| 0 <= j < t.len() implies row_days(rows@).contains(
            #[trigger] t[j].entry_day@,
        ) && row_days(rows@).contains(t[j].exit_day@) by {
            assert(row_days(rows@).contains(t[j].exit_day@));
        }
    }
    rows
}

proof fn lemma_exits_all(t: Seq<ClosedTrade>, d: Seq<char>)
    requires
        t.len() <= usize::MAX,
        forall|j: int| 0 <= j < t.len() ==> #[trigger] t[j].exit_day@ == d,
    ensures
        exits_on(t, d) == Seq::new(t.len(), |j: int| j as usize),
    decreases t.len(),
{
    if t.len() > 0 {
        let p = t.drop_last();
        assert forall|j: int| 0 <= j < p.len() implies #[trigger] p[j].exit_day@ == d by {
            assert(p[j] == t[j]);
        }
        lemma_exits_all(p, d);
        assert(exits_on(t, d) =~= Seq::new(t.len(), |j: int| j as usize));
    }
}

/// A trade is listed in a day's exits exactly when it exited that day.
pub proof fn lemma_exit_listed(t: Seq<ClosedTrade>, d: Seq<char>, k: int)
    requires
        t.len() <= usize::MAX,
        0 <= k < t.len(),
    ensures
        exits_on(t, d).contains(k as usize) <==> t[k].exit_day@ == d,
    decreases t.len(),
{
    let p = t.drop_last();
    if k < t.len() - 1 {
        lemma_exit_listed(p, d, k);
        lemma_exits_shape(p, d);
        assert(p[k] == t[k]);
        if t.last().exit_day@ == d {
            assert(exits_on(t, d) == exits_on(p, d).push((t.len() - 1) as usize));
            if exits_on(t, d).contains(k as usize) {
                let q = choose|q: int| 0 <= q < exits_on(t, d).len() && exits_on(t, d)[q] == k as usize;
                if q < exits_on(p, d).len() {
                    assert(exits_on(p, d)[q] == k as usize);
                }
            }
            if exits_on(p, d).contains(k as usize) {
                let q = choose|q: int| 0 <= q < exits_on(p, d).len() && exits_on(p, d)[q] == k as usize;
                assert(exits_on(t, d)[q] == k as usize);
            }
        }
    } else {
        lemma_exits_shape(p, d);
        if t.last().exit_day@ == d {
            assert(exits_on(t, d).last() == k as usize);
        } else {
            if exits_on(p, d).contains(k as usize) {
                let q = choose|q: int| 0 <= q < exits_on(p, d).len() && exits_on(p, d)[q] == k as usize;
                assert((exits_on(p, d)[q] as int) < p.len());
            }
        }
    }
}

/// When every closed trade exited on the same day `d`, the day table has a
/// row for `d` that lists every trade in exit order: the day's realized
/// P/L adds up the same values in the same order as the session total.
pub proof fn lemma_single_exit_day(t: Seq<ClosedTrade>, rows: Seq<DayRow>, d: Seq<char>)
    requires
        day_table_of(t, rows),
        0 < t.len() <= usize::MAX,
        forall|j: int| 0 <= j < t.len() ==> #[trigger] t[j].exit_day@ == d,
    ensures
        exists|i: int|
            0 <= i < rows.len() && #[trigger] rows[i].day@ == d && rows[i].exit_trades@ == Seq::new(
                t.len(),
                |j: int| j as usize,
            ),
{
    assert(t[0].exit_day@ == d);
    let e = t[0].entry_day@;
    assert(row_days(rows).contains(t[0].exit_day@));
    let i = choose|i: int| 0 <= i < row_days(rows).len() && row_days(rows)[i] == d;
    assert(rows[i].day@ == d);
    assert(rows[i].entries == entries_on(t, rows[i].day@));
    lemma_exits_all(t, d);
    assert(rows[i].exit_trades@ == Seq::new(t.len(), |j: int| j as usize));
}

/// UTC day texts sort in day order: for instants from the epoch to the end
/// of year 9999, the later instant's day text is never the earlier one, and
/// the two texts are equal exactly when the instants fall on the same UTC
/// day.
pub proof fn lemma_utc_day_order(a: i64, b: i64, ta: Seq<char>, tb: Seq<char>)
    requires
        0 <= a <= b < 253_402_300_800,
        is_utc_day_text(a, ta),
        is_utc_day_text(b, tb),
    ensures
        (ta == tb) == (a / 86400 == b / 86400),
        ta != tb ==> text_less(ta, tb),
{
    let (y1, m1, d1) = choose|y: nat, m: nat, d: nat|
        is_date_of_day(utc_day_number(a), y as int, m as int, d as int) && ta == #[trigger] iso_date(
            y,
            m,
            d,
        );
    let (y2, m2, d2) = choose|y: nat, m: nat, d: nat|
        is_date_of_day(utc_day_number(b), y as int, m as int, d as int) && tb == #[trigger] iso_date(
            y,
            m,
            d,
        );
    let n1 = utc_day_number(a);
    let n2 = utc_day_number(b);
    assert(n1 == a / 86400 && n2 == b / 86400);
    assert(n1 <= n2) by (nonlinear_arith)
        requires
            0 <= a <= b,
            n1 == a / 86400,
            n2 == b / 86400,
    ;
    if n1 == n2 {
        lemma_date_of_day_unique(n1, y1 as int, m1 as int, d1 as int, y2 as int, m2 as int, d2 as int);
    } else {
        lemma_date_order(n1, y1 as int, m1 as int, d1 as int, n2, y2 as int, m2 as int, d2 as int);
        lemma_four_digit_year(n2, y2 as int, m2 as int, d2 as int);
        lemma_iso_date_order(y1, m1, d1, y2, m2, d2);
        lemma_text_less_irreflexive(ta);
    }
}

/// A held position's signal is the signal whose entry opened it: the side
/// that signal asks for is the side held, and a signal asking for a side
/// is the held signal of that side.
pub proof fn lemma_held_signal_matches_side(side: Side, s: Signal)
    ensures
        side_for(signal_of(Some(side))) == Some(side),
        side_for(s) matches Some(h) ==> signal_of(Some(h)) == s,
        signal_of(side_for(s)) == s,
{
}

/// A book holding the side that `x` asks for stays put on `x` and exits on
/// every other signal (a flat target or a reversal): `must_exit(y)` holds
/// exactly for `y != x`.
pub proof fn lemma_exit_exactly_on_change(book: TradeBook, x: Signal, y: Signal)
    requires
        x != Signal::Flat,
        book.held() == side_for(x),
    ensures
        book.held() is Some,
        signal_of(book.held()) == x,
        (book.held() is Some && signal_of(book.held()) != y) <==> y != x,
{
}

} // verus!
