//! Raw price data: bars and the rolling window they form.

use std::time::SystemTime;

use vstd::prelude::*;
use vstd::std_specs::iter::IteratorSpec;

use crate::double::{finite_bits, scaled_value, Double};
use crate::error::Error;

verus! {

/// A single OHLCV bar. Every price and the volume are finite, and
/// `low <= high`; the fields are private so that no bar escapes this rule.
#[derive(Debug, Clone, Copy)]
pub struct Bar {
    timestamp: SystemTime,
    open: Double,
    high: Double,
    low: Double,
    close: Double,
    volume: Double,
}

/// The numeric value of a finite `Double` (scaled by `2^1074`).
pub open spec fn val(d: Double) -> int {
    scaled_value(d@)
}

/// The validity rule of bar values: all finite, `low <= high`.
pub open spec fn bar_values_ok(
    open: Double,
    high: Double,
    low: Double,
    close: Double,
    volume: Double,
) -> bool {
    &&& finite_bits(open@)
    &&& finite_bits(high@)
    &&& finite_bits(low@)
    &&& finite_bits(close@)
    &&& finite_bits(volume@)
    &&& val(low) <= val(high)
}

/// All five values of a prospective bar are finite.
pub open spec fn all_finite(
    open: Double,
    high: Double,
    low: Double,
    close: Double,
    volume: Double,
) -> bool {
    &&& finite_bits(open@)
    &&& finite_bits(high@)
    &&& finite_bits(low@)
    &&& finite_bits(close@)
    &&& finite_bits(volume@)
}

impl Bar {
    #[verifier::type_invariant]
    closed spec fn inv(self) -> bool {
        bar_values_ok(self.open, self.high, self.low, self.close, self.volume)
    }

    /// Opening price, for specifications.
    pub closed spec fn open_price(self) -> Double {
        self.open
    }

    /// Highest price, for specifications.
    pub closed spec fn high_price(self) -> Double {
        self.high
    }

    /// Lowest price, for specifications.
    pub closed spec fn low_price(self) -> Double {
        self.low
    }

    /// Closing price, for specifications.
    pub closed spec fn close_price(self) -> Double {
        self.close
    }

    /// Traded quantity, for specifications.
    pub closed spec fn traded_volume(self) -> Double {
        self.volume
    }

    /// Start of the bar's window, for specifications.
    pub closed spec fn start(self) -> SystemTime {
        self.timestamp
    }

    /// Creates a bar. Non-finite values are rejected with
    /// `Error::MarketData`; an inverted high/low pair is swapped so that
    /// `low <= high`.
    pub fn new(
        timestamp: SystemTime,
        open: Double,
        high: Double,
        low: Double,
        close: Double,
        volume: Double,
    ) -> (r: Result<Bar, Error>)
        ensures
            r is Err <==> !all_finite(open, high, low, close, volume),
            r matches Err(e) ==> e matches Error::MarketData(m) && m@
                == "bar values must be finite numbers"@,
            r matches Ok(b) ==> {
                &&& b.start() == timestamp
                &&& b.open_price() == open
                &&& b.close_price() == close
                &&& b.traded_volume() == volume
                &&& if val(high) < val(low) {
                    b.high_price() == low && b.low_price() == high
                } else {
                    b.high_price() == high && b.low_price() == low
                }
            },
    {
        if !(open.is_finite() && high.is_finite() && low.is_finite() && close.is_finite()
            && volume.is_finite()) {
            return Err(Error::MarketData(String::from_str("bar values must be finite numbers")));
        }
        let (hi, lo) = if high.lt(&low) {
            (low, high)
        } else {
            (high, low)
        };
        Ok(Bar { timestamp, open, high: hi, low: lo, close, volume })
    }

    /// Start of the bar's time window.
    pub fn timestamp(&self) -> (t: SystemTime)
        ensures
            t == self.start(),
    {
        self.timestamp
    }

    /// First traded price in the window.
    pub fn open(&self) -> (p: Double)
        ensures
            p == self.open_price(),
            finite_bits(p@),
    {
        proof {
            use_type_invariant(self);
        }
        self.open
    }

    /// Highest traded price in the window.
    pub fn high(&self) -> (p: Double)
        ensures
            p == self.high_price(),
            finite_bits(p@),
    {
        proof {
            use_type_invariant(self);
        }
        self.high
    }

    /// Lowest traded price in the window.
    pub fn low(&self) -> (p: Double)
        ensures
            p == self.low_price(),
            finite_bits(p@),
    {
        proof {
            use_type_invariant(self);
        }
        self.low
    }

    /// Last traded price in the window.
    pub fn close(&self) -> (p: Double)
        ensures
            p == self.close_price(),
            finite_bits(p@),
    {
        proof {
            use_type_invariant(self);
        }
        self.close
    }

    /// Quantity traded in the window.
    pub fn volume(&self) -> (p: Double)
        ensures
            p == self.traded_volume(),
            finite_bits(p@),
    {
        proof {
            use_type_invariant(self);
        }
        self.volume
    }

    /// `true` when the bar closed at or above its open.
    pub fn is_bullish(&self) -> (b: bool)
        ensures
            b == (val(self.close_price()) >= val(self.open_price())),
    {
        proof {
            use_type_invariant(self);
        }
        !self.close.lt(&self.open)
    }

    /// `true` when the bar closed at or below its open.
    pub fn is_bearish(&self) -> (b: bool)
        ensures
            b == (val(self.close_price()) <= val(self.open_price())),
    {
        proof {
            use_type_invariant(self);
        }
        !self.open.lt(&self.close)
    }
}

/// A rolling window of the most recent bars, oldest first, holding at most
/// `capacity` bars.
#[derive(Debug)]
pub struct BarSeries {
    bars: Vec<Bar>,
    capacity: usize,
}

impl Clone for BarSeries {
    fn clone(&self) -> (c: Self)
        ensures
            c@ == self@,
            c.cap() == self.cap(),
    {
        proof {
            use_type_invariant(self);
        }
        let bars = self.bars.clone();
        assert(bars@ =~= self.bars@);
        BarSeries { bars, capacity: self.capacity }
    }
}

/// The most recent `cap` bars of `pushed`, oldest first (all of them when
/// there are no more than `cap`).
pub open spec fn recent(pushed: Seq<Bar>, cap: nat) -> Seq<Bar> {
    if pushed.len() <= cap {
        pushed
    } else {
        pushed.subrange(pushed.len() - cap, pushed.len() as int)
    }
}

impl View for BarSeries {
    type V = Seq<Bar>;

    closed spec fn view(&self) -> Seq<Bar> {
        self.bars@
    }
}

impl BarSeries {
    #[verifier::type_invariant]
    closed spec fn inv(self) -> bool {
        1 <= self.capacity && self.bars@.len() <= self.capacity
    }

    /// The most bars the series keeps, for specifications.
    pub closed spec fn cap(&self) -> nat {
        self.capacity as nat
    }

    /// Creates an empty series holding at most `capacity` bars; a capacity
    /// of 0 is treated as 1.
    pub fn new(capacity: usize) -> (s: Self)
        ensures
            s@ == Seq::<Bar>::empty(),
            s@ == recent(Seq::empty(), s.cap()),
            s.cap() == if capacity == 0 { 1 } else { capacity as nat },
    {
        BarSeries { bars: Vec::new(), capacity: if capacity == 0 { 1 } else { capacity } }
    }

    /// Appends a bar, evicting the oldest bar when at capacity.
    pub fn push(&mut self, bar: Bar)
        ensures
            final(self).cap() == old(self).cap(),
            final(self)@ == if old(self)@.len() == old(self).cap() {
                old(self)@.drop_first().push(bar)
            } else {
                old(self)@.push(bar)
            },
            forall|pushed: Seq<Bar>|
                old(self)@ == #[trigger] recent(pushed, old(self).cap()) ==> final(self)@ == recent(
                    pushed.push(bar),
                    old(self).cap(),
                ),
    {
        let mut taken = BarSeries { bars: Vec::new(), capacity: 1 };
        std::mem::swap(&mut taken, self);
        proof {
            use_type_invariant(&taken);
        }
        let BarSeries { mut bars, capacity } = taken;
        if bars.len() == capacity {
            bars.remove(0);
        }
        bars.push(bar);
        *self = BarSeries { bars, capacity };
        proof {
            assert forall|pushed: Seq<Bar>|
                old(self)@ == #[trigger] recent(pushed, old(self).cap()) implies self@ == recent(
                pushed.push(bar),
                old(self).cap(),
            ) by {
                let c = capacity as int;
                let h = pushed.push(bar);
                if pushed.len() >= c {
                    assert(h.subrange(h.len() - c, h.len() as int) =~= recent(
                        pushed,
                        c as nat,
                    ).drop_first().push(bar));
                } else {
                    assert(h =~= recent(pushed, c as nat).push(bar));
                }
            }
        }
    }

    /// Most recent bar, if any.
    pub fn last(&self) -> (b: Option<&Bar>)
        ensures
            b == if self@.len() == 0 { None } else { Some(&self@.last()) },
    {
        if self.bars.len() == 0 {
            None
        } else {
            Some(&self.bars[self.bars.len() - 1])
        }
    }

    /// Number of bars currently held.
    pub fn len(&self) -> (n: usize)
        ensures
            n == self@.len(),
    {
        self.bars.len()
    }

    /// `true` when no bars are held.
    pub fn is_empty(&self) -> (b: bool)
        ensures
            b == (self@.len() == 0),
    {
        self.bars.len() == 0
    }

    /// The bars, oldest first.
    pub fn bars(&self) -> (s: &[Bar])
        ensures
            s@ == self@,
    {
        self.bars.as_slice()
    }

    /// Iterates over the bars, oldest first.
    pub fn iter(&self) -> (it: std::slice::Iter<'_, Bar>)
        ensures
            it.remaining() == self@.as_ref(),
    {
        proof {
            broadcast use vstd::std_specs::slice::axiom_spec_slice_iter;
        }
        self.bars.as_slice().iter()
    }
}

} // verus!
