//! Turning raw price movement into trading signals.

use vstd::prelude::*;

use crate::double::{finite_bits, Double};
use crate::error::Error;
use crate::market::{val, Bar};

verus! {

/// Direction of a trade suggested by a strategy.
#[derive(Debug, Clone, Copy, PartialEq, Eq, Structural)]
pub enum Signal {
    /// No position should be held.
    Flat,
    /// A long position should be held.
    Long,
    /// A short position should be held.
    Short,
}

/// A signal's name, as its `Debug` rendering shows it.
pub open spec fn signal_label(s: Signal) -> Seq<char> {
    match s {
        Signal::Flat => "Flat"@,
        Signal::Long => "Long"@,
        Signal::Short => "Short"@,
    }
}

impl Signal {
    /// The signal's name, as its `Debug` rendering shows it.
    pub fn label(&self) -> (s: &'static str)
        ensures
            s@ == signal_label(*self),
    {
        match self {
            Signal::Flat => "Flat",
            Signal::Long => "Long",
            Signal::Short => "Short",
        }
    }
}

/// A price-action strategy: consumes bars, emits signals. Implementations
/// report a bar they cannot process with `Error::Strategy`.
pub trait Strategy: Sized {
    /// Feeding `bar` to the strategy in state `before` can leave it in state
    /// `after` with the result `r`. An implementation that does not say
    /// more promises nothing.
    open spec fn feeds(before: Self, bar: Bar, after: Self, r: Result<Signal, Error>) -> bool {
        true
    }

    /// Human-readable name used in logs and metrics.
    fn name(&self) -> &'static str;

    /// Feeds the next bar and returns the strategy's current signal.
    fn on_bar(&mut self, bar: &Bar) -> (r: Result<Signal, Error>)
        ensures
            Self::feeds(*old(self), *bar, *final(self), r),
    ;
}

/// Number of trailing strictly higher closes: how many of the last steps
/// of `closes` went up, counted back from the newest close.
pub open spec fn up_streak(closes: Seq<Double>) -> nat
    decreases closes.len(),
{
    if closes.len() < 2 {
        0
    } else if val(closes.last()) > val(closes[closes.len() - 2]) {
        1 + up_streak(closes.drop_last())
    } else {
        0
    }
}

/// Number of trailing strictly lower closes.
pub open spec fn down_streak(closes: Seq<Double>) -> nat
    decreases closes.len(),
{
    if closes.len() < 2 {
        0
    } else if val(closes.last()) < val(closes[closes.len() - 2]) {
        1 + down_streak(closes.drop_last())
    } else {
        0
    }
}

/// The consecutive-closes rule: long after `threshold` consecutive higher
/// closes, short after `threshold` consecutive lower closes, else flat.
pub open spec fn consecutive_signal(closes: Seq<Double>, threshold: int) -> Signal {
    if up_streak(closes) >= threshold {
        Signal::Long
    } else if down_streak(closes) >= threshold {
        Signal::Short
    } else {
        Signal::Flat
    }
}

/// The threshold a requested threshold becomes: at least 1, at most
/// `i32::MAX`.
pub open spec fn effective_threshold(requested: u32) -> int {
    if requested == 0 {
        1
    } else if requested > i32::MAX {
        i32::MAX as int
    } else {
        requested as int
    }
}

/// The signed run counter that summarises a history: positive for a
/// rising streak, negative for a falling one, saturating at the `i32`
/// bounds.
pub open spec fn run_of(closes: Seq<Double>) -> int {
    if up_streak(closes) > 0 {
        if up_streak(closes) > i32::MAX { i32::MAX as int } else { up_streak(closes) as int }
    } else if down_streak(closes) > 0 {
        if down_streak(closes) > 0x8000_0000 { i32::MIN as int } else { -down_streak(closes) }
    } else {
        0
    }
}

/// Example strategy: go long after `threshold` consecutive higher closes and
/// short after `threshold` consecutive lower closes; otherwise flat.
#[derive(Debug)]
pub struct ConsecutiveCloses {
    threshold: i32,
    run: i32,
    prev_close: Option<Double>,
}

impl ConsecutiveCloses {
    #[verifier::type_invariant]
    closed spec fn inv(self) -> bool {
        &&& 1 <= self.threshold
        &&& self.prev_close matches Some(p) ==> finite_bits(p@)
    }

    /// The threshold in force, for specifications.
    pub closed spec fn threshold_value(&self) -> int {
        self.threshold as int
    }

    /// The strategy has been fed exactly the closes `closes` (oldest first)
    /// since it was created.
    pub closed spec fn fed(&self, closes: Seq<Double>) -> bool {
        &&& (forall|i: int| 0 <= i < closes.len() ==> finite_bits(#[trigger] closes[i]@))
        &&& self.prev_close == if closes.len() == 0 {
            None
        } else {
            Some(closes.last())
        }
        &&& self.run == run_of(closes)
    }

    /// Creates the strategy. A `threshold` below 1 is treated as 1 (and one
    /// above `i32::MAX` as `i32::MAX`).
    pub fn new(threshold: u32) -> (s: Self)
        ensures
            s.fed(Seq::empty()),
            s.threshold_value() == effective_threshold(threshold),
    {
        let t: i32 = if threshold == 0 {
            1
        } else if threshold > 0x7fff_ffff {
            i32::MAX
        } else {
            threshold as i32
        };
        ConsecutiveCloses { threshold: t, run: 0, prev_close: None }
    }

    fn evaluate(&self) -> (s: Signal)
        requires
            1 <= self.threshold,
        ensures
            s == if self.run >= self.threshold {
                Signal::Long
            } else if self.run <= -self.threshold {
                Signal::Short
            } else {
                Signal::Flat
            },
    {
        if self.run >= self.threshold {
            Signal::Long
        } else if self.run <= -self.threshold {
            Signal::Short
        } else {
            Signal::Flat
        }
    }

    /// Feeds one close: the state advances by that close and the signal is
    /// the consecutive-closes rule over everything fed so far.
    pub fn on_close(&mut self, close: Double) -> (s: Signal)
        requires
            finite_bits(close@),
        ensures
            final(self).threshold_value() == old(self).threshold_value(),
            forall|closes: Seq<Double>|
                old(self).fed(closes) ==> {
                    &&& final(self).fed(closes.push(close))
                    &&& s == consecutive_signal(
                        closes.push(close),
                        old(self).threshold_value(),
                    )
                },
    {
        proof {
            use_type_invariant(&*self);
        }
        let ghost t = self.threshold;
        let signal = match self.prev_close {
            Some(prev) => {
                if prev.lt(&close) {
                    self.run = if self.run > 0 {
                        if self.run == i32::MAX { i32::MAX } else { self.run + 1 }
                    } else {
                        1
                    };
                    self.evaluate()
                } else if close.lt(&prev) {
                    self.run = if self.run < 0 {
                        if self.run == i32::MIN { i32::MIN } else { self.run - 1 }
                    } else {
                        -1
                    };
                    self.evaluate()
                } else {
                    self.run = 0;
                    Signal::Flat
                }
            },
            None => {
                self.run = 0;
                Signal::Flat
            },
        };
        self.prev_close = Some(close);
        proof {
            assert forall|closes: Seq<Double>| old(self).fed(closes) implies {
                &&& self.fed(closes.push(close))
                &&& signal == consecutive_signal(closes.push(close), t as int)
            } by {
                let h = closes.push(close);
                assert(h.drop_last() =~= closes);
                assert(forall|i: int| 0 <= i < h.len() ==> finite_bits(#[trigger] h[i]@)) by {
                    assert forall|i: int| 0 <= i < h.len() implies finite_bits(#[trigger] h[i]@) by {
                        if i < closes.len() {
                            assert(h[i] == closes[i]);
                        }
                    }
                }
                assert(h.last() == close);
                lemma_streak_bounds(closes);
                if closes.len() > 0 {
                    assert(h[h.len() - 2] == closes.last());
                    let prev = closes.last();
                    if val(close) > val(prev) {
                        assert(up_streak(h) == 1 + up_streak(closes));
                        assert(down_streak(h) == 0);
                    } else if val(close) < val(prev) {
                        assert(down_streak(h) == 1 + down_streak(closes));
                        assert(up_streak(h) == 0);
                    } else {
                        assert(up_streak(h) == 0);
                        assert(down_streak(h) == 0);
                    }
                } else {
                    assert(up_streak(h) == 0);
                    assert(down_streak(h) == 0);
                }
            }
        }
        signal
    }
}

impl Strategy for ConsecutiveCloses {
    /// The threshold stays, the closes fed so far gain the bar's close, and
    /// the signal is the consecutive-closes rule over them.
    open spec fn feeds(before: Self, bar: Bar, after: Self, r: Result<Signal, Error>) -> bool {
        &&& after.threshold_value() == before.threshold_value()
        &&& forall|closes: Seq<Double>|
            #[trigger] before.fed(closes) ==> {
                &&& after.fed(closes.push(bar.close_price()))
                &&& r == Ok::<Signal, Error>(
                    consecutive_signal(closes.push(bar.close_price()), before.threshold_value()),
                )
            }
    }

    fn name(&self) -> (n: &'static str)
        ensures
            n@ == "consecutive-closes"@,
    {
        "consecutive-closes"
    }

    fn on_bar(&mut self, bar: &Bar) -> (r: Result<Signal, Error>)
        ensures
            final(self).threshold_value() == old(self).threshold_value(),
            forall|closes: Seq<Double>|
                old(self).fed(closes) ==> {
                    &&& final(self).fed(closes.push(bar.close_price()))
                    &&& r == Ok::<Signal, Error>(
                        consecutive_signal(
                            closes.push(bar.close_price()),
                            old(self).threshold_value(),
                        ),
                    )
                },
    {
        let close = bar.close();
        Ok(self.on_close(close))
    }
}

/// Close `k` is strictly higher than close `k - 1`.
pub open spec fn rises(closes: Seq<Double>, k: int) -> bool {
    val(closes[k]) > val(closes[k - 1])
}

/// Close `k` is strictly lower than close `k - 1`.
pub open spec fn falls(closes: Seq<Double>, k: int) -> bool {
    val(closes[k]) < val(closes[k - 1])
}

/// A streak never exceeds the number of steps in the history.
pub proof fn lemma_streak_bounds(closes: Seq<Double>)
    ensures
        up_streak(closes) <= if closes.len() == 0 { 0 } else { closes.len() - 1 },
        down_streak(closes) <= if closes.len() == 0 { 0 } else { closes.len() - 1 },
        up_streak(closes) == 0 || down_streak(closes) == 0,
    decreases closes.len(),
{
    if closes.len() >= 2 {
        lemma_streak_bounds(closes.drop_last());
    }
}

/// The rule in words: `up_streak(closes) >= n` exactly when each of the
/// last `n` closes was strictly higher than the one before it.
pub proof fn lemma_up_streak_means_rises(closes: Seq<Double>, n: nat)
    ensures
        (up_streak(closes) >= n) == ((n == 0 || n < closes.len()) && (forall|k: int|
            closes.len() - n <= k < closes.len() ==> #[trigger] rises(closes, k))),
    decreases closes.len(),
{
    lemma_streak_bounds(closes);
    if n == 0 {
    } else if closes.len() < 2 || n >= closes.len() {
    } else {
        let d = closes.drop_last();
        let last = closes.len() - 1;
        if rises(closes, last) {
            lemma_up_streak_means_rises(d, (n - 1) as nat);
            assert forall|k: int| closes.len() - n <= k < last implies #[trigger] rises(closes, k)
                == rises(d, k) by {
                assert(closes[k] == d[k]);
                assert(closes[k - 1] == d[k - 1]);
            }
            if up_streak(closes) >= n {
                assert forall|k: int| closes.len() - n <= k < closes.len() implies #[trigger] rises(
                    closes,
                    k,
                ) by {
                    if k < last {
                        assert(rises(d, k));
                    }
                }
            } else {
                if n < closes.len() && (forall|k: int|
                    closes.len() - n <= k < closes.len() ==> #[trigger] rises(closes, k)) {
                    assert forall|k: int| d.len() - (n - 1) <= k < d.len() implies #[trigger] rises(
                        d,
                        k,
                    ) by {
                        assert(rises(closes, k));
                    }
                }
            }
        } else {
            assert(!rises(closes, last));
        }
    }
}

/// The same rule for falling closes.
pub proof fn lemma_down_streak_means_falls(closes: Seq<Double>, n: nat)
    ensures
        (down_streak(closes) >= n) == ((n == 0 || n < closes.len()) && (forall|k: int|
            closes.len() - n <= k < closes.len() ==> #[trigger] falls(closes, k))),
    decreases closes.len(),
{
    lemma_streak_bounds(closes);
    if n == 0 {
    } else if closes.len() < 2 || n >= closes.len() {
    } else {
        let d = closes.drop_last();
        let last = closes.len() - 1;
        if falls(closes, last) {
            lemma_down_streak_means_falls(d, (n - 1) as nat);
            assert forall|k: int| closes.len() - n <= k < last implies #[trigger] falls(closes, k)
                == falls(d, k) by {
                assert(closes[k] == d[k]);
                assert(closes[k - 1] == d[k - 1]);
            }
            if down_streak(closes) >= n {
                assert forall|k: int| closes.len() - n <= k < closes.len() implies #[trigger] falls(
                    closes,
                    k,
                ) by {
                    if k < last {
                        assert(falls(d, k));
                    }
                }
            } else {
                if n < closes.len() && (forall|k: int|
                    closes.len() - n <= k < closes.len() ==> #[trigger] falls(closes, k)) {
                    assert forall|k: int| d.len() - (n - 1) <= k < d.len() implies #[trigger] falls(
                        d,
                        k,
                    ) by {
                        assert(falls(closes, k));
                    }
                }
            }
        } else {
            assert(!falls(closes, last));
        }
    }
}

/// An equal close interrupts any streak: after it the rule signals `Flat`,
/// whatever the threshold.
pub proof fn lemma_equal_close_is_flat(closes: Seq<Double>, threshold: int)
    requires
        closes.len() >= 2,
        val(closes.last()) == val(closes[closes.len() - 2]),
        threshold >= 1,
    ensures
        up_streak(closes) == 0,
        down_streak(closes) == 0,
        consecutive_signal(closes, threshold) == Signal::Flat,
{
}

} // verus!
