//! The trading loop: feeds bars to a strategy and acts on its signals.

use vstd::prelude::*;

use crate::double::Double;
use crate::error::Error;
use crate::execution::{Broker, PaperBroker, Position};
use crate::market::Bar;
use crate::strategy::{consecutive_signal, ConsecutiveCloses, Signal, Strategy};

verus! {

/// The position a signal asks for.
pub open spec fn position_for(s: Signal) -> Position {
    match s {
        Signal::Flat => Position::Flat,
        Signal::Long => Position::Long,
        Signal::Short => Position::Short,
    }
}

/// Maps a signal to the position it asks for.
pub fn target_position(s: Signal) -> (p: Position)
    ensures
        p == position_for(s),
{
    match s {
        Signal::Flat => Position::Flat,
        Signal::Long => Position::Long,
        Signal::Short => Position::Short,
    }
}

/// Drives one `Strategy` against one `Broker`. A position the broker failed
/// to reach is kept pending and retried before any further bar is fed to
/// the strategy, so strategy and broker never drift apart.
#[derive(Debug)]
pub struct Engine<S, B> {
    strategy: S,
    broker: B,
    last_signal: Signal,
    pending: Option<Position>,
}

impl<S: Strategy, B: Broker> Engine<S, B> {
    /// The strategy, for specifications.
    pub closed spec fn strategy_state(&self) -> S {
        self.strategy
    }

    /// The broker, for specifications.
    pub closed spec fn broker_state(&self) -> B {
        self.broker
    }

    /// The most recent signal executed on the broker, for specifications.
    pub closed spec fn last(&self) -> Signal {
        self.last_signal
    }

    /// The position awaiting retry, for specifications.
    pub closed spec fn pending(&self) -> Option<Position> {
        self.pending
    }

    /// Creates an engine around the given strategy and broker, with
    /// `last_signal = Flat` and nothing pending.
    pub fn new(strategy: S, broker: B) -> (e: Self)
        ensures
            e.strategy_state() == strategy,
            e.broker_state() == broker,
            e.last() == Signal::Flat,
            e.pending() is None,
    {
        Engine { strategy, broker, last_signal: Signal::Flat, pending: None }
    }

    /// The most recent signal successfully executed on the broker.
    pub fn last_signal(&self) -> (s: Signal)
        ensures
            s == self.last(),
    {
        self.last_signal
    }

    /// The position awaiting retry after a failed execution, if any.
    pub fn pending_position(&self) -> (p: Option<Position>)
        ensures
            p == self.pending(),
    {
        self.pending
    }

    /// Retries the pending position, if any: the broker is asked for it
    /// again; on success nothing is pending any more, on failure the same
    /// position stays pending. The strategy and the last signal are
    /// untouched.
    fn retry_pending(&mut self) -> (r: Result<(), Error>)
        ensures
            final(self).strategy_state() == old(self).strategy_state(),
            final(self).last() == old(self).last(),
            match old(self).pending() {
                None => r is Ok && final(self).broker_state() == old(self).broker_state()
                    && final(self).pending() is None,
                Some(p) => B::moves(old(self).broker_state(), p, final(self).broker_state(), r)
                    && if r is Ok {
                    final(self).pending() is None
                } else {
                    final(self).pending() == Some(p)
                },
            },
    {
        match self.pending {
            Some(p) => {
                let r = self.broker.set_position(p);
                if r.is_ok() {
                    self.pending = None;
                }
                r
            },
            None => Ok(()),
        }
    }

    /// Feeds one bar to the strategy and moves the broker to the position
    /// its signal asks for. Only called with nothing pending.
    fn feed(&mut self, bar: &Bar) -> (r: Result<Signal, Error>)
        requires
            old(self).pending() is None,
        ensures
            fed_outcome(
                old(self).strategy_state(),
                old(self).broker_state(),
                old(self).last(),
                *bar,
                *final(self),
                r,
            ),
    {
        let ghost s0 = self.strategy;
        let ghost b0 = self.broker;
        let fed = self.strategy.on_bar(bar);
        let signal = match fed {
            Ok(s) => s,
            Err(e) => {
                assert(S::feeds(s0, *bar, self.strategy_state(), fed));
                return Err(e);
            },
        };
        let target = target_position(signal);
        let moved = self.broker.set_position(target);
        match moved {
            Ok(()) => {
                self.last_signal = signal;
                proof {
                    assert(S::feeds(s0, *bar, self.strategy_state(), fed));
                    assert(B::moves(b0, position_for(signal), self.broker_state(), moved));
                }
                Ok(signal)
            },
            Err(e) => {
                self.pending = Some(target);
                proof {
                    assert(S::feeds(s0, *bar, self.strategy_state(), fed));
                    assert(B::moves(b0, position_for(signal), self.broker_state(), moved));
                }
                Err(e)
            },
        }
    }

    /// Processes a single bar: first retries a pending position (on failure
    /// the error is returned and the bar is not fed to the strategy), then
    /// asks the strategy and moves the broker to the position implied by
    /// the returned signal. On success the signal becomes the last signal;
    /// when the broker fails, its target becomes pending and the last
    /// signal stays.
    pub fn on_bar(&mut self, bar: &Bar) -> (r: Result<Signal, Error>)
        ensures
            engine_step(*old(self), *bar, *final(self), r),
    {
        match self.retry_pending() {
            Ok(()) => {},
            Err(e) => return Err(e),
        }
        self.feed(bar)
    }
}

/// Feeding `bar` with nothing pending, from strategy `s0`, broker `b0` and
/// last signal `last0`, can end in engine `e1` with result `r`: the
/// strategy is fed; its error is returned as is; its signal's position is
/// asked of the broker, and becomes the last signal when reached or stays
/// pending when not.
pub open spec fn fed_outcome<S: Strategy, B: Broker>(
    s0: S,
    b0: B,
    last0: Signal,
    bar: Bar,
    e1: Engine<S, B>,
    r: Result<Signal, Error>,
) -> bool {
    exists|rs: Result<Signal, Error>|
        #[trigger] S::feeds(s0, bar, e1.strategy_state(), rs) && match rs {
            Err(e) => {
                &&& r == Err::<Signal, Error>(e)
                &&& e1.broker_state() == b0
                &&& e1.last() == last0
                &&& e1.pending() is None
            },
            Ok(sig) => {
                ||| {
                    &&& r == Ok::<Signal, Error>(sig)
                    &&& exists|rb: Result<(), Error>|
                        rb is Ok && #[trigger] B::moves(b0, position_for(sig), e1.broker_state(), rb)
                    &&& e1.last() == sig
                    &&& e1.pending() is None
                }
                ||| {
                    &&& r matches Err(e) && B::moves(
                        b0,
                        position_for(sig),
                        e1.broker_state(),
                        Err(e),
                    )
                    &&& e1.last() == last0
                    &&& e1.pending() == Some(position_for(sig))
                }
            },
        }
}

/// One `on_bar` call from `e0` can end in `e1` with result `r`: a pending
/// position is retried first; while the retry fails the bar is not fed and
/// the error is returned; otherwise the bar is fed as `fed_outcome` says.
pub open spec fn engine_step<S: Strategy, B: Broker>(
    e0: Engine<S, B>,
    bar: Bar,
    e1: Engine<S, B>,
    r: Result<Signal, Error>,
) -> bool {
    match e0.pending() {
        None => fed_outcome(e0.strategy_state(), e0.broker_state(), e0.last(), bar, e1, r),
        Some(p) => {
            ||| {
                &&& r matches Err(e) && B::moves(e0.broker_state(), p, e1.broker_state(), Err(e))
                &&& e1.strategy_state() == e0.strategy_state()
                &&& e1.last() == e0.last()
                &&& e1.pending() == Some(p)
            }
            ||| exists|b: B, rb: Result<(), Error>|
                rb is Ok && #[trigger] B::moves(e0.broker_state(), p, b, rb) && fed_outcome(
                    e0.strategy_state(),
                    b,
                    e0.last(),
                    bar,
                    e1,
                    r,
                )
        },
    }
}

/// No drift: while the broker cannot reach the pending position, a bar
/// handed to the engine is not fed to the strategy; the error is returned
/// and the same position stays pending.
pub proof fn lemma_no_drift<S: Strategy, B: Broker>(
    e0: Engine<S, B>,
    bar: Bar,
    e1: Engine<S, B>,
    r: Result<Signal, Error>,
)
    requires
        engine_step(e0, bar, e1, r),
        e0.pending() is Some,
        forall|b: B, rb: Result<(), Error>|
            #[trigger] B::moves(e0.broker_state(), e0.pending()->0, b, rb) ==> rb is Err,
    ensures
        r is Err,
        e1.strategy_state() == e0.strategy_state(),
        e1.last() == e0.last(),
        e1.pending() == e0.pending(),
{
}

/// The last signal is what was executed: after a successful step it is the
/// returned signal and nothing is pending; after a failed one it has not
/// moved.
pub proof fn lemma_last_signal_is_executed<S: Strategy, B: Broker>(
    e0: Engine<S, B>,
    bar: Bar,
    e1: Engine<S, B>,
    r: Result<Signal, Error>,
)
    requires
        engine_step(e0, bar, e1, r),
    ensures
        r matches Ok(s) ==> e1.last() == s && e1.pending() is None,
        r is Err ==> e1.last() == e0.last(),
{
}

/// On a paper broker nothing ever stays pending, so every bar handed to an
/// engine running the consecutive-closes strategy is fed to it exactly
/// once: the signal is the rule over the closes fed so far plus this bar's
/// close, and the broker and the last signal follow it.
pub proof fn lemma_paper_engine_step(
    e0: Engine<ConsecutiveCloses, PaperBroker>,
    bar: Bar,
    e1: Engine<ConsecutiveCloses, PaperBroker>,
    r: Result<Signal, Error>,
    closes: Seq<Double>,
)
    requires
        engine_step(e0, bar, e1, r),
        e0.pending() is None,
        e0.strategy_state().fed(closes),
    ensures
        r == Ok::<Signal, Error>(
            consecutive_signal(
                closes.push(bar.close_price()),
                e0.strategy_state().threshold_value(),
            ),
        ),
        e1.strategy_state().fed(closes.push(bar.close_price())),
        e1.strategy_state().threshold_value() == e0.strategy_state().threshold_value(),
        e1.broker_state().held() == position_for(r->Ok_0),
        e1.last() == r->Ok_0,
        e1.pending() is None,
{
    assert(e0.strategy_state().fed(closes));
}

} // verus!
