//! Order execution backends.

use vstd::prelude::*;

use crate::error::Error;

verus! {

/// The position a broker should be holding.
#[derive(Debug, Clone, Copy, PartialEq, Eq, Structural)]
pub enum Position {
    /// No open position.
    Flat,
    /// Long the instrument.
    Long,
    /// Short the instrument.
    Short,
}

impl Default for Position {
    fn default() -> (p: Self)
        ensures
            p == Position::Flat,
    {
        Position::Flat
    }
}

/// Anything that can carry out trading decisions.
pub trait Broker: Sized {
    /// Asking the broker in state `before` for `target` can leave it in
    /// state `after` with the result `r`. An implementation that does not
    /// say more promises nothing.
    open spec fn moves(before: Self, target: Position, after: Self, r: Result<(), Error>) -> bool {
        true
    }

    /// Moves the account to the desired position; an `Error::Execution`
    /// reports that the backend cannot reach `target`.
    fn set_position(&mut self, target: Position) -> (r: Result<(), Error>)
        ensures
            Self::moves(*old(self), target, *final(self), r),
    ;
}

/// In-memory broker that only tracks its intended position. It never places
/// orders and never fails.
#[derive(Debug)]
pub struct PaperBroker {
    position: Position,
}

impl PaperBroker {
    /// The position the broker holds, for specifications.
    pub closed spec fn held(&self) -> Position {
        self.position
    }

    /// Creates a flat paper broker.
    pub fn new() -> (b: Self)
        ensures
            b.held() == Position::Flat,
    {
        PaperBroker { position: Position::Flat }
    }

    /// The position currently held.
    pub fn position(&self) -> (p: Position)
        ensures
            p == self.held(),
    {
        self.position
    }

    /// Moves the paper account to `target`; it always succeeds.
    pub fn move_to(&mut self, target: Position)
        ensures
            final(self).held() == target,
    {
        self.position = target;
    }
}

impl Default for PaperBroker {
    fn default() -> (b: Self)
        ensures
            b.held() == Position::Flat,
    {
        PaperBroker::new()
    }
}

impl Broker for PaperBroker {
    /// The paper broker always reaches the target.
    open spec fn moves(before: Self, target: Position, after: Self, r: Result<(), Error>) -> bool {
        r is Ok && after.held() == target
    }

    fn set_position(&mut self, target: Position) -> (r: Result<(), Error>)
        ensures
            r is Ok,
            final(self).held() == target,
    {
        self.position = target;
        Ok(())
    }
}

} // verus!
