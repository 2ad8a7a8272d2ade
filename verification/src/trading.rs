//! Directions of trading signals and sides of market positions.
use vstd::prelude::*;

verus! {

/// The direction a trading signal calls for.
#[derive(Clone, Copy, Debug, PartialEq, Eq, Structural)]
pub enum SignalKind {
    /// Open a long position (buy).
    Long,
    /// Open a short position (sell).
    Short,
    /// Take no position.
    Hold,
}

impl SignalKind {
    /// The direction as a number: `1` long, `-1` short, `0` hold.
    pub open spec fn spec_direction(self) -> int {
        match self {
            SignalKind::Long => 1,
            SignalKind::Short => -1,
            SignalKind::Hold => 0,
        }
    }

    /// Whether the signal is long.
    pub fn is_long(&self) -> (r: bool)
        ensures
            r == (*self is Long),
    {
        match self {
            SignalKind::Long => true,
            _ => false,
        }
    }

    /// Whether the signal is short.
    pub fn is_short(&self) -> (r: bool)
        ensures
            r == (*self is Short),
    {
        match self {
            SignalKind::Short => true,
            _ => false,
        }
    }

    /// Whether the signal is hold.
    pub fn is_hold(&self) -> (r: bool)
        ensures
            r == (*self is Hold),
    {
        match self {
            SignalKind::Hold => true,
            _ => false,
        }
    }

    /// Signal direction as a number (-1, 0, 1).
    pub fn direction(&self) -> (r: i32)
        ensures
            r == self.spec_direction(),
    {
        match self {
            SignalKind::Long => 1,
            SignalKind::Short => -1,
            SignalKind::Hold => 0,
        }
    }
}

/// The direction number of a signal is one of -1, 0 and 1, and tells the signal
/// apart from the other two: positive exactly for long, negative exactly for
/// short, zero exactly for hold.
pub proof fn lemma_direction_identifies_kind(kind: SignalKind)
    ensures
        -1 <= kind.spec_direction() <= 1,
        (kind.spec_direction() > 0) <==> (kind is Long),
        (kind.spec_direction() < 0) <==> (kind is Short),
        (kind.spec_direction() == 0) <==> (kind is Hold),
{
}

/// The side of a market position.
#[derive(Clone, Copy, Debug, PartialEq, Eq, Structural)]
pub enum PositionSide {
    /// A long position.
    Long,
    /// A short position.
    Short,
    /// No position.
    Flat,
}

impl PositionSide {
    /// Whether a position is open.
    pub fn is_open(&self) -> (r: bool)
        ensures
            r == !(*self is Flat),
    {
        match self {
            PositionSide::Flat => false,
            _ => true,
        }
    }
}

} // verus!
