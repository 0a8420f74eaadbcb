//! The gains by which estimates are scaled.

use crate::float64::{Float64, Value};
use vstd::prelude::*;

verus! {

/// How many phases the gain cycle has.
pub const CYCLE_LEN: u8 = 8;

/// A factor on the estimated bandwidth. The factors are single-precision numbers.
#[derive(Clone, Copy, Debug, PartialEq, Eq, Structural)]
pub enum Gain {
    /// The gain used for the startup: 2.885, close to 2/ln(2)
    High,
    /// The inverse of the startup gain, to drain the queue that the startup has built
    Drain,
    /// Five quarters, to probe for more bandwidth
    Up,
    /// Three quarters, to drain what probing has queued
    Down,
    /// One, for cruising
    Unit,
    /// Two, the window gain once the startup is over
    Double,
}

impl Gain {
    /// The factor, as numerator and denominator.
    pub open spec fn fraction(self) -> (nat, nat) {
        match self {
            Gain::High => (12_100_567, 4_194_304),
            Gain::Drain => (2_907_663, 8_388_608),
            Gain::Up => (5, 4),
            Gain::Down => (3, 4),
            Gain::Unit => (1, 1),
            Gain::Double => (2, 1),
        }
    }

    /// The factor.
    pub open spec fn value(self) -> Value {
        Value::of_ratio(self.fraction().0, self.fraction().1)
    }

    /// The factor lies above one.
    pub open spec fn above_one(self) -> bool {
        self.fraction().0 > self.fraction().1
    }

    /// The factor lies below one.
    pub open spec fn below_one(self) -> bool {
        self.fraction().0 < self.fraction().1
    }

    /// The factor lies below `n`.
    pub open spec fn below(self, n: nat) -> bool {
        self.fraction().0 < n * self.fraction().1
    }

    pub fn factor(&self) -> (r: Float64)
        ensures
            r.value() == self.value(),
    {
        match self {
            Gain::High => Float64::ratio(12_100_567, 4_194_304),
            Gain::Drain => Float64::ratio(2_907_663, 8_388_608),
            Gain::Up => Float64::ratio(5, 4),
            Gain::Down => Float64::ratio(3, 4),
            Gain::Unit => Float64::ratio(1, 1),
            Gain::Double => Float64::ratio(2, 1),
        }
    }

    pub fn is_above_one(&self) -> (r: bool)
        ensures
            r == self.above_one(),
    {
        matches!(self, Gain::High | Gain::Up | Gain::Double)
    }

    pub fn is_below_one(&self) -> (r: bool)
        ensures
            r == self.below_one(),
    {
        matches!(self, Gain::Drain | Gain::Down)
    }

    pub fn is_below(&self, n: u64) -> (r: bool)
        ensures
            r == self.below(n as nat),
    {
        proof {
            let d = self.fraction().1;
            assert(self.below(n as nat) == (self.fraction().0 < n as nat * d));
            match self {
                Gain::High => assert(d == 4_194_304),
                Gain::Drain => assert(d == 8_388_608),
                Gain::Up => assert(d == 4),
                Gain::Down => assert(d == 4),
                Gain::Unit => assert(d == 1),
                Gain::Double => assert(d == 1),
            }
        }
        match self {
            Gain::High | Gain::Double => n > 2,
            Gain::Up | Gain::Unit => n > 1,
            Gain::Drain | Gain::Down => n > 0,
        }
    }

    /// The gain of a phase of the cycle: up, down, then cruising.
    pub open spec fn of_phase(phase: u8) -> Gain {
        if phase == 0 {
            Gain::Up
        } else if phase == 1 {
            Gain::Down
        } else {
            Gain::Unit
        }
    }

    pub fn in_phase(phase: u8) -> (r: Gain)
        ensures
            r == Gain::of_phase(phase),
    {
        if phase == 0 {
            Gain::Up
        } else if phase == 1 {
            Gain::Down
        } else {
            Gain::Unit
        }
    }
}

} // verus!
