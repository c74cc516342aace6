use vstd::prelude::*;

verus! {

/// The value of a 64-bit IEEE float as the library reasons about it: either
/// not-a-number, or an ordered number given by its key. The key of a float is
/// its magnitude bits, negated for negative numbers, so that keys compare as
/// the floats they stand for (both zeros have the key 0, and the infinities
/// have the keys `INFINITY_KEY` and `-INFINITY_KEY`).
#[derive(Clone, Copy, Debug, PartialEq, Eq, Structural)]
pub enum Real {
    NotANumber,
    Ordered(i64),
}

/// The key of positive infinity.
pub const INFINITY_KEY: i64 = 0x7FF0_0000_0000_0000;

impl Real {
    /// `self <= other` as IEEE comparison: false whenever a side is not a number.
    pub open spec fn is_le(self, other: Real) -> bool {
        match (self, other) {
            (Real::Ordered(a), Real::Ordered(b)) => a <= b,
            _ => false,
        }
    }

    /// `self < other` as IEEE comparison: false whenever a side is not a number.
    pub open spec fn is_lt(self, other: Real) -> bool {
        match (self, other) {
            (Real::Ordered(a), Real::Ordered(b)) => a < b,
            _ => false,
        }
    }

    /// `f64::max`: a not-a-number argument yields the other argument.
    pub open spec fn max_of(self, other: Real) -> Real {
        match (self, other) {
            (Real::Ordered(a), Real::Ordered(b)) => if a >= b { self } else { other },
            (Real::NotANumber, _) => other,
            (_, Real::NotANumber) => self,
        }
    }

    /// `f64::min`: a not-a-number argument yields the other argument.
    pub open spec fn min_of(self, other: Real) -> Real {
        match (self, other) {
            (Real::Ordered(a), Real::Ordered(b)) => if a <= b { self } else { other },
            (Real::NotANumber, _) => other,
            (_, Real::NotANumber) => self,
        }
    }

    pub open spec fn is_not_a_number(self) -> bool {
        self is NotANumber
    }

    pub open spec fn is_infinity(self) -> bool {
        match self {
            Real::Ordered(k) => k == INFINITY_KEY || k == -INFINITY_KEY,
            Real::NotANumber => false,
        }
    }

    /// The real zero.
    pub fn Zero() -> (r: Real)
        ensures r == Real::Ordered(0),
    {
        Real::Ordered(0)
    }

    /// IEEE `<=`.
    pub fn Le(&self, other: &Real) -> (r: bool)
        ensures r == self.is_le(*other),
    {
        match (self, other) {
            (Real::Ordered(a), Real::Ordered(b)) => *a <= *b,
            _ => false,
        }
    }

    /// IEEE `<`.
    pub fn Lt(&self, other: &Real) -> (r: bool)
        ensures r == self.is_lt(*other),
    {
        match (self, other) {
            (Real::Ordered(a), Real::Ordered(b)) => *a < *b,
            _ => false,
        }
    }

    /// `f64::max`.
    pub fn Max(&self, other: &Real) -> (r: Real)
        ensures r == self.max_of(*other),
    {
        match (self, other) {
            (Real::Ordered(a), Real::Ordered(b)) => if *a >= *b { *self } else { *other },
            (Real::NotANumber, _) => *other,
            (_, Real::NotANumber) => *self,
        }
    }

    /// `f64::min`.
    pub fn Min(&self, other: &Real) -> (r: Real)
        ensures r == self.min_of(*other),
    {
        match (self, other) {
            (Real::Ordered(a), Real::Ordered(b)) => if *a <= *b { *self } else { *other },
            (Real::NotANumber, _) => *other,
            (_, Real::NotANumber) => *self,
        }
    }

    /// `f64::is_nan`.
    pub fn IsNan(&self) -> (r: bool)
        ensures r == self.is_not_a_number(),
    {
        match self {
            Real::NotANumber => true,
            Real::Ordered(_) => false,
        }
    }

    /// `f64::is_infinite`.
    pub fn IsInfinite(&self) -> (r: bool)
        ensures r == self.is_infinity(),
    {
        match self {
            Real::Ordered(k) => *k == INFINITY_KEY || *k == -INFINITY_KEY,
            Real::NotANumber => false,
        }
    }
}

} // verus!
