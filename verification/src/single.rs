//! Single-precision numbers, carried as their bits.
//!
//! Samples and levels are floating point where they are made and where they
//! are used. In between the mixer only moves them about, compares them and
//! holds them to a range, and all of that can be read off the bits: within
//! one sign, IEEE 754 orders numbers as it orders their bits.

use vstd::prelude::*;

verus! {

/// A single-precision number as its IEEE 754 bits.
#[derive(Debug, Clone, Copy, PartialEq, Eq, Structural)]
pub struct Single {
    pub bits: u32,
}

/// The bits of 0.0.
pub const ZERO: u32 = 0;

/// The bits of 1.0.
pub const ONE: u32 = 0x3f80_0000;

/// The bits of infinity; anything above them is not a number.
pub const INFINITY: u32 = 0x7f80_0000;

/// The bit that says a number is negative.
pub const SIGN: u32 = 0x8000_0000;

impl Single {
    /// Whether the sign is set.
    pub open spec fn is_negative(self) -> bool {
        self.bits >= SIGN
    }

    /// The bits without the sign: those of the absolute value.
    pub open spec fn magnitude(self) -> int {
        if self.is_negative() {
            self.bits - SIGN
        } else {
            self.bits as int
        }
    }

    /// Whether this is not a number at all.
    pub open spec fn is_nan(self) -> bool {
        self.magnitude() > INFINITY
    }

    /// Where a number stands among the others: of two numbers the lower one
    /// has the lower rank, and both zeros have the same.
    pub open spec fn rank(self) -> int {
        if self.is_negative() {
            -self.magnitude()
        } else {
            self.magnitude()
        }
    }

    fn nan(self) -> (r: bool)
        ensures
            r == self.is_nan(),
    {
        if self.bits >= SIGN {
            self.bits - SIGN > INFINITY
        } else {
            self.bits > INFINITY
        }
    }

    /// The absolute value.
    pub fn abs(self) -> (r: Single)
        ensures
            r.bits == self.magnitude(),
    {
        if self.bits >= SIGN {
            Single { bits: self.bits - SIGN }
        } else {
            self
        }
    }

    /// Whether this is a number no greater than another.
    pub open spec fn at_most(self, other: Single) -> bool {
        !self.is_nan() && !other.is_nan() && self.rank() <= other.rank()
    }

    /// Whether this is a number no greater than another.
    pub fn is_at_most(self, other: Single) -> (r: bool)
        ensures
            r == self.at_most(other),
    {
        if self.nan() || other.nan() {
            return false;
        }
        let mine = self.abs().bits;
        let theirs = other.abs().bits;
        if self.bits >= SIGN {
            if other.bits >= SIGN {
                mine >= theirs
            } else {
                true
            }
        } else if other.bits >= SIGN {
            mine == 0 && theirs == 0
        } else {
            mine <= theirs
        }
    }

    /// The number held to the range from 0.0 to 1.0. What is not a number
    /// stays what it is.
    pub open spec fn held_to_unit(self) -> Single {
        if self.is_nan() {
            self
        } else if self.rank() < 0 {
            Single { bits: ZERO }
        } else if self.rank() > ONE {
            Single { bits: ONE }
        } else {
            self
        }
    }

    /// Hold the number to the range from 0.0 to 1.0.
    pub fn clamp_unit(self) -> (r: Single)
        ensures
            r == self.held_to_unit(),
    {
        if self.nan() {
            self
        } else if self.bits > SIGN {
            Single { bits: ZERO }
        } else if self.bits < SIGN && self.bits > ONE {
            Single { bits: ONE }
        } else {
            self
        }
    }
}

/// Holding a number to the range twice is holding it once.
pub proof fn clamping_is_idempotent(s: Single)
    ensures
        s.held_to_unit().held_to_unit() == s.held_to_unit(),
        !s.is_nan() ==> 0 <= s.held_to_unit().rank() <= ONE,
{
}

/// Holding a value between nothing and one leaves what is between them
/// alone, takes everything below to nothing and everything above to one, and
/// keeps the order of any two.
pub proof fn holding_keeps_the_order(a: Single, b: Single)
    requires
        !a.is_nan(),
        !b.is_nan(),
    ensures
        (Single { bits: 0 }).at_most(a) && a.at_most(Single { bits: 0x3f80_0000 })
            ==> a.held_to_unit() == a,
        !(Single { bits: 0 }).at_most(a) ==> a.held_to_unit() == (Single { bits: 0 }),
        !a.at_most(Single { bits: 0x3f80_0000 }) ==> a.held_to_unit() == (Single {
            bits: 0x3f80_0000,
        }),
        a.at_most(b) ==> a.held_to_unit().at_most(b.held_to_unit()),
{
}

/// What is no number stays none, and is at most nothing and at least
/// nothing.
pub proof fn what_is_no_number_stays_none(a: Single, b: Single)
    requires
        a.is_nan(),
    ensures
        a.held_to_unit() == a,
        !a.at_most(b),
        !b.at_most(a),
{
}

/// Turning a sign keeps the size, and of two numbers of one sign the one
/// with the larger bits is the larger, or the smaller below nothing.
pub proof fn signs_and_sizes(n: u32, m: u32)
    requires
        n <= 0x7f80_0000,
        m <= 0x7f80_0000,
    ensures
        ({
            let a = Single { bits: n };
            let b = Single { bits: m };
            let minus_a = Single { bits: (n + 0x8000_0000) as u32 };
            let minus_b = Single { bits: (m + 0x8000_0000) as u32 };
            &&& minus_a.magnitude() == a.magnitude() == n
            &&& a.at_most(b) == (n <= m)
            &&& minus_b.at_most(minus_a) == (n <= m)
            &&& minus_a.at_most(b)
            &&& !a.is_nan() && !minus_a.is_nan()
            &&& b.at_most(minus_a) == (n == 0 && m == 0)
        }),
{
}

} // verus!
