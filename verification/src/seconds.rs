//! Times in seconds. A time is carried as the bit pattern of an IEEE 754 double;
//! what the library decides about times is decided on the patterns.

use vstd::prelude::*;

verus! {

/// A time in seconds, as the bit pattern of a double.
#[derive(Clone, Copy, Debug, PartialEq, Eq, Structural)]
pub struct Seconds {
    pub bits: u64,
}

impl Seconds {
    /// Whether the pattern is that of a number: its exponent is not all ones.
    pub open spec fn finite(self) -> bool {
        (self.bits / 0x0010_0000_0000_0000) % 2048 != 2047
    }

    /// The rank of the pattern in the total order of doubles: the patterns with
    /// a clear sign bit rank as they stand, those with a set one below them, by
    /// falling magnitude.
    pub open spec fn rank(self) -> int {
        if self.bits < 0x8000_0000_0000_0000 {
            self.bits as int
        } else {
            0x7fff_ffff_ffff_ffff - self.bits
        }
    }

    /// Whether the pattern is that of no number at all: its exponent is all
    /// ones and its fraction is not zero.
    pub open spec fn nan(self) -> bool {
        self.bits % 0x8000_0000_0000_0000 > 0x7ff0_0000_0000_0000
    }

    /// Whether the pattern is that of zero, with either sign.
    pub open spec fn zero(self) -> bool {
        self.bits % 0x8000_0000_0000_0000 == 0
    }

    /// Whether the time is at most another, as numbers compare.
    pub open spec fn at_most(self, other: Seconds) -> bool {
        &&& !self.nan()
        &&& !other.nan()
        &&& self.rank() <= other.rank() || (self.zero() && other.zero())
    }

    /// The time, or zero where it is negative or no number.
    pub open spec fn clamped(self) -> Seconds {
        if self.nan() || self.at_most(Seconds { bits: 0 }) {
            Seconds { bits: 0 }
        } else {
            self
        }
    }

    /// Whether the time is a number.
    pub fn is_finite(self) -> (r: bool)
        ensures
            r == self.finite(),
    {
        (self.bits / 0x0010_0000_0000_0000) % 2048 != 2047
    }

    /// Whether the time precedes another in the total order.
    pub fn precedes(self, other: Seconds) -> (r: bool)
        ensures
            r == (self.rank() < other.rank()),
    {
        let negative: bool = self.bits >= 0x8000_0000_0000_0000;
        let other_negative: bool = other.bits >= 0x8000_0000_0000_0000;
        if negative && other_negative {
            self.bits > other.bits
        } else if negative || other_negative {
            negative
        } else {
            self.bits < other.bits
        }
    }
}

impl Seconds {
    /// Whether the time is at most another, as numbers compare.
    pub fn is_at_most(self, other: Seconds) -> (r: bool)
        ensures
            r == self.at_most(other),
    {
        let magnitude: u64 = self.bits % 0x8000_0000_0000_0000;
        let other_magnitude: u64 = other.bits % 0x8000_0000_0000_0000;
        magnitude <= 0x7ff0_0000_0000_0000 && other_magnitude <= 0x7ff0_0000_0000_0000 && (
        !other.precedes(self) || (magnitude == 0 && other_magnitude == 0))
    }

    /// The time, or zero where it is negative or no number.
    pub fn clamp_to_start(self) -> (r: Seconds)
        ensures
            r == self.clamped(),
    {
        let start = Seconds { bits: 0 };
        if self.bits % 0x8000_0000_0000_0000 > 0x7ff0_0000_0000_0000 || self.is_at_most(start) {
            start
        } else {
            self
        }
    }
}

} // verus!
