//! Numbers that are carried through the converter without being computed on.

use vstd::prelude::*;

verus! {

/// The bit pattern of positive infinity; every finite positive number lies below it.
pub const INFINITY_BITS: u64 = 0x7ff0_0000_0000_0000;

/// The bit pattern of negative zero.
pub const NEGATIVE_ZERO_BITS: u64 = 0x8000_0000_0000_0000;

/// An IEEE 754 binary64 number, held as its bit pattern.
///
/// The converter chooses between such numbers and checks them, but the
/// arithmetic on them is done by the program around it.
#[derive(Clone, Copy, Debug, PartialEq, Eq, Structural)]
pub struct Real {
    pub bits: u64,
}

impl Real {
    /// True of every number that is finite and greater than zero: its sign bit
    /// is clear, it is not zero, and it lies below infinity.
    pub open spec fn spec_is_valid_bpm(self) -> bool {
        0 < self.bits < INFINITY_BITS
    }

    /// Both zeros count as zero.
    pub open spec fn spec_is_zero(self) -> bool {
        self.bits == 0 || self.bits == NEGATIVE_ZERO_BITS
    }

    /// Positive zero.
    pub fn zero() -> (r: Real)
        ensures
            r == (Real { bits: 0 }),
    {
        Real { bits: 0 }
    }

    /// Whether the number can serve as a tempo: finite and greater than zero.
    pub fn is_valid_bpm(&self) -> (r: bool)
        ensures
            r == self.spec_is_valid_bpm(),
            r <==> self.bits != 0 && self.bits <= 0x7fef_ffff_ffff_ffff,
    {
        0 < self.bits && self.bits < INFINITY_BITS
    }

    /// Whether the number equals zero, of either sign.
    pub fn is_zero(&self) -> (r: bool)
        ensures
            r == self.spec_is_zero(),
            r <==> self.bits == 0 || self.bits == 0x8000_0000_0000_0000,
    {
        self.bits == 0 || self.bits == NEGATIVE_ZERO_BITS
    }
}

} // verus!
