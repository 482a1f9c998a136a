//! IEEE-754 binary64 values held as their 64-bit patterns.
//!
//! Clearing the sign bit gives the magnitude (`abs`). A magnitude whose
//! pattern lies above that of infinity is not-a-number. For two magnitudes
//! that are not not-a-number, the numeric order is the unsigned order of
//! their patterns.

use vstd::prelude::*;

verus! {

/// Every bit of a binary64 pattern but the sign.
pub const MAGNITUDE_MASK: u64 = 0x7fff_ffff_ffff_ffff;

/// The pattern of positive infinity.
pub const INFINITY_BITS: u64 = 0x7ff0_0000_0000_0000;

/// The quiet not-a-number pattern that Rust's `f64::NAN` has.
pub const NAN_BITS: u64 = 0x7ff8_0000_0000_0000;

/// One observation: a binary64 value given by its bit pattern.
#[derive(Clone, Copy, Debug, PartialEq, Eq, Structural)]
pub struct Observation {
    pub bits: u64,
}

impl Observation {
    pub open spec fn is_nan_spec(self) -> bool {
        self.bits & MAGNITUDE_MASK > INFINITY_BITS
    }

    pub open spec fn abs_spec(self) -> Observation {
        Observation { bits: self.bits & MAGNITUDE_MASK }
    }

    /// The canonical not-a-number.
    pub open spec fn nan_spec() -> Observation {
        Observation { bits: NAN_BITS }
    }

    /// Numeric `self < other` for two magnitudes (sign bits clear): false as
    /// soon as either is not-a-number.
    pub open spec fn magnitude_lt(self, other: Observation) -> bool {
        !self.is_nan_spec() && !other.is_nan_spec() && self.bits < other.bits
    }

    pub fn from_bits(bits: u64) -> (r: Observation)
        ensures
            r.bits == bits,
    {
        Observation { bits }
    }

    pub fn to_bits(self) -> (r: u64)
        ensures
            r == self.bits,
    {
        self.bits
    }

    pub fn nan() -> (r: Observation)
        ensures
            r == Observation::nan_spec(),
            r.is_nan_spec(),
    {
        assert(NAN_BITS & MAGNITUDE_MASK > INFINITY_BITS) by (bit_vector);
        Observation { bits: NAN_BITS }
    }

    pub fn is_nan(&self) -> (r: bool)
        ensures
            r == self.is_nan_spec(),
    {
        self.bits & MAGNITUDE_MASK > INFINITY_BITS
    }

    pub fn abs(&self) -> (r: Observation)
        ensures
            r == self.abs_spec(),
            r.is_nan_spec() == self.is_nan_spec(),
    {
        proof {
            lemma_abs_keeps_nan(*self);
        }
        Observation { bits: self.bits & MAGNITUDE_MASK }
    }

    /// Numeric `<` between two magnitudes.
    pub fn lt_magnitude(&self, other: &Observation) -> (r: bool)
        ensures
            r == self.magnitude_lt(*other),
    {
        !self.is_nan() && !other.is_nan() && self.bits < other.bits
    }
}

/// Taking the magnitude neither makes nor unmakes a not-a-number, and doing it
/// twice is doing it once.
pub proof fn lemma_abs_keeps_nan(o: Observation)
    ensures
        o.abs_spec().is_nan_spec() == o.is_nan_spec(),
        o.abs_spec().abs_spec() == o.abs_spec(),
{
    let b = o.bits;
    assert((b & MAGNITUDE_MASK) & MAGNITUDE_MASK == b & MAGNITUDE_MASK) by (bit_vector);
}

} // verus!
