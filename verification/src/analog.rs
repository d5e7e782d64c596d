//! Analog values as the bit patterns of IEEE 754 binary64 numbers.

use vstd::prelude::*;

verus! {

/// All bits of a binary64 pattern but the sign.
pub const MAGNITUDE_MASK: u64 = 0x7fff_ffff_ffff_ffff;

/// The magnitude of an infinity; every larger magnitude is a NaN.
pub const INFINITE_MAGNITUDE: u64 = 0x7ff0_0000_0000_0000;

/// A binary64 number, held as its bit pattern.
#[derive(Clone, Copy, Debug)]
pub struct AnalogValue {
    pub bits: u64,
}

impl AnalogValue {
    /// The bit pattern without its sign.
    pub open spec fn magnitude(self) -> u64 {
        self.bits & MAGNITUDE_MASK
    }

    /// Whether the pattern is one of the NaNs.
    pub open spec fn nan(self) -> bool {
        self.magnitude() > INFINITE_MAGNITUDE
    }

    /// Whether two patterns compare equal as numbers: a NaN equals nothing, the
    /// two zeros equal each other, and otherwise the patterns are the same.
    pub open spec fn equals(self, other: AnalogValue) -> bool {
        &&& !self.nan()
        &&& !other.nan()
        &&& self.bits == other.bits || (self.magnitude() == 0 && other.magnitude() == 0)
    }

    /// The value zero.
    pub fn zero() -> (r: AnalogValue)
        ensures
            r.bits == 0,
    {
        AnalogValue { bits: 0 }
    }

    /// The value whose bit pattern is `bits`.
    pub fn from_bits(bits: u64) -> (r: AnalogValue)
        ensures
            r.bits == bits,
    {
        AnalogValue { bits }
    }

    /// The bit pattern of the value.
    pub fn to_bits(self) -> (r: u64)
        ensures
            r == self.bits,
    {
        self.bits
    }

    /// Whether the value is a NaN.
    pub fn is_nan(self) -> (r: bool)
        ensures
            r == self.nan(),
    {
        self.bits & MAGNITUDE_MASK > INFINITE_MAGNITUDE
    }

    /// Compares two values as numbers.
    pub fn same_value(self, other: AnalogValue) -> (r: bool)
        ensures
            r == self.equals(other),
    {
        !self.is_nan() && !other.is_nan() && (self.bits == other.bits || (self.bits
            & MAGNITUDE_MASK == 0 && other.bits & MAGNITUDE_MASK == 0))
    }
}

/// A value equals itself unless it is a NaN.
pub proof fn law_only_nan_differs_from_itself(v: AnalogValue)
    ensures
        v.equals(v) <==> !v.nan(),
{
}

/// Comparing two values does not depend on their order.
pub proof fn law_equality_is_symmetric(a: AnalogValue, b: AnalogValue)
    ensures
        a.equals(b) == b.equals(a),
{
}

/// Numbers compare by IEEE 754, read off the patterns: a NaN has all exponent
/// bits and some fraction bit set, and equals nothing; the patterns of the two
/// zeros equal each other; any other number equals itself alone.
pub proof fn law_comparison_is_ieee(a: AnalogValue, b: AnalogValue)
    ensures
        a.nan() <==> (a.bits >> 52) & 0x7ff == 0x7ff && a.bits & 0xf_ffff_ffff_ffff != 0,
        a.nan() || b.nan() ==> !a.equals(b),
        !a.nan() && a.bits == b.bits ==> a.equals(b),
        (a.bits == 0 || a.bits == 0x8000_0000_0000_0000) && (b.bits == 0 || b.bits
            == 0x8000_0000_0000_0000) ==> a.equals(b),
        a.equals(b) && a.bits != b.bits ==> (a.bits == 0 || a.bits == 0x8000_0000_0000_0000) && (
        b.bits == 0 || b.bits == 0x8000_0000_0000_0000),
{
    let x = a.bits;
    let y = b.bits;
    assert((x & 0x7fff_ffff_ffff_ffff > 0x7ff0_0000_0000_0000) <==> (x >> 52) & 0x7ff == 0x7ff && x
        & 0xf_ffff_ffff_ffff != 0) by (bit_vector);
    assert((x & 0x7fff_ffff_ffff_ffff == 0) <==> (x == 0 || x == 0x8000_0000_0000_0000))
        by (bit_vector);
    assert((y & 0x7fff_ffff_ffff_ffff == 0) <==> (y == 0 || y == 0x8000_0000_0000_0000))
        by (bit_vector);
}

/// What equals a number equals whatever that number equals.
pub proof fn law_equality_is_transitive(a: AnalogValue, b: AnalogValue, c: AnalogValue)
    requires
        a.equals(b),
        b.equals(c),
    ensures
        a.equals(c),
{
}

} // verus!
