use vstd::prelude::*;

verus! {

/// A frequency, carried as the exact bit pattern of an IEEE 754 binary64
/// number. Keeping the raw bits lets caches key samples by exact,
/// bit-identical equality, as the data model demands; callers that hold a
/// floating-point value convert it with `f64::to_bits` at the boundary.
///
/// Bit layout of a binary64 value: bit 63 is the sign, bits 62..52 are the
/// biased exponent, bits 51..0 are the mantissa.
#[derive(Clone, Copy, Debug, PartialEq, Eq, Hash, Structural)]
pub struct Frequency {
    pub bits: u64,
}

/// A bit pattern stands for a usable frequency when the number it encodes
/// is positive and normal: the sign bit is clear and the biased exponent is
/// neither 0 (zero or subnormal) nor 0x7ff (infinity or NaN).
pub open spec fn valid_frequency_bits(bits: u64) -> bool {
    &&& bits >> 63 == 0u64
    &&& (bits >> 52) & 0x7ff != 0u64
    &&& (bits >> 52) & 0x7ff != 0x7ffu64
}

impl Frequency {
    /// The value this frequency stands for is a positive, normal number.
    pub open spec fn valid(self) -> bool {
        valid_frequency_bits(self.bits)
    }

    /// Builds a frequency from a raw binary64 bit pattern.
    pub fn from_bits(bits: u64) -> (r: Frequency)
        ensures
            r.bits == bits,
    {
        Frequency { bits }
    }

    /// Decides whether this frequency is positive and normal.
    pub fn is_valid(&self) -> (r: bool)
        ensures
            r == self.valid(),
    {
        let exponent = (self.bits >> 52) & 0x7ff;
        self.bits >> 63 == 0 && exponent != 0 && exponent != 0x7ff
    }
}

} // verus!
