use vstd::prelude::*;

verus! {

/// A real number stored as the bit pattern of an IEEE 754 binary64 value.
///
/// The library copies, stores and compares these values but never computes
/// with them, so a value read back is bit for bit the value stored.
#[derive(PartialEq, Eq, Structural, Debug, Clone, Copy)]
pub struct Scalar {
    /// The IEEE 754 binary64 bit pattern.
    pub bits: u64,
}

impl Scalar {
    /// The scalar with the given bit pattern.
    pub fn from_bits(bits: u64) -> (r: Scalar)
        ensures
            r.bits == bits,
    {
        Scalar { bits }
    }

    /// The bit pattern of this scalar.
    pub fn to_bits(&self) -> (r: u64)
        ensures
            r == self.bits,
    {
        self.bits
    }

    /// Positive zero, whose bit pattern is all zeros.
    pub fn zero() -> (r: Scalar)
        ensures
            r.bits == 0,
    {
        Scalar { bits: 0 }
    }
}

} // verus!
