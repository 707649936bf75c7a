//! One price sample, held as the bit pattern of a finite binary64 number.

use vstd::prelude::*;

verus! {

/// The exponent field of a binary64 bit pattern, in place.
pub const EXPONENT_MASK: u64 = 0x7ff0_0000_0000_0000;

/// A binary64 bit pattern encodes a finite number exactly when its exponent
/// field is not all ones; the patterns with all ones are the infinities and
/// the NaNs.
pub open spec fn finite_bits(bits: u64) -> bool {
    bits & EXPONENT_MASK != EXPONENT_MASK
}

/// Tells whether `bits` is the pattern of a finite binary64 number.
pub fn is_finite_bits(bits: u64) -> (finite: bool)
    ensures
        finite == finite_bits(bits),
{
    bits & EXPONENT_MASK != EXPONENT_MASK
}

/// A decoded price sample. It is immutable, and always finite.
#[derive(Clone, Copy, Debug, PartialEq, Eq)]
pub struct Observation {
    bits: u64,
}

impl View for Observation {
    type V = u64;

    /// The binary64 bit pattern of the sample.
    closed spec fn view(&self) -> u64 {
        self.bits
    }
}

impl Observation {
    /// Every sample that a program holds is finite. Of a sample that exists
    /// only in a specification, this has to be asked.
    #[verifier::type_invariant]
    pub open spec fn is_finite(self) -> bool {
        finite_bits(self@)
    }

    /// The sample with the given bit pattern, if that pattern is finite.
    pub fn from_bits(bits: u64) -> (made: Option<Observation>)
        ensures
            match made {
                Some(o) => finite_bits(bits) && o@ == bits,
                None => !finite_bits(bits),
            },
    {
        if is_finite_bits(bits) {
            Some(Observation { bits })
        } else {
            None
        }
    }

    /// The bit pattern of the sample.
    pub fn bits(&self) -> (bits: u64)
        ensures
            bits == self@,
            finite_bits(bits),
    {
        proof {
            use_type_invariant(self);
        }
        self.bits
    }
}

/// Two samples with the same bit pattern are the same sample.
pub proof fn lemma_same_bits_same_observation(a: Observation, b: Observation)
    requires
        a@ == b@,
    ensures
        a == b,
{
}

} // verus!
