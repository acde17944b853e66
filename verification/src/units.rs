//! The two drink sizes that rooms and drinks are measured in.
//!
//! Requests carry a size as an IEEE-754 binary64 number, and only 0.33 and
//! 0.5 (litres) are accepted. Two binary64 numbers other than zero and NaN are
//! equal exactly when their bit patterns are, so a size is recognised here by
//! the bit pattern of the number that was sent.

use vstd::prelude::*;

verus! {

/// The binary64 bit pattern of 0.33.
pub const SIZE_033_BITS: u64 = 0x3FD5_1EB8_51EB_851F;

/// The binary64 bit pattern of 0.5.
pub const SIZE_050_BITS: u64 = 0x3FE0_0000_0000_0000;

/// A drink size: 0.33 l or 0.5 l.
#[derive(Clone, Copy, PartialEq, Eq, Debug, Structural)]
pub enum UnitSize {
    /// 0.33 l, that is 33 cl.
    Cl33,
    /// 0.5 l, that is 50 cl.
    Cl50,
}

/// The size whose binary64 bit pattern is `bits`, if it is one of the two.
pub open spec fn unit_from_bits(bits: u64) -> Option<UnitSize> {
    if bits == SIZE_033_BITS {
        Some(UnitSize::Cl33)
    } else if bits == SIZE_050_BITS {
        Some(UnitSize::Cl50)
    } else {
        None
    }
}

impl UnitSize {
    /// The size in centilitres.
    pub open spec fn cl(self) -> u64 {
        match self {
            UnitSize::Cl33 => 33,
            UnitSize::Cl50 => 50,
        }
    }

    /// The binary64 bit pattern of the size in litres.
    pub open spec fn bits(self) -> u64 {
        match self {
            UnitSize::Cl33 => SIZE_033_BITS,
            UnitSize::Cl50 => SIZE_050_BITS,
        }
    }

    /// The size in centilitres.
    pub fn centiliters(&self) -> (r: u64)
        ensures
            r == self.cl(),
    {
        match self {
            UnitSize::Cl33 => 33,
            UnitSize::Cl50 => 50,
        }
    }

    /// The binary64 bit pattern of the size in litres (0.33 or 0.5).
    pub fn f64_bits(&self) -> (r: u64)
        ensures
            r == self.bits(),
    {
        match self {
            UnitSize::Cl33 => SIZE_033_BITS,
            UnitSize::Cl50 => SIZE_050_BITS,
        }
    }

    /// Recognises a requested size by the bit pattern of the binary64 number
    /// sent: 0.33 and 0.5 are sizes, every other number is refused.
    pub fn from_f64_bits(bits: u64) -> (r: Option<UnitSize>)
        ensures
            r == unit_from_bits(bits),
    {
        if bits == SIZE_033_BITS {
            Some(UnitSize::Cl33)
        } else if bits == SIZE_050_BITS {
            Some(UnitSize::Cl50)
        } else {
            None
        }
    }
}

/// Each size is recognised from its own bit pattern, and the two sizes have
/// different patterns.
pub proof fn lemma_unit_bits_roundtrip(u: UnitSize, bits: u64)
    ensures
        unit_from_bits(u.bits()) == Some(u),
        unit_from_bits(bits) matches Some(v) ==> v.bits() == bits,
{
}

} // verus!
