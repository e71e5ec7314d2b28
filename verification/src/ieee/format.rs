//! The two binary interchange formats and the values their bit patterns encode.
use vstd::prelude::*;
use vstd::arithmetic::power2::*;

verus! {

/// The value a bit pattern stands for.
///
/// A finite magnitude is counted in units of the format's smallest positive
/// value, so every finite value of a format is a whole number of units.
pub ghost enum Number {
    Nan,
    Infinite { negative: bool },
    Finite { negative: bool, magnitude: nat },
}

/// A binary interchange format.
#[derive(PartialEq, Eq, Structural, Clone, Copy, Debug)]
pub enum Format {
    Binary32,
    Binary64,
}

impl Format {
    /// Precision: the number of significand bits, the implicit one included.
    pub open spec fn precision(self) -> nat {
        match self {
            Format::Binary32 => 24,
            Format::Binary64 => 53,
        }
    }

    /// The largest shift that a finite value can carry: its magnitude is a
    /// significand of `precision()` bits times two to the power of its shift.
    pub open spec fn max_shift(self) -> nat {
        match self {
            Format::Binary32 => 253,
            Format::Binary64 => 2045,
        }
    }

    /// Two to the power `precision() - 1`: the weight of the implicit bit.
    pub open spec fn hidden(self) -> nat {
        match self {
            Format::Binary32 => 0x80_0000,
            Format::Binary64 => 0x10_0000_0000_0000,
        }
    }

    /// The bit pattern of positive infinity.
    pub open spec fn infinity_bits(self) -> nat {
        match self {
            Format::Binary32 => 0x7f80_0000,
            Format::Binary64 => 0x7ff0_0000_0000_0000,
        }
    }

    /// The weight of the sign bit.
    pub open spec fn sign_bit(self) -> nat {
        match self {
            Format::Binary32 => 0x8000_0000,
            Format::Binary64 => 0x8000_0000_0000_0000,
        }
    }

    /// `bits` is a bit pattern of this format: nothing is set above the sign bit.
    pub open spec fn holds(self, bits: u64) -> bool {
        bits < 2 * self.sign_bit()
    }

    /// The magnitude that the sign-free pattern `abs` of a finite value encodes.
    pub open spec fn magnitude_of(self, abs: nat) -> nat {
        let e = abs / self.hidden();
        let f = abs % self.hidden();
        if e == 0 {
            f
        } else {
            (self.hidden() + f) * pow2((e - 1) as nat)
        }
    }

    /// The significand that the sign-free pattern `abs` of a finite value holds.
    pub open spec fn significand_of(self, abs: nat) -> nat {
        if abs / self.hidden() == 0 {
            abs % self.hidden()
        } else {
            self.hidden() + abs % self.hidden()
        }
    }

    /// The shift that the sign-free pattern `abs` of a finite value holds.
    pub open spec fn shift_of(self, abs: nat) -> nat {
        if abs / self.hidden() == 0 {
            0
        } else {
            (abs / self.hidden() - 1) as nat
        }
    }

    /// The sign-free part of `bits`.
    pub open spec fn abs_of(self, bits: u64) -> nat {
        if bits >= self.sign_bit() {
            (bits - self.sign_bit()) as nat
        } else {
            bits as nat
        }
    }

    /// The value that `bits` encodes.
    pub open spec fn decode(self, bits: u64) -> Number {
        let negative = bits >= self.sign_bit();
        let abs = self.abs_of(bits);
        if abs > self.infinity_bits() {
            Number::Nan
        } else if abs == self.infinity_bits() {
            Number::Infinite { negative }
        } else {
            Number::Finite { negative, magnitude: self.magnitude_of(abs) }
        }
    }

    /// The unit is two to the power minus `scale()`.
    pub open spec fn scale(self) -> nat {
        match self {
            Format::Binary32 => 149,
            Format::Binary64 => 1074,
        }
    }

    /// The smallest magnitude too large to be finite.
    pub open spec fn overflow(self) -> nat {
        pow2(self.precision() + self.max_shift())
    }

    /// The weight of the implicit bit.
    pub fn hidden_bit(self) -> (r: u64)
        ensures
            r == self.hidden(),
    {
        match self {
            Format::Binary32 => 0x80_0000,
            Format::Binary64 => 0x10_0000_0000_0000,
        }
    }

    /// The weight of the sign bit.
    pub fn sign_mask(self) -> (r: u64)
        ensures
            r == self.sign_bit(),
    {
        match self {
            Format::Binary32 => 0x8000_0000,
            Format::Binary64 => 0x8000_0000_0000_0000,
        }
    }

    /// The bit pattern of positive infinity.
    pub fn infinity(self) -> (r: u64)
        ensures
            r == self.infinity_bits(),
    {
        match self {
            Format::Binary32 => 0x7f80_0000,
            Format::Binary64 => 0x7ff0_0000_0000_0000,
        }
    }

    /// The largest shift that a finite value can carry.
    pub fn top_shift(self) -> (r: u32)
        ensures
            r == self.max_shift(),
    {
        match self {
            Format::Binary32 => 253,
            Format::Binary64 => 2045,
        }
    }

    /// The unit is two to the power minus this.
    pub fn unit_scale(self) -> (r: u32)
        ensures
            r == self.scale(),
    {
        match self {
            Format::Binary32 => 149,
            Format::Binary64 => 1074,
        }
    }

    /// The number of significand bits, the implicit one included.
    pub fn significand_bits(self) -> (r: u32)
        ensures
            r == self.precision(),
    {
        match self {
            Format::Binary32 => 24,
            Format::Binary64 => 53,
        }
    }
}

} // verus!
