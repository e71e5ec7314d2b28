//! Taking a bit pattern apart into sign, class, significand and shift.
use vstd::prelude::*;
use vstd::arithmetic::power2::*;
use crate::ieee::format::{Format, Number};
use crate::ieee::round::{lemma_div_mod_unique, lemma_format_powers};

verus! {

/// Which of the three classes a value falls in.
#[derive(PartialEq, Eq, Structural, Clone, Copy, Debug)]
pub enum Class {
    Nan,
    Infinite,
    Finite,
}

/// A bit pattern taken apart. For a finite value the magnitude is
/// `mant * 2^shift` units.
#[derive(Clone, Copy, Debug)]
pub struct Unpacked {
    pub negative: bool,
    pub class: Class,
    pub mant: u64,
    pub shift: u32,
}

impl Unpacked {
    /// The value that the parts stand for.
    pub open spec fn number(self) -> Number {
        match self.class {
            Class::Nan => Number::Nan,
            Class::Infinite => Number::Infinite { negative: self.negative },
            Class::Finite => Number::Finite {
                negative: self.negative,
                magnitude: self.mant as nat * pow2(self.shift as nat),
            },
        }
    }

    /// The parts are those of a value of `fmt`: the significand fits, and is
    /// full wherever the shift is not zero.
    pub open spec fn fits(self, fmt: Format) -> bool {
        self.class == Class::Finite ==> {
            &&& self.mant < 2 * fmt.hidden()
            &&& self.shift <= fmt.max_shift()
            &&& self.shift == 0 || self.mant >= fmt.hidden()
        }
    }

    /// The magnitude in units.
    pub open spec fn magnitude(self) -> nat {
        self.mant as nat * pow2(self.shift as nat)
    }
}

/// Every finite value of a format lies below its overflow threshold.
pub proof fn lemma_magnitude_bound(fmt: Format, u: Unpacked)
    requires
        u.class == Class::Finite,
        u.fits(fmt),
    ensures
        u.magnitude() < fmt.overflow(),
{
    lemma_format_powers(fmt);
    let ps = pow2(u.shift as nat);
    let top = pow2(fmt.max_shift());
    lemma_pow2_pos(u.shift as nat);
    if u.shift < fmt.max_shift() {
        lemma_pow2_strictly_increases(u.shift as nat, fmt.max_shift());
    }
    assert(u.mant * ps < 2 * fmt.hidden() * top) by (nonlinear_arith)
        requires
            u.mant < 2 * fmt.hidden(),
            0 < ps <= top,
    ;
}

/// The canonical quiet NaN of `fmt`.
pub fn nan_bits(fmt: Format) -> (bits: u64)
    ensures
        fmt.holds(bits),
        fmt.decode(bits) == Number::Nan,
{
    match fmt {
        Format::Binary32 => 0x7fc0_0000,
        Format::Binary64 => 0x7ff8_0000_0000_0000,
    }
}

/// The infinity of `fmt` with the given sign.
pub fn infinity_bits(fmt: Format, negative: bool) -> (bits: u64)
    ensures
        fmt.holds(bits),
        fmt.decode(bits) == (Number::Infinite { negative }),
{
    if negative {
        fmt.sign_mask() + fmt.infinity()
    } else {
        fmt.infinity()
    }
}

/// The zero of `fmt` with the given sign.
pub fn zero_bits(fmt: Format, negative: bool) -> (bits: u64)
    ensures
        fmt.holds(bits),
        fmt.decode(bits) == (Number::Finite { negative, magnitude: 0 }),
{
    proof {
        lemma_div_mod_unique(0, fmt.hidden() as int, 0, 0);
    }
    if negative {
        fmt.sign_mask()
    } else {
        0
    }
}

/// Takes `bits` apart.
pub fn unpack(fmt: Format, bits: u64) -> (u: Unpacked)
    requires
        fmt.holds(bits),
    ensures
        u.number() == fmt.decode(bits),
        u.fits(fmt),
        u.class != Class::Finite ==> u.mant == 0 && u.shift == 0,
{
    let sign = fmt.sign_mask();
    let negative = bits >= sign;
    let abs = if negative { bits - sign } else { bits };
    let inf = fmt.infinity();
    if abs > inf {
        Unpacked { negative, class: Class::Nan, mant: 0, shift: 0 }
    } else if abs == inf {
        Unpacked { negative, class: Class::Infinite, mant: 0, shift: 0 }
    } else {
        let hidden = fmt.hidden_bit();
        let e = abs / hidden;
        let f = abs % hidden;
        proof {
            lemma_format_powers(fmt);
            lemma2_to64();
            if e == 0 {
                assert(f as nat * pow2(0) == f) by (nonlinear_arith)
                    requires
                        pow2(0) == 1,
                ;
            }
        }
        if e == 0 {
            Unpacked { negative, class: Class::Finite, mant: f, shift: 0 }
        } else {
            Unpacked { negative, class: Class::Finite, mant: hidden + f, shift: (e - 1) as u32 }
        }
    }
}

/// Every finite value of a format is a significand within the precision,
/// shifted within the range, and full wherever the shift is not zero.
pub proof fn lemma_shape(fmt: Format, bits: u64) -> (p: (nat, nat))
    requires
        fmt.holds(bits),
        fmt.abs_of(bits) < fmt.infinity_bits(),
    ensures
        fmt.decode(bits) == (Number::Finite {
            negative: bits >= fmt.sign_bit(),
            magnitude: p.0 * pow2(p.1),
        }),
        p.0 < 2 * fmt.hidden(),
        p.1 <= fmt.max_shift(),
        p.1 == 0 || p.0 >= fmt.hidden(),
        p.0 * pow2(p.1) < fmt.overflow(),
{
    lemma_format_powers(fmt);
    lemma2_to64();
    let abs = fmt.abs_of(bits);
    let mant = fmt.significand_of(abs);
    let shift = fmt.shift_of(abs);
    if abs / fmt.hidden() == 0 {
        assert(mant * pow2(0) == mant) by (nonlinear_arith)
            requires
                pow2(0) == 1,
        ;
    }
    let u = Unpacked { negative: false, class: Class::Finite, mant: mant as u64, shift: shift as u32 };
    lemma_magnitude_bound(fmt, u);
    (mant, shift)
}

} // verus!
