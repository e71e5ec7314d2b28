//! Multiplication of bit patterns.
use vstd::prelude::*;
use vstd::arithmetic::mul::*;
use vstd::arithmetic::power2::*;
use crate::ieee::format::{Format, Number};
use crate::ieee::round::{round, round_pack, lemma_format_powers};
use crate::ieee::exact::lemma_round_shifted;
use crate::ieee::unpack::{Class, unpack, nan_bits, infinity_bits};

verus! {

/// The product of two values, rounded to the format.
pub open spec fn product(fmt: Format, a: Number, b: Number) -> Number {
    match (a, b) {
        (Number::Nan, _) => Number::Nan,
        (_, Number::Nan) => Number::Nan,
        (Number::Infinite { negative: na }, Number::Infinite { negative: nb }) => Number::Infinite {
            negative: na != nb,
        },
        (Number::Infinite { negative: na }, Number::Finite { negative: nb, magnitude }) => {
            if magnitude == 0 {
                Number::Nan
            } else {
                Number::Infinite { negative: na != nb }
            }
        },
        (Number::Finite { negative: na, magnitude }, Number::Infinite { negative: nb }) => {
            if magnitude == 0 {
                Number::Nan
            } else {
                Number::Infinite { negative: na != nb }
            }
        },
        (
            Number::Finite { negative: na, magnitude: ma },
            Number::Finite { negative: nb, magnitude: mb },
        ) => round(fmt, na != nb, ma * mb, pow2(fmt.scale())),
    }
}

/// A product of two magnitudes is the product of the significands, shifted
/// by both shifts.
pub proof fn lemma_magnitude_product(am: nat, ash: nat, bm: nat, bsh: nat)
    ensures
        (am * pow2(ash)) * (bm * pow2(bsh)) == (am * bm) * pow2(ash + bsh),
{
    lemma_pow2_adds(ash, bsh);
    assert((am * pow2(ash)) * (bm * pow2(bsh)) == (am * bm) * (pow2(ash) * pow2(bsh)))
        by (nonlinear_arith);
}

/// Multiplies `a` by `b`.
pub fn mul(fmt: Format, a: u64, b: u64) -> (r: u64)
    requires
        fmt.holds(a),
        fmt.holds(b),
    ensures
        fmt.holds(r),
        fmt.decode(r) == product(fmt, fmt.decode(a), fmt.decode(b)),
{
    let x = unpack(fmt, a);
    let y = unpack(fmt, b);
    let negative = x.negative != y.negative;
    match (x.class, y.class) {
        (Class::Nan, _) => nan_bits(fmt),
        (_, Class::Nan) => nan_bits(fmt),
        (Class::Infinite, Class::Infinite) => infinity_bits(fmt, negative),
        (Class::Infinite, Class::Finite) => {
            proof {
                lemma_pow2_pos(y.shift as nat);
                lemma_mul_nonzero(y.mant as int, pow2(y.shift as nat) as int);
            }
            if y.mant == 0 {
                nan_bits(fmt)
            } else {
                infinity_bits(fmt, negative)
            }
        },
        (Class::Finite, Class::Infinite) => {
            proof {
                lemma_pow2_pos(x.shift as nat);
                lemma_mul_nonzero(x.mant as int, pow2(x.shift as nat) as int);
            }
            if x.mant == 0 {
                nan_bits(fmt)
            } else {
                infinity_bits(fmt, negative)
            }
        },
        (Class::Finite, Class::Finite) => {
            proof {
                lemma_format_powers(fmt);
                assert(x.mant * y.mant < 0x40_0000_0000_0000 * 0x40_0000_0000_0000)
                    by (nonlinear_arith)
                    requires
                        x.mant < 0x40_0000_0000_0000,
                        y.mant < 0x40_0000_0000_0000,
                ;
                lemma_magnitude_product(
                    x.mant as nat,
                    x.shift as nat,
                    y.mant as nat,
                    y.shift as nat,
                );
                lemma_round_shifted(
                    fmt,
                    negative,
                    x.mant as nat * y.mant as nat,
                    (x.shift + y.shift) as nat,
                    fmt.scale(),
                );
            }
            let m: u128 = (x.mant as u128) * (y.mant as u128);
            let e: i32 = (x.shift + y.shift) as i32 - fmt.unit_scale() as i32;
            round_pack(fmt, negative, m, e)
        },
    }
}

} // verus!
