//! Division of bit patterns.
use vstd::prelude::*;
use vstd::arithmetic::div_mod::*;
use vstd::arithmetic::mul::*;
use vstd::arithmetic::power2::*;
use crate::ieee::format::{Format, Number};
use crate::ieee::power::{bit_length, pow2_u128, width, lemma_width_bounds, lemma_width_shift};
use crate::ieee::round::{round, round_pack, numer, denom, lemma_format_powers};
use crate::ieee::exact::{lemma_rounded_zero, lemma_cross, lemma_rounded_same_ratio};
use crate::ieee::sticky::{brackets, lemma_rounded_sticky, lemma_floor_bounds};
use crate::ieee::unpack::{Class, Unpacked, unpack, nan_bits, infinity_bits, zero_bits};

verus! {

/// The quotient of two values, rounded to the format.
pub open spec fn quotient(fmt: Format, a: Number, b: Number) -> Number {
    match (a, b) {
        (Number::Nan, _) => Number::Nan,
        (_, Number::Nan) => Number::Nan,
        (Number::Infinite { .. }, Number::Infinite { .. }) => Number::Nan,
        (Number::Infinite { negative: na }, Number::Finite { negative: nb, .. }) => {
            Number::Infinite { negative: na != nb }
        },
        (Number::Finite { negative: na, .. }, Number::Infinite { negative: nb }) => {
            Number::Finite { negative: na != nb, magnitude: 0 }
        },
        (
            Number::Finite { negative: na, magnitude: ma },
            Number::Finite { negative: nb, magnitude: mb },
        ) => {
            if mb != 0 {
                round(fmt, na != nb, ma * pow2(fmt.scale()), mb)
            } else if ma != 0 {
                Number::Infinite { negative: na != nb }
            } else {
                Number::Nan
            }
        },
    }
}

/// Divides the finite `x` by the finite, non-zero `y`.
fn div_finite(fmt: Format, x: Unpacked, y: Unpacked) -> (r: u64)
    requires
        x.class == Class::Finite,
        y.class == Class::Finite,
        x.fits(fmt),
        y.fits(fmt),
        y.mant != 0,
    ensures
        fmt.holds(r),
        fmt.decode(r) == round(
            fmt,
            x.negative != y.negative,
            x.magnitude() * pow2(fmt.scale()),
            y.magnitude(),
        ),
{
    let negative = x.negative != y.negative;
    let ghost d = y.magnitude();
    let ghost up = (x.shift + fmt.scale()) as nat;
    proof {
        lemma_format_powers(fmt);
        lemma_pow2_pos(y.shift as nat);
        lemma_mul_strictly_positive(y.mant as int, pow2(y.shift as nat) as int);
        lemma_pow2_adds(x.shift as nat, fmt.scale());
        lemma_mul_is_associative(
            x.mant as int,
            pow2(x.shift as nat) as int,
            pow2(fmt.scale()) as int,
        );
    }
    let ghost n = x.mant as nat * pow2(up);
    assert(n == x.magnitude() * pow2(fmt.scale()));
    if x.mant == 0 {
        proof {
            lemma_mul_basics(pow2(up) as int);
            lemma_rounded_zero(fmt, d);
        }
        return zero_bits(fmt, negative);
    }
    let p = fmt.significand_bits();
    let wa = bit_length(x.mant as u128);
    proof {
        lemma_width_bounds(x.mant as nat);
        if wa > p {
            if wa - 1 > p {
                lemma_pow2_strictly_increases(p as nat, (wa - 1) as nat);
            }
        }
    }
    let sh: u32 = 2 * p + 3 - wa;
    let scale = pow2_u128(sh);
    proof {
        lemma_width_shift(x.mant as nat, sh as nat);
        lemma_width_bounds(x.mant as nat * pow2(sh as nat));
        lemma_pow2_strictly_increases((2 * p + 3) as nat, 127);
        lemma2_to64_rest();
        lemma_pow2_adds(64, 63);
    }
    let num: u128 = (x.mant as u128) * scale;
    let q = num / (y.mant as u128);
    let r = num % (y.mant as u128);
    let j: i32 = (x.shift as i32 + fmt.unit_scale() as i32) - (sh as i32 + y.shift as i32);
    proof {
        lemma_fundamental_div_mod(num as int, y.mant as int);
        lemma_mul_is_commutative(q as int, y.mant as int);
    }
    let ghost c = lemma_cross(
        q as nat,
        y.mant as nat,
        y.shift as nat,
        x.mant as nat,
        sh as nat,
        up,
    );
    if r == 0 {
        proof {
            lemma_rounded_same_ratio(fmt, n, d, numer(q as nat, j as int), denom(j as int));
        }
        round_pack(fmt, negative, q, j)
    } else {
        let ghost c1 = lemma_cross(
            (q + 1) as nat,
            y.mant as nat,
            y.shift as nat,
            x.mant as nat,
            sh as nat,
            up,
        );
        proof {
            let qb = q as nat * y.mant as nat;
            let q1b = (q + 1) as nat * y.mant as nat;
            assert(qb < num && num < q1b) by (nonlinear_arith)
                requires
                    num == y.mant * q + r,
                    0 < r < y.mant,
                    qb == q * y.mant,
                    q1b == (q + 1) * y.mant,
            ;
            lemma_mul_strict_inequality(qb as int, num as int, c as int);
            lemma_mul_strict_inequality(num as int, q1b as int, c1 as int);
            assert(brackets(n, d, q as nat, j as int));
            // the quotient is wider than the precision
            let lo = pow2((p + 1) as nat);
            lemma_pow2_adds((p + 1) as nat, (p + 1) as nat);
            lemma_pow2_unfold((p + 1) as nat);
            assert(lo * y.mant <= num) by (nonlinear_arith)
                requires
                    num >= lo * lo,
                    y.mant <= lo,
                    lo > 0,
            ;
            assert(num < (num + 1) * y.mant) by (nonlinear_arith)
                requires
                    y.mant >= 1,
            ;
            lemma_floor_bounds(num as nat, y.mant as nat, lo, (num + 1) as nat);
            lemma_width_bounds(q as nat);
            if width(q as nat) <= p {
                lemma_pow2_strictly_increases(width(q as nat), (p + 1) as nat);
            }
            lemma_rounded_sticky(fmt, n, d, q as nat, j as int);
        }
        round_pack(fmt, negative, 2 * q + 1, j - 1)
    }
}

/// Divides `a` by `b`.
pub fn div(fmt: Format, a: u64, b: u64) -> (r: u64)
    requires
        fmt.holds(a),
        fmt.holds(b),
    ensures
        fmt.holds(r),
        fmt.decode(r) == quotient(fmt, fmt.decode(a), fmt.decode(b)),
{
    let x = unpack(fmt, a);
    let y = unpack(fmt, b);
    let negative = x.negative != y.negative;
    match (x.class, y.class) {
        (Class::Nan, _) => nan_bits(fmt),
        (_, Class::Nan) => nan_bits(fmt),
        (Class::Infinite, Class::Infinite) => nan_bits(fmt),
        (Class::Infinite, Class::Finite) => infinity_bits(fmt, negative),
        (Class::Finite, Class::Infinite) => zero_bits(fmt, negative),
        (Class::Finite, Class::Finite) => {
            proof {
                lemma_pow2_pos(x.shift as nat);
                lemma_pow2_pos(y.shift as nat);
                lemma_mul_nonzero(x.mant as int, pow2(x.shift as nat) as int);
                lemma_mul_nonzero(y.mant as int, pow2(y.shift as nat) as int);
            }
            if y.mant != 0 {
                div_finite(fmt, x, y)
            } else if x.mant != 0 {
                infinity_bits(fmt, negative)
            } else {
                nan_bits(fmt)
            }
        },
    }
}

} // verus!
