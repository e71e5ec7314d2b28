//! Addition and subtraction of bit patterns.
use vstd::prelude::*;
use vstd::arithmetic::mul::*;
use vstd::arithmetic::power2::*;
use crate::ieee::format::{Format, Number};
use crate::ieee::power::{pow2_u128, width, lemma_width_bounds};
use crate::ieee::round::{round, round_pack, numer, lemma_format_powers};
use crate::ieee::exact::{lemma_rounded_zero, lemma_rounded_exact};
use crate::ieee::sticky::{brackets, lemma_rounded_sticky};
use crate::ieee::unpack::{Class, Unpacked, unpack, nan_bits, zero_bits, lemma_magnitude_bound};
use crate::ieee::sign::{negation, neg};

verus! {

/// A magnitude with its sign, as a whole number of units.
pub open spec fn signed(negative: bool, magnitude: nat) -> int {
    if negative {
        -(magnitude as int)
    } else {
        magnitude as int
    }
}

/// A whole number of units, rounded to the format; nothing keeps the sign
/// it is given.
pub open spec fn round_signed(fmt: Format, s: int, zero_negative: bool) -> Number {
    if s == 0 {
        Number::Finite { negative: zero_negative, magnitude: 0 }
    } else if s < 0 {
        round(fmt, true, (-s) as nat, 1)
    } else {
        round(fmt, false, s as nat, 1)
    }
}

/// The sum of two values, rounded to the format. An exact zero is negative
/// only where both terms are.
pub open spec fn sum(fmt: Format, a: Number, b: Number) -> Number {
    match (a, b) {
        (Number::Nan, _) => Number::Nan,
        (_, Number::Nan) => Number::Nan,
        (Number::Infinite { negative: na }, Number::Infinite { negative: nb }) => {
            if na == nb {
                Number::Infinite { negative: na }
            } else {
                Number::Nan
            }
        },
        (Number::Infinite { negative: na }, Number::Finite { .. }) => Number::Infinite {
            negative: na,
        },
        (Number::Finite { .. }, Number::Infinite { negative: nb }) => Number::Infinite {
            negative: nb,
        },
        (
            Number::Finite { negative: na, magnitude: ma },
            Number::Finite { negative: nb, magnitude: mb },
        ) => round_signed(fmt, signed(na, ma) + signed(nb, mb), na && nb),
    }
}

/// The difference of two values, rounded to the format.
pub open spec fn difference(fmt: Format, a: Number, b: Number) -> Number {
    sum(fmt, a, negation(b))
}

/// Adds two finite values whose shifts differ by no more than 64: the sum
/// is formed exactly, then rounded.
fn add_near(fmt: Format, hi: Unpacked, lo: Unpacked) -> (r: u64)
    requires
        hi.class == Class::Finite,
        lo.class == Class::Finite,
        hi.fits(fmt),
        lo.fits(fmt),
        lo.shift <= hi.shift <= lo.shift + 64,
    ensures
        fmt.holds(r),
        fmt.decode(r) == sum(fmt, hi.number(), lo.number()),
{
    let dsh = hi.shift - lo.shift;
    let scale = pow2_u128(dsh);
    proof {
        lemma_format_powers(fmt);
        lemma2_to64_rest();
        if dsh < 64 {
            lemma_pow2_strictly_increases(dsh as nat, 64);
        }
        assert(hi.mant * scale < 0x40_0000_0000_0000 * 0x1_0000_0000_0000_0000)
            by (nonlinear_arith)
            requires
                hi.mant < 0x40_0000_0000_0000,
                scale <= 0x1_0000_0000_0000_0000,
        ;
        lemma_pow2_adds(dsh as nat, lo.shift as nat);
        lemma_mul_is_associative(hi.mant as int, scale as int, pow2(lo.shift as nat) as int);
        lemma_rounded_zero(fmt, 1);
    }
    let big: u128 = (hi.mant as u128) * scale;
    let small: u128 = lo.mant as u128;
    let ghost unit = pow2(lo.shift as nat);
    assert(hi.magnitude() == big * unit);
    assert(lo.magnitude() == small * unit);
    let e = lo.shift as i32;
    if hi.negative == lo.negative {
        proof {
            lemma_mul_is_distributive_add_other_way(unit as int, big as int, small as int);
            if big + small == 0 {
                lemma_mul_basics(unit as int);
            } else {
                lemma_pow2_pos(lo.shift as nat);
                lemma_mul_strictly_positive((big + small) as int, unit as int);
            }
        }
        round_pack(fmt, hi.negative, big + small, e)
    } else if big > small {
        proof {
            lemma_mul_is_distributive_sub_other_way(unit as int, big as int, small as int);
            lemma_pow2_pos(lo.shift as nat);
            lemma_mul_strictly_positive((big - small) as int, unit as int);
        }
        round_pack(fmt, hi.negative, big - small, e)
    } else if big < small {
        proof {
            lemma_mul_is_distributive_sub_other_way(unit as int, small as int, big as int);
            lemma_pow2_pos(lo.shift as nat);
            lemma_mul_strictly_positive((small - big) as int, unit as int);
        }
        round_pack(fmt, lo.negative, small - big, e)
    } else {
        zero_bits(fmt, false)
    }
}

/// Adds two finite values of which the second, not zero, lies more than 64
/// shifts below the first: it only tells on which side of the first the sum
/// lies.
fn add_far(fmt: Format, hi: Unpacked, lo: Unpacked) -> (r: u64)
    requires
        hi.class == Class::Finite,
        lo.class == Class::Finite,
        hi.fits(fmt),
        lo.fits(fmt),
        hi.shift > lo.shift + 64,
        lo.mant > 0,
    ensures
        fmt.holds(r),
        fmt.decode(r) == sum(fmt, hi.number(), lo.number()),
{
    let j: i32 = hi.shift as i32 - 3;
    let ghost jn = j as nat;
    let ghost g = pow2(jn);
    let ghost big = hi.magnitude();
    let ghost small = lo.magnitude();
    let ghost step = 8 * hi.mant as nat;
    proof {
        lemma_format_powers(fmt);
        lemma2_to64();
        lemma_pow2_pos(jn);
        // the upper term is a whole number of steps
        lemma_pow2_adds(3, jn);
        assert(big == step * g) by (nonlinear_arith)
            requires
                big == hi.mant as nat * pow2(hi.shift as nat),
                pow2(hi.shift as nat) == 8 * g,
                step == 8 * hi.mant as nat,
        ;
        // the lower term is less than one step
        lemma_pow2_adds(fmt.precision(), lo.shift as nat);
        lemma_pow2_pos(lo.shift as nat);
        lemma_mul_strict_inequality(
            lo.mant as int,
            pow2(fmt.precision()) as int,
            pow2(lo.shift as nat) as int,
        );
        lemma_mul_strictly_positive(lo.mant as int, pow2(lo.shift as nat) as int);
        if fmt.precision() + lo.shift < jn {
            lemma_pow2_strictly_increases(fmt.precision() + lo.shift as nat, jn);
        }
        assert(0 < small < g);
    }
    if hi.negative == lo.negative {
        proof {
            let x = step;
            assert(x * g < big + small && big + small < (x + 1) * g) by (nonlinear_arith)
                requires
                    big == x * g,
                    0 < small < g,
            ;
            lemma_mul_basics((x * g) as int);
            lemma_mul_basics(((x + 1) * g) as int);
            lemma_mul_basics((big + small) as int);
            assert(numer(x, j as int) == x * g);
            assert(numer(x + 1, j as int) == (x + 1) * g);
            assert(brackets(big + small, 1, x, j as int));
            lemma_width_bounds(x);
            if width(x) <= fmt.precision() {
                lemma_pow2_strictly_increases(width(x), fmt.precision() + 1);
                lemma_pow2_unfold(fmt.precision() + 1);
            }
            lemma_rounded_sticky(fmt, big + small, 1, x, j as int);
        }
        round_pack(fmt, hi.negative, 16 * (hi.mant as u128) + 1, j - 1)
    } else {
        proof {
            let x = (step - 1) as nat;
            assert(x * g < big - small && big - small < (x + 1) * g) by (nonlinear_arith)
                requires
                    big == (x + 1) * g,
                    0 < small < g,
            ;
            lemma_mul_basics((x * g) as int);
            lemma_mul_basics(((x + 1) * g) as int);
            lemma_mul_basics((big - small) as int);
            assert(numer(x, j as int) == x * g);
            assert(numer(x + 1, j as int) == (x + 1) * g);
            assert(brackets((big - small) as nat, 1, x, j as int));
            lemma_width_bounds(x);
            if width(x) <= fmt.precision() {
                lemma_pow2_strictly_increases(width(x), fmt.precision() + 1);
                lemma_pow2_unfold(fmt.precision() + 1);
            }
            lemma_rounded_sticky(fmt, (big - small) as nat, 1, x, j as int);
        }
        round_pack(fmt, hi.negative, 16 * (hi.mant as u128) - 1, j - 1)
    }
}

/// Adds `b` to `a`.
pub fn add(fmt: Format, a: u64, b: u64) -> (r: u64)
    requires
        fmt.holds(a),
        fmt.holds(b),
    ensures
        fmt.holds(r),
        fmt.decode(r) == sum(fmt, fmt.decode(a), fmt.decode(b)),
{
    let x = unpack(fmt, a);
    let y = unpack(fmt, b);
    match (x.class, y.class) {
        (Class::Nan, _) => nan_bits(fmt),
        (_, Class::Nan) => nan_bits(fmt),
        (Class::Infinite, Class::Infinite) => {
            if x.negative == y.negative {
                a
            } else {
                nan_bits(fmt)
            }
        },
        (Class::Infinite, Class::Finite) => a,
        (Class::Finite, Class::Infinite) => b,
        (Class::Finite, Class::Finite) => {
            proof {
                lemma_format_powers(fmt);
                lemma_rounded_exact(fmt, x.mant as nat, x.shift as nat);
                lemma_rounded_exact(fmt, y.mant as nat, y.shift as nat);
                lemma_magnitude_bound(fmt, x);
                lemma_magnitude_bound(fmt, y);
                lemma_pow2_pos(x.shift as nat);
                lemma_pow2_pos(y.shift as nat);
                lemma_mul_basics(pow2(x.shift as nat) as int);
                lemma_mul_basics(pow2(y.shift as nat) as int);
                if x.mant > 0 {
                    lemma_mul_strictly_positive(x.mant as int, pow2(x.shift as nat) as int);
                }
                if y.mant > 0 {
                    lemma_mul_strictly_positive(y.mant as int, pow2(y.shift as nat) as int);
                }
            }
            if x.shift >= y.shift {
                if x.shift - y.shift <= 64 {
                    add_near(fmt, x, y)
                } else if y.mant == 0 {
                    a
                } else {
                    add_far(fmt, x, y)
                }
            } else {
                if y.shift - x.shift <= 64 {
                    add_near(fmt, y, x)
                } else if x.mant == 0 {
                    b
                } else {
                    add_far(fmt, y, x)
                }
            }
        },
    }
}

/// Takes `b` from `a`.
pub fn sub(fmt: Format, a: u64, b: u64) -> (r: u64)
    requires
        fmt.holds(a),
        fmt.holds(b),
    ensures
        fmt.holds(r),
        fmt.decode(r) == difference(fmt, fmt.decode(a), fmt.decode(b)),
{
    self::add(fmt, a, neg(fmt, b))
}

} // verus!
