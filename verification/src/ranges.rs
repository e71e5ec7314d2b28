//! The range that the measure of a point of the circle has in each unit.
use vstd::prelude::*;
use vstd::arithmetic::mul::*;
use vstd::arithmetic::power2::*;
use crate::ieee::format::{Format, Number};
use crate::ieee::round::lemma_format_powers;
use crate::ieee::exact::lemma_product_below_midpoint;
use crate::ieee::multiply::product;
use crate::ieee::addition::signed;
use crate::constants::{Constant, constant_number};
use crate::circle::{
    canonical, half_turn, pi_significand, pi_shift, lemma_circle_constants, lemma_below_half_turn,
};

verus! {

/// `c` is one of the factors that take radians to another unit.
pub open spec fn is_reading(c: Constant) -> bool {
    c == Constant::RadToDeg || c == Constant::RadToTurns || c == Constant::RadToGrad
}

/// How many of its steps the half circle counts in the unit that `c` leads
/// to: 180 degrees, one half turn, 200 gradians.
pub open spec fn half_circle_count(c: Constant) -> nat {
    match c {
        Constant::RadToDeg => 180,
        Constant::RadToTurns => 1,
        Constant::RadToGrad => 200,
        _ => 0,
    }
}

/// The step that the half circle is counted in, as a power of two of the
/// format's unit: one of the unit that `c` leads to, or half of one turn.
pub open spec fn half_circle_shift(fmt: Format, c: Constant) -> nat {
    match c {
        Constant::RadToTurns => (fmt.scale() - 1) as nat,
        _ => fmt.scale(),
    }
}

/// The measure of the half circle in the unit that `c` leads to, in units of
/// the format: 180 degrees, half a turn, 200 gradians.
pub open spec fn half_circle(fmt: Format, c: Constant) -> nat {
    half_circle_count(c) * pow2(half_circle_shift(fmt, c))
}

/// `x` is not a number, or a measure in the main range of the unit that `c`
/// leads to: above minus the half circle, and at most the half circle.
pub open spec fn in_unit_range(fmt: Format, c: Constant, x: Number) -> bool {
    match x {
        Number::Nan => true,
        Number::Infinite { .. } => false,
        Number::Finite { negative, magnitude } => {
            -half_circle(fmt, c) < signed(negative, magnitude) <= half_circle(fmt, c)
        },
    }
}

/// The significand of the factor `c`.
pub open spec fn factor_significand(fmt: Format, c: Constant) -> nat {
    match (fmt, c) {
        (Format::Binary32, Constant::RadToDeg) => 0xe5_2ee0,
        (Format::Binary32, Constant::RadToTurns) => 0xa2_f983,
        (Format::Binary32, Constant::RadToGrad) => 0xfe_a5dd,
        (Format::Binary64, Constant::RadToDeg) => 0x1c_a5dc_1a63_c1f8,
        (Format::Binary64, Constant::RadToTurns) => 0x14_5f30_6dc9_c883,
        (Format::Binary64, Constant::RadToGrad) => 0x1f_d4bb_ab8b_494c,
        _ => 0,
    }
}

/// The shift of the factor `c`.
pub open spec fn factor_shift(fmt: Format, c: Constant) -> nat {
    match (fmt, c) {
        (Format::Binary32, Constant::RadToDeg) => 131,
        (Format::Binary32, Constant::RadToTurns) => 123,
        (Format::Binary32, Constant::RadToGrad) => 131,
        (Format::Binary64, Constant::RadToDeg) => 1027,
        (Format::Binary64, Constant::RadToTurns) => 1019,
        (Format::Binary64, Constant::RadToGrad) => 1027,
        _ => 0,
    }
}

/// The significand of the half circle in the unit that `c` leads to.
pub open spec fn limit_significand(fmt: Format, c: Constant) -> nat {
    match (fmt, c) {
        (Format::Binary32, Constant::RadToDeg) => 0xb4_0000,
        (Format::Binary32, Constant::RadToTurns) => 0x80_0000,
        (Format::Binary32, Constant::RadToGrad) => 0xc8_0000,
        (Format::Binary64, Constant::RadToDeg) => 0x16_8000_0000_0000,
        (Format::Binary64, Constant::RadToTurns) => 0x10_0000_0000_0000,
        (Format::Binary64, Constant::RadToGrad) => 0x19_0000_0000_0000,
        _ => 0,
    }
}

/// The shift of the half circle in the unit that `c` leads to.
pub open spec fn limit_shift(fmt: Format, c: Constant) -> nat {
    match (fmt, c) {
        (Format::Binary32, Constant::RadToDeg) => 133,
        (Format::Binary32, Constant::RadToTurns) => 125,
        (Format::Binary32, Constant::RadToGrad) => 133,
        (Format::Binary64, Constant::RadToDeg) => 1029,
        (Format::Binary64, Constant::RadToTurns) => 1021,
        (Format::Binary64, Constant::RadToGrad) => 1029,
        _ => 0,
    }
}

/// The significand of the value next below the half circle.
pub open spec fn below_significand(fmt: Format, c: Constant) -> nat {
    match (fmt, c) {
        (Format::Binary32, Constant::RadToDeg) => 0xb3_ffff,
        (Format::Binary32, Constant::RadToTurns) => 0xff_ffff,
        (Format::Binary32, Constant::RadToGrad) => 0xc7_ffff,
        (Format::Binary64, Constant::RadToDeg) => 0x16_7fff_ffff_ffff,
        (Format::Binary64, Constant::RadToTurns) => 0x1f_ffff_ffff_ffff,
        (Format::Binary64, Constant::RadToGrad) => 0x18_ffff_ffff_ffff,
        _ => 0,
    }
}

/// The shift of the value next below the half circle.
pub open spec fn below_shift(fmt: Format, c: Constant) -> nat {
    match (fmt, c) {
        (Format::Binary32, Constant::RadToDeg) => 133,
        (Format::Binary32, Constant::RadToTurns) => 124,
        (Format::Binary32, Constant::RadToGrad) => 133,
        (Format::Binary64, Constant::RadToDeg) => 1029,
        (Format::Binary64, Constant::RadToTurns) => 1020,
        (Format::Binary64, Constant::RadToGrad) => 1029,
        _ => 0,
    }
}

/// How far the exact measure of the half turn stays below the midpoint above
/// the half circle, as a power of two between the two sides compared.
pub open spec fn limit_gap(fmt: Format, c: Constant) -> nat {
    match (fmt, c) {
        (Format::Binary32, Constant::RadToDeg) => 24,
        (Format::Binary32, Constant::RadToTurns) => 24,
        (Format::Binary32, Constant::RadToGrad) => 24,
        (Format::Binary64, Constant::RadToDeg) => 53,
        (Format::Binary64, Constant::RadToTurns) => 53,
        (Format::Binary64, Constant::RadToGrad) => 53,
        _ => 0,
    }
}

/// The same for the value next below the half turn and the value next below
/// the half circle.
pub open spec fn below_gap(fmt: Format, c: Constant) -> nat {
    match (fmt, c) {
        (Format::Binary32, Constant::RadToDeg) => 24,
        (Format::Binary32, Constant::RadToTurns) => 23,
        (Format::Binary32, Constant::RadToGrad) => 24,
        (Format::Binary64, Constant::RadToDeg) => 53,
        (Format::Binary64, Constant::RadToTurns) => 52,
        (Format::Binary64, Constant::RadToGrad) => 53,
        _ => 0,
    }
}

/// The factor `c` is encoded with the significand and the shift that the
/// tables give.
pub proof fn lemma_table_factor(fmt: Format, c: Constant)
    requires
        is_reading(c),
    ensures
        constant_number(fmt, c) == (Number::Finite {
            negative: false,
            magnitude: factor_significand(fmt, c) * pow2(factor_shift(fmt, c)),
        }),
{
}

/// The half circle is the value that the tables give, a full value of the
/// format, and the value next below it is the one they give.
pub proof fn lemma_table_limits(fmt: Format, c: Constant)
    requires
        is_reading(c),
    ensures
        limit_significand(fmt, c) * pow2(limit_shift(fmt, c)) == half_circle(fmt, c),
        below_significand(fmt, c) * pow2(below_shift(fmt, c)) < half_circle(fmt, c),
        fmt.hidden() <= limit_significand(fmt, c) < 2 * fmt.hidden(),
        fmt.hidden() <= below_significand(fmt, c) < 2 * fmt.hidden(),
        half_circle(fmt, c) < fmt.overflow(),
{
    lemma_format_powers(fmt);
    lemma2_to64();
    lemma2_to64_rest();
    let e = limit_shift(fmt, c);
    let pe = pow2(e);
    lemma_pow2_pos(e);
    // the half circle, in steps of its own binade
    let up = (half_circle_shift(fmt, c) - e) as nat;
    let pu = pow2(up);
    lemma_pow2_adds(up, e);
    assert(pu == limit_significand(fmt, c) / half_circle_count(c));
    lemma_times(half_circle_count(c), pu, pe, pow2(half_circle_shift(fmt, c)));
    // the value next below it, in steps of its own, which may be half as wide
    let b = below_shift(fmt, c);
    let pb = pow2(b);
    let low = below_significand(fmt, c);
    let top = limit_significand(fmt, c);
    lemma_pow2_pos(b);
    if b < e {
        lemma_pow2_unfold(e);
        assert(low * pb < top * pe) by (nonlinear_arith)
            requires
                pb > 0,
                pe == 2 * pb,
                low < 2 * top,
        ;
    } else {
        assert(low * pb < top * pe) by (nonlinear_arith)
            requires
                pb > 0,
                pe == pb,
                low < top,
        ;
    }
    lemma_pow2_strictly_increases(e, fmt.max_shift());
    assert(top * pe < 2 * fmt.hidden() * pow2(fmt.max_shift())) by (nonlinear_arith)
        requires
            top < 2 * fmt.hidden(),
            0 < pe < pow2(fmt.max_shift()),
    ;
}

/// The half turn times the factor lies below the midpoint above the half
/// circle, and the value next below the half turn times the factor below
/// the midpoint above the value next below the half circle: compared by
/// their significands, the shifts being set apart.
pub proof fn lemma_table_products(fmt: Format, c: Constant)
    by (nonlinear_arith)
    requires
        is_reading(c),
    ensures
        limit_shift(fmt, c) + fmt.scale() == pi_shift(fmt) + factor_shift(fmt, c) + limit_gap(
            fmt,
            c,
        ),
        below_shift(fmt, c) + fmt.scale() == pi_shift(fmt) + factor_shift(fmt, c) + below_gap(
            fmt,
            c,
        ),
        2 * pi_significand(fmt) * factor_significand(fmt, c) < (2 * limit_significand(fmt, c) + 1)
            * pow2(limit_gap(fmt, c)),
        2 * (pi_significand(fmt) - 1) * factor_significand(fmt, c) < (2 * below_significand(
            fmt,
            c,
        ) + 1) * pow2(below_gap(fmt, c)),
{
    lemma2_to64();
    lemma2_to64_rest();
}

/// `(k * a) * b` is `k * (a * b)`.
proof fn lemma_times(k: nat, a: nat, b: nat, whole: nat)
    requires
        whole == a * b,
    ensures
        (k * a) * b == k * whole,
{
    lemma_mul_is_associative(k as int, a as int, b as int);
}

/// The measure of a point of the circle, read in another unit, lies in the
/// main range of that unit, and is a number wherever the point is.
pub proof fn lemma_reading_in_range(fmt: Format, bits: u64, c: Constant)
    requires
        fmt.holds(bits),
        canonical(fmt, fmt.decode(bits)),
        is_reading(c),
    ensures
        in_unit_range(fmt, c, product(fmt, fmt.decode(bits), constant_number(fmt, c))),
        product(fmt, fmt.decode(bits), constant_number(fmt, c)) is Finite <==> fmt.decode(
            bits,
        ) is Finite,
{
    lemma_table_factor(fmt, c);
    lemma_table_limits(fmt, c);
    lemma_table_products(fmt, c);
    lemma_circle_constants(fmt);
    if let Number::Finite { negative, magnitude } = fmt.decode(bits) {
        let g = pi_shift(fmt);
        let factor = factor_significand(fmt, c);
        let fs = factor_shift(fmt, c);
        if magnitude < half_turn(fmt) {
            lemma_below_half_turn(fmt, bits);
            lemma_product_below_midpoint(
                fmt,
                magnitude,
                (pi_significand(fmt) - 1) as nat,
                g,
                factor,
                fs,
                below_significand(fmt, c),
                below_shift(fmt, c),
                below_gap(fmt, c),
            );
        } else {
            lemma_product_below_midpoint(
                fmt,
                magnitude,
                pi_significand(fmt),
                g,
                factor,
                fs,
                limit_significand(fmt, c),
                limit_shift(fmt, c),
                limit_gap(fmt, c),
            );
        }
    }
}

} // verus!
