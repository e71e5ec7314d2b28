//! The circle: the half and the full turn of each format, the main range,
//! and the one representative that every finite value has in it.
use vstd::prelude::*;
use vstd::arithmetic::div_mod::*;
use vstd::arithmetic::mul::*;
use vstd::arithmetic::power2::*;
use crate::ieee::format::{Format, Number};
use crate::ieee::round::{rounded, lemma_format_powers, lemma_div_mod_unique};
use crate::ieee::exact::{lemma_rounded_exact, lemma_rounded_upper};
use crate::ieee::unpack::lemma_shape;
use crate::ieee::sign::negation;
use crate::ieee::multiply::product;
use crate::ieee::addition::signed;
use crate::ieee::remainder::remainder;
use crate::ieee::compare::{lemma_magnitude_monotone, less};
use crate::constants::{Constant, constant_bits, constant_number};

verus! {

/// The significand of the format's `pi`.
pub open spec fn pi_significand(fmt: Format) -> nat {
    match fmt {
        Format::Binary32 => 0xc9_0fdb,
        Format::Binary64 => 0x19_21fb_5444_2d18,
    }
}

/// The shift of the format's `pi`.
pub open spec fn pi_shift(fmt: Format) -> nat {
    match fmt {
        Format::Binary32 => 127,
        Format::Binary64 => 1023,
    }
}

/// The magnitude of the format's `pi`, in units.
pub open spec fn half_turn(fmt: Format) -> nat {
    pi_significand(fmt) * pow2(pi_shift(fmt))
}

/// The magnitude of the format's `tau`, in units: twice `half_turn`.
pub open spec fn full_turn(fmt: Format) -> nat {
    2 * half_turn(fmt)
}

/// The format's `pi`.
pub open spec fn pi(fmt: Format) -> Number {
    Number::Finite { negative: false, magnitude: half_turn(fmt) }
}

/// The format's `tau`.
pub open spec fn tau(fmt: Format) -> Number {
    Number::Finite { negative: false, magnitude: full_turn(fmt) }
}

/// `x` is not a number, or lies in the main range: above minus `pi`, and at
/// most `pi`.
pub open spec fn canonical(fmt: Format, x: Number) -> bool {
    match x {
        Number::Nan => true,
        Number::Infinite { .. } => false,
        Number::Finite { negative, magnitude } => {
            -half_turn(fmt) < signed(negative, magnitude) <= half_turn(fmt)
        },
    }
}

/// The one whole number of units that differs from `s` by a whole number of
/// full turns and lies in the main range.
pub open spec fn wrap(fmt: Format, s: int) -> int {
    let r = s % (full_turn(fmt) as int);
    if r > half_turn(fmt) {
        r - full_turn(fmt)
    } else {
        r
    }
}

/// The representative of `x` in the main range; a zero keeps the sign of
/// `x`. What is not finite has none, and gives not a number.
pub open spec fn normalized(fmt: Format, x: Number) -> Number {
    match x {
        Number::Finite { negative, magnitude } => {
            let w = wrap(fmt, signed(negative, magnitude));
            if w == 0 {
                Number::Finite { negative, magnitude: 0 }
            } else if w < 0 {
                Number::Finite { negative: true, magnitude: (-w) as nat }
            } else {
                Number::Finite { negative: false, magnitude: w as nat }
            }
        },
        _ => Number::Nan,
    }
}

/// One full turn taken from what lies above `pi`, or added to what lies at
/// or below minus `pi`. For a value within one full turn of zero this is its
/// representative in the main range.
pub open spec fn corrected(fmt: Format, x: Number) -> Number {
    match x {
        Number::Finite { negative, magnitude } => {
            if !negative && magnitude > half_turn(fmt) {
                Number::Finite {
                    negative: magnitude < full_turn(fmt),
                    magnitude: (full_turn(fmt) - magnitude) as nat,
                }
            } else if negative && magnitude >= half_turn(fmt) {
                Number::Finite { negative: false, magnitude: (full_turn(fmt) - magnitude) as nat }
            } else {
                x
            }
        },
        _ => x,
    }
}

/// `x` is not a number, or finite and within one full turn of zero.
pub open spec fn within_a_turn(fmt: Format, x: Number) -> bool {
    match x {
        Number::Nan => true,
        Number::Infinite { .. } => false,
        Number::Finite { magnitude, .. } => magnitude <= full_turn(fmt),
    }
}

/// The circle constants encode the half and the full turn.
pub proof fn lemma_circle_constants(fmt: Format)
    ensures
        fmt.decode(constant_bits(fmt, Constant::Pi)) == pi(fmt),
        fmt.decode(constant_bits(fmt, Constant::Tau)) == tau(fmt),
        fmt.decode(constant_bits(fmt, Constant::TurnsToRad)) == tau(fmt),
        fmt.decode(constant_bits(fmt, Constant::Zero)) == (Number::Finite {
            negative: false,
            magnitude: 0,
        }),
        fmt.decode(constant_bits(fmt, Constant::One)) == (Number::Finite {
            negative: false,
            magnitude: pow2(fmt.scale()),
        }),
        fmt.hidden() <= pi_significand(fmt) < 2 * fmt.hidden(),
        0 < half_turn(fmt),
        full_turn(fmt) == pi_significand(fmt) * pow2(pi_shift(fmt) + 1),
        full_turn(fmt) < fmt.overflow(),
{
    lemma_format_powers(fmt);
    let c = pi_significand(fmt);
    let g = pi_shift(fmt);
    lemma_pow2_unfold(g + 1);
    lemma_pow2_pos(g);
    lemma_mul_strictly_positive(c as int, pow2(g) as int);
    assert(2 * (c * pow2(g)) == c * (2 * pow2(g))) by (nonlinear_arith);
    lemma_pow2_strictly_increases(g + 1, fmt.max_shift());
    assert(c * pow2(g + 1) < 2 * fmt.hidden() * pow2(fmt.max_shift())) by (nonlinear_arith)
        requires
            c < 2 * fmt.hidden(),
            0 < pow2(g + 1) < pow2(fmt.max_shift()),
    ;
    match fmt {
        Format::Binary32 => {
            lemma_one(fmt, 0x3f80_0000, 126);
        },
        Format::Binary64 => {
            lemma_one(fmt, 0x3ff0_0000_0000_0000, 1022);
        },
    }
}

/// The pattern with an empty fraction and the given shift encodes
/// `hidden * 2^shift`.
proof fn lemma_one(fmt: Format, abs: nat, shift: nat)
    requires
        abs == (shift + 1) * fmt.hidden(),
        shift + fmt.precision() == fmt.scale() + 1,
    ensures
        fmt.magnitude_of(abs) == pow2(fmt.scale()),
{
    lemma_format_powers(fmt);
    lemma_div_mod_unique(abs as int, fmt.hidden() as int, (shift + 1) as int, 0);
    lemma_pow2_adds((fmt.precision() - 1) as nat, shift);
}

/// What a value from the half to the full turn lacks to the full turn is
/// itself a value of the format.
pub proof fn lemma_turn_complement(fmt: Format, mant: nat, shift: nat)
    requires
        mant < 2 * fmt.hidden(),
        shift == 0 || mant >= fmt.hidden(),
        half_turn(fmt) <= mant * pow2(shift) <= full_turn(fmt),
    ensures
        rounded(fmt, (full_turn(fmt) - mant * pow2(shift)) as nat, 1) == full_turn(fmt) - mant
            * pow2(shift),
        full_turn(fmt) - mant * pow2(shift) < fmt.overflow(),
{
    lemma_circle_constants(fmt);
    lemma_format_powers(fmt);
    let c = pi_significand(fmt);
    let g = pi_shift(fmt);
    let pg = pow2(g);
    let mag = mant * pow2(shift);
    lemma_pow2_pos(g);
    lemma_pow2_pos(shift);
    // the value lies in the binade of the half turn or above: it is a whole
    // number of steps of that binade
    if shift < g {
        lemma_pow2_unfold(g);
        if shift < g - 1 {
            lemma_pow2_strictly_increases(shift, (g - 1) as nat);
        }
        assert(mag < c * pg) by (nonlinear_arith)
            requires
                mag == mant * pow2(shift),
                mant < 2 * fmt.hidden(),
                c >= fmt.hidden(),
                pg >= 2 * pow2(shift),
                pow2(shift) > 0,
        ;
    }
    let z = (shift - g) as nat;
    lemma_pow2_adds(z, g);
    let steps = mant * pow2(z);
    lemma_mul_is_associative(mant as int, pow2(z) as int, pg as int);
    assert(mag == steps * pg);
    assert(c <= steps <= 2 * c) by (nonlinear_arith)
        requires
            c * pg <= steps * pg,
            steps * pg <= 2 * (c * pg),
            pg > 0,
    ;
    let k = (2 * c - steps) as nat;
    assert(full_turn(fmt) - mag == k * pg) by (nonlinear_arith)
        requires
            full_turn(fmt) == 2 * (c * pg),
            mag == steps * pg,
            k == 2 * c - steps,
    ;
    lemma_rounded_exact(fmt, k, g);
}

/// The remainder of a value by the full turn, corrected, is the value's
/// representative in the main range.
pub proof fn lemma_corrected_remainder(fmt: Format, negative: bool, magnitude: nat)
    ensures
        full_turn(fmt) > 0,
        corrected(
            fmt,
            Number::Finite { negative, magnitude: magnitude % full_turn(fmt) },
        ) == normalized(fmt, Number::Finite { negative, magnitude }),
{
    lemma_circle_constants(fmt);
    let t = full_turn(fmt) as int;
    let m = (magnitude % full_turn(fmt)) as int;
    let q = (magnitude / full_turn(fmt)) as int;
    lemma_fundamental_div_mod(magnitude as int, t);
    if negative {
        if m == 0 {
            assert(-(magnitude as int) == (-q) * t + 0) by (nonlinear_arith)
                requires
                    magnitude == t * q + m,
                    m == 0,
            ;
            lemma_div_mod_unique(-(magnitude as int), t, -q, 0);
        } else {
            assert(-(magnitude as int) == (-q - 1) * t + (t - m)) by (nonlinear_arith)
                requires
                    magnitude == t * q + m,
            ;
            lemma_div_mod_unique(-(magnitude as int), t, -q - 1, t - m);
        }
    }
}

/// Every representative lies in the main range.
pub proof fn lemma_normalized_canonical(fmt: Format, x: Number)
    ensures
        canonical(fmt, normalized(fmt, x)),
{
    lemma_circle_constants(fmt);
    if let Number::Finite { negative, magnitude } = x {
        let s = signed(negative, magnitude);
        let t = full_turn(fmt) as int;
        lemma_mod_bound(s, t);
    }
}

/// What lies in the main range is its own representative.
pub proof fn lemma_normalized_fixed(fmt: Format, x: Number)
    requires
        canonical(fmt, x),
    ensures
        normalized(fmt, x) == x,
{
    lemma_circle_constants(fmt);
    if let Number::Finite { negative, magnitude } = x {
        let s = signed(negative, magnitude);
        let t = full_turn(fmt) as int;
        if s >= 0 {
            lemma_div_mod_unique(s, t, 0, s);
        } else {
            lemma_div_mod_unique(s, t, -1, s + t);
        }
    }
}

/// The format's one.
pub open spec fn one(fmt: Format) -> Number {
    Number::Finite { negative: false, magnitude: pow2(fmt.scale()) }
}

/// The fraction of a turn that a number of turns leaves, taken in radians,
/// lies within one full turn of zero.
pub proof fn lemma_turn_fraction(fmt: Format, turns: Number)
    ensures
        within_a_turn(fmt, product(fmt, remainder(turns, one(fmt)), tau(fmt))),
        turns is Finite ==> product(fmt, remainder(turns, one(fmt)), tau(fmt)) is Finite,
{
    lemma_circle_constants(fmt);
    let u = pow2(fmt.scale());
    lemma_pow2_pos(fmt.scale());
    if let Number::Finite { negative, magnitude } = turns {
        let m = magnitude % u;
        lemma_mod_bound(magnitude as int, u as int);
        let t = full_turn(fmt);
        assert(m * t <= (pi_significand(fmt) * pow2(pi_shift(fmt) + 1)) * u) by (nonlinear_arith)
            requires
                m < u,
                t == pi_significand(fmt) * pow2(pi_shift(fmt) + 1),
        ;
        lemma_rounded_upper(fmt, m * t, u, pi_significand(fmt), pi_shift(fmt) + 1);
    }
}

/// A positive pattern no greater than that of `pi` encodes a value of the
/// main range.
pub proof fn lemma_small_is_canonical(fmt: Format, bits: u64)
    requires
        bits <= constant_bits(fmt, Constant::Pi),
    ensures
        canonical(fmt, fmt.decode(bits)),
{
    lemma_circle_constants(fmt);
    let top = constant_bits(fmt, Constant::Pi);
    if bits < top {
        lemma_magnitude_monotone(fmt, bits as nat, top as nat);
    }
}

/// The correcting step brings what lies within one full turn of zero into
/// the main range, and leaves a number a number.
pub proof fn lemma_corrected_canonical(fmt: Format, x: Number)
    requires
        within_a_turn(fmt, x),
    ensures
        canonical(fmt, corrected(fmt, x)),
        corrected(fmt, x) is Finite <==> x is Finite,
{
    lemma_circle_constants(fmt);
}

/// The factors that take degrees and gradians to radians are positive and
/// less than one.
pub proof fn lemma_factor_below_one(fmt: Format, c: Constant)
    requires
        c == Constant::DegToRad || c == Constant::GradToRad,
    ensures
        constant_number(fmt, c) is Finite,
        !constant_number(fmt, c)->Finite_negative,
        0 < constant_number(fmt, c)->Finite_magnitude < pow2(fmt.scale()),
{
    lemma_circle_constants(fmt);
    let top = constant_bits(fmt, Constant::One);
    let bits = constant_bits(fmt, c);
    lemma_magnitude_monotone(fmt, bits as nat, top as nat);
    lemma_magnitude_monotone(fmt, 0, bits as nat);
}

/// A finite value of the format times a factor of at most one is finite,
/// and no greater.
pub proof fn lemma_product_shrinks(fmt: Format, bits: u64, factor: Number)
    requires
        fmt.holds(bits),
        fmt.decode(bits) is Finite,
        factor is Finite,
        factor->Finite_magnitude <= pow2(fmt.scale()),
    ensures
        product(fmt, fmt.decode(bits), factor) is Finite,
        product(fmt, fmt.decode(bits), factor)->Finite_magnitude <= fmt.decode(
            bits,
        )->Finite_magnitude,
{
    let p = lemma_shape(fmt, bits);
    let x = p.0 * pow2(p.1);
    let f = factor->Finite_magnitude;
    let u = pow2(fmt.scale());
    lemma_pow2_pos(fmt.scale());
    lemma_mul_inequality(f as int, u as int, x as int);
    lemma_mul_is_commutative(f as int, x as int);
    lemma_mul_is_commutative(u as int, x as int);
    lemma_rounded_upper(fmt, x * f, u, p.0, p.1);
}

/// The half turn and its opposite are the same point of the circle.
pub proof fn lemma_minus_pi_is_pi(fmt: Format)
    ensures
        normalized(fmt, negation(pi(fmt))) == pi(fmt),
        normalized(fmt, pi(fmt)) == pi(fmt),
{
    lemma_circle_constants(fmt);
    let t = full_turn(fmt) as int;
    let p = half_turn(fmt) as int;
    lemma_div_mod_unique(-p, t, -1, p);
    lemma_div_mod_unique(p, t, 0, p);
}

/// The values of a format are discrete: one below the half turn is at most
/// the value next below it.
pub proof fn lemma_below_half_turn(fmt: Format, bits: u64)
    requires
        fmt.holds(bits),
        fmt.decode(bits) is Finite,
        fmt.decode(bits)->Finite_magnitude < half_turn(fmt),
    ensures
        fmt.decode(bits)->Finite_magnitude <= (pi_significand(fmt) - 1) * pow2(pi_shift(fmt)),
{
    lemma_circle_constants(fmt);
    lemma_format_powers(fmt);
    let p = lemma_shape(fmt, bits);
    let c = pi_significand(fmt);
    let g = pi_shift(fmt);
    let pg = pow2(g);
    let x = p.0 * pow2(p.1);
    lemma_pow2_pos(g);
    lemma_pow2_pos(p.1);
    if p.1 >= g {
        let z = (p.1 - g) as nat;
        lemma_pow2_adds(z, g);
        let steps = p.0 * pow2(z);
        lemma_mul_is_associative(p.0 as int, pow2(z) as int, pg as int);
        assert(steps * pg <= (c - 1) * pg) by (nonlinear_arith)
            requires
                steps * pg < c * pg,
                pg > 0,
        ;
    } else {
        lemma_pow2_unfold(g);
        if p.1 < g - 1 {
            lemma_pow2_strictly_increases(p.1, (g - 1) as nat);
        }
        assert(x <= (c - 1) * pg) by (nonlinear_arith)
            requires
                x == p.0 * pow2(p.1),
                p.0 < 2 * fmt.hidden(),
                c - 1 >= fmt.hidden(),
                pg >= 2 * pow2(p.1),
                pow2(p.1) > 0,
        ;
    }
}

} // verus!
