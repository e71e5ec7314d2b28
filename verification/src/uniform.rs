//! Ranges of angles to draw from evenly.
//!
//! Nothing here draws: a range holds the two bounds, in radians, of the
//! stretch of numbers to draw from, and turns a number drawn into an angle.
use vstd::prelude::*;
use vstd::arithmetic::mul::*;
use vstd::arithmetic::power2::*;
use crate::ieee::format::{Format, Number};
use crate::ieee::round::{rounded, lemma_format_powers};
use crate::ieee::exact::{
    lemma_product_below_midpoint, lemma_rounded_exact, lemma_rounded_upper, lemma_rounded_zero,
};
use crate::ieee::unpack::lemma_shape;
use crate::ieee::sign::negation;
use crate::ieee::multiply::product;
use crate::ieee::addition::{sum, difference};
use crate::ieee::compare::{less, less_eq};
use crate::scalar::{Float, number};
use crate::circle::{
    canonical, normalized, pi, tau, one, half_turn, full_turn, pi_significand, pi_shift,
    lemma_circle_constants, lemma_normalized_fixed,
};
use crate::angle::Angle;
use crate::unbounded::AngleUnbounded;

verus! {

/// There is nothing between the bounds to draw.
#[derive(PartialEq, Eq, Structural, Clone, Copy, Debug)]
pub struct EmptyRange;

/// The upper bound of the stretch from `low` round the circle to `high`: one
/// full turn is added to a `high` that lies below `low`.
pub open spec fn unrolled<F: Float>(low: Angle<F>, high: Angle<F>) -> Number {
    if less(high@, low@) {
        sum(F::format(), high@, tau(F::format()))
    } else {
        high@
    }
}

/// The arc that leads from one point of the circle to another,
/// counterclockwise.
#[derive(Copy, Debug)]
pub struct UniformAngle<F: Float> {
    low: F,
    high: F,
}

impl<F: Float> Clone for UniformAngle<F> {
    fn clone(&self) -> (r: Self)
        ensures
            r == *self,
    {
        *self
    }
}

impl<F: Float> UniformAngle<F> {
    /// The bound to draw from, in radians.
    pub closed spec fn low_spec(self) -> F {
        self.low
    }

    /// The bound to draw up to, in radians.
    pub closed spec fn high_spec(self) -> F {
        self.high
    }

    /// The upper bound for the arc from `low` round to `high`.
    fn unroll(low: Angle<F>, high: Angle<F>) -> (r: F)
        ensures
            number(r) == unrolled(low, high),
    {
        proof {
            lemma_circle_constants(F::format());
        }
        if low.to_radians().gt(high.to_radians()) {
            high.to_radians().add(F::tau())
        } else {
            high.to_radians()
        }
    }

    /// The arc from `low` to `high`, without `high`. It is empty where the
    /// two are the same point, or one is not a number.
    pub fn new(low: Angle<F>, high: Angle<F>) -> (r: Result<Self, EmptyRange>)
        ensures
            r is Ok <==> less(low@, unrolled(low, high)),
            r matches Ok(u) ==> u.low_spec() == low.radians() && number(u.high_spec()) == unrolled(
                low,
                high,
            ),
    {
        let top = Self::unroll(low, high);
        if low.to_radians().lt(top) {
            Ok(UniformAngle { low: low.to_radians(), high: top })
        } else {
            Err(EmptyRange)
        }
    }

    /// The arc from `low` to `high`, with `high`. It is empty only where one
    /// of the two is not a number.
    pub fn new_inclusive(low: Angle<F>, high: Angle<F>) -> (r: Result<Self, EmptyRange>)
        ensures
            r is Ok <==> less_eq(low@, unrolled(low, high)),
            r matches Ok(u) ==> u.low_spec() == low.radians() && number(u.high_spec()) == unrolled(
                low,
                high,
            ),
    {
        let top = Self::unroll(low, high);
        if low.to_radians().le(top) {
            Ok(UniformAngle { low: low.to_radians(), high: top })
        } else {
            Err(EmptyRange)
        }
    }

    /// The bound to draw from, in radians.
    pub fn low(&self) -> (r: F)
        ensures
            r == self.low_spec(),
    {
        self.low
    }

    /// The bound to draw up to, in radians; it may lie up to one full turn
    /// above the main range.
    pub fn high(&self) -> (r: F)
        ensures
            r == self.high_spec(),
    {
        self.high
    }

    /// The angle for `x`, a number drawn between the bounds.
    pub fn sample(&self, x: F) -> (r: Angle<F>)
        ensures
            r@ == normalized(F::format(), number(x)),
    {
        Angle::from_radians(x)
    }
}

/// The stretch of displacements from one to another.
#[derive(Copy, Debug)]
pub struct UniformAngleUnbounded<F: Float> {
    low: F,
    high: F,
}

impl<F: Float> Clone for UniformAngleUnbounded<F> {
    fn clone(&self) -> (r: Self)
        ensures
            r == *self,
    {
        *self
    }
}

impl<F: Float> UniformAngleUnbounded<F> {
    /// The bound to draw from, in radians.
    pub closed spec fn low_spec(self) -> F {
        self.low
    }

    /// The bound to draw up to, in radians.
    pub closed spec fn high_spec(self) -> F {
        self.high
    }

    /// The stretch from `low` to `high`, without `high`. It is empty unless
    /// `low` is less than `high`, and without end where a bound is infinite:
    /// neither can be drawn from.
    pub fn new(low: AngleUnbounded<F>, high: AngleUnbounded<F>) -> (r: Result<Self, EmptyRange>)
        ensures
            r is Ok <==> less(low@, high@) && low@ is Finite && high@ is Finite,
            r matches Ok(u) ==> u.low_spec() == low.radians() && u.high_spec() == high.radians(),
    {
        let a = low.to_radians();
        let b = high.to_radians();
        if a.lt(b) && a.is_finite() && b.is_finite() {
            Ok(UniformAngleUnbounded { low: a, high: b })
        } else {
            Err(EmptyRange)
        }
    }

    /// The stretch from `low` to `high`, with `high`. It is empty unless
    /// `low` is at most `high`, and without end where a bound is infinite:
    /// neither can be drawn from.
    pub fn new_inclusive(low: AngleUnbounded<F>, high: AngleUnbounded<F>) -> (r: Result<
        Self,
        EmptyRange,
    >)
        ensures
            r is Ok <==> less_eq(low@, high@) && low@ is Finite && high@ is Finite,
            r matches Ok(u) ==> u.low_spec() == low.radians() && u.high_spec() == high.radians(),
    {
        let a = low.to_radians();
        let b = high.to_radians();
        if a.le(b) && a.is_finite() && b.is_finite() {
            Ok(UniformAngleUnbounded { low: a, high: b })
        } else {
            Err(EmptyRange)
        }
    }

    /// The bound to draw from, in radians.
    pub fn low(&self) -> (r: F)
        ensures
            r == self.low_spec(),
    {
        self.low
    }

    /// The bound to draw up to, in radians.
    pub fn high(&self) -> (r: F)
        ensures
            r == self.high_spec(),
    {
        self.high
    }

    /// The angle for `x`, a number drawn between the bounds.
    pub fn sample(&self, x: F) -> (r: AngleUnbounded<F>)
        ensures
            r.radians() == x,
    {
        AngleUnbounded::from_radians(x)
    }
}

/// Where `x` lands when the stretch from zero to one is laid round the
/// circle, zero on the half turn and the rest clockwise from there.
pub open spec fn spread(fmt: Format, x: Number) -> Number {
    negation(difference(fmt, product(fmt, x, tau(fmt)), pi(fmt)))
}

/// `x` is a number from zero up to one, without one.
pub open spec fn in_unit_interval(fmt: Format, x: Number) -> bool {
    less_eq(Number::Finite { negative: false, magnitude: 0 }, x) && less(x, one(fmt))
}

/// Every number from zero up to one, without one, is spread into the main
/// range: nothing is left to reduce.
pub proof fn lemma_spread_canonical(fmt: Format, bits: u64)
    requires
        fmt.holds(bits),
        in_unit_interval(fmt, fmt.decode(bits)),
    ensures
        canonical(fmt, spread(fmt, fmt.decode(bits))),
        spread(fmt, fmt.decode(bits)) is Finite,
{
    lemma_circle_constants(fmt);
    lemma_format_powers(fmt);
    let c = pi_significand(fmt);
    let g = pi_shift(fmt);
    let h = fmt.hidden();
    let x = fmt.decode(bits)->Finite_magnitude;
    let negative = fmt.decode(bits)->Finite_negative;
    let p = lemma_shape(fmt, bits);
    // the number is at most the value next below one
    let below = (fmt.scale() + 1 - fmt.precision()) as nat;
    lemma_pow2_adds((fmt.precision() - 1) as nat, below);
    lemma_pow2_pos(below);
    lemma_pow2_pos(p.1);
    if p.1 > below {
        lemma_pow2_unfold(p.1);
        if p.1 - 1 > below {
            lemma_pow2_strictly_increases(below, (p.1 - 1) as nat);
        }
        assert(p.0 * pow2(p.1) >= h * pow2(below)) by (nonlinear_arith)
            requires
                p.0 >= h,
                pow2(p.1) >= pow2(below),
        ;
    } else if p.1 == below {
        assert(p.0 < h) by (nonlinear_arith)
            requires
                p.0 * pow2(below) < h * pow2(below),
        ;
    }
    assert(p.1 < below);
    lemma_pow2_unfold(below);
    if p.1 + 1 < below {
        lemma_pow2_strictly_increases(p.1, (below - 1) as nat);
    }
    let under = (below - 1) as nat;
    assert(x <= (2 * h - 1) * pow2(under)) by (nonlinear_arith)
        requires
            x == p.0 * pow2(p.1),
            p.0 <= 2 * h - 1,
            0 < pow2(p.1) <= pow2(under),
    ;
    // so its share of the full turn stays one step below the full turn
    assert(2 * (2 * h - 1) * c < (2 * (c - 1) + 1) * (2 * h)) by (nonlinear_arith)
        requires
            c > h,
            h > 0,
    ;
    lemma_product_below_midpoint(
        fmt,
        x,
        (2 * h - 1) as nat,
        under,
        c,
        g + 1,
        (c - 1) as nat,
        g + 1,
        fmt.precision(),
    );
    let share = rounded(fmt, x * full_turn(fmt), pow2(fmt.scale()));
    lemma_pow2_unfold(g + 1);
    lemma_pow2_pos(g);
    assert((c - 1) * pow2(g + 1) == full_turn(fmt) - 2 * pow2(g)) by (nonlinear_arith)
        requires
            full_turn(fmt) == c * pow2(g + 1),
            pow2(g + 1) == 2 * pow2(g),
    ;
    assert(share <= full_turn(fmt) - 2 * pow2(g));
    if negative {
        lemma_mul_basics(full_turn(fmt) as int);
        lemma_rounded_zero(fmt, pow2(fmt.scale()));
        lemma_rounded_exact(fmt, c, g);
    } else if share < half_turn(fmt) {
        lemma_mul_basics((half_turn(fmt) - share) as int);
        lemma_mul_basics((c * pow2(g)) as int);
        lemma_rounded_upper(fmt, (half_turn(fmt) - share) as nat, 1, c, g);
    } else if share > half_turn(fmt) {
        assert(share - half_turn(fmt) <= (c - 2) * pow2(g)) by (nonlinear_arith)
            requires
                share <= full_turn(fmt) - 2 * pow2(g),
                full_turn(fmt) == 2 * half_turn(fmt),
                half_turn(fmt) == c * pow2(g),
        ;
        lemma_mul_basics((share - half_turn(fmt)) as int);
        lemma_mul_basics(((c - 2) * pow2(g)) as int);
        lemma_rounded_upper(fmt, (share - half_turn(fmt)) as nat, 1, (c - 2) as nat, g);
        assert((c - 2) * pow2(g) < c * pow2(g)) by (nonlinear_arith)
            requires
                pow2(g) > 0,
        ;
    }
}

/// The point of the circle for `x`, a number drawn from zero up to one,
/// without one: the numbers are spread over the main range, zero on the half
/// turn. Such a number lands in the main range as it is; any other is
/// brought there.
pub fn on_circle<F: Float>(x: F) -> (r: Angle<F>)
    ensures
        r@ == normalized(F::format(), spread(F::format(), number(x))),
        in_unit_interval(F::format(), number(x)) ==> r@ == spread(F::format(), number(x)) && r@
            is Finite,
        r.is_canonical(),
{
    proof {
        let fmt = F::format();
        lemma_circle_constants(fmt);
        x.lemma_held();
        if in_unit_interval(fmt, number(x)) {
            lemma_spread_canonical(fmt, x.bits());
            lemma_normalized_fixed(fmt, spread(fmt, number(x)));
        }
    }
    Angle::from_radians(x.mul(F::tau()).sub(F::pi()).neg())
}

} // verus!
