//! Angles as points of the circle: every value is held in the main range.
use vstd::prelude::*;
use vstd::arithmetic::div_mod::*;
use crate::ieee::format::Number;
use crate::ieee::unpack::lemma_shape;
use crate::ieee::sign::negation;
use crate::ieee::multiply::product;
use crate::ieee::divide::quotient;
use crate::ieee::addition::{sum, difference};
use crate::ieee::remainder::remainder;
use crate::ieee::compare::equal;
use crate::constants::{Constant, constant_number, constant_bits};
use crate::scalar::{Float, number};
use crate::circle::{
    canonical, normalized, corrected, within_a_turn, half_turn, full_turn, pi, tau,
    lemma_circle_constants, lemma_turn_complement, lemma_corrected_remainder, lemma_turn_fraction,
    lemma_small_is_canonical, lemma_normalized_canonical, lemma_corrected_canonical,
    lemma_factor_below_one, lemma_product_shrinks, one,
};
use crate::ranges::{in_unit_range, lemma_reading_in_range};
use crate::unbounded::AngleUnbounded;

verus! {

/// A point of the circle, held as its measure in radians in the main range.
#[derive(Copy, Debug)]
pub struct Angle<F: Float> {
    radians: F,
}

impl<F: Float> Clone for Angle<F> {
    fn clone(&self) -> (r: Self)
        ensures
            r == *self,
    {
        *self
    }
}

impl<F: Float> View for Angle<F> {
    type V = Number;

    /// The measure in radians, as a value.
    open spec fn view(&self) -> Number {
        number(self.radians())
    }
}

impl<F: Float> Angle<F> {
    /// The measure in radians, as stored.
    pub closed spec fn radians(self) -> F {
        self.radians
    }

    /// The measure is not a number, or lies in the main range.
    pub open spec fn is_canonical(self) -> bool {
        canonical(F::format(), self@)
    }

    #[verifier::type_invariant]
    spec fn main_range(self) -> bool {
        canonical(F::format(), number(self.radians))
    }

    /// The angle of `radians` radians, which must lie in the main range or
    /// be not a number: nothing is reduced.
    pub fn from_radians_unchecked(radians: F) -> (r: Self)
        requires
            canonical(F::format(), number(radians)),
        ensures
            r.radians() == radians,
    {
        Angle { radians }
    }

    /// The angle of `radians` radians, which must lie within one full turn
    /// of zero or be not a number: one correcting step brings it into the
    /// main range.
    fn from_radians_partially_unchecked(radians: F) -> (r: Self)
        requires
            within_a_turn(F::format(), number(radians)),
        ensures
            r@ == corrected(F::format(), number(radians)),
            r.is_canonical(),
            r@ is Finite <==> number(radians) is Finite,
    {
        let pi = F::pi();
        let tau = F::tau();
        proof {
            let fmt = F::format();
            lemma_circle_constants(fmt);
            lemma_corrected_canonical(fmt, number(radians));
            radians.lemma_held();
            if let Number::Finite { negative, magnitude } = number(radians) {
                let p = lemma_shape(fmt, radians.bits());
                if half_turn(fmt) <= magnitude {
                    lemma_turn_complement(fmt, p.0, p.1);
                }
            }
        }
        let value = if radians.gt(pi) {
            radians.sub(tau)
        } else if radians.le(pi.neg()) {
            radians.add(tau)
        } else {
            radians
        };
        Angle { radians: value }
    }

    /// The angle of `radians` radians.
    pub fn from_radians(radians: F) -> (r: Self)
        ensures
            r@ == normalized(F::format(), number(radians)),
            r.is_canonical(),
            r@ is Finite <==> number(radians) is Finite,
    {
        let rest = radians.rem(F::tau());
        proof {
            let fmt = F::format();
            lemma_circle_constants(fmt);
            lemma_normalized_canonical(fmt, number(radians));
            if let Number::Finite { negative, magnitude } = number(radians) {
                lemma_corrected_remainder(fmt, negative, magnitude);
                lemma_mod_bound(magnitude as int, full_turn(fmt) as int);
            }
        }
        Self::from_radians_partially_unchecked(rest)
    }

    /// The angle of `degrees` degrees.
    pub fn from_degrees(degrees: F) -> (r: Self)
        ensures
            r@ == normalized(
                F::format(),
                product(
                    F::format(),
                    number(degrees),
                    constant_number(F::format(), Constant::DegToRad),
                ),
            ),
            r.is_canonical(),
            r@ is Finite <==> number(degrees) is Finite,
    {
        proof {
            let fmt = F::format();
            degrees.lemma_held();
            lemma_factor_below_one(fmt, Constant::DegToRad);
            if number(degrees) is Finite {
                lemma_product_shrinks(
                    fmt,
                    degrees.bits(),
                    constant_number(fmt, Constant::DegToRad),
                );
            }
        }
        Self::from_radians(degrees.mul(F::deg_to_rad()))
    }

    /// The angle of `turns` turns. The whole turns are dropped before the
    /// rest is taken in radians, so that no finite number of turns is lost
    /// to overflow.
    pub fn from_turns(turns: F) -> (r: Self)
        ensures
            r@ == corrected(
                F::format(),
                product(F::format(), remainder(number(turns), one(F::format())), tau(F::format())),
            ),
            r.is_canonical(),
            r@ is Finite <==> number(turns) is Finite,
    {
        proof {
            lemma_circle_constants(F::format());
            lemma_turn_fraction(F::format(), number(turns));
        }
        Self::from_radians_partially_unchecked(turns.rem(F::one()).mul(F::turns_to_rad()))
    }

    /// The angle of `gradians` gradians.
    pub fn from_gradians(gradians: F) -> (r: Self)
        ensures
            r@ == normalized(
                F::format(),
                product(
                    F::format(),
                    number(gradians),
                    constant_number(F::format(), Constant::GradToRad),
                ),
            ),
            r.is_canonical(),
            r@ is Finite <==> number(gradians) is Finite,
    {
        proof {
            let fmt = F::format();
            gradians.lemma_held();
            lemma_factor_below_one(fmt, Constant::GradToRad);
            if number(gradians) is Finite {
                lemma_product_shrinks(
                    fmt,
                    gradians.bits(),
                    constant_number(fmt, Constant::GradToRad),
                );
            }
        }
        Self::from_radians(gradians.mul(F::grad_to_rad()))
    }

    /// The measure in radians: not a number, or in the main range.
    pub fn to_radians(self) -> (r: F)
        ensures
            r == self.radians(),
            canonical(F::format(), number(r)),
    {
        proof {
            use_type_invariant(&self);
        }
        self.radians
    }

    /// The measure in degrees: not a number, or above minus 180 and at most 180.
    pub fn to_degrees(self) -> (r: F)
        ensures
            number(r) == product(
                F::format(),
                self@,
                constant_number(F::format(), Constant::RadToDeg),
            ),
            in_unit_range(F::format(), Constant::RadToDeg, number(r)),
            number(r) is Finite <==> self@ is Finite,
    {
        proof {
            use_type_invariant(&self);
            self.radians.lemma_held();
            lemma_reading_in_range(F::format(), self.radians.bits(), Constant::RadToDeg);
        }
        self.radians.mul(F::rad_to_deg())
    }

    /// The measure in turns: not a number, or above minus one half and at most one half.
    pub fn to_turns(self) -> (r: F)
        ensures
            number(r) == product(
                F::format(),
                self@,
                constant_number(F::format(), Constant::RadToTurns),
            ),
            in_unit_range(F::format(), Constant::RadToTurns, number(r)),
            number(r) is Finite <==> self@ is Finite,
    {
        proof {
            use_type_invariant(&self);
            self.radians.lemma_held();
            lemma_reading_in_range(F::format(), self.radians.bits(), Constant::RadToTurns);
        }
        self.radians.mul(F::rad_to_turns())
    }

    /// The measure in gradians: not a number, or above minus 200 and at most 200.
    pub fn to_gradians(self) -> (r: F)
        ensures
            number(r) == product(
                F::format(),
                self@,
                constant_number(F::format(), Constant::RadToGrad),
            ),
            in_unit_range(F::format(), Constant::RadToGrad, number(r)),
            number(r) is Finite <==> self@ is Finite,
    {
        proof {
            use_type_invariant(&self);
            self.radians.lemma_held();
            lemma_reading_in_range(F::format(), self.radians.bits(), Constant::RadToGrad);
        }
        self.radians.mul(F::rad_to_grad())
    }

    /// Whether the angle is not a number.
    pub fn is_nan(self) -> (r: bool)
        ensures
            r == (self@ == Number::Nan),
    {
        self.radians.is_nan()
    }

    /// The same angle as a displacement within the main range.
    pub fn to_unbounded(self) -> (r: AngleUnbounded<F>)
        ensures
            r.radians() == self.radians(),
    {
        AngleUnbounded::from_radians(self.radians)
    }
}

impl<F: Float> Angle<F> {
    /// The angle of no turn at all.
    pub fn zero() -> (r: Self)
        ensures
            r.radians().bits() == constant_bits(F::format(), Constant::Zero),
    {
        proof {
            lemma_small_is_canonical(F::format(), constant_bits(F::format(), Constant::Zero));
        }
        Self::from_radians_unchecked(F::zero())
    }

    /// The smallest step between angles near zero that arithmetic keeps apart.
    pub fn epsilon() -> (r: Self)
        ensures
            r.radians().bits() == constant_bits(F::format(), Constant::DoubleEpsilon),
    {
        proof {
            lemma_small_is_canonical(
                F::format(),
                constant_bits(F::format(), Constant::DoubleEpsilon),
            );
        }
        Self::from_radians_unchecked(F::double_epsilon())
    }

    /// Half of the circle.
    pub fn half() -> (r: Self)
        ensures
            r.radians().bits() == constant_bits(F::format(), Constant::Pi),
    {
        proof {
            lemma_small_is_canonical(F::format(), constant_bits(F::format(), Constant::Pi));
        }
        Self::from_radians_unchecked(F::pi())
    }

    /// A quarter of the circle.
    pub fn quarter() -> (r: Self)
        ensures
            r.radians().bits() == constant_bits(F::format(), Constant::FracPi2),
    {
        proof {
            lemma_small_is_canonical(F::format(), constant_bits(F::format(), Constant::FracPi2));
        }
        Self::from_radians_unchecked(F::frac_pi_2())
    }

    /// A sixth of the circle.
    pub fn sixth() -> (r: Self)
        ensures
            r.radians().bits() == constant_bits(F::format(), Constant::FracPi3),
    {
        proof {
            lemma_small_is_canonical(F::format(), constant_bits(F::format(), Constant::FracPi3));
        }
        Self::from_radians_unchecked(F::frac_pi_3())
    }

    /// An eighth of the circle.
    pub fn eighth() -> (r: Self)
        ensures
            r.radians().bits() == constant_bits(F::format(), Constant::FracPi4),
    {
        proof {
            lemma_small_is_canonical(F::format(), constant_bits(F::format(), Constant::FracPi4));
        }
        Self::from_radians_unchecked(F::frac_pi_4())
    }

    /// A twelfth of the circle.
    pub fn twelfth() -> (r: Self)
        ensures
            r.radians().bits() == constant_bits(F::format(), Constant::FracPi6),
    {
        proof {
            lemma_small_is_canonical(F::format(), constant_bits(F::format(), Constant::FracPi6));
        }
        Self::from_radians_unchecked(F::frac_pi_6())
    }

    /// A sixteenth of the circle.
    pub fn sixteenth() -> (r: Self)
        ensures
            r.radians().bits() == constant_bits(F::format(), Constant::FracPi8),
    {
        proof {
            lemma_small_is_canonical(F::format(), constant_bits(F::format(), Constant::FracPi8));
        }
        Self::from_radians_unchecked(F::frac_pi_8())
    }

    /// Replaces the angle by its sum with `rhs`.
    pub fn add_assign(&mut self, rhs: Self)
        ensures
            final(self)@ == normalized(F::format(), sum(F::format(), old(self)@, rhs@)),
    {
        *self = *self + rhs;
    }

    /// Replaces the angle by its difference with `rhs`.
    pub fn sub_assign(&mut self, rhs: Self)
        ensures
            final(self)@ == normalized(F::format(), difference(F::format(), old(self)@, rhs@)),
    {
        *self = *self - rhs;
    }

    /// Replaces the angle by `rhs` times itself.
    pub fn mul_assign(&mut self, rhs: F)
        ensures
            final(self)@ == normalized(F::format(), product(F::format(), old(self)@, number(rhs))),
    {
        *self = *self * rhs;
    }

    /// Replaces the angle by itself over `rhs`.
    pub fn div_assign(&mut self, rhs: F)
        ensures
            final(self)@ == normalized(
                F::format(),
                quotient(F::format(), old(self)@, number(rhs)),
            ),
    {
        *self = *self / rhs;
    }

    /// The point reached by turning through every angle of `angles` in
    /// turn: the measures are added up as they are, and the total is brought
    /// into the main range once.
    pub fn sum(angles: &Vec<Self>) -> (r: Self)
        ensures
            r@ == normalized(F::format(), total(F::format(), angles@.map_values(|a: Self| a@))),
    {
        let mut acc = F::zero();
        let mut i: usize = 0;
        let ghost values = angles@.map_values(|a: Self| a@);
        proof {
            lemma_circle_constants(F::format());
        }
        while i < angles.len()
            invariant
                i <= angles.len(),
                values == angles@.map_values(|a: Self| a@),
                number(acc) == total(F::format(), values.take(i as int)),
            decreases angles.len() - i,
        {
            proof {
                assert(values.take(i + 1).drop_last() == values.take(i as int));
            }
            acc = acc.add(angles[i].radians);
            i = i + 1;
        }
        proof {
            assert(values.take(i as int) == values);
        }
        Self::from_radians(acc)
    }
}

/// The values of `xs` added up from the left, starting from zero, each sum
/// rounded to the format.
pub open spec fn total(fmt: crate::ieee::format::Format, xs: Seq<Number>) -> Number
    decreases xs.len(),
{
    if xs.len() == 0 {
        Number::Finite { negative: false, magnitude: 0 }
    } else {
        sum(fmt, total(fmt, xs.drop_last()), xs.last())
    }
}

impl<F: Float> Default for Angle<F> {
    /// The angle of no turn at all.
    fn default() -> (r: Self)
        ensures
            r.radians().bits() == constant_bits(F::format(), Constant::Zero),
    {
        Self::zero()
    }
}

impl<F: Float> vstd::std_specs::cmp::PartialEqSpecImpl for Angle<F> {
    open spec fn obeys_eq_spec() -> bool {
        true
    }

    /// Two angles are equal where their measures are equal as values: an
    /// angle that is not a number equals none.
    open spec fn eq_spec(&self, other: &Self) -> bool {
        equal(self@, other@)
    }
}

impl<F: Float> PartialEq for Angle<F> {
    fn eq(&self, other: &Self) -> (r: bool) {
        self.radians.eq(other.radians)
    }
}

/// The bits of a result are not given by a spec function: `add` states its value.
impl<F: Float> vstd::std_specs::ops::AddSpecImpl for Angle<F> {
    open spec fn obeys_add_spec() -> bool {
        false
    }

    open spec fn add_req(self, rhs: Self) -> bool {
        true
    }

    open spec fn add_spec(self, rhs: Self) -> Self {
        arbitrary()
    }
}

impl<F: Float> core::ops::Add for Angle<F> {
    type Output = Angle<F>;

    /// The point reached by turning through both angles.
    fn add(self, rhs: Self) -> (r: Self)
        ensures
            r@ == normalized(F::format(), sum(F::format(), self@, rhs@)),
    {
        Self::from_radians(self.radians.add(rhs.radians))
    }
}

/// The bits of a result are not given by a spec function: `sub` states its value.
impl<F: Float> vstd::std_specs::ops::SubSpecImpl for Angle<F> {
    open spec fn obeys_sub_spec() -> bool {
        false
    }

    open spec fn sub_req(self, rhs: Self) -> bool {
        true
    }

    open spec fn sub_spec(self, rhs: Self) -> Self {
        arbitrary()
    }
}

impl<F: Float> core::ops::Sub for Angle<F> {
    type Output = Angle<F>;

    /// The point reached by turning through `self` and back through `rhs`.
    fn sub(self, rhs: Self) -> (r: Self)
        ensures
            r@ == normalized(F::format(), difference(F::format(), self@, rhs@)),
    {
        Self::from_radians(self.radians.sub(rhs.radians))
    }
}

/// The bits of a result are not given by a spec function: `mul` states its value.
impl<F: Float> vstd::std_specs::ops::MulSpecImpl<F> for Angle<F> {
    open spec fn obeys_mul_spec() -> bool {
        false
    }

    open spec fn mul_req(self, rhs: F) -> bool {
        true
    }

    open spec fn mul_spec(self, rhs: F) -> Self {
        arbitrary()
    }
}

impl<F: Float> core::ops::Mul<F> for Angle<F> {
    type Output = Angle<F>;

    /// The point reached by turning `rhs` times through the angle.
    fn mul(self, rhs: F) -> (r: Self)
        ensures
            r@ == normalized(F::format(), product(F::format(), self@, number(rhs))),
    {
        Self::from_radians(self.radians.mul(rhs))
    }
}

/// The bits of a result are not given by a spec function: `div` states its value.
impl<F: Float> vstd::std_specs::ops::DivSpecImpl<F> for Angle<F> {
    open spec fn obeys_div_spec() -> bool {
        false
    }

    open spec fn div_req(self, rhs: F) -> bool {
        true
    }

    open spec fn div_spec(self, rhs: F) -> Self {
        arbitrary()
    }
}

impl<F: Float> core::ops::Div<F> for Angle<F> {
    type Output = Angle<F>;

    /// The point reached by turning through the angle's `rhs`-th part.
    fn div(self, rhs: F) -> (r: Self)
        ensures
            r@ == normalized(F::format(), quotient(F::format(), self@, number(rhs))),
    {
        Self::from_radians(self.radians.div(rhs))
    }
}

/// The bits of a result are not given by a spec function: `neg` states its value.
impl<F: Float> vstd::std_specs::ops::NegSpecImpl for Angle<F> {
    open spec fn obeys_neg_spec() -> bool {
        false
    }

    open spec fn neg_req(self) -> bool {
        true
    }

    open spec fn neg_spec(self) -> Self {
        arbitrary()
    }
}

impl<F: Float> core::ops::Neg for Angle<F> {
    type Output = Angle<F>;

    /// The point reached by turning the other way. The half turn is its own
    /// opposite; every other angle changes sign, and nothing is reduced.
    fn neg(self) -> (r: Self)
        ensures
            r@ == if equal(self@, pi(F::format())) {
                self@
            } else {
                negation(self@)
            },
    {
        proof {
            use_type_invariant(&self);
            lemma_circle_constants(F::format());
        }
        if self.radians.eq(F::pi()) {
            self
        } else {
            Self::from_radians_unchecked(self.radians.neg())
        }
    }
}

/// Not a spec function: `from` states the value of its result.
impl<F: Float> vstd::std_specs::convert::FromSpecImpl<AngleUnbounded<F>> for Angle<F> {
    open spec fn obeys_from_spec() -> bool {
        false
    }

    open spec fn from_spec(v: AngleUnbounded<F>) -> Self {
        arbitrary()
    }
}

impl<F: Float> From<AngleUnbounded<F>> for Angle<F> {
    /// The point of the circle that the displacement reaches.
    fn from(angle: AngleUnbounded<F>) -> (r: Self)
        ensures
            r@ == normalized(F::format(), angle@),
            r.is_canonical(),
    {
        Self::from_radians(angle.to_radians())
    }
}

} // verus!
