//! Angles that keep their winding: plain scalars read as radians.
use vstd::prelude::*;
use core::cmp::Ordering;
use crate::ieee::format::Number;
use crate::ieee::sign::negation;
use crate::ieee::multiply::product;
use crate::ieee::divide::quotient;
use crate::ieee::addition::{sum, difference};
use crate::ieee::compare::{less, equal};
use crate::constants::{Constant, constant_number, constant_bits};
use crate::scalar::{Float, number};
use crate::circle::normalized;
use crate::angle::{Angle, total};

verus! {

/// An angle as a signed displacement: one full turn is not zero turns.
#[derive(Copy, Debug)]
pub struct AngleUnbounded<F: Float> {
    radians: F,
}

impl<F: Float> Clone for AngleUnbounded<F> {
    fn clone(&self) -> (r: Self)
        ensures
            r == *self,
    {
        *self
    }
}

impl<F: Float> View for AngleUnbounded<F> {
    type V = Number;

    /// The measure in radians, as a value.
    open spec fn view(&self) -> Number {
        number(self.radians())
    }
}

impl<F: Float> AngleUnbounded<F> {
    /// The measure in radians, as stored.
    pub closed spec fn radians(self) -> F {
        self.radians
    }

    /// The angle of `radians` radians.
    pub fn from_radians(radians: F) -> (r: Self)
        ensures
            r.radians() == radians,
    {
        AngleUnbounded { radians }
    }

    /// The angle of `degrees` degrees.
    pub fn from_degrees(degrees: F) -> (r: Self)
        ensures
            r@ == product(
                F::format(),
                number(degrees),
                constant_number(F::format(), Constant::DegToRad),
            ),
    {
        Self::from_radians(degrees.mul(F::deg_to_rad()))
    }

    /// The angle of `turns` turns.
    pub fn from_turns(turns: F) -> (r: Self)
        ensures
            r@ == product(
                F::format(),
                number(turns),
                constant_number(F::format(), Constant::TurnsToRad),
            ),
    {
        Self::from_radians(turns.mul(F::turns_to_rad()))
    }

    /// The angle of `gradians` gradians.
    pub fn from_gradians(gradians: F) -> (r: Self)
        ensures
            r@ == product(
                F::format(),
                number(gradians),
                constant_number(F::format(), Constant::GradToRad),
            ),
    {
        Self::from_radians(gradians.mul(F::grad_to_rad()))
    }

    /// The measure in radians.
    pub fn to_radians(self) -> (r: F)
        ensures
            r == self.radians(),
    {
        self.radians
    }

    /// The measure in degrees.
    pub fn to_degrees(self) -> (r: F)
        ensures
            number(r) == product(
                F::format(),
                self@,
                constant_number(F::format(), Constant::RadToDeg),
            ),
    {
        self.radians.mul(F::rad_to_deg())
    }

    /// The measure in turns.
    pub fn to_turns(self) -> (r: F)
        ensures
            number(r) == product(
                F::format(),
                self@,
                constant_number(F::format(), Constant::RadToTurns),
            ),
    {
        self.radians.mul(F::rad_to_turns())
    }

    /// The measure in gradians.
    pub fn to_gradians(self) -> (r: F)
        ensures
            number(r) == product(
                F::format(),
                self@,
                constant_number(F::format(), Constant::RadToGrad),
            ),
    {
        self.radians.mul(F::rad_to_grad())
    }

    /// Whether the angle is not a number.
    pub fn is_nan(self) -> (r: bool)
        ensures
            r == (self@ == Number::Nan),
    {
        self.radians.is_nan()
    }

    /// The point of the circle that the angle reaches: its winding is dropped.
    pub fn to_bounded(self) -> (r: Angle<F>)
        ensures
            r@ == normalized(F::format(), self@),
    {
        Angle::from_radians(self.radians)
    }
}

impl<F: Float> AngleUnbounded<F> {
    /// The angle of no turn at all.
    pub fn zero() -> (r: Self)
        ensures
            r.radians().bits() == constant_bits(F::format(), Constant::Zero),
    {
        Self::from_radians(F::zero())
    }

    /// The smallest step between angles near zero that arithmetic keeps apart.
    pub fn epsilon() -> (r: Self)
        ensures
            r.radians().bits() == constant_bits(F::format(), Constant::DoubleEpsilon),
    {
        Self::from_radians(F::double_epsilon())
    }

    /// One full turn.
    pub fn full() -> (r: Self)
        ensures
            r.radians().bits() == constant_bits(F::format(), Constant::Tau),
    {
        Self::from_radians(F::tau())
    }

    /// Half a turn.
    pub fn half() -> (r: Self)
        ensures
            r.radians().bits() == constant_bits(F::format(), Constant::Pi),
    {
        Self::from_radians(F::pi())
    }

    /// A quarter of a turn.
    pub fn quarter() -> (r: Self)
        ensures
            r.radians().bits() == constant_bits(F::format(), Constant::FracPi2),
    {
        Self::from_radians(F::frac_pi_2())
    }

    /// A sixth of a turn.
    pub fn sixth() -> (r: Self)
        ensures
            r.radians().bits() == constant_bits(F::format(), Constant::FracPi3),
    {
        Self::from_radians(F::frac_pi_3())
    }

    /// An eighth of a turn.
    pub fn eighth() -> (r: Self)
        ensures
            r.radians().bits() == constant_bits(F::format(), Constant::FracPi4),
    {
        Self::from_radians(F::frac_pi_4())
    }

    /// A twelfth of a turn.
    pub fn twelfth() -> (r: Self)
        ensures
            r.radians().bits() == constant_bits(F::format(), Constant::FracPi6),
    {
        Self::from_radians(F::frac_pi_6())
    }

    /// A sixteenth of a turn.
    pub fn sixteenth() -> (r: Self)
        ensures
            r.radians().bits() == constant_bits(F::format(), Constant::FracPi8),
    {
        Self::from_radians(F::frac_pi_8())
    }

    /// Replaces the angle by its sum with `rhs`.
    pub fn add_assign(&mut self, rhs: Self)
        ensures
            final(self)@ == sum(F::format(), old(self)@, rhs@),
    {
        self.radians = self.radians.add(rhs.radians);
    }

    /// Replaces the angle by its difference with `rhs`.
    pub fn sub_assign(&mut self, rhs: Self)
        ensures
            final(self)@ == difference(F::format(), old(self)@, rhs@),
    {
        self.radians = self.radians.sub(rhs.radians);
    }

    /// Replaces the angle by `rhs` times itself.
    pub fn mul_assign(&mut self, rhs: F)
        ensures
            final(self)@ == product(F::format(), old(self)@, number(rhs)),
    {
        self.radians = self.radians.mul(rhs);
    }

    /// Replaces the angle by itself over `rhs`.
    pub fn div_assign(&mut self, rhs: F)
        ensures
            final(self)@ == quotient(F::format(), old(self)@, number(rhs)),
    {
        self.radians = self.radians.div(rhs);
    }

    /// All of `angles` added up from the left, starting from zero.
    pub fn sum(angles: &Vec<Self>) -> (r: Self)
        ensures
            r@ == total(F::format(), angles@.map_values(|a: Self| a@)),
    {
        let mut acc = F::zero();
        let mut i: usize = 0;
        let ghost values = angles@.map_values(|a: Self| a@);
        proof {
            crate::circle::lemma_circle_constants(F::format());
        }
        while i < angles.len()
            invariant
                i <= angles.len(),
                values == angles@.map_values(|a: Self| a@),
                number(acc) == total(F::format(), values.take(i as int)),
            decreases angles.len() - i,
        {
            proof {
                assert(values.take(i + 1).drop_last() == values.take(i as int));
            }
            acc = acc.add(angles[i].radians);
            i = i + 1;
        }
        proof {
            assert(values.take(i as int) == values);
        }
        Self::from_radians(acc)
    }
}

impl<F: Float> Default for AngleUnbounded<F> {
    /// The angle of no turn at all.
    fn default() -> (r: Self)
        ensures
            r.radians().bits() == constant_bits(F::format(), Constant::Zero),
    {
        Self::zero()
    }
}

impl<F: Float> vstd::std_specs::cmp::PartialEqSpecImpl for AngleUnbounded<F> {
    open spec fn obeys_eq_spec() -> bool {
        true
    }

    /// Two angles are equal where their measures are equal as values: an
    /// angle that is not a number equals none.
    open spec fn eq_spec(&self, other: &Self) -> bool {
        equal(self@, other@)
    }
}

impl<F: Float> PartialEq for AngleUnbounded<F> {
    fn eq(&self, other: &Self) -> (r: bool) {
        self.radians.eq(other.radians)
    }
}

/// The bits of a result are not given by a spec function: `add` states its value.
impl<F: Float> vstd::std_specs::ops::AddSpecImpl for AngleUnbounded<F> {
    open spec fn obeys_add_spec() -> bool {
        false
    }

    open spec fn add_req(self, rhs: Self) -> bool {
        true
    }

    open spec fn add_spec(self, rhs: Self) -> Self {
        arbitrary()
    }
}

impl<F: Float> core::ops::Add for AngleUnbounded<F> {
    type Output = AngleUnbounded<F>;

    /// The sum of the two displacements.
    fn add(self, rhs: Self) -> (r: Self)
        ensures
            r@ == sum(F::format(), self@, rhs@),
    {
        Self::from_radians(self.radians.add(rhs.radians))
    }
}

/// The bits of a result are not given by a spec function: `sub` states its value.
impl<F: Float> vstd::std_specs::ops::SubSpecImpl for AngleUnbounded<F> {
    open spec fn obeys_sub_spec() -> bool {
        false
    }

    open spec fn sub_req(self, rhs: Self) -> bool {
        true
    }

    open spec fn sub_spec(self, rhs: Self) -> Self {
        arbitrary()
    }
}

impl<F: Float> core::ops::Sub for AngleUnbounded<F> {
    type Output = AngleUnbounded<F>;

    /// The difference of the two displacements.
    fn sub(self, rhs: Self) -> (r: Self)
        ensures
            r@ == difference(F::format(), self@, rhs@),
    {
        Self::from_radians(self.radians.sub(rhs.radians))
    }
}

/// The bits of a result are not given by a spec function: `mul` states its value.
impl<F: Float> vstd::std_specs::ops::MulSpecImpl<F> for AngleUnbounded<F> {
    open spec fn obeys_mul_spec() -> bool {
        false
    }

    open spec fn mul_req(self, rhs: F) -> bool {
        true
    }

    open spec fn mul_spec(self, rhs: F) -> Self {
        arbitrary()
    }
}

impl<F: Float> core::ops::Mul<F> for AngleUnbounded<F> {
    type Output = AngleUnbounded<F>;

    /// The displacement taken `rhs` times.
    fn mul(self, rhs: F) -> (r: Self)
        ensures
            r@ == product(F::format(), self@, number(rhs)),
    {
        Self::from_radians(self.radians.mul(rhs))
    }
}

/// The bits of a result are not given by a spec function: `div` states its value.
impl<F: Float> vstd::std_specs::ops::DivSpecImpl<F> for AngleUnbounded<F> {
    open spec fn obeys_div_spec() -> bool {
        false
    }

    open spec fn div_req(self, rhs: F) -> bool {
        true
    }

    open spec fn div_spec(self, rhs: F) -> Self {
        arbitrary()
    }
}

impl<F: Float> core::ops::Div<F> for AngleUnbounded<F> {
    type Output = AngleUnbounded<F>;

    /// The `rhs`-th part of the displacement.
    fn div(self, rhs: F) -> (r: Self)
        ensures
            r@ == quotient(F::format(), self@, number(rhs)),
    {
        Self::from_radians(self.radians.div(rhs))
    }
}

/// The bits of a result are not given by a spec function: `neg` states its value.
impl<F: Float> vstd::std_specs::ops::NegSpecImpl for AngleUnbounded<F> {
    open spec fn obeys_neg_spec() -> bool {
        false
    }

    open spec fn neg_req(self) -> bool {
        true
    }

    open spec fn neg_spec(self) -> Self {
        arbitrary()
    }
}

impl<F: Float> core::ops::Neg for AngleUnbounded<F> {
    type Output = AngleUnbounded<F>;

    /// The displacement the other way.
    fn neg(self) -> (r: Self)
        ensures
            r@ == negation(self@),
    {
        Self::from_radians(self.radians.neg())
    }
}

impl<F: Float> vstd::std_specs::cmp::PartialOrdSpecImpl for AngleUnbounded<F> {
    open spec fn obeys_partial_cmp_spec() -> bool {
        true
    }

    /// Displacements are ordered as their measures are: one that is not a
    /// number has no place in the order.
    open spec fn partial_cmp_spec(&self, other: &Self) -> Option<Ordering> {
        if less(self@, other@) {
            Some(Ordering::Less)
        } else if equal(self@, other@) {
            Some(Ordering::Equal)
        } else if less(other@, self@) {
            Some(Ordering::Greater)
        } else {
            None
        }
    }
}

impl<F: Float> PartialOrd for AngleUnbounded<F> {
    fn partial_cmp(&self, other: &Self) -> (r: Option<Ordering>) {
        if self.radians.lt(other.radians) {
            Some(Ordering::Less)
        } else if self.radians.eq(other.radians) {
            Some(Ordering::Equal)
        } else if self.radians.gt(other.radians) {
            Some(Ordering::Greater)
        } else {
            None
        }
    }
}

/// Not a spec function: `from` states the value of its result.
impl<F: Float> vstd::std_specs::convert::FromSpecImpl<Angle<F>> for AngleUnbounded<F> {
    open spec fn obeys_from_spec() -> bool {
        false
    }

    open spec fn from_spec(v: Angle<F>) -> Self {
        arbitrary()
    }
}

impl<F: Float> From<Angle<F>> for AngleUnbounded<F> {
    /// The point of the circle as a displacement within the main range.
    fn from(angle: Angle<F>) -> (r: Self)
        ensures
            r.radians() == angle.radians(),
    {
        Self::from_radians(angle.to_radians())
    }
}

} // verus!
