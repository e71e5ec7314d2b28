//! The four units, and wrappers that read an angle in one of them.
//!
//! A unit has a factor that takes its measures to radians and one that
//! brings them back, and a measure for each named part of the circle. An
//! angle has no unit of its own. Wrapped, it has one: the wrapper gives and
//! takes the measure in that unit, and names the suffix that the measure is
//! written with.
use vstd::prelude::*;
use vstd::arithmetic::mul::*;
use vstd::arithmetic::power2::*;
use crate::ieee::format::{Format, Number};
use crate::ieee::round::lemma_format_powers;
use crate::ieee::exact::{lemma_rounded_exact, lemma_rounded_same_ratio};
use crate::ieee::multiply::product;
use crate::ieee::divide::quotient;
use crate::ieee::remainder::remainder;
use crate::ieee::convert::whole;
use crate::constants::{Constant, constant_bits, constant_number};
use crate::scalar::{Float, number};
use crate::circle::{normalized, corrected, one, tau};
use crate::angle::Angle;
use crate::unbounded::AngleUnbounded;

verus! {

/// The four units that an angle is measured in.
#[derive(PartialEq, Eq, Structural, Clone, Copy, Debug)]
pub enum Measure {
    Radians,
    Degrees,
    Turns,
    Gradians,
}

/// The parts of the circle that have a name.
#[derive(PartialEq, Eq, Structural, Clone, Copy, Debug)]
pub enum Part {
    Full,
    Half,
    Quarter,
    Sixth,
    Eighth,
    Twelfth,
    Sixteenth,
}

impl Part {
    /// How many of the part make the circle.
    pub open spec fn count(self) -> nat {
        match self {
            Part::Full => 1,
            Part::Half => 2,
            Part::Quarter => 4,
            Part::Sixth => 6,
            Part::Eighth => 8,
            Part::Twelfth => 12,
            Part::Sixteenth => 16,
        }
    }

    /// How many of the part make the circle.
    pub fn divisor(self) -> (n: u32)
        ensures
            n == self.count(),
    {
        match self {
            Part::Full => 1,
            Part::Half => 2,
            Part::Quarter => 4,
            Part::Sixth => 6,
            Part::Eighth => 8,
            Part::Twelfth => 12,
            Part::Sixteenth => 16,
        }
    }

    /// The constant that is the part's measure in radians.
    pub open spec fn in_radians(self) -> Constant {
        match self {
            Part::Full => Constant::Tau,
            Part::Half => Constant::Pi,
            Part::Quarter => Constant::FracPi2,
            Part::Sixth => Constant::FracPi3,
            Part::Eighth => Constant::FracPi4,
            Part::Twelfth => Constant::FracPi6,
            Part::Sixteenth => Constant::FracPi8,
        }
    }
}

impl Measure {
    /// The measure of the full circle, for the units in which it is a whole
    /// number: 360 degrees, one turn, 400 gradians.
    pub open spec fn full_count(self) -> nat {
        match self {
            Measure::Radians => 0,
            Measure::Degrees => 360,
            Measure::Turns => 1,
            Measure::Gradians => 400,
        }
    }

    /// The measure of a part of the circle in this unit: in radians the
    /// constant of the scalar type, in the other units the measure of the
    /// full circle over the number of parts, rounded to the format.
    pub open spec fn part_spec(self, fmt: Format, part: Part) -> Number {
        match self {
            Measure::Radians => constant_number(fmt, part.in_radians()),
            _ => quotient(fmt, whole(fmt, self.full_count()), whole(fmt, part.count())),
        }
    }

    /// The constant that takes a measure in this unit to radians; for
    /// radians it is one.
    pub open spec fn to_radians(self) -> Constant {
        match self {
            Measure::Radians => Constant::One,
            Measure::Degrees => Constant::DegToRad,
            Measure::Turns => Constant::TurnsToRad,
            Measure::Gradians => Constant::GradToRad,
        }
    }

    /// The constant that takes a measure in radians to this unit; for
    /// radians it is one.
    pub open spec fn from_radians(self) -> Constant {
        match self {
            Measure::Radians => Constant::One,
            Measure::Degrees => Constant::RadToDeg,
            Measure::Turns => Constant::RadToTurns,
            Measure::Gradians => Constant::RadToGrad,
        }
    }

    /// The measure of `part` of the circle in this unit.
    pub fn part<F: Float>(self, part: Part) -> (r: F)
        ensures
            number(r) == self.part_spec(F::format(), part),
    {
        match self {
            Measure::Radians => match part {
                Part::Full => F::tau(),
                Part::Half => F::pi(),
                Part::Quarter => F::frac_pi_2(),
                Part::Sixth => F::frac_pi_3(),
                Part::Eighth => F::frac_pi_4(),
                Part::Twelfth => F::frac_pi_6(),
                Part::Sixteenth => F::frac_pi_8(),
            },
            Measure::Degrees => F::from_count(360).div(F::from_count(part.divisor())),
            Measure::Turns => F::from_count(1).div(F::from_count(part.divisor())),
            Measure::Gradians => F::from_count(400).div(F::from_count(part.divisor())),
        }
    }

    /// The factor that takes a measure in this unit to radians.
    pub fn factor_to_radians<F: Float>(self) -> (r: F)
        ensures
            r.bits() == constant_bits(F::format(), self.to_radians()),
    {
        match self {
            Measure::Radians => F::one(),
            Measure::Degrees => F::deg_to_rad(),
            Measure::Turns => F::turns_to_rad(),
            Measure::Gradians => F::grad_to_rad(),
        }
    }

    /// The factor that takes a measure in radians to this unit.
    pub fn factor_from_radians<F: Float>(self) -> (r: F)
        ensures
            r.bits() == constant_bits(F::format(), self.from_radians()),
    {
        match self {
            Measure::Radians => F::one(),
            Measure::Degrees => F::rad_to_deg(),
            Measure::Turns => F::rad_to_turns(),
            Measure::Gradians => F::rad_to_grad(),
        }
    }
}

/// Where the parts divide the full circle evenly, the measure of a part is
/// the whole number that comes out.
pub proof fn law_whole_parts(fmt: Format, unit: Measure, part: Part)
    requires
        unit != Measure::Radians,
        unit.full_count() % part.count() == 0,
    ensures
        unit.part_spec(fmt, part) == whole(fmt, unit.full_count() / part.count()),
{
    lemma_format_powers(fmt);
    let a = unit.full_count();
    let b = part.count();
    let c = a / b;
    let u = pow2(fmt.scale());
    lemma_pow2_pos(fmt.scale());
    lemma_mul_strictly_positive(b as int, u as int);
    assert(((a * u) * u) * 1 == (c * u) * (b * u)) by (nonlinear_arith)
        requires
            a == c * b,
    ;
    lemma_rounded_same_ratio(fmt, (a * u) * u, b * u, c * u, 1);
    lemma_rounded_exact(fmt, c, fmt.scale());
    lemma_pow2_strictly_increases(fmt.scale(), fmt.max_shift());
    assert(c * u < 2 * fmt.hidden() * pow2(fmt.max_shift())) by (nonlinear_arith)
        requires
            c < 2 * fmt.hidden(),
            0 < u < pow2(fmt.max_shift()),
    ;
}

/// A unit of angle.
pub trait Unit: UnitName {
    spec fn measure_spec() -> Measure;

    /// Which of the four units this is.
    fn measure() -> (m: Measure)
        ensures
            m == Self::measure_spec(),
    ;
}

/// The suffix that a measure in a unit is written with.
pub trait UnitName {
    spec fn unit_spec() -> Seq<char>;

    /// The suffix, with the space before it where the unit takes one.
    fn unit() -> (s: &'static str)
        ensures
            s@ == Self::unit_spec(),
    ;
}

/// An angle read in radians.
#[derive(Copy, Debug)]
pub struct Radians<A>(pub A);

impl<A: Copy> Clone for Radians<A> {
    fn clone(&self) -> (r: Self)
        ensures
            r == *self,
    {
        *self
    }
}

impl<A> vstd::std_specs::convert::FromSpecImpl<A> for Radians<A> {
    open spec fn obeys_from_spec() -> bool {
        true
    }

    open spec fn from_spec(v: A) -> Self {
        Radians(v)
    }
}

impl<A> From<A> for Radians<A> {
    /// The angle, to be read in radians.
    fn from(x: A) -> (r: Self) {
        Radians(x)
    }
}

impl<A> UnitName for Radians<A> {
    open spec fn unit_spec() -> Seq<char> {
        " rad"@
    }

    fn unit() -> (s: &'static str) {
        " rad"
    }
}

impl<A> Unit for Radians<A> {
    open spec fn measure_spec() -> Measure {
        Measure::Radians
    }

    fn measure() -> (m: Measure) {
        Measure::Radians
    }
}

impl<F: Float> Radians<Angle<F>> {
    /// The measure in radians, in the main range.
    pub fn to_value(self) -> (r: F)
        ensures
            r == self.0.radians(),
    {
        self.0.to_radians()
    }

    /// The angle of `x` radians.
    pub fn from_value(x: F) -> (r: Self)
        ensures
            r.0@ == normalized(F::format(), number(x)),
    {
        Radians(Angle::from_radians(x))
    }
}

impl<F: Float> Radians<AngleUnbounded<F>> {
    /// The measure in radians.
    pub fn to_value(self) -> (r: F)
        ensures
            r == self.0.radians(),
    {
        self.0.to_radians()
    }

    /// The angle of `x` radians.
    pub fn from_value(x: F) -> (r: Self)
        ensures
            r.0.radians() == x,
    {
        Radians(AngleUnbounded::from_radians(x))
    }
}

/// An angle read in degrees.
#[derive(Copy, Debug)]
pub struct Degrees<A>(pub A);

impl<A: Copy> Clone for Degrees<A> {
    fn clone(&self) -> (r: Self)
        ensures
            r == *self,
    {
        *self
    }
}

impl<A> vstd::std_specs::convert::FromSpecImpl<A> for Degrees<A> {
    open spec fn obeys_from_spec() -> bool {
        true
    }

    open spec fn from_spec(v: A) -> Self {
        Degrees(v)
    }
}

impl<A> From<A> for Degrees<A> {
    /// The angle, to be read in degrees.
    fn from(x: A) -> (r: Self) {
        Degrees(x)
    }
}

impl<A> UnitName for Degrees<A> {
    open spec fn unit_spec() -> Seq<char> {
        "°"@
    }

    fn unit() -> (s: &'static str) {
        "°"
    }
}

impl<A> Unit for Degrees<A> {
    open spec fn measure_spec() -> Measure {
        Measure::Degrees
    }

    fn measure() -> (m: Measure) {
        Measure::Degrees
    }
}

impl<F: Float> Degrees<Angle<F>> {
    /// The measure in degrees, in the main range.
    pub fn to_value(self) -> (r: F)
        ensures
            number(r) == product(
                F::format(),
                self.0@,
                constant_number(F::format(), Constant::RadToDeg),
            ),
    {
        self.0.to_degrees()
    }

    /// The angle of `x` degrees.
    pub fn from_value(x: F) -> (r: Self)
        ensures
            r.0@ == normalized(
                F::format(),
                product(F::format(), number(x), constant_number(F::format(), Constant::DegToRad)),
            ),
    {
        Degrees(Angle::from_degrees(x))
    }
}

impl<F: Float> Degrees<AngleUnbounded<F>> {
    /// The measure in degrees.
    pub fn to_value(self) -> (r: F)
        ensures
            number(r) == product(
                F::format(),
                self.0@,
                constant_number(F::format(), Constant::RadToDeg),
            ),
    {
        self.0.to_degrees()
    }

    /// The angle of `x` degrees.
    pub fn from_value(x: F) -> (r: Self)
        ensures
            r.0@ == product(
                F::format(),
                number(x),
                constant_number(F::format(), Constant::DegToRad),
            ),
    {
        Degrees(AngleUnbounded::from_degrees(x))
    }
}

/// An angle read in turns.
#[derive(Copy, Debug)]
pub struct Turns<A>(pub A);

impl<A: Copy> Clone for Turns<A> {
    fn clone(&self) -> (r: Self)
        ensures
            r == *self,
    {
        *self
    }
}

impl<A> vstd::std_specs::convert::FromSpecImpl<A> for Turns<A> {
    open spec fn obeys_from_spec() -> bool {
        true
    }

    open spec fn from_spec(v: A) -> Self {
        Turns(v)
    }
}

impl<A> From<A> for Turns<A> {
    /// The angle, to be read in turns.
    fn from(x: A) -> (r: Self) {
        Turns(x)
    }
}

impl<A> UnitName for Turns<A> {
    open spec fn unit_spec() -> Seq<char> {
        " tr"@
    }

    fn unit() -> (s: &'static str) {
        " tr"
    }
}

impl<A> Unit for Turns<A> {
    open spec fn measure_spec() -> Measure {
        Measure::Turns
    }

    fn measure() -> (m: Measure) {
        Measure::Turns
    }
}

impl<F: Float> Turns<Angle<F>> {
    /// The measure in turns, in the main range.
    pub fn to_value(self) -> (r: F)
        ensures
            number(r) == product(
                F::format(),
                self.0@,
                constant_number(F::format(), Constant::RadToTurns),
            ),
    {
        self.0.to_turns()
    }

    /// The angle of `x` turns.
    pub fn from_value(x: F) -> (r: Self)
        ensures
            r.0@ == corrected(
                F::format(),
                product(F::format(), remainder(number(x), one(F::format())), tau(F::format())),
            ),
    {
        Turns(Angle::from_turns(x))
    }
}

impl<F: Float> Turns<AngleUnbounded<F>> {
    /// The measure in turns.
    pub fn to_value(self) -> (r: F)
        ensures
            number(r) == product(
                F::format(),
                self.0@,
                constant_number(F::format(), Constant::RadToTurns),
            ),
    {
        self.0.to_turns()
    }

    /// The angle of `x` turns.
    pub fn from_value(x: F) -> (r: Self)
        ensures
            r.0@ == product(
                F::format(),
                number(x),
                constant_number(F::format(), Constant::TurnsToRad),
            ),
    {
        Turns(AngleUnbounded::from_turns(x))
    }
}

/// An angle read in gradians.
#[derive(Copy, Debug)]
pub struct Gradians<A>(pub A);

impl<A: Copy> Clone for Gradians<A> {
    fn clone(&self) -> (r: Self)
        ensures
            r == *self,
    {
        *self
    }
}

impl<A> vstd::std_specs::convert::FromSpecImpl<A> for Gradians<A> {
    open spec fn obeys_from_spec() -> bool {
        true
    }

    open spec fn from_spec(v: A) -> Self {
        Gradians(v)
    }
}

impl<A> From<A> for Gradians<A> {
    /// The angle, to be read in gradians.
    fn from(x: A) -> (r: Self) {
        Gradians(x)
    }
}

impl<A> UnitName for Gradians<A> {
    open spec fn unit_spec() -> Seq<char> {
        "g"@
    }

    fn unit() -> (s: &'static str) {
        "g"
    }
}

impl<A> Unit for Gradians<A> {
    open spec fn measure_spec() -> Measure {
        Measure::Gradians
    }

    fn measure() -> (m: Measure) {
        Measure::Gradians
    }
}

impl<F: Float> Gradians<Angle<F>> {
    /// The measure in gradians, in the main range.
    pub fn to_value(self) -> (r: F)
        ensures
            number(r) == product(
                F::format(),
                self.0@,
                constant_number(F::format(), Constant::RadToGrad),
            ),
    {
        self.0.to_gradians()
    }

    /// The angle of `x` gradians.
    pub fn from_value(x: F) -> (r: Self)
        ensures
            r.0@ == normalized(
                F::format(),
                product(F::format(), number(x), constant_number(F::format(), Constant::GradToRad)),
            ),
    {
        Gradians(Angle::from_gradians(x))
    }
}

impl<F: Float> Gradians<AngleUnbounded<F>> {
    /// The measure in gradians.
    pub fn to_value(self) -> (r: F)
        ensures
            number(r) == product(
                F::format(),
                self.0@,
                constant_number(F::format(), Constant::RadToGrad),
            ),
    {
        self.0.to_gradians()
    }

    /// The angle of `x` gradians.
    pub fn from_value(x: F) -> (r: Self)
        ensures
            r.0@ == product(
                F::format(),
                number(x),
                constant_number(F::format(), Constant::GradToRad),
            ),
    {
        Gradians(AngleUnbounded::from_gradians(x))
    }
}

} // verus!
