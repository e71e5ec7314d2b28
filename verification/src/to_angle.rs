//! Making an angle out of a scalar at the place where it is written.
use vstd::prelude::*;
use crate::ieee::multiply::product;
use crate::ieee::remainder::remainder;
use crate::constants::{Constant, constant_number};
use crate::scalar::{Float, number};
use crate::circle::{normalized, corrected, one, tau};
use crate::angle::Angle;
use crate::unbounded::AngleUnbounded;

verus! {

/// A scalar read as an angle in one of the four units.
pub trait ToAngle: Float {
    /// The point of the circle at `self` radians.
    fn rad(self) -> (r: Angle<Self>)
        ensures
            r@ == normalized(Self::format(), number(self)),
    ;

    /// The displacement of `self` radians.
    fn rad_unbounded(self) -> (r: AngleUnbounded<Self>)
        ensures
            r.radians() == self,
    ;

    /// The point of the circle at `self` degrees.
    fn deg(self) -> (r: Angle<Self>)
        ensures
            r@ == normalized(
                Self::format(),
                product(
                    Self::format(),
                    number(self),
                    constant_number(Self::format(), Constant::DegToRad),
                ),
            ),
    ;

    /// The displacement of `self` degrees.
    fn deg_unbounded(self) -> (r: AngleUnbounded<Self>)
        ensures
            r@ == product(
                Self::format(),
                number(self),
                constant_number(Self::format(), Constant::DegToRad),
            ),
    ;

    /// The point of the circle at `self` turns.
    fn turns(self) -> (r: Angle<Self>)
        ensures
            r@ == corrected(
                Self::format(),
                product(
                    Self::format(),
                    remainder(number(self), one(Self::format())),
                    tau(Self::format()),
                ),
            ),
    ;

    /// The displacement of `self` turns.
    fn turns_unbounded(self) -> (r: AngleUnbounded<Self>)
        ensures
            r@ == product(
                Self::format(),
                number(self),
                constant_number(Self::format(), Constant::TurnsToRad),
            ),
    ;

    /// The point of the circle at `self` gradians.
    fn grad(self) -> (r: Angle<Self>)
        ensures
            r@ == normalized(
                Self::format(),
                product(
                    Self::format(),
                    number(self),
                    constant_number(Self::format(), Constant::GradToRad),
                ),
            ),
    ;

    /// The displacement of `self` gradians.
    fn grad_unbounded(self) -> (r: AngleUnbounded<Self>)
        ensures
            r@ == product(
                Self::format(),
                number(self),
                constant_number(Self::format(), Constant::GradToRad),
            ),
    ;
}

impl<F: Float> ToAngle for F {
    fn rad(self) -> (r: Angle<Self>) {
        Angle::from_radians(self)
    }

    fn rad_unbounded(self) -> (r: AngleUnbounded<Self>) {
        AngleUnbounded::from_radians(self)
    }

    fn deg(self) -> (r: Angle<Self>) {
        Angle::from_degrees(self)
    }

    fn deg_unbounded(self) -> (r: AngleUnbounded<Self>) {
        AngleUnbounded::from_degrees(self)
    }

    fn turns(self) -> (r: Angle<Self>) {
        Angle::from_turns(self)
    }

    fn turns_unbounded(self) -> (r: AngleUnbounded<Self>) {
        AngleUnbounded::from_turns(self)
    }

    fn grad(self) -> (r: Angle<Self>) {
        Angle::from_gradians(self)
    }

    fn grad_unbounded(self) -> (r: AngleUnbounded<Self>) {
        AngleUnbounded::from_gradians(self)
    }
}

} // verus!
