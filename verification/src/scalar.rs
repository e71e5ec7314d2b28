//! The scalar types that angles are measured in.
use vstd::prelude::*;
use vstd::arithmetic::power2::pow2;
use crate::ieee::format::{Format, Number};
use crate::ieee::round::round;
use crate::ieee::sign::negation;
use crate::ieee::multiply::product;
use crate::ieee::divide::quotient;
use crate::ieee::addition::{sum, difference};
use crate::ieee::remainder::remainder;
use crate::ieee::convert::{converted, whole};
use crate::ieee::compare::{less, less_eq, equal};
use crate::constants::{Constant, constant, constant_bits};
use crate::sealed::Sealed;

verus! {

/// The value that the bit pattern of `x` encodes.
pub open spec fn number<F: Sealed>(x: F) -> Number {
    F::format().decode(x.bits())
}

/// A floating-point scalar: arithmetic rounded to nearest, ties to even, the
/// order of the values, and the constants that angles need.
pub trait Float: Sealed {
    /// Whether the value is not a number.
    fn is_nan(self) -> (r: bool)
        ensures
            r == (number(self) == Number::Nan),
    {
        crate::ieee::sign::is_nan(Self::kind(), self.to_raw())
    }

    /// Whether the value is finite: a number, and not infinite.
    fn is_finite(self) -> (r: bool)
        ensures
            r == (number(self) is Finite),
    {
        crate::ieee::sign::is_finite(Self::kind(), self.to_raw())
    }

    /// `self + rhs`.
    fn add(self, rhs: Self) -> (r: Self)
        ensures
            number(r) == sum(Self::format(), number(self), number(rhs)),
    {
        Self::from_raw(crate::ieee::addition::add(Self::kind(), self.to_raw(), rhs.to_raw()))
    }

    /// `self - rhs`.
    fn sub(self, rhs: Self) -> (r: Self)
        ensures
            number(r) == difference(Self::format(), number(self), number(rhs)),
    {
        Self::from_raw(crate::ieee::addition::sub(Self::kind(), self.to_raw(), rhs.to_raw()))
    }

    /// `self * rhs`.
    fn mul(self, rhs: Self) -> (r: Self)
        ensures
            number(r) == product(Self::format(), number(self), number(rhs)),
    {
        Self::from_raw(crate::ieee::multiply::mul(Self::kind(), self.to_raw(), rhs.to_raw()))
    }

    /// `self / rhs`.
    fn div(self, rhs: Self) -> (r: Self)
        ensures
            number(r) == quotient(Self::format(), number(self), number(rhs)),
    {
        Self::from_raw(crate::ieee::divide::div(Self::kind(), self.to_raw(), rhs.to_raw()))
    }

    /// `self % rhs`: the remainder of the truncating division.
    fn rem(self, rhs: Self) -> (r: Self)
        ensures
            number(r) == remainder(number(self), number(rhs)),
    {
        Self::from_raw(crate::ieee::remainder::rem(Self::kind(), self.to_raw(), rhs.to_raw()))
    }

    /// `-self`.
    fn neg(self) -> (r: Self)
        ensures
            number(r) == negation(number(self)),
    {
        Self::from_raw(crate::ieee::sign::neg(Self::kind(), self.to_raw()))
    }

    /// `self < rhs`.
    fn lt(self, rhs: Self) -> (r: bool)
        ensures
            r == less(number(self), number(rhs)),
    {
        crate::ieee::compare::lt(Self::kind(), self.to_raw(), rhs.to_raw())
    }

    /// `self <= rhs`.
    fn le(self, rhs: Self) -> (r: bool)
        ensures
            r == less_eq(number(self), number(rhs)),
    {
        crate::ieee::compare::le(Self::kind(), self.to_raw(), rhs.to_raw())
    }

    /// `self > rhs`.
    fn gt(self, rhs: Self) -> (r: bool)
        ensures
            r == less(number(rhs), number(self)),
    {
        crate::ieee::compare::lt(Self::kind(), rhs.to_raw(), self.to_raw())
    }

    /// `self >= rhs`.
    fn ge(self, rhs: Self) -> (r: bool)
        ensures
            r == less_eq(number(rhs), number(self)),
    {
        crate::ieee::compare::le(Self::kind(), rhs.to_raw(), self.to_raw())
    }

    /// `self == rhs`, as values.
    fn eq(self, rhs: Self) -> (r: bool)
        ensures
            r == equal(number(self), number(rhs)),
    {
        crate::ieee::compare::eq(Self::kind(), self.to_raw(), rhs.to_raw())
    }

    /// The value nearest to the whole number `n`: `n` itself where it has
    /// no more than 24 bits.
    fn from_count(n: u32) -> (r: Self)
        ensures
            number(r) == round(Self::format(), false, n as nat * pow2(Self::format().scale()), 1),
            n < 0x100_0000 ==> number(r) == whole(Self::format(), n as nat),
    {
        Self::from_raw(crate::ieee::convert::from_count(Self::kind(), n))
    }

    /// The constant `c` in this type.
    fn constant(c: Constant) -> (r: Self)
        ensures
            r.bits() == constant_bits(Self::format(), c),
    {
        Self::from_raw(constant(Self::kind(), c))
    }

    /// Nothing.
    fn zero() -> (r: Self)
        ensures
            r.bits() == constant_bits(Self::format(), Constant::Zero),
    {
        Self::constant(Constant::Zero)
    }

    /// One.
    fn one() -> (r: Self)
        ensures
            r.bits() == constant_bits(Self::format(), Constant::One),
    {
        Self::constant(Constant::One)
    }

    /// The gap between one and the next value above it.
    fn epsilon() -> (r: Self)
        ensures
            r.bits() == constant_bits(Self::format(), Constant::Epsilon),
    {
        Self::constant(Constant::Epsilon)
    }

    /// Twice `epsilon`.
    fn double_epsilon() -> (r: Self)
        ensures
            r.bits() == constant_bits(Self::format(), Constant::DoubleEpsilon),
    {
        Self::constant(Constant::DoubleEpsilon)
    }

    /// The full circle in radians, twice `pi`.
    fn tau() -> (r: Self)
        ensures
            r.bits() == constant_bits(Self::format(), Constant::Tau),
    {
        Self::constant(Constant::Tau)
    }

    /// The value of the format nearest to the half circle in radians.
    fn pi() -> (r: Self)
        ensures
            r.bits() == constant_bits(Self::format(), Constant::Pi),
    {
        Self::constant(Constant::Pi)
    }

    /// `pi` over two.
    fn frac_pi_2() -> (r: Self)
        ensures
            r.bits() == constant_bits(Self::format(), Constant::FracPi2),
    {
        Self::constant(Constant::FracPi2)
    }

    /// `pi` over three.
    fn frac_pi_3() -> (r: Self)
        ensures
            r.bits() == constant_bits(Self::format(), Constant::FracPi3),
    {
        Self::constant(Constant::FracPi3)
    }

    /// `pi` over four.
    fn frac_pi_4() -> (r: Self)
        ensures
            r.bits() == constant_bits(Self::format(), Constant::FracPi4),
    {
        Self::constant(Constant::FracPi4)
    }

    /// `pi` over six.
    fn frac_pi_6() -> (r: Self)
        ensures
            r.bits() == constant_bits(Self::format(), Constant::FracPi6),
    {
        Self::constant(Constant::FracPi6)
    }

    /// `pi` over eight.
    fn frac_pi_8() -> (r: Self)
        ensures
            r.bits() == constant_bits(Self::format(), Constant::FracPi8),
    {
        Self::constant(Constant::FracPi8)
    }

    /// Radians per degree: `pi` over 180, rounded.
    fn deg_to_rad() -> (r: Self)
        ensures
            r.bits() == constant_bits(Self::format(), Constant::DegToRad),
    {
        Self::constant(Constant::DegToRad)
    }

    /// Degrees per radian: 180 over `pi`, rounded.
    fn rad_to_deg() -> (r: Self)
        ensures
            r.bits() == constant_bits(Self::format(), Constant::RadToDeg),
    {
        Self::constant(Constant::RadToDeg)
    }

    /// Radians per turn: `tau`.
    fn turns_to_rad() -> (r: Self)
        ensures
            r.bits() == constant_bits(Self::format(), Constant::TurnsToRad),
    {
        Self::constant(Constant::TurnsToRad)
    }

    /// Turns per radian: one over `tau`, rounded.
    fn rad_to_turns() -> (r: Self)
        ensures
            r.bits() == constant_bits(Self::format(), Constant::RadToTurns),
    {
        Self::constant(Constant::RadToTurns)
    }

    /// Radians per gradian: `pi` over 200, rounded.
    fn grad_to_rad() -> (r: Self)
        ensures
            r.bits() == constant_bits(Self::format(), Constant::GradToRad),
    {
        Self::constant(Constant::GradToRad)
    }

    /// Gradians per radian: 200 over `pi`, rounded.
    fn rad_to_grad() -> (r: Self)
        ensures
            r.bits() == constant_bits(Self::format(), Constant::RadToGrad),
    {
        Self::constant(Constant::RadToGrad)
    }
}

/// An IEEE 754 binary32 value.
#[derive(Clone, Copy, Debug)]
pub struct Binary32 {
    bits: u32,
}

/// An IEEE 754 binary64 value.
#[derive(Clone, Copy, Debug)]
pub struct Binary64 {
    bits: u64,
}

impl Sealed for Binary32 {
    open spec fn format() -> Format {
        Format::Binary32
    }

    closed spec fn bits(self) -> u64 {
        self.bits as u64
    }

    proof fn lemma_held(self) {
    }

    fn kind() -> (f: Format) {
        Format::Binary32
    }

    fn to_raw(self) -> (b: u64) {
        self.bits as u64
    }

    fn from_raw(b: u64) -> (r: Self) {
        Binary32 { bits: b as u32 }
    }
}

impl Float for Binary32 {}

impl Sealed for Binary64 {
    open spec fn format() -> Format {
        Format::Binary64
    }

    closed spec fn bits(self) -> u64 {
        self.bits
    }

    proof fn lemma_held(self) {
    }

    fn kind() -> (f: Format) {
        Format::Binary64
    }

    fn to_raw(self) -> (b: u64) {
        self.bits
    }

    fn from_raw(b: u64) -> (r: Self) {
        Binary64 { bits: b }
    }
}

impl Float for Binary64 {}

impl Binary32 {
    /// The value with the given bit pattern.
    pub fn from_bits(bits: u32) -> (r: Self)
        ensures
            r.bits() == bits,
    {
        Binary32 { bits }
    }

    /// The bit pattern of the value.
    pub fn to_bits(self) -> (bits: u32)
        ensures
            bits == self.bits(),
    {
        self.bits
    }

    /// The same value in the wider format.
    pub fn to_binary64(self) -> (r: Binary64)
        ensures
            number(r) == converted(Format::Binary32, Format::Binary64, number(self)),
    {
        Binary64 {
            bits: crate::ieee::convert::convert(Format::Binary32, Format::Binary64, self.bits as u64),
        }
    }
}

impl Binary64 {
    /// The value with the given bit pattern.
    pub fn from_bits(bits: u64) -> (r: Self)
        ensures
            r.bits() == bits,
    {
        Binary64 { bits }
    }

    /// The bit pattern of the value.
    pub fn to_bits(self) -> (bits: u64)
        ensures
            bits == self.bits(),
    {
        self.bits
    }

    /// The value of the narrower format nearest to this one.
    pub fn to_binary32(self) -> (r: Binary32)
        ensures
            number(r) == converted(Format::Binary64, Format::Binary32, number(self)),
    {
        Binary32 {
            bits: crate::ieee::convert::convert(Format::Binary64, Format::Binary32, self.bits) as u32,
        }
    }
}

} // verus!
