//! The constants that every scalar type provides, as bit patterns.
use vstd::prelude::*;
use crate::ieee::format::{Format, Number};

verus! {

/// The constants of the scalar types.
#[derive(PartialEq, Eq, Structural, Clone, Copy, Debug)]
pub enum Constant {
    /// Nothing.
    Zero,
    /// One.
    One,
    /// The gap between one and the next value above it.
    Epsilon,
    /// Twice `epsilon`.
    DoubleEpsilon,
    /// The full circle in radians, twice `pi`.
    Tau,
    /// The value of the format nearest to the half circle in radians.
    Pi,
    /// `pi` over two.
    FracPi2,
    /// `pi` over three.
    FracPi3,
    /// `pi` over four.
    FracPi4,
    /// `pi` over six.
    FracPi6,
    /// `pi` over eight.
    FracPi8,
    /// Radians per degree: `pi` over 180, rounded.
    DegToRad,
    /// Degrees per radian: 180 over `pi`, rounded.
    RadToDeg,
    /// Radians per turn: `tau`.
    TurnsToRad,
    /// Turns per radian: one over `tau`, rounded.
    RadToTurns,
    /// Radians per gradian: `pi` over 200, rounded.
    GradToRad,
    /// Gradians per radian: 200 over `pi`, rounded.
    RadToGrad,
}

/// The bit pattern of constant `c` in format `fmt`.
pub open spec fn constant_bits(fmt: Format, c: Constant) -> u64 {
    match fmt {
        Format::Binary32 => match c {
            Constant::Zero => 0x0000_0000,
            Constant::One => 0x3f80_0000,
            Constant::Epsilon => 0x3400_0000,
            Constant::DoubleEpsilon => 0x3480_0000,
            Constant::Tau => 0x40c9_0fdb,
            Constant::Pi => 0x4049_0fdb,
            Constant::FracPi2 => 0x3fc9_0fdb,
            Constant::FracPi3 => 0x3f86_0a92,
            Constant::FracPi4 => 0x3f49_0fdb,
            Constant::FracPi6 => 0x3f06_0a92,
            Constant::FracPi8 => 0x3ec9_0fdb,
            Constant::DegToRad => 0x3c8e_fa35,
            Constant::RadToDeg => 0x4265_2ee0,
            Constant::TurnsToRad => 0x40c9_0fdb,
            Constant::RadToTurns => 0x3e22_f983,
            Constant::GradToRad => 0x3c80_adfd,
            Constant::RadToGrad => 0x427e_a5dd,
        },
        Format::Binary64 => match c {
            Constant::Zero => 0x0000_0000_0000_0000,
            Constant::One => 0x3ff0_0000_0000_0000,
            Constant::Epsilon => 0x3cb0_0000_0000_0000,
            Constant::DoubleEpsilon => 0x3cc0_0000_0000_0000,
            Constant::Tau => 0x4019_21fb_5444_2d18,
            Constant::Pi => 0x4009_21fb_5444_2d18,
            Constant::FracPi2 => 0x3ff9_21fb_5444_2d18,
            Constant::FracPi3 => 0x3ff0_c152_382d_7366,
            Constant::FracPi4 => 0x3fe9_21fb_5444_2d18,
            Constant::FracPi6 => 0x3fe0_c152_382d_7366,
            Constant::FracPi8 => 0x3fd9_21fb_5444_2d18,
            Constant::DegToRad => 0x3f91_df46_a252_9d39,
            Constant::RadToDeg => 0x404c_a5dc_1a63_c1f8,
            Constant::TurnsToRad => 0x4019_21fb_5444_2d18,
            Constant::RadToTurns => 0x3fc4_5f30_6dc9_c883,
            Constant::GradToRad => 0x3f90_15bf_9217_271a,
            Constant::RadToGrad => 0x404f_d4bb_ab8b_494c,
        },
    }
}

/// The value of constant `c` in format `fmt`.
pub open spec fn constant_number(fmt: Format, c: Constant) -> Number {
    fmt.decode(constant_bits(fmt, c))
}

/// The bit pattern of constant `c` in format `fmt`.
pub fn constant(fmt: Format, c: Constant) -> (bits: u64)
    ensures
        bits == constant_bits(fmt, c),
        fmt.holds(bits),
{
    match fmt {
        Format::Binary32 => match c {
            Constant::Zero => 0x0000_0000,
            Constant::One => 0x3f80_0000,
            Constant::Epsilon => 0x3400_0000,
            Constant::DoubleEpsilon => 0x3480_0000,
            Constant::Tau => 0x40c9_0fdb,
            Constant::Pi => 0x4049_0fdb,
            Constant::FracPi2 => 0x3fc9_0fdb,
            Constant::FracPi3 => 0x3f86_0a92,
            Constant::FracPi4 => 0x3f49_0fdb,
            Constant::FracPi6 => 0x3f06_0a92,
            Constant::FracPi8 => 0x3ec9_0fdb,
            Constant::DegToRad => 0x3c8e_fa35,
            Constant::RadToDeg => 0x4265_2ee0,
            Constant::TurnsToRad => 0x40c9_0fdb,
            Constant::RadToTurns => 0x3e22_f983,
            Constant::GradToRad => 0x3c80_adfd,
            Constant::RadToGrad => 0x427e_a5dd,
        },
        Format::Binary64 => match c {
            Constant::Zero => 0x0000_0000_0000_0000,
            Constant::One => 0x3ff0_0000_0000_0000,
            Constant::Epsilon => 0x3cb0_0000_0000_0000,
            Constant::DoubleEpsilon => 0x3cc0_0000_0000_0000,
            Constant::Tau => 0x4019_21fb_5444_2d18,
            Constant::Pi => 0x4009_21fb_5444_2d18,
            Constant::FracPi2 => 0x3ff9_21fb_5444_2d18,
            Constant::FracPi3 => 0x3ff0_c152_382d_7366,
            Constant::FracPi4 => 0x3fe9_21fb_5444_2d18,
            Constant::FracPi6 => 0x3fe0_c152_382d_7366,
            Constant::FracPi8 => 0x3fd9_21fb_5444_2d18,
            Constant::DegToRad => 0x3f91_df46_a252_9d39,
            Constant::RadToDeg => 0x404c_a5dc_1a63_c1f8,
            Constant::TurnsToRad => 0x4019_21fb_5444_2d18,
            Constant::RadToTurns => 0x3fc4_5f30_6dc9_c883,
            Constant::GradToRad => 0x3f90_15bf_9217_271a,
            Constant::RadToGrad => 0x404f_d4bb_ab8b_494c,
        },
    }
}

} // verus!
