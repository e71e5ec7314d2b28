//! Unit-agnostic angles over IEEE 754 binary floating-point values.
//!
//! [`angle::Angle`] is a point of the circle: its measure is always held in
//! the main range, above minus the half turn and up to the half turn.
//! [`unbounded::AngleUnbounded`] is a displacement, and keeps its winding.
//!
//! Scalars are held as bit patterns and every operation on them is carried
//! out in whole numbers, so each result is stated exactly.
pub mod ieee;
pub mod constants;
mod sealed;
pub mod scalar;
pub mod circle;
pub mod ranges;
pub mod angle;
pub mod unbounded;
pub mod to_angle;
pub mod units;
pub mod uniform;
pub mod precision;
pub mod laws;

use vstd::prelude::*;

pub use crate::angle::Angle;
pub use crate::scalar::{Binary32, Binary64, Float};
pub use crate::to_angle::ToAngle;
pub use crate::unbounded::AngleUnbounded;

verus! {

/// A point of the circle measured in binary32.
pub type Angle32 = Angle<Binary32>;

/// A point of the circle measured in binary64.
pub type Angle64 = Angle<Binary64>;

/// A displacement measured in binary32.
pub type AngleUnbounded32 = AngleUnbounded<Binary32>;

/// A displacement measured in binary64.
pub type AngleUnbounded64 = AngleUnbounded<Binary64>;

} // verus!
