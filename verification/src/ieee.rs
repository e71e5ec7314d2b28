//! IEEE 754 binary arithmetic on bit patterns, in whole numbers.
//!
//! A finite value is a whole number of units, the unit being the smallest
//! positive value of its format. Every operation forms its exact result in
//! those terms and rounds it once, to nearest, ties to even.
pub mod format;
pub mod power;
pub mod round;
pub mod exact;
pub mod sticky;
pub mod unpack;
pub mod sign;
pub mod multiply;
pub mod divide;
pub mod addition;
pub mod remainder;
pub mod convert;
pub mod compare;
