//! The sign and the class of a bit pattern.
use vstd::prelude::*;
use crate::ieee::format::{Format, Number};

verus! {

/// The value with the sign turned; not a number stays so.
pub open spec fn negation(a: Number) -> Number {
    match a {
        Number::Nan => Number::Nan,
        Number::Infinite { negative } => Number::Infinite { negative: !negative },
        Number::Finite { negative, magnitude } => Number::Finite { negative: !negative, magnitude },
    }
}

/// Turns the sign of `bits`.
pub fn neg(fmt: Format, bits: u64) -> (r: u64)
    requires
        fmt.holds(bits),
    ensures
        fmt.holds(r),
        fmt.decode(r) == negation(fmt.decode(bits)),
        r != bits,
{
    let sign = fmt.sign_mask();
    if bits >= sign {
        bits - sign
    } else {
        bits + sign
    }
}

/// Whether `bits` encodes no number.
pub fn is_nan(fmt: Format, bits: u64) -> (r: bool)
    requires
        fmt.holds(bits),
    ensures
        r == (fmt.decode(bits) == Number::Nan),
{
    let sign = fmt.sign_mask();
    let abs = if bits >= sign { bits - sign } else { bits };
    abs > fmt.infinity()
}

/// Whether `bits` encodes a finite value.
pub fn is_finite(fmt: Format, bits: u64) -> (r: bool)
    requires
        fmt.holds(bits),
    ensures
        r == (fmt.decode(bits) is Finite),
{
    let sign = fmt.sign_mask();
    let abs = if bits >= sign { bits - sign } else { bits };
    abs < fmt.infinity()
}

} // verus!
