//! The bit patterns behind the scalar types.
use vstd::prelude::*;
use crate::ieee::format::Format;

verus! {

/// A bit pattern of one of the two formats. Only the scalar types of this
/// library implement it: no other crate can name it.
pub trait Sealed: Copy + Sized {
    /// The format of the type.
    spec fn format() -> Format;

    /// The bit pattern of the value, widened to 64 bits.
    spec fn bits(self) -> u64;

    /// Every bit pattern of the type is one of its format.
    proof fn lemma_held(self)
        ensures
            Self::format().holds(self.bits()),
    ;

    /// The format of the type.
    fn kind() -> (f: Format)
        ensures
            f == Self::format(),
    ;

    /// The bit pattern of the value, widened to 64 bits.
    fn to_raw(self) -> (b: u64)
        ensures
            b == self.bits(),
            Self::format().holds(b),
    ;

    /// The value with bit pattern `b`.
    fn from_raw(b: u64) -> (r: Self)
        requires
            Self::format().holds(b),
        ensures
            r.bits() == b,
    ;
}

} // verus!
