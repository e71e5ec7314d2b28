//! Angles carried from one scalar type to the other.
use vstd::prelude::*;
use vstd::arithmetic::mul::*;
use vstd::arithmetic::power2::*;
use crate::ieee::format::{Format, Number};
use crate::ieee::round::lemma_format_powers;
use crate::ieee::exact::{lemma_rounded_exact, lemma_rounded_same_ratio};
use crate::ieee::unpack::lemma_shape;
use crate::ieee::convert::converted;
use crate::scalar::{Binary32, Binary64};
use crate::circle::{canonical, normalized};
use crate::angle::Angle;
use crate::unbounded::AngleUnbounded;

verus! {

/// How many binary places the unit of binary64 lies below that of binary32.
pub open spec fn unit_gap() -> nat {
    (Format::Binary64.scale() - Format::Binary32.scale()) as nat
}

/// Widening is exact: the magnitude is the same, counted in the finer unit.
pub proof fn lemma_widen_exact(bits: u64)
    requires
        Format::Binary32.holds(bits),
    ensures
        converted(Format::Binary32, Format::Binary64, Format::Binary32.decode(bits))
            == match Format::Binary32.decode(bits) {
            Number::Finite { negative, magnitude } => Number::Finite {
                negative,
                magnitude: magnitude * pow2(unit_gap()),
            },
            other => other,
        },
{
    let narrow = Format::Binary32;
    let wide = Format::Binary64;
    if let Number::Finite { negative, magnitude } = narrow.decode(bits) {
        let p = lemma_shape(narrow, bits);
        let gap = unit_gap();
        lemma_pow2_adds(gap, narrow.scale());
        lemma_pow2_pos(narrow.scale());
        lemma_pow2_adds(p.1, gap);
        lemma_mul_is_associative(p.0 as int, pow2(p.1) as int, pow2(gap) as int);
        lemma_mul_is_associative(
            magnitude as int,
            pow2(gap) as int,
            pow2(narrow.scale()) as int,
        );
        lemma_mul_basics((magnitude * pow2(wide.scale())) as int);
        lemma_rounded_same_ratio(
            wide,
            magnitude * pow2(wide.scale()),
            pow2(narrow.scale()),
            magnitude * pow2(gap),
            1,
        );
        lemma_rounded_exact(wide, p.0, p.1 + gap);
        // far below the overflow threshold of the wider format
        lemma_format_powers(wide);
        lemma_pow2_pos(p.1 + gap);
        lemma_pow2_strictly_increases(p.1 + gap, wide.max_shift());
        assert(p.0 * pow2(p.1 + gap) < 2 * wide.hidden() * pow2(wide.max_shift()))
            by (nonlinear_arith)
            requires
                p.0 < 2 * wide.hidden(),
                0 < pow2(p.1 + gap) < pow2(wide.max_shift()),
        ;
    }
}

/// Widening and then narrowing returns every value of binary32.
pub proof fn lemma_narrow_widen(bits: u64)
    requires
        Format::Binary32.holds(bits),
    ensures
        converted(
            Format::Binary64,
            Format::Binary32,
            converted(Format::Binary32, Format::Binary64, Format::Binary32.decode(bits)),
        ) == Format::Binary32.decode(bits),
{
    let narrow = Format::Binary32;
    let wide = Format::Binary64;
    lemma_widen_exact(bits);
    if let Number::Finite { negative, magnitude } = narrow.decode(bits) {
        let p = lemma_shape(narrow, bits);
        let gap = unit_gap();
        lemma_pow2_adds(gap, narrow.scale());
        lemma_pow2_pos(wide.scale());
        lemma_mul_is_associative(
            magnitude as int,
            pow2(gap) as int,
            pow2(narrow.scale()) as int,
        );
        lemma_mul_basics((magnitude * pow2(wide.scale())) as int);
        lemma_rounded_same_ratio(
            narrow,
            (magnitude * pow2(gap)) * pow2(narrow.scale()),
            pow2(wide.scale()),
            magnitude,
            1,
        );
        lemma_rounded_exact(narrow, p.0, p.1);
    }
}

impl Angle<Binary32> {
    /// The same angle in binary64. Widening is exact and nothing is
    /// reduced, so the measure must lie in the main range of binary64 too:
    /// the half turn of binary32 does not, being greater than that of
    /// binary64.
    pub fn to_f64(self) -> (r: Angle<Binary64>)
        requires
            canonical(
                Format::Binary64,
                converted(Format::Binary32, Format::Binary64, self@),
            ),
        ensures
            r@ == converted(Format::Binary32, Format::Binary64, self@),
    {
        Angle::from_radians_unchecked(self.to_radians().to_binary64())
    }
}

impl Angle<Binary64> {
    /// The angle of binary32 nearest to this one. Rounding may carry the
    /// measure out of the main range of binary32, so it is brought back.
    pub fn to_f32(self) -> (r: Angle<Binary32>)
        ensures
            r@ == normalized(
                Format::Binary32,
                converted(Format::Binary64, Format::Binary32, self@),
            ),
            r.is_canonical(),
    {
        Angle::from_radians(self.to_radians().to_binary32())
    }
}

impl AngleUnbounded<Binary32> {
    /// The same angle in binary64.
    pub fn to_f64(self) -> (r: AngleUnbounded<Binary64>)
        ensures
            r@ == converted(Format::Binary32, Format::Binary64, self@),
    {
        AngleUnbounded::from_radians(self.to_radians().to_binary64())
    }
}

impl AngleUnbounded<Binary64> {
    /// The angle of binary32 nearest to this one.
    pub fn to_f32(self) -> (r: AngleUnbounded<Binary32>)
        ensures
            r@ == converted(Format::Binary64, Format::Binary32, self@),
    {
        AngleUnbounded::from_radians(self.to_radians().to_binary32())
    }
}

} // verus!
