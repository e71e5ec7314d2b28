//! What holds of the two angle types together.
use vstd::prelude::*;
use vstd::arithmetic::div_mod::*;
use vstd::arithmetic::mul::*;
use crate::ieee::format::{Format, Number};
use crate::ieee::round::lemma_div_mod_unique;
use crate::ieee::sign::negation;
use crate::ieee::addition::signed;
use crate::ieee::convert::converted;
use crate::ieee::compare::equal;
use crate::sealed::Sealed;
use crate::scalar::{Binary32, Binary64, Float, number};
use crate::circle::{
    canonical, normalized, corrected, wrap, within_a_turn, pi, half_turn, full_turn,
    lemma_normalized_fixed, lemma_normalized_canonical, lemma_minus_pi_is_pi,
    lemma_circle_constants, lemma_corrected_remainder,
};
use crate::angle::Angle;
use crate::unbounded::AngleUnbounded;
use crate::precision::lemma_narrow_widen;

verus! {

/// A point of the circle, taken as a displacement and brought back to the
/// circle, is the point it was: `bounded` is what `to_bounded` gives of
/// `unbounded`, which is what `to_unbounded` gives of `angle`. The two
/// compare equal unless the angle is not a number, which equals nothing.
pub proof fn law_round_trip<F: Float>(
    angle: Angle<F>,
    unbounded: AngleUnbounded<F>,
    bounded: Angle<F>,
)
    requires
        angle.is_canonical(),
        unbounded.radians() == angle.radians(),
        bounded@ == normalized(F::format(), unbounded@),
    ensures
        bounded@ == angle@,
        angle@ is Finite ==> equal(bounded@, angle@),
{
    lemma_normalized_fixed(F::format(), angle@);
}

/// An angle made directly of a measure in radians, degrees or gradians is
/// the displacement made of the same measure, brought to the circle:
/// `measure` is the measure taken in radians, which both are made of. (A
/// number of turns is another matter: the point drops the whole turns
/// before it takes radians, the displacement cannot.)
pub proof fn law_constructors_agree<F: Float>(
    measure: Number,
    unbounded: AngleUnbounded<F>,
    bounded: Angle<F>,
    direct: Angle<F>,
)
    requires
        unbounded@ == measure,
        bounded@ == normalized(F::format(), unbounded@),
        direct@ == normalized(F::format(), measure),
    ensures
        bounded@ == direct@,
        direct.is_canonical(),
{
    lemma_normalized_canonical(F::format(), measure);
}

/// Bringing a displacement to the circle loses whole turns and nothing
/// else: the point is in the main range, and what is already there stays.
pub proof fn law_to_bounded<F: Float>(unbounded: AngleUnbounded<F>)
    ensures
        canonical(F::format(), normalized(F::format(), unbounded@)),
        canonical(F::format(), unbounded@) ==> normalized(F::format(), unbounded@) == unbounded@,
{
    lemma_normalized_canonical(F::format(), unbounded@);
    if canonical(F::format(), unbounded@) {
        lemma_normalized_fixed(F::format(), unbounded@);
    }
}

/// The angles made of the half turn and of its opposite are equal, and the
/// half turn is its own opposite: `negated` is what `neg` gives of `plus`.
pub proof fn law_half_turn<F: Float>(plus: Angle<F>, minus: Angle<F>, negated: Angle<F>)
    requires
        plus@ == normalized(F::format(), pi(F::format())),
        minus@ == normalized(F::format(), negation(pi(F::format()))),
        negated@ == if equal(plus@, pi(F::format())) {
            plus@
        } else {
            negation(plus@)
        },
    ensures
        equal(plus@, minus@),
        plus@ == pi(F::format()),
        negated@ == plus@,
{
    lemma_minus_pi_is_pi(F::format());
    lemma_circle_constants(F::format());
}

/// An angle of binary32, widened and narrowed again, is the angle it was:
/// `wide` is what `to_f64` gives of `angle`, and `back` what `to_f32` gives
/// of `wide`.
pub proof fn law_widen_narrow(
    angle: Angle<Binary32>,
    wide: Angle<Binary64>,
    back: Angle<Binary32>,
)
    requires
        angle.is_canonical(),
        wide@ == converted(Format::Binary32, Format::Binary64, angle@),
        back@ == normalized(
            Format::Binary32,
            converted(Format::Binary64, Format::Binary32, wide@),
        ),
    ensures
        back@ == angle@,
        angle@ is Finite ==> equal(back@, angle@),
{
    let x = angle.radians();
    x.lemma_held();
    lemma_narrow_widen(x.bits());
    lemma_normalized_fixed(Format::Binary32, angle@);
}

/// The representative differs from the value by a whole number of full
/// turns, and is the only number in the main range that does.
pub proof fn law_representative_unique(fmt: Format, s: int, w: int)
    requires
        -half_turn(fmt) < w <= half_turn(fmt),
        (w - s) % (full_turn(fmt) as int) == 0,
    ensures
        wrap(fmt, s) == w,
        (wrap(fmt, s) - s) % (full_turn(fmt) as int) == 0,
{
    lemma_circle_constants(fmt);
    let t = full_turn(fmt) as int;
    let k = (w - s) / t;
    lemma_fundamental_div_mod(w - s, t);
    // s == w - k * t
    if w >= 0 {
        assert(s == (-k) * t + w) by (nonlinear_arith)
            requires
                w - s == t * k,
        ;
        lemma_div_mod_unique(s, t, -k, w);
    } else {
        assert(s == (-k - 1) * t + (w + t)) by (nonlinear_arith)
            requires
                w - s == t * k,
        ;
        lemma_div_mod_unique(s, t, -k - 1, w + t);
    }
}

/// The representative of a value lies in the main range and differs from
/// the value by a whole number of full turns; whole turns added to the value
/// make no difference to it.
pub proof fn law_representative(fmt: Format, s: int, k: int)
    ensures
        wrap(fmt, s + k * full_turn(fmt)) == wrap(fmt, s),
        -half_turn(fmt) < wrap(fmt, s) <= half_turn(fmt),
        (wrap(fmt, s) - s) % (full_turn(fmt) as int) == 0,
{
    lemma_circle_constants(fmt);
    let t = full_turn(fmt) as int;
    lemma_mod_multiples_vanish(k, s, t);
    lemma_mul_is_commutative(k, t);
    lemma_mod_bound(s, t);
    let r = s % t;
    let q = s / t;
    lemma_fundamental_div_mod(s, t);
    if r > half_turn(fmt) {
        assert(r - t - s == (-q - 1) * t + 0) by (nonlinear_arith)
            requires
                s == t * q + r,
        ;
        lemma_div_mod_unique(r - t - s, t, -q - 1, 0);
    } else {
        assert(r - s == (-q) * t + 0) by (nonlinear_arith)
            requires
                s == t * q + r,
        ;
        lemma_div_mod_unique(r - s, t, -q, 0);
    }
}

/// The one correcting step agrees with the full reduction wherever it may
/// be used: for a value within one full turn of zero it gives the
/// representative in the main range. One whole turn below zero is the one
/// exception, by the sign of the zero that comes out.
pub proof fn law_correction_is_reduction(fmt: Format, x: Number)
    requires
        within_a_turn(fmt, x),
        x != (Number::Finite { negative: true, magnitude: full_turn(fmt) }),
    ensures
        corrected(fmt, x) == normalized(fmt, x),
{
    lemma_circle_constants(fmt);
    if let Number::Finite { negative, magnitude } = x {
        let t = full_turn(fmt);
        lemma_corrected_remainder(fmt, negative, magnitude);
        if magnitude < t {
            lemma_small_mod(magnitude, t);
        } else {
            lemma_mod_self_0(t as int);
        }
    }
}

/// Two finite values a whole number of full turns apart are the same point
/// of the circle.
pub proof fn law_whole_turns_vanish(fmt: Format, a: Number, b: Number, k: int)
    requires
        a is Finite,
        b is Finite,
        signed(a->Finite_negative, a->Finite_magnitude) == signed(
            b->Finite_negative,
            b->Finite_magnitude,
        ) + k * full_turn(fmt),
    ensures
        equal(normalized(fmt, a), normalized(fmt, b)),
{
    law_representative(fmt, signed(b->Finite_negative, b->Finite_magnitude), k);
}

} // verus!
