//! The order of values, read off their bit patterns.
use vstd::prelude::*;
use vstd::arithmetic::div_mod::*;
use vstd::arithmetic::power2::*;
use crate::ieee::format::{Format, Number};
use crate::ieee::round::lemma_format_powers;
use crate::ieee::addition::signed;

verus! {

/// `a` is less than `b`. Nothing is less than, or more than, not a number.
pub open spec fn less(a: Number, b: Number) -> bool {
    match (a, b) {
        (Number::Nan, _) => false,
        (_, Number::Nan) => false,
        (Number::Infinite { negative: na }, Number::Infinite { negative: nb }) => na && !nb,
        (Number::Infinite { negative: na }, Number::Finite { .. }) => na,
        (Number::Finite { .. }, Number::Infinite { negative: nb }) => !nb,
        (
            Number::Finite { negative: na, magnitude: ma },
            Number::Finite { negative: nb, magnitude: mb },
        ) => signed(na, ma) < signed(nb, mb),
    }
}

/// `a` equals `b`: the two zeros are equal, and not a number equals nothing.
pub open spec fn equal(a: Number, b: Number) -> bool {
    match (a, b) {
        (Number::Infinite { negative: na }, Number::Infinite { negative: nb }) => na == nb,
        (
            Number::Finite { negative: na, magnitude: ma },
            Number::Finite { negative: nb, magnitude: mb },
        ) => signed(na, ma) == signed(nb, mb),
        _ => false,
    }
}

/// `a` is less than or equal to `b`.
pub open spec fn less_eq(a: Number, b: Number) -> bool {
    less(a, b) || equal(a, b)
}

/// Of two finite patterns without sign, the greater encodes the greater
/// magnitude.
pub proof fn lemma_magnitude_monotone(fmt: Format, a1: nat, a2: nat)
    requires
        a1 < a2 < fmt.infinity_bits(),
    ensures
        fmt.magnitude_of(a1) < fmt.magnitude_of(a2),
{
    lemma_format_powers(fmt);
    let h = fmt.hidden();
    let e1 = a1 / h;
    let f1 = a1 % h;
    let e2 = a2 / h;
    let f2 = a2 % h;
    lemma_fundamental_div_mod(a1 as int, h as int);
    lemma_fundamental_div_mod(a2 as int, h as int);
    lemma_div_is_ordered(a1 as int, a2 as int, h as int);
    if e1 == e2 {
        if e1 > 0 {
            let pk = pow2((e1 - 1) as nat);
            lemma_pow2_pos((e1 - 1) as nat);
            assert((h + f1) * pk < (h + f2) * pk) by (nonlinear_arith)
                requires
                    f1 < f2,
                    pk > 0,
            ;
        }
    } else {
        let upper = pow2((e2 - 1) as nat);
        lemma_pow2_pos((e2 - 1) as nat);
        if e1 == 0 {
            assert((h + f2) * upper >= h) by (nonlinear_arith)
                requires
                    upper >= 1,
            ;
        } else {
            let lower = pow2((e1 - 1) as nat);
            lemma_pow2_pos((e1 - 1) as nat);
            lemma_pow2_unfold(e1);
            if e1 < e2 - 1 {
                lemma_pow2_strictly_increases(e1, (e2 - 1) as nat);
            }
            assert((h + f1) * lower < (h + f2) * upper) by (nonlinear_arith)
                requires
                    f1 < h,
                    upper >= 2 * lower,
                    lower > 0,
            ;
        }
    }
}

/// Where a pattern stands in the order of its format: the sign-free pattern
/// with the sign of the value.
pub open spec fn rank(fmt: Format, bits: u64) -> int {
    if bits >= fmt.sign_bit() {
        -(bits - fmt.sign_bit())
    } else {
        bits as int
    }
}

/// Among numbers, the order of the ranks is the order of the values.
pub proof fn lemma_rank_order(fmt: Format, a: u64, b: u64)
    requires
        fmt.holds(a),
        fmt.holds(b),
        fmt.decode(a) != Number::Nan,
        fmt.decode(b) != Number::Nan,
    ensures
        less(fmt.decode(a), fmt.decode(b)) == (rank(fmt, a) < rank(fmt, b)),
        equal(fmt.decode(a), fmt.decode(b)) == (rank(fmt, a) == rank(fmt, b)),
{
    let ra = rank(fmt, a);
    let rb = rank(fmt, b);
    let xa = if ra < 0 { (-ra) as nat } else { ra as nat };
    let xb = if rb < 0 { (-rb) as nat } else { rb as nat };
    let inf = fmt.infinity_bits();
    if xa < inf && xb < inf {
        if xa < xb {
            lemma_magnitude_monotone(fmt, xa, xb);
        } else if xb < xa {
            lemma_magnitude_monotone(fmt, xb, xa);
        }
        lemma_div_mod_zero(fmt);
    } else if xa < inf {
        lemma_div_mod_zero(fmt);
    } else if xb < inf {
        lemma_div_mod_zero(fmt);
    }
}

/// The all-zero pattern encodes nothing, and is the only one that does.
pub proof fn lemma_div_mod_zero(fmt: Format)
    ensures
        fmt.magnitude_of(0) == 0,
        forall|x: nat| 0 < x < fmt.infinity_bits() ==> fmt.magnitude_of(x) > 0,
{
    crate::ieee::round::lemma_div_mod_unique(0, fmt.hidden() as int, 0, 0);
    assert forall|x: nat| 0 < x < fmt.infinity_bits() implies fmt.magnitude_of(x) > 0 by {
        lemma_magnitude_monotone(fmt, 0, x);
    }
}

/// The rank of `bits`.
fn rank_of(fmt: Format, bits: u64) -> (r: i128)
    requires
        fmt.holds(bits),
    ensures
        r == rank(fmt, bits),
{
    let sign = fmt.sign_mask();
    if bits >= sign {
        -((bits - sign) as i128)
    } else {
        bits as i128
    }
}

/// Whether `a` is less than `b`.
pub fn lt(fmt: Format, a: u64, b: u64) -> (r: bool)
    requires
        fmt.holds(a),
        fmt.holds(b),
    ensures
        r == less(fmt.decode(a), fmt.decode(b)),
{
    if crate::ieee::sign::is_nan(fmt, a) || crate::ieee::sign::is_nan(fmt, b) {
        false
    } else {
        proof {
            lemma_rank_order(fmt, a, b);
        }
        rank_of(fmt, a) < rank_of(fmt, b)
    }
}

/// Whether `a` is less than or equal to `b`.
pub fn le(fmt: Format, a: u64, b: u64) -> (r: bool)
    requires
        fmt.holds(a),
        fmt.holds(b),
    ensures
        r == less_eq(fmt.decode(a), fmt.decode(b)),
{
    if crate::ieee::sign::is_nan(fmt, a) || crate::ieee::sign::is_nan(fmt, b) {
        false
    } else {
        proof {
            lemma_rank_order(fmt, a, b);
        }
        rank_of(fmt, a) <= rank_of(fmt, b)
    }
}

/// Whether `a` equals `b`.
pub fn eq(fmt: Format, a: u64, b: u64) -> (r: bool)
    requires
        fmt.holds(a),
        fmt.holds(b),
    ensures
        r == equal(fmt.decode(a), fmt.decode(b)),
{
    if crate::ieee::sign::is_nan(fmt, a) || crate::ieee::sign::is_nan(fmt, b) {
        false
    } else {
        proof {
            lemma_rank_order(fmt, a, b);
        }
        rank_of(fmt, a) == rank_of(fmt, b)
    }
}

} // verus!
