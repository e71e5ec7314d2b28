//! Rounding a value known only to lie strictly between two neighbouring
//! multiples of a small step: the midpoint rounds the same way.
use vstd::prelude::*;
use vstd::arithmetic::div_mod::*;
use vstd::arithmetic::mul::*;
use vstd::arithmetic::power2::*;
use crate::ieee::format::Format;
use crate::ieee::power::{width, lemma_width_bounds, lemma_width_unique};
use crate::ieee::round::{
    excess, nearest_even, rounded, numer, denom, lemma_div_mod_unique, lemma_format_powers,
};

verus! {

/// `x / t` rounded to the nearest whole number, a half counting upwards.
pub open spec fn half_up(x: nat, t: nat) -> nat {
    if 2 * (x % t) >= t {
        x / t + 1
    } else {
        x / t
    }
}

/// A fraction strictly between `x / 2^t` and `(x + 1) / 2^t`, with `t >= 1`,
/// is never a tie, and its nearest whole number is set by `x` alone.
pub proof fn lemma_nearest_even_between(a: nat, b: nat, x: nat, t: nat)
    requires
        b > 0,
        t >= 1,
        x * b < a * pow2(t),
        a * pow2(t) < (x + 1) * b,
    ensures
        nearest_even(a, b) == half_up(x, pow2(t)),
{
    let tt = pow2(t);
    let th = pow2((t - 1) as nat);
    lemma_pow2_unfold(t);
    lemma_pow2_pos((t - 1) as nat);
    let q0 = x / tt;
    let r0 = x % tt;
    lemma_fundamental_div_mod(x as int, tt as int);
    assert(q0 * b <= a && a < (q0 + 1) * b) by (nonlinear_arith)
        requires
            x == tt * q0 + r0,
            0 <= r0 < tt,
            x * b < a * tt,
            a * tt < (x + 1) * b,
            b > 0,
            tt > 0,
    ;
    let rho = (a - q0 * b) as nat;
    assert(0 <= rho < b) by (nonlinear_arith)
        requires
            rho == a - q0 * b,
            q0 * b <= a,
            a < (q0 + 1) * b,
    ;
    lemma_div_mod_unique(a as int, b as int, q0 as int, rho as int);
    if r0 >= th {
        assert(2 * rho > b) by (nonlinear_arith)
            requires
                x == tt * q0 + r0,
                x * b < a * tt,
                rho == a - q0 * b,
                r0 >= th,
                tt == 2 * th,
                th > 0,
                b > 0,
        ;
    } else {
        assert(2 * rho < b) by (nonlinear_arith)
            requires
                x == tt * q0 + r0,
                a * tt < (x + 1) * b,
                rho == a - q0 * b,
                r0 + 1 <= th,
                tt == 2 * th,
                th > 0,
                b > 0,
        ;
    }
}

/// A numerator between two multiples of the denominator has its quotient
/// between the two factors.
pub proof fn lemma_floor_bounds(n: nat, d: nat, lo: nat, hi: nat)
    requires
        d > 0,
        lo * d <= n,
        n < hi * d,
    ensures
        lo <= n / d < hi,
{
    lemma_fundamental_div_mod(n as int, d as int);
    let q = n / d;
    let r = n % d;
    assert(lo <= q < hi) by (nonlinear_arith)
        requires
            n == d * q + r,
            0 <= r < d,
            lo * d <= n,
            n < hi * d,
    ;
}

/// `n / d` lies strictly between `x * 2^j` and `(x + 1) * 2^j`.
pub open spec fn brackets(n: nat, d: nat, x: nat, j: int) -> bool {
    &&& numer(x, j) * d < n * denom(j)
    &&& n * denom(j) < numer(x + 1, j) * d
}

/// The number of bits rounded away from any value that `x` and `j` bracket.
pub open spec fn bracket_excess(fmt: Format, x: nat, j: int) -> nat {
    if j >= 0 {
        (width(x) + j - fmt.precision()) as nat
    } else {
        excess(fmt, x / pow2((-j) as nat))
    }
}

/// What a bracketed value rounds to is set by the bracket alone.
pub proof fn lemma_bracket_side(fmt: Format, n: nat, d: nat, x: nat, j: int)
    requires
        d > 0,
        j < 0 || width(x) > fmt.precision(),
        brackets(n, d, x, j),
    ensures
        excess(fmt, n / d) == bracket_excess(fmt, x, j),
        bracket_excess(fmt, x, j) - j >= 1,
        d * pow2(bracket_excess(fmt, x, j)) > 0,
        nearest_even(n, d * pow2(bracket_excess(fmt, x, j))) == half_up(
            x,
            pow2((bracket_excess(fmt, x, j) - j) as nat),
        ),
{
    let k = bracket_excess(fmt, x, j);
    let pk = pow2(k);
    lemma_pow2_pos(k);
    lemma_mul_strictly_positive(d as int, pk as int);
    if j >= 0 {
        let jn = j as nat;
        let g = pow2(jn);
        let w = width(x);
        lemma_pow2_pos(jn);
        lemma_width_bounds(x);
        lemma_pow2_adds(w, jn);
        lemma_pow2_adds((w - 1) as nat, jn);
        lemma_format_powers(fmt);
        let lo = x * g;
        let hi = (x + 1) * g;
        assert(lo * d <= n && n < hi * d) by (nonlinear_arith)
            requires
                (x * g) * d < n * 1,
                n * 1 < ((x + 1) * g) * d,
                lo == x * g,
                hi == (x + 1) * g,
        ;
        lemma_floor_bounds(n, d, lo, hi);
        let q = n / d;
        assert(q < pow2(w + jn) && pow2((w - 1) as nat + jn) <= q) by (nonlinear_arith)
            requires
                lo <= q < hi,
                lo == x * g,
                hi == (x + 1) * g,
                x + 1 <= pow2(w),
                pow2((w - 1) as nat) <= x,
                pow2(w + jn) == pow2(w) * g,
                pow2((w - 1) as nat + jn) == pow2((w - 1) as nat) * g,
                g > 0,
        ;
        lemma_width_unique(q, w + jn);
        let t = (k - j) as nat;
        lemma_pow2_adds(t, jn);
        lemma_pow2_pos(t);
        assert(x * (d * pk) < n * pow2(t) && n * pow2(t) < (x + 1) * (d * pk))
            by (nonlinear_arith)
            requires
                (x * g) * d < n * 1,
                n * 1 < ((x + 1) * g) * d,
                pk == pow2(t) * g,
                pow2(t) > 0,
        ;
        lemma_nearest_even_between(n, d * pk, x, t);
    } else {
        let g = pow2((-j) as nat);
        lemma_pow2_pos((-j) as nat);
        assert(x * d <= n * g && n * g < (x + 1) * d);
        lemma_floor_bounds(n * g, d, x, x + 1);
        lemma_div_multiples_vanish_quotient(g as int, n as int, d as int);
        lemma_mul_is_commutative(g as int, n as int);
        lemma_div_denominator((n * g) as int, d as int, g as int);
        lemma_mul_is_commutative(g as int, d as int);
        assert(n / d == x / g);
        let t = (k - j) as nat;
        lemma_pow2_adds(k, (-j) as nat);
        assert(x * (d * pk) < n * pow2(t) && n * pow2(t) < (x + 1) * (d * pk))
            by (nonlinear_arith)
            requires
                x * d < n * g,
                n * g < (x + 1) * d,
                pow2(t) == pk * g,
                pk > 0,
        ;
        lemma_nearest_even_between(n, d * pk, x, t);
    }
}

/// The midpoint of a bracket lies in the bracket.
pub proof fn lemma_midpoint_bracketed(x: nat, j: int)
    ensures
        denom(j - 1) > 0,
        brackets(numer(2 * x + 1, j - 1), denom(j - 1), x, j),
{
    lemma2_to64();
    if j >= 1 {
        let h = pow2((j - 1) as nat);
        lemma_pow2_unfold(j as nat);
        lemma_pow2_pos((j - 1) as nat);
        assert((x * (2 * h)) * 1 < ((2 * x + 1) * h) * 1 && ((2 * x + 1) * h) * 1 < ((x + 1) * (2
            * h)) * 1) by (nonlinear_arith)
            requires
                h > 0,
        ;
    } else {
        let g = pow2((-j) as nat);
        lemma_pow2_unfold((1 - j) as nat);
        lemma_pow2_pos((-j) as nat);
        if j == 0 {
            assert(x * pow2(0) == x && (x + 1) * pow2(0) == x + 1) by (nonlinear_arith)
                requires
                    pow2(0) == 1,
            ;
            assert(denom(0) == 1);
        }
        let xx = numer(x, j);
        let xx1 = numer(x + 1, j);
        let dj = denom(j);
        assert(xx == x && xx1 == x + 1);
        assert(dj == g);
        assert(xx * (2 * g) < (2 * x + 1) * dj && (2 * x + 1) * dj < xx1 * (2 * g))
            by (nonlinear_arith)
            requires
                xx == x,
                xx1 == x + 1,
                dj == g,
                g > 0,
        ;
    }
}

/// A value strictly between `x * 2^j` and `(x + 1) * 2^j` rounds as their
/// midpoint does, wherever at least one bit of `x` is rounded away.
pub proof fn lemma_rounded_sticky(fmt: Format, n: nat, d: nat, x: nat, j: int)
    requires
        d > 0,
        j < 0 || width(x) > fmt.precision(),
        brackets(n, d, x, j),
    ensures
        rounded(fmt, n, d) == rounded(fmt, numer(2 * x + 1, j - 1), denom(j - 1)),
{
    lemma_midpoint_bracketed(x, j);
    lemma_bracket_side(fmt, n, d, x, j);
    lemma_bracket_side(fmt, numer(2 * x + 1, j - 1), denom(j - 1), x, j);
}

} // verus!
