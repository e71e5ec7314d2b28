//! Rounding depends on the exact value alone, and leaves the values of a
//! format as they are.
use vstd::prelude::*;
use vstd::arithmetic::div_mod::*;
use vstd::arithmetic::mul::*;
use vstd::arithmetic::power2::*;
use crate::ieee::format::{Format, Number};
use crate::ieee::power::{width, lemma_width_bounds, lemma_width_shift, lemma_width_unique};
use crate::ieee::round::{
    excess, nearest_even, rounded, round, numer, denom, lemma_div_mod_unique,
    lemma_nearest_even_scale, lemma_format_powers, lemma_round_target, lemma_whole_width,
};

verus! {

/// Scaling numerator and denominator alike leaves the rounded magnitude.
pub proof fn lemma_rounded_scale(fmt: Format, n: nat, d: nat, c: nat)
    requires
        d > 0,
        c > 0,
    ensures
        d * c > 0,
        rounded(fmt, n * c, d * c) == rounded(fmt, n, d),
{
    lemma_mul_strictly_positive(d as int, c as int);
    lemma_div_multiples_vanish_quotient(c as int, n as int, d as int);
    lemma_mul_is_commutative(c as int, n as int);
    lemma_mul_is_commutative(c as int, d as int);
    assert((n * c) / (d * c) == n / d);
    let k = excess(fmt, n / d);
    let pk = pow2(k);
    lemma_pow2_pos(k);
    lemma_mul_strictly_positive(d as int, pk as int);
    assert((d * c) * pk == (d * pk) * c) by (nonlinear_arith);
    lemma_nearest_even_scale(n, d * pk, c);
}

/// Two fractions of equal value round alike.
pub proof fn lemma_rounded_same_ratio(fmt: Format, n: nat, d: nat, n2: nat, d2: nat)
    requires
        d > 0,
        d2 > 0,
        n * d2 == n2 * d,
    ensures
        rounded(fmt, n, d) == rounded(fmt, n2, d2),
        forall|negative: bool| round(fmt, negative, n, d) == round(fmt, negative, n2, d2),
{
    lemma_rounded_scale(fmt, n, d, d2);
    lemma_rounded_scale(fmt, n2, d2, d);
    lemma_mul_is_commutative(d as int, d2 as int);
}

/// A significand of at most the format's precision, shifted up, is a value
/// of the format: rounding returns it.
pub proof fn lemma_rounded_exact(fmt: Format, m: nat, e: nat)
    requires
        m < 2 * fmt.hidden(),
    ensures
        rounded(fmt, m * pow2(e), 1) == m * pow2(e),
{
    lemma_format_powers(fmt);
    lemma2_to64();
    let n = m * pow2(e);
    assert(n == numer(m, e as int));
    assert(denom(e as int) == 1);
    lemma_div_mod_unique(n as int, 1, n as int, 0);
    if m == 0 {
        lemma_mul_basics(pow2(e) as int);
        assert(n == 0);
        assert(width(n) == 0);
        assert(excess(fmt, n / 1) == 0);
        assert(1 * pow2(0) == 1);
        lemma_div_mod_unique(0, 1, 0, 0);
        assert(nearest_even(0, 1) == 0);
    } else {
        lemma_whole_width(m, e as int);
        lemma_width_bounds(m);
        if width(m) > fmt.precision() {
            if width(m) - 1 > fmt.precision() {
                lemma_pow2_strictly_increases(fmt.precision(), (width(m) - 1) as nat);
            }
        }
        assert(width(m) <= fmt.precision());
        let k = excess(fmt, n / 1);
        assert(k <= e);
        lemma_round_target(m, e as int, k);
        let z = (e - k) as nat;
        lemma_pow2_adds(z, k);
        lemma_mul_is_associative(m as int, pow2(z) as int, pow2(k) as int);
    }
}

/// `m * 2^up / 2^down` and `m * 2^(up - down)` are the same value.
pub proof fn lemma_shift_ratio(m: nat, up: nat, down: nat)
    ensures
        denom(up - down) > 0,
        pow2(down) > 0,
        (m * pow2(up)) * denom(up - down) == numer(m, up - down) * pow2(down),
{
    lemma_pow2_pos(down);
    lemma_pow2_pos(up);
    if up >= down {
        let z = (up - down) as nat;
        lemma_pow2_adds(z, down);
        lemma_mul_is_associative(m as int, pow2(z) as int, pow2(down) as int);
        lemma_mul_basics((m * pow2(up)) as int);
    } else {
        let z = (down - up) as nat;
        lemma_pow2_pos(z);
        lemma_pow2_adds(up, z);
        lemma_mul_is_associative(m as int, pow2(up) as int, pow2(z) as int);
    }
}

/// Rounding `m * 2^up / 2^down` is rounding `m * 2^(up - down)`.
pub proof fn lemma_round_shifted(fmt: Format, negative: bool, m: nat, up: nat, down: nat)
    ensures
        round(fmt, negative, m * pow2(up), pow2(down)) == round(
            fmt,
            negative,
            numer(m, up - down),
            denom(up - down),
        ),
{
    lemma_shift_ratio(m, up, down);
    lemma_rounded_same_ratio(
        fmt,
        m * pow2(up),
        pow2(down),
        numer(m, up - down),
        denom(up - down),
    );
}

/// Nothing rounds to nothing.
pub proof fn lemma_rounded_zero(fmt: Format, d: nat)
    requires
        d > 0,
    ensures
        rounded(fmt, 0, d) == 0,
        forall|negative: bool|
            round(fmt, negative, 0, d) == (Number::Finite { negative, magnitude: 0 }),
{
    lemma2_to64();
    lemma_div_mod_unique(0, d as int, 0, 0);
    assert(excess(fmt, 0nat / d) == 0);
    assert(d * pow2(0) == d) by (nonlinear_arith)
        requires
            pow2(0) == 1,
    ;
    lemma_pow2_pos(fmt.precision() + fmt.max_shift());
}

/// Comparing `x * 2^j` with `a * 2^up / (b * 2^down)`, where
/// `j == up - (sh + down)`, is comparing `x * b` with `a * 2^sh`: both sides
/// of the first are those of the second times one positive factor.
pub proof fn lemma_cross(x: nat, b: nat, down: nat, a: nat, sh: nat, up: nat) -> (c: nat)
    ensures
        c > 0,
        denom(up - (sh + down)) > 0,
        numer(x, up - (sh + down)) * (b * pow2(down)) == (x * b) * c,
        (a * pow2(up)) * denom(up - (sh + down)) == (a * pow2(sh)) * c,
{
    let j = up - (sh + down);
    lemma_pow2_pos(down);
    if j >= 0 {
        let jn = j as nat;
        let c = pow2(jn + down);
        lemma_pow2_pos(jn + down);
        lemma_pow2_adds(jn, down);
        lemma_pow2_adds(sh, jn + down);
        assert((x * pow2(jn)) * (b * pow2(down)) == (x * b) * c) by (nonlinear_arith)
            requires
                c == pow2(jn) * pow2(down),
        ;
        assert((a * pow2(up)) * 1 == (a * pow2(sh)) * c) by (nonlinear_arith)
            requires
                pow2(up) == pow2(sh) * c,
        ;
        c
    } else {
        let jn = (-j) as nat;
        let c = pow2(down);
        lemma_pow2_pos(jn);
        lemma_pow2_adds(up, jn);
        lemma_pow2_adds(sh, down);
        assert(x * (b * c) == (x * b) * c) by (nonlinear_arith);
        assert((a * pow2(up)) * pow2(jn) == (a * pow2(sh)) * c) by (nonlinear_arith)
            requires
                pow2(up) * pow2(jn) == pow2(sh) * c,
        ;
        c
    }
}

/// Rounding never carries an exact value past a value of the format that
/// lies at or above it.
pub proof fn lemma_rounded_upper(fmt: Format, n: nat, d: nat, m: nat, e: nat)
    requires
        d > 0,
        m < 2 * fmt.hidden(),
        n <= (m * pow2(e)) * d,
    ensures
        rounded(fmt, n, d) <= m * pow2(e),
{
    lemma_format_powers(fmt);
    let y = m * pow2(e);
    let q = n / d;
    let k = excess(fmt, q);
    let pk = pow2(k);
    lemma_pow2_pos(k);
    lemma_pow2_pos(e);
    lemma_mul_strictly_positive(d as int, pk as int);
    let dd = d * pk;
    // the whole part is no greater than the bound, so no wider
    assert(0 * d <= n && n < (y + 1) * d) by (nonlinear_arith)
        requires
            n <= y * d,
            d > 0,
    ;
    crate::ieee::sticky::lemma_floor_bounds(n, d, 0, y + 1);
    assert(q <= y);
    lemma_width_monotone(q, y);
    if k > 0 {
        // the bound is wider than the precision: it is a whole multiple of 2^k
        assert(m > 0) by {
            if m == 0 {
                lemma_mul_basics(pow2(e) as int);
            }
        }
        lemma_width_shift(m, e);
        lemma_width_bounds(m);
        if width(m) > fmt.precision() {
            if width(m) - 1 > fmt.precision() {
                lemma_pow2_strictly_increases(fmt.precision(), (width(m) - 1) as nat);
            }
        }
        assert(k <= e);
    }
    assert(k <= e);
    let z = (e - k) as nat;
    lemma_pow2_adds(z, k);
    let yy = m * pow2(z);
    lemma_mul_is_associative(m as int, pow2(z) as int, pk as int);
    assert(y == yy * pk);
    assert(y * d == yy * dd) by (nonlinear_arith)
        requires
            y == yy * pk,
            dd == d * pk,
    ;
    // so the quotient by the rounding step is at most the bound's
    let t = n / dd;
    let r = n % dd;
    lemma_fundamental_div_mod(n as int, dd as int);
    assert(t < yy || (t == yy && r == 0)) by (nonlinear_arith)
        requires
            n == dd * t + r,
            0 <= r < dd,
            n <= yy * dd,
    ;
    assert(nearest_even(n, dd) <= yy);
    lemma_mul_inequality(nearest_even(n, dd) as int, yy as int, pk as int);
}

/// The greater number is no narrower.
pub proof fn lemma_width_monotone(a: nat, b: nat)
    requires
        a <= b,
    ensures
        width(a) <= width(b),
{
    lemma_width_bounds(a);
    lemma_width_bounds(b);
    if width(a) > width(b) {
        if width(a) - 1 > width(b) {
            lemma_pow2_strictly_increases(width(b), (width(a) - 1) as nat);
        }
    }
}

/// An exact value strictly below the midpoint between a full value of the
/// format and the next one above it does not round past that value.
pub proof fn lemma_rounded_below_midpoint(fmt: Format, n: nat, d: nat, m: nat, e: nat)
    requires
        d > 0,
        fmt.hidden() <= m < 2 * fmt.hidden(),
        2 * n < ((2 * m + 1) * pow2(e)) * d,
    ensures
        rounded(fmt, n, d) <= m * pow2(e),
{
    lemma_format_powers(fmt);
    let pe = pow2(e);
    lemma_pow2_pos(e);
    let y = m * pe;
    if n <= y * d {
        lemma_rounded_upper(fmt, n, d, m, e);
    } else {
        // between the value and the next: the value's own binade
        assert(y * d <= n && n < ((m + 1) * pe) * d) by (nonlinear_arith)
            requires
                y * d < n,
                2 * n < ((2 * m + 1) * pe) * d,
                y == m * pe,
                d > 0,
                pe > 0,
        ;
        crate::ieee::sticky::lemma_floor_bounds(n, d, y, (m + 1) * pe);
        let q = n / d;
        lemma_pow2_adds((fmt.precision() - 1) as nat, e);
        lemma_pow2_adds(fmt.precision(), e);
        assert(pow2((fmt.precision() - 1) as nat + e) <= q && q < pow2(fmt.precision() + e))
            by (nonlinear_arith)
            requires
                y <= q < (m + 1) * pe,
                y == m * pe,
                fmt.hidden() <= m < 2 * fmt.hidden(),
                pow2((fmt.precision() - 1) as nat + e) == fmt.hidden() * pe,
                pow2(fmt.precision() + e) == (2 * fmt.hidden()) * pe,
                pe > 0,
        ;
        lemma_width_unique(q, fmt.precision() + e);
        assert(excess(fmt, q) == e);
        let dd = d * pe;
        lemma_mul_strictly_positive(d as int, pe as int);
        assert(m * dd == y * d) by (nonlinear_arith)
            requires
                dd == d * pe,
                y == m * pe,
        ;
        let r = (n - m * dd) as nat;
        assert(n == m * dd + r && 0 <= r < dd && 2 * r < dd) by (nonlinear_arith)
            requires
                r == n - m * dd,
                dd == d * pe,
                y * d <= n,
                y == m * pe,
                2 * n < ((2 * m + 1) * pe) * d,
        ;
        lemma_div_mod_unique(n as int, dd as int, m as int, r as int);
        assert(nearest_even(n, dd) == m);
    }
}

/// A value of at most `bound * 2^g`, times a factor, rounds to at most the
/// value `m * 2^e` where the bound times the factor lies below the midpoint
/// above that value.
pub proof fn lemma_product_below_midpoint(
    fmt: Format,
    x: nat,
    bound: nat,
    g: nat,
    factor: nat,
    fs: nat,
    m: nat,
    e: nat,
    t: nat,
)
    requires
        x <= bound * pow2(g),
        e + fmt.scale() == g + fs + t,
        2 * bound * factor < (2 * m + 1) * pow2(t),
        fmt.hidden() <= m < 2 * fmt.hidden(),
    ensures
        rounded(fmt, x * (factor * pow2(fs)), pow2(fmt.scale())) <= m * pow2(e),
{
    let a = pow2(g + fs);
    let d = pow2(fmt.scale());
    lemma_pow2_adds(g, fs);
    lemma_pow2_adds(t, g + fs);
    lemma_pow2_adds(e, fmt.scale());
    lemma_pow2_pos(g + fs);
    lemma_pow2_pos(fmt.scale());
    let n = x * (factor * pow2(fs));
    assert(2 * n <= (2 * bound * factor) * a) by (nonlinear_arith)
        requires
            n == x * (factor * pow2(fs)),
            x <= bound * pow2(g),
            a == pow2(g) * pow2(fs),
    ;
    assert((2 * bound * factor) * a < ((2 * m + 1) * pow2(t)) * a) by (nonlinear_arith)
        requires
            2 * bound * factor < (2 * m + 1) * pow2(t),
            a > 0,
    ;
    assert(((2 * m + 1) * pow2(t)) * a == ((2 * m + 1) * pow2(e)) * d) by (nonlinear_arith)
        requires
            pow2(t) * a == pow2(e) * d,
    ;
    lemma_rounded_below_midpoint(fmt, n, d, m, e);
}

/// Rounding errs by at most half a step of the value's own binade: twice
/// the distance between the exact value and the rounded one is no more than
/// two to the power of the bits rounded away.
pub proof fn lemma_rounded_error(fmt: Format, n: nat, d: nat)
    requires
        d > 0,
    ensures
        2 * (rounded(fmt, n, d) * d - n) <= d * pow2(excess(fmt, n / d)),
        2 * (n - rounded(fmt, n, d) * d) <= d * pow2(excess(fmt, n / d)),
{
    let k = excess(fmt, n / d);
    let pk = pow2(k);
    lemma_pow2_pos(k);
    lemma_mul_strictly_positive(d as int, pk as int);
    let dd = d * pk;
    let q = n / dd;
    let r = n % dd;
    lemma_fundamental_div_mod(n as int, dd as int);
    let near = nearest_even(n, dd);
    assert((near * pk) * d == near * dd) by (nonlinear_arith)
        requires
            dd == d * pk,
    ;
    assert(2 * (near * dd - n) <= dd && 2 * (n - near * dd) <= dd) by (nonlinear_arith)
        requires
            n == dd * q + r,
            0 <= r < dd,
            (near == q && 2 * r <= dd) || (near == q + 1 && 2 * r >= dd),
    ;
}

} // verus!
