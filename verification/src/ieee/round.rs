//! Rounding an exact value to the nearest value of a format, ties to even.
use vstd::prelude::*;
use vstd::arithmetic::div_mod::*;
use vstd::arithmetic::mul::*;
use vstd::arithmetic::power2::*;
use crate::ieee::format::{Format, Number};
use crate::ieee::power::{
    bit_length, pow2_u128, width, lemma_width_bounds, lemma_width_shift, lemma_width_unshift,
};

verus! {

/// The whole number nearest to `n / d`; of two equally near, the even one.
pub open spec fn nearest_even(n: nat, d: nat) -> nat {
    let q = n / d;
    let r = n % d;
    if 2 * r < d || (2 * r == d && q % 2 == 0) {
        q
    } else {
        q + 1
    }
}

/// How many low bits of a magnitude with whole part `q` lie beyond the
/// format's precision.
pub open spec fn excess(fmt: Format, q: nat) -> nat {
    if width(q) > fmt.precision() {
        (width(q) - fmt.precision()) as nat
    } else {
        0
    }
}

/// The magnitude of the format nearest to `n / d` units, were the exponent
/// range unbounded above.
pub open spec fn rounded(fmt: Format, n: nat, d: nat) -> nat {
    let k = excess(fmt, n / d);
    nearest_even(n, d * pow2(k)) * pow2(k)
}

/// The value of the format nearest to `n / d` units with the given sign:
/// infinite where the nearest magnitude is out of range.
pub open spec fn round(fmt: Format, negative: bool, n: nat, d: nat) -> Number {
    let m = rounded(fmt, n, d);
    if m >= fmt.overflow() {
        Number::Infinite { negative }
    } else {
        Number::Finite { negative, magnitude: m }
    }
}

/// Quotient and remainder are the only pair that fits.
pub proof fn lemma_div_mod_unique(x: int, d: int, q: int, r: int)
    requires
        d > 0,
        0 <= r < d,
        x == q * d + r,
    ensures
        x / d == q,
        x % d == r,
{
    lemma_fundamental_div_mod_converse(x, d, q, r);
}

/// Scaling numerator and denominator alike leaves the nearest whole number.
pub proof fn lemma_nearest_even_scale(a: nat, b: nat, c: nat)
    requires
        b > 0,
        c > 0,
    ensures
        nearest_even(a * c, b * c) == nearest_even(a, b),
{
    let q = a / b;
    let r = a % b;
    lemma_fundamental_div_mod(a as int, b as int);
    assert(0 <= r * c < b * c && a * c == q * (b * c) + r * c && b * c > 0) by (nonlinear_arith)
        requires
            a == b * q + r,
            0 <= r < b,
            c > 0,
    ;
    lemma_div_mod_unique((a * c) as int, (b * c) as int, q as int, (r * c) as int);
    assert((2 * (r * c) < b * c) == (2 * r < b) && (2 * (r * c) == b * c) == (2 * r == b))
        by (nonlinear_arith)
        requires
            c > 0,
    ;
}

/// A whole multiple of the denominator is its own nearest whole number.
pub proof fn lemma_nearest_even_exact(a: nat, b: nat)
    requires
        b > 0,
    ensures
        nearest_even(a * b, b) == a,
{
    lemma_div_mod_unique((a * b) as int, b as int, a as int, 0);
}

/// The nearest whole number to `m / 2^s`.
pub fn round_shift(m: u128, s: u32) -> (r: u128)
    ensures
        r == nearest_even(m as nat, pow2(s as nat)),
        r <= m,
{
    proof {
        lemma2_to64();
        lemma2_to64_rest();
        lemma_pow2_adds(64, 64);
        lemma_pow2_adds(64, 63);
    }
    if s == 0 {
        m
    } else if s > 128 {
        proof {
            if s > 129 {
                lemma_pow2_strictly_increases(128, (s - 1) as nat);
            }
            lemma_pow2_unfold(s as nat);
            lemma_div_mod_unique(m as int, pow2(s as nat) as int, 0, m as int);
        }
        0
    } else if s == 128 {
        proof {
            lemma_pow2_unfold(128);
            lemma_div_mod_unique(m as int, pow2(128) as int, 0, m as int);
        }
        if m > 0x8000_0000_0000_0000_0000_0000_0000_0000 {
            1
        } else {
            0
        }
    } else {
        let d = pow2_u128(s);
        let half = pow2_u128(s - 1);
        proof {
            lemma_pow2_unfold(s as nat);
            lemma_pow2_pos((s - 1) as nat);
        }
        let q = m / d;
        let r = m % d;
        if r < half || (r == half && q % 2 == 0) {
            q
        } else {
            proof {
                assert(q < m) by (nonlinear_arith)
                    requires
                        q == m / d,
                        d >= 2,
                        m % d > 0,
                ;
            }
            q + 1
        }
    }
}

/// The numerator of `m * 2^e` written as a fraction of whole numbers.
pub open spec fn numer(m: nat, e: int) -> nat {
    if e >= 0 {
        m * pow2(e as nat)
    } else {
        m
    }
}

/// The denominator of `m * 2^e` written as a fraction of whole numbers.
pub open spec fn denom(e: int) -> nat {
    if e >= 0 {
        1
    } else {
        pow2((-e) as nat)
    }
}

/// The concrete powers of two that bound the two formats.
pub proof fn lemma_format_powers(fmt: Format)
    ensures
        pow2(fmt.precision()) == 2 * fmt.hidden(),
        pow2((fmt.precision() - 1) as nat) == fmt.hidden(),
        fmt.overflow() == 2 * fmt.hidden() * pow2(fmt.max_shift()),
        fmt.infinity_bits() == (fmt.max_shift() + 2) * fmt.hidden(),
{
    lemma2_to64();
    lemma2_to64_rest();
    lemma_pow2_adds(fmt.precision(), fmt.max_shift());
}

/// Significand `mant` at shift `k` is written `k * hidden + mant`, also where
/// rounding carried the significand up to the next power of two.
pub proof fn lemma_encode(fmt: Format, k: nat, mant: nat)
    requires
        mant <= 2 * fmt.hidden(),
        k == 0 || mant >= fmt.hidden(),
        k <= fmt.max_shift(),
    ensures
        (k * fmt.hidden() + mant < fmt.infinity_bits()) == (mant * pow2(k) < fmt.overflow()),
        k * fmt.hidden() + mant < fmt.infinity_bits() ==> fmt.magnitude_of(k * fmt.hidden() + mant)
            == mant * pow2(k),
{
    lemma_format_powers(fmt);
    lemma2_to64();
    let h = fmt.hidden();
    let abs = k * h + mant;
    let top = pow2(fmt.max_shift());
    lemma_pow2_pos(k);
    if k < fmt.max_shift() {
        lemma_pow2_strictly_increases(k, fmt.max_shift());
    }
    let pk = pow2(k);
    assert(mant * pk < 2 * h * top <==> (mant < 2 * h || k < fmt.max_shift())) by {
        if mant < 2 * h {
            assert(mant * pk < 2 * h * top) by (nonlinear_arith)
                requires
                    mant < 2 * h,
                    0 < pk <= top,
            ;
        } else if k < fmt.max_shift() {
            assert(mant * pk < 2 * h * top) by (nonlinear_arith)
                requires
                    mant == 2 * h,
                    0 < pk < top,
                    h > 0,
            ;
        }
    }
    assert(k * h + mant < (fmt.max_shift() + 2) * h <==> (mant < 2 * h || k < fmt.max_shift()))
        by (nonlinear_arith)
        requires
            mant <= 2 * h,
            k <= fmt.max_shift(),
            h > 0,
    ;
    if mant < h {
        assert(abs == 0 * h + mant) by (nonlinear_arith)
            requires
                abs == k * h + mant,
                k == 0,
        ;
        lemma_div_mod_unique(abs as int, h as int, 0, mant as int);
        assert(mant * pk == mant) by (nonlinear_arith)
            requires
                pk == 1,
        ;
    } else if mant < 2 * h {
        assert(abs == (k + 1) * h + (mant - h)) by (nonlinear_arith)
            requires
                abs == k * h + mant,
        ;
        lemma_div_mod_unique(abs as int, h as int, (k + 1) as int, (mant - h) as int);
    } else {
        assert(abs == (k + 2) * h + 0) by (nonlinear_arith)
            requires
                abs == k * h + mant,
                mant == 2 * h,
        ;
        lemma_div_mod_unique(abs as int, h as int, (k + 2) as int, 0);
        lemma_pow2_unfold(k + 1);
        assert(h * pow2(k + 1) == mant * pow2(k)) by (nonlinear_arith)
            requires
                mant == 2 * h,
                pow2(k + 1) == 2 * pow2(k),
        ;
    }
}

/// The whole part of `m * 2^e` has the width of `m` moved by `e`.
pub proof fn lemma_whole_width(m: nat, e: int)
    requires
        m > 0,
    ensures
        denom(e) > 0,
        width(numer(m, e) / denom(e)) == if width(m) + e > 0 {
            (width(m) + e) as nat
        } else {
            0
        },
{
    if e >= 0 {
        lemma_width_shift(m, e as nat);
        lemma_div_mod_unique(numer(m, e) as int, 1, numer(m, e) as int, 0);
    } else {
        lemma_pow2_pos((-e) as nat);
        lemma_width_unshift(m, (-e) as nat);
    }
}

/// What is left of the exact value once the excess bits are rounded away
/// fits the significand, and fills it where bits were dropped.
pub proof fn lemma_rounded_significand(fmt: Format, n: nat, d: nat)
    requires
        d > 0,
    ensures
        d * pow2(excess(fmt, n / d)) > 0,
        nearest_even(n, d * pow2(excess(fmt, n / d))) <= 2 * fmt.hidden(),
        excess(fmt, n / d) > 0 ==> nearest_even(n, d * pow2(excess(fmt, n / d))) >= fmt.hidden(),
        width(n / (d * pow2(excess(fmt, n / d)))) <= fmt.precision(),
{
    let q = n / d;
    let k = excess(fmt, q);
    let pk = pow2(k);
    lemma_pow2_pos(k);
    lemma_mul_strictly_positive(d as int, pk as int);
    lemma_div_denominator(n as int, d as int, pk as int);
    lemma_width_unshift(q, k);
    let t = n / (d * pk);
    assert(t == q / pk);
    lemma_width_bounds(t);
    lemma_format_powers(fmt);
    if width(t) < fmt.precision() {
        lemma_pow2_strictly_increases(width(t), fmt.precision());
    }
}

/// Dropping `k` bits of `m * 2^e` is a shift of `m` by `e - k`: to the left
/// exactly, to the right with rounding.
pub proof fn lemma_round_target(m: nat, e: int, k: nat)
    ensures
        k <= e ==> nearest_even(numer(m, e), denom(e) * pow2(k)) == m * pow2((e - k) as nat),
        k > e ==> nearest_even(numer(m, e), denom(e) * pow2(k)) == nearest_even(
            m,
            pow2((k - e) as nat),
        ),
{
    lemma_pow2_pos(k);
    if e >= 0 {
        assert(denom(e) * pow2(k) == pow2(k)) by (nonlinear_arith)
            requires
                denom(e) == 1,
        ;
        if k <= e {
            let z = (e - k) as nat;
            lemma_pow2_adds(z, k);
            lemma_mul_is_associative(m as int, pow2(z) as int, pow2(k) as int);
            lemma_nearest_even_exact(m * pow2(z), pow2(k));
        } else {
            let z = (k - e) as nat;
            lemma_pow2_adds(z, e as nat);
            lemma_pow2_pos(z);
            lemma_pow2_pos(e as nat);
            lemma_nearest_even_scale(m, pow2(z), pow2(e as nat));
        }
    } else {
        lemma_pow2_adds((-e) as nat, k);
    }
}

/// Packs the value of the format nearest to `m * 2^e` units, with the given sign.
pub fn round_pack(fmt: Format, negative: bool, m: u128, e: i32) -> (bits: u64)
    ensures
        fmt.holds(bits),
        fmt.decode(bits) == round(fmt, negative, numer(m as nat, e as int), denom(e as int)),
{
    let sign: u64 = if negative { fmt.sign_mask() } else { 0 };
    let ghost n = numer(m as nat, e as int);
    let ghost d = denom(e as int);
    proof {
        lemma_format_powers(fmt);
        lemma2_to64();
    }
    if m == 0 {
        proof {
            if e >= 0 {
                lemma_mul_basics(pow2(e as nat) as int);
            } else {
                lemma_pow2_pos((-e) as nat);
            }
            assert(n == 0);
            lemma_div_mod_unique(0, d as int, 0, 0);
            assert(excess(fmt, n / d) == 0);
            assert(d * pow2(0) == d) by (nonlinear_arith)
                requires
                    pow2(0) == 1,
            ;
            lemma_pow2_pos(fmt.precision() + fmt.max_shift());
            lemma_div_mod_unique(0, fmt.hidden() as int, 0, 0);
        }
        return sign;
    }
    let len = bit_length(m) as i64;
    let p = fmt.significand_bits() as i64;
    let top = len + e as i64;
    let k: i64 = if top > p { top - p } else { 0 };
    proof {
        lemma_whole_width(m as nat, e as int);
        assert(k == excess(fmt, n / d));
        lemma_rounded_significand(fmt, n, d);
        lemma_round_target(m as nat, e as int, k as nat);
    }
    let ghost sig = nearest_even(n, d * pow2(k as nat));
    if k > fmt.top_shift() as i64 {
        proof {
            lemma_pow2_unfold(fmt.max_shift() + 1);
            if k > fmt.max_shift() + 1 {
                lemma_pow2_strictly_increases(fmt.max_shift() + 1, k as nat);
            }
            assert(sig * pow2(k as nat) >= fmt.overflow()) by (nonlinear_arith)
                requires
                    sig >= fmt.hidden(),
                    pow2(k as nat) >= pow2(fmt.max_shift() + 1),
                    pow2(fmt.max_shift() + 1) == 2 * pow2(fmt.max_shift()),
                    fmt.overflow() == 2 * fmt.hidden() * pow2(fmt.max_shift()),
            ;
        }
        return sign + fmt.infinity();
    }
    let s = k - e as i64;
    let mant: u128 = if s <= 0 {
        let scale = pow2_u128((-s) as u32);
        m * scale
    } else {
        round_shift(m, s as u32)
    };
    assert(mant == sig);
    proof {
        lemma_encode(fmt, k as nat, sig);
    }
    let abs: u64 = (k as u64) * fmt.hidden_bit() + (mant as u64);
    if abs >= fmt.infinity() {
        sign + fmt.infinity()
    } else {
        sign + abs
    }
}

} // verus!
