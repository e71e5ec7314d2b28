//! Powers of two in executable code, and the facts about them that the
//! arithmetic rests on.
use vstd::prelude::*;
use vstd::arithmetic::div_mod::*;
use vstd::arithmetic::mul::*;
use vstd::arithmetic::power2::*;

verus! {

/// The number of bits needed to write `q`: zero for zero.
pub open spec fn width(q: nat) -> nat
    decreases q,
{
    if q == 0 {
        0
    } else {
        1 + width(q / 2)
    }
}

/// `width(q)` is the one `w` with `2^(w-1) <= q < 2^w`.
pub proof fn lemma_width_bounds(q: nat)
    ensures
        q < pow2(width(q)),
        q > 0 ==> pow2((width(q) - 1) as nat) <= q,
    decreases q,
{
    lemma2_to64();
    if q > 0 {
        lemma_width_bounds(q / 2);
        lemma_pow2_unfold(width(q));
        if q / 2 > 0 {
            lemma_pow2_unfold((width(q) - 1) as nat);
        }
    }
}

/// A number between two neighbouring powers of two has the width of the upper one.
pub proof fn lemma_width_unique(q: nat, w: nat)
    requires
        q < pow2(w),
        w > 0 ==> pow2((w - 1) as nat) <= q,
        w == 0 ==> q == 0,
    ensures
        width(q) == w,
{
    lemma_width_bounds(q);
    let v = width(q);
    if v < w {
        if v + 1 < w {
            lemma_pow2_strictly_increases(v, (w - 1) as nat);
        }
    } else if w < v {
        lemma2_to64();
        if w + 1 < v {
            lemma_pow2_strictly_increases(w, (v - 1) as nat);
        }
    }
}

/// Doubling `k` times adds `k` to the width of a positive number.
pub proof fn lemma_width_shift(q: nat, k: nat)
    requires
        q > 0,
    ensures
        width(q * pow2(k)) == width(q) + k,
{
    lemma_width_bounds(q);
    let w = width(q);
    lemma_pow2_adds(w, k);
    lemma_pow2_adds((w - 1) as nat, k);
    lemma_pow2_pos(k);
    lemma_mul_strict_inequality(q as int, pow2(w) as int, pow2(k) as int);
    lemma_mul_inequality(pow2((w - 1) as nat) as int, q as int, pow2(k) as int);
    lemma_width_unique(q * pow2(k), w + k);
}

/// Halving `k` times takes `k` from the width, down to zero.
pub proof fn lemma_width_unshift(q: nat, k: nat)
    ensures
        width(q / pow2(k)) == if width(q) >= k { (width(q) - k) as nat } else { 0 },
    decreases k,
{
    lemma2_to64();
    if k == 0 {
    } else {
        lemma_width_unshift(q / 2, (k - 1) as nat);
        lemma_pow2_unfold(k);
        lemma_pow2_pos((k - 1) as nat);
        lemma_div_denominator(q as int, 2, pow2((k - 1) as nat) as int);
    }
}

/// `2^k` as a machine integer.
pub fn pow2_u128(k: u32) -> (r: u128)
    requires
        k <= 127,
    ensures
        r == pow2(k as nat),
{
    let mut r: u128 = 1;
    let mut i: u32 = 0;
    proof {
        lemma2_to64();
    }
    while i < k
        invariant
            i <= k <= 127,
            r == pow2(i as nat),
        decreases k - i,
    {
        proof {
            lemma_pow2_unfold((i + 1) as nat);
            lemma_pow2_strictly_increases((i + 1) as nat, 128);
            lemma2_to64_rest();
            lemma_pow2_adds(64, 64);
        }
        r = r * 2;
        i = i + 1;
    }
    r
}

/// The width of `m`.
pub fn bit_length(m: u128) -> (r: u32)
    ensures
        r == width(m as nat),
        r <= 128,
{
    let mut r: u32 = 0;
    let mut rest: u128 = m;
    proof {
        lemma_width_bounds(m as nat);
        lemma2_to64_rest();
        lemma_pow2_adds(64, 64);
        if width(m as nat) > 129 {
            lemma_pow2_strictly_increases(128, (width(m as nat) - 1) as nat);
        }
    }
    while rest > 0
        invariant
            r + width(rest as nat) == width(m as nat),
            width(m as nat) <= 128,
        decreases rest,
    {
        rest = rest / 2;
        r = r + 1;
    }
    r
}

} // verus!
