//! The remainder of a truncating division.
use vstd::prelude::*;
use vstd::arithmetic::div_mod::*;
use vstd::arithmetic::mul::*;
use vstd::arithmetic::power2::*;
use crate::ieee::format::{Format, Number};
use crate::ieee::round::{round_pack, lemma_format_powers};
use crate::ieee::exact::lemma_rounded_exact;
use crate::ieee::unpack::{Class, unpack, nan_bits, lemma_magnitude_bound};

verus! {

/// What is left of `a` once the largest whole multiple of `b` that does not
/// pass it is taken away; it keeps the sign of `a`, and is exact.
pub open spec fn remainder(a: Number, b: Number) -> Number {
    match (a, b) {
        (Number::Nan, _) => Number::Nan,
        (_, Number::Nan) => Number::Nan,
        (Number::Infinite { .. }, _) => Number::Nan,
        (Number::Finite { .. }, Number::Infinite { .. }) => a,
        (Number::Finite { negative, magnitude: ma }, Number::Finite { magnitude: mb, .. }) => {
            if mb == 0 {
                Number::Nan
            } else {
                Number::Finite { negative, magnitude: ma % mb }
            }
        },
    }
}

/// `(am * 2^dsh) mod bm`, by doubling.
fn shifted_mod(am: u64, bm: u64, dsh: u32) -> (r: u64)
    requires
        0 < bm < 0x40_0000_0000_0000,
    ensures
        r == (am as nat * pow2(dsh as nat)) % (bm as nat),
        r < bm,
{
    let mut r: u64 = am % bm;
    let mut i: u32 = 0;
    proof {
        lemma2_to64();
        lemma_mul_basics(am as int);
    }
    while i < dsh
        invariant
            i <= dsh,
            0 < bm < 0x40_0000_0000_0000,
            r == (am as nat * pow2(i as nat)) % (bm as nat),
            r < bm,
        decreases dsh - i,
    {
        proof {
            let v = am as nat * pow2(i as nat);
            lemma_pow2_unfold((i + 1) as nat);
            assert(am as nat * pow2((i + 1) as nat) == 2 * v) by (nonlinear_arith)
                requires
                    pow2((i + 1) as nat) == 2 * pow2(i as nat),
                    v == am as nat * pow2(i as nat),
            ;
            lemma_mul_mod_noop_right(2, v as int, bm as int);
        }
        r = (2 * r) % bm;
        i = i + 1;
    }
    r
}

/// The remainder of `a` by `b`.
pub fn rem(fmt: Format, a: u64, b: u64) -> (r: u64)
    requires
        fmt.holds(a),
        fmt.holds(b),
    ensures
        fmt.holds(r),
        fmt.decode(r) == remainder(fmt.decode(a), fmt.decode(b)),
{
    let x = unpack(fmt, a);
    let y = unpack(fmt, b);
    match (x.class, y.class) {
        (Class::Nan, _) => nan_bits(fmt),
        (_, Class::Nan) => nan_bits(fmt),
        (Class::Infinite, _) => nan_bits(fmt),
        (Class::Finite, Class::Infinite) => a,
        (Class::Finite, Class::Finite) => {
            let ghost ma = x.magnitude();
            let ghost mb = y.magnitude();
            let ghost unit = pow2(y.shift as nat);
            proof {
                lemma_format_powers(fmt);
                lemma_pow2_pos(y.shift as nat);
                lemma_pow2_pos(x.shift as nat);
                lemma_mul_nonzero(y.mant as int, unit as int);
            }
            if y.mant == 0 {
                nan_bits(fmt)
            } else if x.shift < y.shift {
                proof {
                    let px = pow2(x.shift as nat);
                    lemma_pow2_unfold((x.shift + 1) as nat);
                    if x.shift + 1 < y.shift {
                        lemma_pow2_strictly_increases((x.shift + 1) as nat, y.shift as nat);
                    }
                    assert(ma < mb) by (nonlinear_arith)
                        requires
                            ma == x.mant as nat * px,
                            mb == y.mant as nat * unit,
                            x.mant < 2 * fmt.hidden(),
                            y.mant >= fmt.hidden(),
                            unit >= 2 * px,
                            px > 0,
                    ;
                    lemma_small_mod(ma, mb);
                }
                a
            } else {
                let dsh = x.shift - y.shift;
                let m = shifted_mod(x.mant, y.mant, dsh);
                proof {
                    let wide = x.mant as nat * pow2(dsh as nat);
                    lemma_pow2_adds(dsh as nat, y.shift as nat);
                    lemma_mul_is_associative(x.mant as int, pow2(dsh as nat) as int, unit as int);
                    lemma_mul_is_commutative(wide as int, unit as int);
                    lemma_mul_is_commutative(y.mant as int, unit as int);
                    lemma_truncate_middle(wide as int, unit as int, y.mant as int);
                    lemma_mul_is_commutative(m as int, unit as int);
                    assert(ma % mb == m as nat * unit);
                    lemma_rounded_exact(fmt, m as nat, y.shift as nat);
                    lemma_magnitude_bound(fmt, y);
                    lemma_mul_strict_inequality(m as int, y.mant as int, unit as int);
                }
                round_pack(fmt, x.negative, m as u128, y.shift as i32)
            }
        },
    }
}

} // verus!
