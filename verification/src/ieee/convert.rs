//! Conversion between the formats, and from whole numbers.
use vstd::prelude::*;
use vstd::arithmetic::mul::*;
use vstd::arithmetic::power2::*;
use crate::ieee::format::{Format, Number};
use crate::ieee::round::{round, round_pack, lemma_format_powers};
use crate::ieee::exact::{lemma_round_shifted, lemma_rounded_exact};
use crate::ieee::unpack::{Class, unpack, nan_bits, infinity_bits};

verus! {

/// The value of one format in another: rounded where the target is the
/// narrower, exact where it is the wider.
pub open spec fn converted(from: Format, to: Format, a: Number) -> Number {
    match a {
        Number::Nan => Number::Nan,
        Number::Infinite { negative } => Number::Infinite { negative },
        Number::Finite { negative, magnitude } => round(
            to,
            negative,
            magnitude * pow2(to.scale()),
            pow2(from.scale()),
        ),
    }
}

/// Converts `bits` of format `from` to format `to`.
pub fn convert(from: Format, to: Format, bits: u64) -> (r: u64)
    requires
        from.holds(bits),
    ensures
        to.holds(r),
        to.decode(r) == converted(from, to, from.decode(bits)),
{
    let x = unpack(from, bits);
    match x.class {
        Class::Nan => nan_bits(to),
        Class::Infinite => infinity_bits(to, x.negative),
        Class::Finite => {
            proof {
                lemma_pow2_adds(x.shift as nat, to.scale());
                lemma_mul_is_associative(
                    x.mant as int,
                    pow2(x.shift as nat) as int,
                    pow2(to.scale()) as int,
                );
                lemma_round_shifted(
                    to,
                    x.negative,
                    x.mant as nat,
                    (x.shift + to.scale()) as nat,
                    from.scale(),
                );
            }
            let e: i32 = (x.shift as i32 + to.unit_scale() as i32) - from.unit_scale() as i32;
            round_pack(to, x.negative, x.mant as u128, e)
        },
    }
}

/// The whole number `n` as a value.
pub open spec fn whole(fmt: Format, n: nat) -> Number {
    Number::Finite { negative: false, magnitude: n * pow2(fmt.scale()) }
}

/// The value of the format nearest to the whole number `n`: `n` itself
/// where it has no more bits than the narrower format holds.
pub fn from_count(fmt: Format, n: u32) -> (r: u64)
    ensures
        fmt.holds(r),
        fmt.decode(r) == round(fmt, false, n as nat * pow2(fmt.scale()), 1),
        n < 0x100_0000 ==> fmt.decode(r) == whole(fmt, n as nat),
{
    proof {
        if n < 0x100_0000 {
            lemma_format_powers(fmt);
            lemma_rounded_exact(fmt, n as nat, fmt.scale());
            lemma_pow2_pos(fmt.scale());
            lemma_pow2_strictly_increases(fmt.scale(), fmt.max_shift());
            assert(n as nat * pow2(fmt.scale()) < 2 * fmt.hidden() * pow2(fmt.max_shift()))
                by (nonlinear_arith)
                requires
                    n < 2 * fmt.hidden(),
                    0 < pow2(fmt.scale()) < pow2(fmt.max_shift()),
            ;
        }
    }
    round_pack(fmt, false, n as u128, fmt.unit_scale() as i32)
}

} // verus!
