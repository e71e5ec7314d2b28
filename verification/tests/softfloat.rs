use angulus::scalar::{Binary32, Binary64, Float};

fn s(x: f32) -> Binary32 {
    Binary32::from_bits(x.to_bits())
}

fn d(x: f64) -> Binary64 {
    Binary64::from_bits(x.to_bits())
}

fn same32(got: Binary32, want: f32) -> bool {
    let g = f32::from_bits(got.to_bits());
    (g.is_nan() && want.is_nan()) || g.to_bits() == want.to_bits()
}

fn same64(got: Binary64, want: f64) -> bool {
    let g = f64::from_bits(got.to_bits());
    (g.is_nan() && want.is_nan()) || g.to_bits() == want.to_bits()
}

struct Lcg(u64);

impl Lcg {
    fn next(&mut self) -> u64 {
        self.0 = self.0.wrapping_mul(6364136223846793005).wrapping_add(1442695040888963407);
        let x = self.0;
        (x ^ (x >> 29)).wrapping_mul(0x9e3779b97f4a7c15) ^ (x >> 32)
    }
}

fn samples32() -> Vec<f32> {
    let mut v = vec![
        0.0, -0.0, 1.0, -1.0, 0.5, 2.0, 3.0, 1.5, 0.1, 180.0, 200.0, 360.0,
        f32::MAX, f32::MIN, f32::MIN_POSITIVE, f32::EPSILON, f32::INFINITY, f32::NEG_INFINITY,
        f32::NAN, core::f32::consts::PI, -core::f32::consts::PI, core::f32::consts::TAU,
        f32::from_bits(1), f32::from_bits(2), f32::from_bits(0x007f_ffff), f32::from_bits(0x0080_0001),
        f32::from_bits(0x7f7f_fffe), 16777216.0, 16777215.0, 1.0e-40, -1.0e-40, 1.0e38, 3.0e-39,
    ];
    let mut g = Lcg(12345);
    for _ in 0..150 {
        v.push(f32::from_bits(g.next() as u32));
    }
    for _ in 0..60 {
        v.push(((g.next() % 2000) as f32 - 1000.0) / 7.0);
    }
    v
}

fn samples64() -> Vec<f64> {
    let mut v = vec![
        0.0, -0.0, 1.0, -1.0, 0.5, 2.0, 3.0, 1.5, 0.1, 180.0, 200.0, 360.0,
        f64::MAX, f64::MIN, f64::MIN_POSITIVE, f64::EPSILON, f64::INFINITY, f64::NEG_INFINITY,
        f64::NAN, core::f64::consts::PI, -core::f64::consts::PI, core::f64::consts::TAU,
        f64::from_bits(1), f64::from_bits(2), f64::from_bits(0x000f_ffff_ffff_ffff),
        f64::from_bits(0x0010_0000_0000_0001), f64::from_bits(0x7fef_ffff_ffff_fffe),
        9007199254740992.0, 9007199254740991.0, 1.0e-310, -1.0e-310, 1.0e308, 3.0e-309,
    ];
    let mut g = Lcg(987654321);
    for _ in 0..150 {
        v.push(f64::from_bits(g.next()));
    }
    for _ in 0..60 {
        v.push(((g.next() % 2000) as f64 - 1000.0) / 7.0);
    }
    v
}

#[test]
fn binary32_arithmetic_matches_the_machine() {
    let v = samples32();
    for &a in &v {
        for &b in &v {
            assert!(same32(s(a).add(s(b)), a + b), "{:e} + {:e}", a, b);
            assert!(same32(s(a).sub(s(b)), a - b), "{:e} - {:e}", a, b);
            assert!(same32(s(a).mul(s(b)), a * b), "{:e} * {:e}", a, b);
            assert!(same32(s(a).div(s(b)), a / b), "{:e} / {:e}", a, b);
            assert!(same32(s(a).rem(s(b)), a % b), "{:e} % {:e}", a, b);
            assert_eq!(s(a).lt(s(b)), a < b);
            assert_eq!(s(a).le(s(b)), a <= b);
            assert_eq!(s(a).gt(s(b)), a > b);
            assert_eq!(s(a).ge(s(b)), a >= b);
            assert_eq!(s(a).eq(s(b)), a == b);
        }
        assert!(same32(s(a).neg(), -a));
        assert_eq!(s(a).is_nan(), a.is_nan());
    }
}

#[test]
fn binary64_arithmetic_matches_the_machine() {
    let v = samples64();
    for &a in &v {
        for &b in &v {
            assert!(same64(d(a).add(d(b)), a + b), "{:e} + {:e}", a, b);
            assert!(same64(d(a).sub(d(b)), a - b), "{:e} - {:e}", a, b);
            assert!(same64(d(a).mul(d(b)), a * b), "{:e} * {:e}", a, b);
            assert!(same64(d(a).div(d(b)), a / b), "{:e} / {:e}", a, b);
            assert!(same64(d(a).rem(d(b)), a % b), "{:e} % {:e}", a, b);
            assert_eq!(d(a).lt(d(b)), a < b);
            assert_eq!(d(a).le(d(b)), a <= b);
            assert_eq!(d(a).gt(d(b)), a > b);
            assert_eq!(d(a).ge(d(b)), a >= b);
            assert_eq!(d(a).eq(d(b)), a == b);
        }
        assert!(same64(d(a).neg(), -a));
        assert_eq!(d(a).is_nan(), a.is_nan());
    }
}

#[test]
fn conversions_match_the_machine() {
    for &a in &samples32() {
        assert!(same64(s(a).to_binary64(), a as f64), "{:e}", a);
    }
    for &a in &samples64() {
        assert!(same32(d(a).to_binary32(), a as f32), "{:e}", a);
    }
    let mut g = Lcg(42);
    for _ in 0..2000 {
        let a = f64::from_bits(g.next());
        assert!(same32(d(a).to_binary32(), a as f32), "{:e}", a);
        let b = (f32::from_bits(g.next() as u32) as f64) * (1.0 + (g.next() % 7) as f64 * 5.0e-9);
        assert!(same32(d(b).to_binary32(), b as f32), "{:e}", b);
    }
}

#[test]
fn constants_match_the_machine() {
    assert!(same32(Binary32::zero(), 0.0));
    assert!(same32(Binary32::one(), 1.0));
    assert!(same32(Binary32::epsilon(), f32::EPSILON));
    assert!(same32(Binary32::double_epsilon(), 2.0 * f32::EPSILON));
    assert!(same32(Binary32::tau(), core::f32::consts::TAU));
    assert!(same32(Binary32::pi(), core::f32::consts::PI));
    assert!(same32(Binary32::frac_pi_2(), core::f32::consts::FRAC_PI_2));
    assert!(same32(Binary32::frac_pi_3(), core::f32::consts::FRAC_PI_3));
    assert!(same32(Binary32::frac_pi_4(), core::f32::consts::FRAC_PI_4));
    assert!(same32(Binary32::frac_pi_6(), core::f32::consts::FRAC_PI_6));
    assert!(same32(Binary32::frac_pi_8(), core::f32::consts::FRAC_PI_8));
    assert!(same32(Binary32::deg_to_rad(), core::f32::consts::PI / 180.0));
    assert!(same32(Binary32::rad_to_deg(), 180.0 / core::f32::consts::PI));
    assert!(same32(Binary32::turns_to_rad(), core::f32::consts::TAU));
    assert!(same32(Binary32::rad_to_turns(), 1.0 / core::f32::consts::TAU));
    assert!(same32(Binary32::grad_to_rad(), core::f32::consts::PI / 200.0));
    assert!(same32(Binary32::rad_to_grad(), 200.0 / core::f32::consts::PI));
    assert!(same64(Binary64::zero(), 0.0));
    assert!(same64(Binary64::one(), 1.0));
    assert!(same64(Binary64::epsilon(), f64::EPSILON));
    assert!(same64(Binary64::double_epsilon(), 2.0 * f64::EPSILON));
    assert!(same64(Binary64::tau(), core::f64::consts::TAU));
    assert!(same64(Binary64::pi(), core::f64::consts::PI));
    assert!(same64(Binary64::frac_pi_2(), core::f64::consts::FRAC_PI_2));
    assert!(same64(Binary64::frac_pi_3(), core::f64::consts::FRAC_PI_3));
    assert!(same64(Binary64::frac_pi_4(), core::f64::consts::FRAC_PI_4));
    assert!(same64(Binary64::frac_pi_6(), core::f64::consts::FRAC_PI_6));
    assert!(same64(Binary64::frac_pi_8(), core::f64::consts::FRAC_PI_8));
    assert!(same64(Binary64::deg_to_rad(), core::f64::consts::PI / 180.0));
    assert!(same64(Binary64::rad_to_deg(), 180.0 / core::f64::consts::PI));
    assert!(same64(Binary64::turns_to_rad(), core::f64::consts::TAU));
    assert!(same64(Binary64::rad_to_turns(), 1.0 / core::f64::consts::TAU));
    assert!(same64(Binary64::grad_to_rad(), core::f64::consts::PI / 200.0));
    assert!(same64(Binary64::rad_to_grad(), 200.0 / core::f64::consts::PI));
}

fn corners32() -> Vec<f32> {
    let exponents: [u32; 14] = [0, 1, 2, 23, 24, 25, 102, 126, 127, 128, 150, 230, 253, 254];
    let fractions: [u32; 8] = [
        0, 1, 2, 0x40_0000, 0x3f_ffff, 0x40_0001, 0x7f_fffe, 0x7f_ffff,
    ];
    let mut v = Vec::new();
    for &e in &exponents {
        for &m in &fractions {
            v.push(f32::from_bits((e << 23) | m));
            v.push(f32::from_bits(0x8000_0000 | (e << 23) | m));
        }
    }
    v
}

fn corners64() -> Vec<f64> {
    let exponents: [u64; 14] = [0, 1, 2, 52, 53, 54, 970, 1022, 1023, 1024, 1076, 1990, 2045, 2046];
    let fractions: [u64; 8] = [
        0,
        1,
        2,
        0x8_0000_0000_0000,
        0x7_ffff_ffff_ffff,
        0x8_0000_0000_0001,
        0xf_ffff_ffff_fffe,
        0xf_ffff_ffff_ffff,
    ];
    let mut v = Vec::new();
    for &e in &exponents {
        for &m in &fractions {
            v.push(f64::from_bits((e << 52) | m));
            v.push(f64::from_bits(0x8000_0000_0000_0000 | (e << 52) | m));
        }
    }
    v
}

#[test]
fn binary32_corners_match_the_machine() {
    let v = corners32();
    for &a in &v {
        for &b in &v {
            assert!(same32(s(a).add(s(b)), a + b), "{:e} + {:e}", a, b);
            assert!(same32(s(a).sub(s(b)), a - b), "{:e} - {:e}", a, b);
            assert!(same32(s(a).mul(s(b)), a * b), "{:e} * {:e}", a, b);
            assert!(same32(s(a).div(s(b)), a / b), "{:e} / {:e}", a, b);
            assert!(same32(s(a).rem(s(b)), a % b), "{:e} % {:e}", a, b);
            assert_eq!(s(a).lt(s(b)), a < b);
            assert_eq!(s(a).eq(s(b)), a == b);
        }
        assert!(same64(s(a).to_binary64(), a as f64));
    }
}

#[test]
fn binary64_corners_match_the_machine() {
    let v = corners64();
    for &a in &v {
        for &b in &v {
            assert!(same64(d(a).add(d(b)), a + b), "{:e} + {:e}", a, b);
            assert!(same64(d(a).sub(d(b)), a - b), "{:e} - {:e}", a, b);
            assert!(same64(d(a).mul(d(b)), a * b), "{:e} * {:e}", a, b);
            assert!(same64(d(a).div(d(b)), a / b), "{:e} / {:e}", a, b);
            assert!(same64(d(a).rem(d(b)), a % b), "{:e} % {:e}", a, b);
            assert_eq!(d(a).lt(d(b)), a < b);
            assert_eq!(d(a).eq(d(b)), a == b);
        }
        assert!(same32(d(a).to_binary32(), a as f32));
    }
}

#[test]
fn narrowing_rounds_ties_to_even() {
    // halfway between two neighbours of binary32: the even one wins
    let base = 1.0f32;
    let next = f32::from_bits(base.to_bits() + 1);
    let after = f32::from_bits(base.to_bits() + 2);
    let tie_low = (base as f64 + next as f64) / 2.0;
    let tie_high = (next as f64 + after as f64) / 2.0;
    assert!(same32(d(tie_low).to_binary32(), base));
    assert!(same32(d(tie_high).to_binary32(), after));
    assert!(same32(d(f64::from_bits(tie_low.to_bits() + 1)).to_binary32(), next));
    assert!(same32(d(f64::from_bits(tie_high.to_bits() - 1)).to_binary32(), next));
    // out of range, and down to the smallest values
    assert!(same32(d(1.0e300).to_binary32(), f32::INFINITY));
    assert!(same32(d(-1.0e300).to_binary32(), f32::NEG_INFINITY));
    assert!(same32(d(f32::MAX as f64 * 1.000_000_01).to_binary32(), f32::MAX));
    assert!(same32(d(1.0e-46).to_binary32(), 0.0));
    assert!(same32(d(-1.0e-46).to_binary32(), -0.0));
    assert!(same32(d(1.0e-45).to_binary32(), f32::from_bits(1)));
}

#[test]
fn sums_and_quotients_round_ties_to_even() {
    let ulp = f64::EPSILON;
    assert!(same64(d(1.0).add(d(ulp / 2.0)), 1.0));
    assert!(same64(d(1.0 + ulp).add(d(ulp / 2.0)), 1.0 + 2.0 * ulp));
    assert!(same64(d(1.0).sub(d(ulp / 4.0)), 1.0));
    assert!(same64(d(1.0e300).add(d(1.0e-300)), 1.0e300));
    assert!(same64(d(1.0e300).sub(d(1.0e-300)), 1.0e300));
    assert!(same64(d(-1.0e300).add(d(1.0e-300)), -1.0e300));
    assert!(same64(d(1.0).div(d(3.0)), 1.0 / 3.0));
    assert!(same64(d(2.0).div(d(3.0)), 2.0 / 3.0));
    assert!(same64(d(f64::MIN_POSITIVE).div(d(3.0)), f64::MIN_POSITIVE / 3.0));
    assert!(same64(d(f64::MAX).mul(d(2.0)), f64::INFINITY));
    assert!(same64(d(f64::MAX).add(d(f64::MAX)), f64::INFINITY));
    assert!(same64(d(1.0).sub(d(1.0)), 0.0));
    assert!(same64(d(-1.0).add(d(1.0)), 0.0));
    assert!(same64(d(-0.0).add(d(-0.0)), -0.0));
    assert!(same64(d(0.0).add(d(-0.0)), 0.0));
    assert!(same64(d(0.0).div(d(0.0)), f64::NAN));
    assert!(same64(d(1.0).div(d(-0.0)), f64::NEG_INFINITY));
    assert!(same64(d(f64::INFINITY).sub(d(f64::INFINITY)), f64::NAN));
    assert!(same64(d(f64::INFINITY).mul(d(0.0)), f64::NAN));
    assert!(same64(d(5.5).rem(d(f64::INFINITY)), 5.5));
    assert!(same64(d(-5.5).rem(d(2.0)), -1.5));
    assert!(same64(d(5.5).rem(d(0.0)), f64::NAN));
    assert!(same64(d(f64::MAX).rem(d(core::f64::consts::TAU)), f64::MAX % core::f64::consts::TAU));
}
