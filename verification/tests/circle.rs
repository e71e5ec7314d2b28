use angulus::angle::Angle;
use angulus::scalar::{Binary32, Binary64, Float};
use angulus::to_angle::ToAngle;
use angulus::unbounded::AngleUnbounded;
use angulus::{Angle32, Angle64, AngleUnbounded32, AngleUnbounded64};

const PI32: f32 = core::f32::consts::PI;
const TAU32: f32 = core::f32::consts::TAU;
const PI64: f64 = core::f64::consts::PI;
const TAU64: f64 = core::f64::consts::TAU;

fn s(x: f32) -> Binary32 {
    Binary32::from_bits(x.to_bits())
}

fn d(x: f64) -> Binary64 {
    Binary64::from_bits(x.to_bits())
}

fn f(x: Binary32) -> f32 {
    f32::from_bits(x.to_bits())
}

fn g(x: Binary64) -> f64 {
    f64::from_bits(x.to_bits())
}

fn same32(got: Binary32, want: f32) -> bool {
    (f(got).is_nan() && want.is_nan()) || got.to_bits() == want.to_bits()
}

fn same64(got: Binary64, want: f64) -> bool {
    (g(got).is_nan() && want.is_nan()) || got.to_bits() == want.to_bits()
}

// The reduction as the machine's own arithmetic carries it out.
fn reduce32(radians: f32) -> f32 {
    if radians > PI32 {
        radians - TAU32
    } else if radians <= -PI32 {
        radians + TAU32
    } else {
        radians
    }
}

fn reduce64(radians: f64) -> f64 {
    if radians > PI64 {
        radians - TAU64
    } else if radians <= -PI64 {
        radians + TAU64
    } else {
        radians
    }
}

struct Lcg(u64);

impl Lcg {
    fn next(&mut self) -> u64 {
        self.0 = self.0.wrapping_mul(6364136223846793005).wrapping_add(1442695040888963407);
        let x = self.0;
        (x ^ (x >> 29)).wrapping_mul(0x9e3779b97f4a7c15) ^ (x >> 32)
    }
}

fn inputs32() -> Vec<f32> {
    let mut v = vec![
        0.0, -0.0, PI32, -PI32, TAU32, -TAU32, 2.0 * TAU32, -2.0 * TAU32, 1.0, -1.0, 0.5, -0.5, 90.0, 450.0,
        -270.0, 180.0, -180.0, 360.0, 200.0, -200.0, 400.0, 0.25, 0.75, 1.5, -1.5,
        f32::MAX, f32::MIN, f32::MIN_POSITIVE, f32::from_bits(1), f32::NAN, f32::INFINITY,
        f32::NEG_INFINITY, f32::from_bits(PI32.to_bits() + 1), f32::from_bits(PI32.to_bits() - 1),
        -f32::from_bits(PI32.to_bits() + 1), -f32::from_bits(PI32.to_bits() - 1),
        f32::from_bits(TAU32.to_bits() - 1), -f32::from_bits(TAU32.to_bits() - 1),
        f32::from_bits(1.0f32.to_bits() - 1), -f32::from_bits(1.0f32.to_bits() - 1),
    ];
    let mut r = Lcg(2024);
    for _ in 0..1500 {
        v.push(f32::from_bits(r.next() as u32));
    }
    for _ in 0..1500 {
        v.push(((r.next() % 200_001) as f32 - 100_000.0) / 128.0);
    }
    v
}

fn inputs64() -> Vec<f64> {
    let mut v = vec![
        0.0, -0.0, PI64, -PI64, TAU64, -TAU64, 2.0 * TAU64, -2.0 * TAU64, 1.0, -1.0, 0.5, -0.5, 90.0, 450.0,
        -270.0, 180.0, -180.0, 360.0, 200.0, -200.0, 400.0, 0.25, 0.75, 1.5, -1.5,
        f64::MAX, f64::MIN, f64::MIN_POSITIVE, f64::from_bits(1), f64::NAN, f64::INFINITY,
        f64::NEG_INFINITY, f64::from_bits(PI64.to_bits() + 1), f64::from_bits(PI64.to_bits() - 1),
        -f64::from_bits(PI64.to_bits() + 1), -f64::from_bits(PI64.to_bits() - 1),
        f64::from_bits(TAU64.to_bits() - 1), -f64::from_bits(TAU64.to_bits() - 1),
        f64::from_bits(1.0f64.to_bits() - 1), -f64::from_bits(1.0f64.to_bits() - 1),
    ];
    let mut r = Lcg(4048);
    for _ in 0..1500 {
        v.push(f64::from_bits(r.next()));
    }
    for _ in 0..1500 {
        v.push(((r.next() % 200_001) as f64 - 100_000.0) / 128.0);
    }
    v
}

#[test]
fn constructors_agree_with_the_machine_in_binary32() {
    for &x in &inputs32() {
        assert!(same32(Angle::from_radians(s(x)).to_radians(), reduce32(x % TAU32)), "{:e}", x);
        assert!(
            same32(Angle::from_degrees(s(x)).to_radians(), reduce32((x * (PI32 / 180.0)) % TAU32)),
            "{:e}",
            x
        );
        assert!(same32(Angle::from_turns(s(x)).to_radians(), reduce32((x % 1.0) * TAU32)), "{:e}", x);
        assert!(
            same32(Angle::from_gradians(s(x)).to_radians(), reduce32((x * (PI32 / 200.0)) % TAU32)),
            "{:e}",
            x
        );
        assert!(same32(AngleUnbounded::from_radians(s(x)).to_radians(), x));
        assert!(same32(AngleUnbounded::from_degrees(s(x)).to_radians(), x * (PI32 / 180.0)));
        assert!(same32(AngleUnbounded::from_turns(s(x)).to_radians(), x * TAU32));
        assert!(same32(AngleUnbounded::from_gradians(s(x)).to_radians(), x * (PI32 / 200.0)));
    }
}

#[test]
fn constructors_agree_with_the_machine_in_binary64() {
    for &x in &inputs64() {
        assert!(same64(Angle::from_radians(d(x)).to_radians(), reduce64(x % TAU64)), "{:e}", x);
        assert!(
            same64(Angle::from_degrees(d(x)).to_radians(), reduce64((x * (PI64 / 180.0)) % TAU64)),
            "{:e}",
            x
        );
        assert!(same64(Angle::from_turns(d(x)).to_radians(), reduce64((x % 1.0) * TAU64)), "{:e}", x);
        assert!(
            same64(Angle::from_gradians(d(x)).to_radians(), reduce64((x * (PI64 / 200.0)) % TAU64)),
            "{:e}",
            x
        );
        assert!(same64(AngleUnbounded::from_radians(d(x)).to_radians(), x));
        assert!(same64(AngleUnbounded::from_degrees(d(x)).to_radians(), x * (PI64 / 180.0)));
        assert!(same64(AngleUnbounded::from_turns(d(x)).to_radians(), x * TAU64));
        assert!(same64(AngleUnbounded::from_gradians(d(x)).to_radians(), x * (PI64 / 200.0)));
    }
}

#[test]
fn every_constructed_angle_lies_in_the_main_range() {
    for &x in &inputs32() {
        for a in [
            Angle::from_radians(s(x)),
            Angle::from_degrees(s(x)),
            Angle::from_turns(s(x)),
            Angle::from_gradians(s(x)),
        ] {
            let r = f(a.to_radians());
            assert_eq!(r.is_nan(), !x.is_finite(), "{:e}", x);
            assert!(r.is_nan() || (-core::f32::consts::PI < r && r <= core::f32::consts::PI));
        }
    }
    for &x in &inputs64() {
        for a in [
            Angle::from_radians(d(x)),
            Angle::from_degrees(d(x)),
            Angle::from_turns(d(x)),
            Angle::from_gradians(d(x)),
        ] {
            let r = g(a.to_radians());
            assert_eq!(r.is_nan(), !x.is_finite(), "{:e}", x);
            assert!(r.is_nan() || (-core::f64::consts::PI < r && r <= core::f64::consts::PI));
        }
    }
}

#[test]
fn getters_agree_with_the_machine() {
    for &x in &inputs32() {
        let a = Angle::from_radians(s(x));
        let r = f(a.to_radians());
        assert!(same32(a.to_degrees(), r * (180.0 / core::f32::consts::PI)));
        assert!(same32(a.to_turns(), r * (1.0 / core::f32::consts::TAU)));
        assert!(same32(a.to_gradians(), r * (200.0 / core::f32::consts::PI)));
        let u = AngleUnbounded::from_radians(s(x));
        assert!(same32(u.to_degrees(), x * (180.0 / core::f32::consts::PI)));
        assert!(same32(u.to_turns(), x * (1.0 / core::f32::consts::TAU)));
        assert!(same32(u.to_gradians(), x * (200.0 / core::f32::consts::PI)));
    }
    for &x in &inputs64() {
        let a = Angle::from_radians(d(x));
        let r = g(a.to_radians());
        assert!(same64(a.to_degrees(), r * (180.0 / core::f64::consts::PI)));
        assert!(same64(a.to_turns(), r * (1.0 / core::f64::consts::TAU)));
        assert!(same64(a.to_gradians(), r * (200.0 / core::f64::consts::PI)));
        let u = AngleUnbounded::from_radians(d(x));
        assert!(same64(u.to_degrees(), x * (180.0 / core::f64::consts::PI)));
        assert!(same64(u.to_turns(), x * (1.0 / core::f64::consts::TAU)));
        assert!(same64(u.to_gradians(), x * (200.0 / core::f64::consts::PI)));
    }
}

#[test]
fn getters_stay_in_the_range_of_their_unit() {
    for &x in &inputs32() {
        let a = Angle::from_radians(s(x));
        if a.is_nan() {
            continue;
        }
        let (deg, tr, grad) = (f(a.to_degrees()), f(a.to_turns()), f(a.to_gradians()));
        assert!(-180.0 < deg && deg <= 180.0, "{:e}", x);
        assert!(-0.5 < tr && tr <= 0.5, "{:e}", x);
        assert!(-200.0 < grad && grad <= 200.0, "{:e}", x);
    }
    for &x in &inputs64() {
        let a = Angle::from_radians(d(x));
        if a.is_nan() {
            continue;
        }
        let (deg, tr, grad) = (g(a.to_degrees()), g(a.to_turns()), g(a.to_gradians()));
        assert!(-180.0 < deg && deg <= 180.0, "{:e}", x);
        assert!(-0.5 < tr && tr <= 0.5, "{:e}", x);
        assert!(-200.0 < grad && grad <= 200.0, "{:e}", x);
    }
}

#[test]
fn a_whole_turn_more_or_less_is_the_same_point() {
    assert_eq!(Angle::from_degrees(d(90.0)), Angle::from_degrees(d(450.0)));
    assert_eq!(Angle::from_degrees(d(90.0)), Angle::from_degrees(d(-270.0)));
    assert_eq!(d(90.0).deg(), d(450.0).deg());
    assert_eq!(Angle::from_turns(s(0.25)), Angle::from_turns(s(1.25)));
    assert_eq!(Angle::from_turns(s(-0.75)), Angle::from_turns(s(-2.75)));
}

#[test]
fn distinct_windings_are_distinct_displacements() {
    assert_ne!(AngleUnbounded::from_degrees(d(90.0)), AngleUnbounded::from_degrees(d(450.0)));
    assert_ne!(d(90.0).deg_unbounded(), d(450.0).deg_unbounded());
    assert!(AngleUnbounded::from_degrees(d(90.0)) < AngleUnbounded::from_degrees(d(450.0)));
    assert!(AngleUnbounded::from_degrees(s(-90.0)) < AngleUnbounded::from_degrees(s(90.0)));
    assert!(AngleUnbounded::from_turns(s(2.0)) > AngleUnbounded::from_turns(s(1.0)));
    assert!(AngleUnbounded::from_turns(s(2.0)) >= AngleUnbounded::from_turns(s(2.0)));
    assert!(AngleUnbounded::from_radians(s(0.0)) == AngleUnbounded::from_radians(s(-0.0)));
    let nan = AngleUnbounded::from_radians(s(f32::NAN));
    assert!(nan != nan);
    assert!(!(nan < nan) && !(nan >= nan));
    assert_eq!(nan.partial_cmp(&nan), None);
}

#[test]
fn the_half_turn_is_its_own_opposite() {
    assert_eq!(Angle::from_radians(d(core::f64::consts::PI)), Angle::from_radians(d(-core::f64::consts::PI)));
    let half = Angle32::half();
    assert!(same32((-half).to_radians(), core::f32::consts::PI));
    assert!(same64((-Angle64::half()).to_radians(), core::f64::consts::PI));
    assert!(same32(Angle::from_radians(s(-core::f32::consts::PI)).to_radians(), core::f32::consts::PI));
    assert!(same32((-Angle32::quarter()).to_radians(), -core::f32::consts::FRAC_PI_2));
    assert!(same32((-Angle32::zero()).to_radians(), -0.0));
    assert!((-Angle::from_radians(s(f32::NAN))).is_nan());
    for &x in &inputs32() {
        let a = Angle::from_radians(s(x));
        let r = f(a.to_radians());
        let want = if r == core::f32::consts::PI { r } else { -r };
        assert!(same32((-a).to_radians(), want));
        assert!(same32((-AngleUnbounded::from_radians(s(x))).to_radians(), -x));
    }
}

#[test]
fn a_point_taken_as_a_displacement_comes_back() {
    for &x in &inputs32() {
        let a = Angle::from_radians(s(x));
        let back = a.to_unbounded().to_bounded();
        assert!(same32(back.to_radians(), f(a.to_radians())));
        assert_eq!(back == a, !a.is_nan());
        let through = Angle::from(AngleUnbounded::from(a));
        assert!(same32(through.to_radians(), f(a.to_radians())));
    }
    for &x in &inputs64() {
        let a = Angle::from_degrees(d(x));
        let back = a.to_unbounded().to_bounded();
        assert!(same64(back.to_radians(), g(a.to_radians())));
        assert_eq!(back == a, !a.is_nan());
    }
}

#[test]
fn bounded_and_unbounded_constructors_agree_on_the_circle() {
    for &x in &inputs32() {
        assert!(same32(
            AngleUnbounded::from_radians(s(x)).to_bounded().to_radians(),
            f(Angle::from_radians(s(x)).to_radians())
        ));
        assert!(same32(
            AngleUnbounded::from_degrees(s(x)).to_bounded().to_radians(),
            f(Angle::from_degrees(s(x)).to_radians())
        ));
        assert!(same32(
            AngleUnbounded::from_gradians(s(x)).to_bounded().to_radians(),
            f(Angle::from_gradians(s(x)).to_radians())
        ));
    }
}

#[test]
fn the_named_angles_have_their_measures() {
    assert!(same32(Angle32::quarter().to_radians(), core::f32::consts::FRAC_PI_2));
    assert!(same32(Angle32::quarter().to_degrees(), 90.0));
    assert!(same32(Angle32::quarter().to_turns(), 0.25));
    assert!(same32(Angle32::quarter().to_gradians(), 100.0));
    assert!(same32(Angle32::zero().to_radians(), 0.0));
    assert!(same32(Angle32::default().to_radians(), 0.0));
    assert!(same32(Angle32::epsilon().to_radians(), 2.0 * f32::EPSILON));
    assert!(same32(Angle32::half().to_radians(), core::f32::consts::PI));
    assert!(same32(Angle32::sixth().to_radians(), core::f32::consts::FRAC_PI_3));
    assert!(same32(Angle32::eighth().to_radians(), core::f32::consts::FRAC_PI_4));
    assert!(same32(Angle32::twelfth().to_radians(), core::f32::consts::FRAC_PI_6));
    assert!(same32(Angle32::sixteenth().to_radians(), core::f32::consts::FRAC_PI_8));
    assert!(same64(Angle64::quarter().to_radians(), core::f64::consts::FRAC_PI_2));
    assert!(same64(Angle64::quarter().to_degrees(), 90.0));
    assert!(same64(Angle64::quarter().to_turns(), 0.25));
    assert!(same64(Angle64::quarter().to_gradians(), 100.0));
    assert!(same64(Angle64::half().to_degrees(), 180.0));
    assert!(same64(Angle64::half().to_turns(), 0.5));
    assert!(same64(Angle64::half().to_gradians(), 200.0));
    assert!(same32(AngleUnbounded32::full().to_radians(), core::f32::consts::TAU));
    assert!(same32(AngleUnbounded32::half().to_radians(), core::f32::consts::PI));
    assert!(same32(AngleUnbounded32::quarter().to_degrees(), 90.0));
    assert!(same32(AngleUnbounded32::zero().to_radians(), 0.0));
    assert!(same32(AngleUnbounded32::default().to_radians(), 0.0));
    assert!(same32(AngleUnbounded32::epsilon().to_radians(), 2.0 * f32::EPSILON));
    assert!(same64(AngleUnbounded64::sixth().to_radians(), core::f64::consts::FRAC_PI_3));
    assert!(same64(AngleUnbounded64::eighth().to_radians(), core::f64::consts::FRAC_PI_4));
    assert!(same64(AngleUnbounded64::twelfth().to_radians(), core::f64::consts::FRAC_PI_6));
    assert!(same64(AngleUnbounded64::sixteenth().to_radians(), core::f64::consts::FRAC_PI_8));
}

#[test]
fn scalars_read_as_angles() {
    assert!(same32(s(90.0).deg().to_radians(), core::f32::consts::FRAC_PI_2));
    assert!(same32(s(7.0).rad().to_radians(), 7.0 - core::f32::consts::TAU));
    assert!(same32(s(7.0).rad_unbounded().to_radians(), 7.0));
    assert!(same32(s(0.5).turns().to_radians(), core::f32::consts::PI));
    assert!(same32(s(-0.5).turns().to_radians(), core::f32::consts::PI));
    assert!(same32(s(1.5).turns_unbounded().to_radians(), 1.5 * core::f32::consts::TAU));
    assert!(same64(d(100.0).grad().to_radians(), 100.0 * (core::f64::consts::PI / 200.0)));
    assert!(same64(d(500.0).grad_unbounded().to_radians(), 500.0 * (core::f64::consts::PI / 200.0)));
    assert!(same64(d(270.0).deg_unbounded().to_turns(), (270.0 * (core::f64::consts::PI / 180.0)) * (1.0 / core::f64::consts::TAU)));
    assert!(same64(d(-270.0).deg().to_degrees(), g(d(90.0).deg().to_degrees())));
}

#[test]
fn scalars_have_their_classes() {
    assert!(s(1.0).is_finite() && !s(1.0).is_nan());
    assert!(!s(f32::INFINITY).is_finite() && !s(f32::INFINITY).is_nan());
    assert!(!s(f32::NAN).is_finite() && s(f32::NAN).is_nan());
    assert!(d(f64::MAX).is_finite() && !d(f64::NEG_INFINITY).is_finite());
    assert!(AngleUnbounded::from_radians(d(f64::NAN)).is_nan());
    assert!(!AngleUnbounded::from_radians(d(f64::INFINITY)).is_nan());
    assert!(Angle::from_radians(d(1.0)).to_unbounded() == AngleUnbounded::from_radians(d(1.0)));
}
