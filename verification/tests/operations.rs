use angulus::angle::Angle;
use angulus::scalar::{Binary32, Binary64};
use angulus::unbounded::AngleUnbounded;
use angulus::uniform::{on_circle, EmptyRange, UniformAngle, UniformAngleUnbounded};
use angulus::units::{Degrees, Gradians, Radians, Turns, UnitName};
use angulus::{Angle32, Angle64, AngleUnbounded32};

const PI32: f32 = core::f32::consts::PI;
const TAU32: f32 = core::f32::consts::TAU;
const PI64: f64 = core::f64::consts::PI;
const TAU64: f64 = core::f64::consts::TAU;

fn s(x: f32) -> Binary32 {
    Binary32::from_bits(x.to_bits())
}

fn d(x: f64) -> Binary64 {
    Binary64::from_bits(x.to_bits())
}

fn f(x: Binary32) -> f32 {
    f32::from_bits(x.to_bits())
}

fn g(x: Binary64) -> f64 {
    f64::from_bits(x.to_bits())
}

fn same32(got: Binary32, want: f32) -> bool {
    (f(got).is_nan() && want.is_nan()) || got.to_bits() == want.to_bits()
}

fn same64(got: Binary64, want: f64) -> bool {
    (g(got).is_nan() && want.is_nan()) || got.to_bits() == want.to_bits()
}

fn reduce32(radians: f32) -> f32 {
    let rest = radians % TAU32;
    if rest > PI32 {
        rest - TAU32
    } else if rest <= -PI32 {
        rest + TAU32
    } else {
        rest
    }
}

fn reduce64(radians: f64) -> f64 {
    let rest = radians % TAU64;
    if rest > PI64 {
        rest - TAU64
    } else if rest <= -PI64 {
        rest + TAU64
    } else {
        rest
    }
}

struct Lcg(u64);

impl Lcg {
    fn next(&mut self) -> u64 {
        self.0 = self.0.wrapping_mul(6364136223846793005).wrapping_add(1442695040888963407);
        let x = self.0;
        (x ^ (x >> 29)).wrapping_mul(0x9e3779b97f4a7c15) ^ (x >> 32)
    }

    fn unit(&mut self) -> f64 {
        (self.next() >> 11) as f64 / (1u64 << 53) as f64
    }
}

fn measures32() -> Vec<f32> {
    let mut v = vec![0.0, -0.0, PI32, -PI32, 1.0, -1.0, 3.0, -3.0, 0.1, f32::NAN, f32::MIN_POSITIVE];
    let mut r = Lcg(77);
    for _ in 0..60 {
        v.push(((r.unit() * 2.0 - 1.0) * core::f64::consts::PI) as f32);
    }
    v
}

fn factors32() -> Vec<f32> {
    let mut v = vec![
        0.0, -0.0, 1.0, -1.0, 2.0, 0.5, 3.0, 1.0e10, -1.0e30, 1.0e-30, f32::MAX, f32::NAN,
        f32::INFINITY, f32::NEG_INFINITY, f32::MIN_POSITIVE,
    ];
    let mut r = Lcg(78);
    for _ in 0..40 {
        v.push(f32::from_bits(r.next() as u32));
    }
    v
}

#[test]
fn bounded_arithmetic_agrees_with_the_machine() {
    let angles = measures32();
    for &x in &angles {
        let a = Angle::from_radians(s(x));
        let ra = f(a.to_radians());
        for &y in &angles {
            let b = Angle::from_radians(s(y));
            let rb = f(b.to_radians());
            assert!(same32((a + b).to_radians(), reduce32(ra + rb)), "{:e} + {:e}", x, y);
            assert!(same32((a - b).to_radians(), reduce32(ra - rb)), "{:e} - {:e}", x, y);
            let mut c = a;
            c.add_assign(b);
            assert!(same32(c.to_radians(), reduce32(ra + rb)));
            let mut c = a;
            c.sub_assign(b);
            assert!(same32(c.to_radians(), reduce32(ra - rb)));
            assert_eq!(a == b, ra == rb);
        }
        for &k in &factors32() {
            assert!(same32((a * s(k)).to_radians(), reduce32(ra * k)), "{:e} * {:e}", x, k);
            assert!(same32((a / s(k)).to_radians(), reduce32(ra / k)), "{:e} / {:e}", x, k);
            let mut c = a;
            c.mul_assign(s(k));
            assert!(same32(c.to_radians(), reduce32(ra * k)));
            let mut c = a;
            c.div_assign(s(k));
            assert!(same32(c.to_radians(), reduce32(ra / k)));
        }
    }
}

#[test]
fn unbounded_arithmetic_agrees_with_the_machine() {
    let values = factors32();
    for &x in &values {
        let a = AngleUnbounded::from_radians(s(x));
        for &y in &values {
            let b = AngleUnbounded::from_radians(s(y));
            assert!(same32((a + b).to_radians(), x + y));
            assert!(same32((a - b).to_radians(), x - y));
            assert!(same32((a * s(y)).to_radians(), x * y));
            assert!(same32((a / s(y)).to_radians(), x / y));
            let mut c = a;
            c.add_assign(b);
            assert!(same32(c.to_radians(), x + y));
            let mut c = a;
            c.sub_assign(b);
            assert!(same32(c.to_radians(), x - y));
            let mut c = a;
            c.mul_assign(s(y));
            assert!(same32(c.to_radians(), x * y));
            let mut c = a;
            c.div_assign(s(y));
            assert!(same32(c.to_radians(), x / y));
            assert_eq!(a == b, x == y);
            assert_eq!(a < b, x < y);
            assert_eq!(a <= b, x <= y);
            assert_eq!(a.partial_cmp(&b), x.partial_cmp(&y));
        }
    }
}

#[test]
fn dividing_by_zero_gives_not_a_number() {
    assert!((Angle32::quarter() / s(0.0)).is_nan());
    assert!((Angle32::zero() / s(0.0)).is_nan());
    assert!((Angle64::quarter() * d(f64::INFINITY)).is_nan());
    assert!((Angle64::quarter() + Angle::from_radians(d(f64::NAN))).is_nan());
    assert!(!(AngleUnbounded32::quarter() / s(0.0)).is_nan());
    assert!(same32((AngleUnbounded32::quarter() / s(0.0)).to_radians(), f32::INFINITY));
    assert!((AngleUnbounded32::quarter() / s(0.0)).to_bounded().is_nan());
}

#[test]
fn bounded_and_unbounded_arithmetic_differ_only_by_winding() {
    let a = Angle::from_degrees(d(170.0));
    let b = Angle::from_degrees(d(20.0));
    let ua = AngleUnbounded::from_degrees(d(170.0));
    let ub = AngleUnbounded::from_degrees(d(20.0));
    assert!(g((a + b).to_degrees()) < 0.0);
    assert!(g((ua + ub).to_degrees()) > 180.0);
    assert!(same64((ua + ub).to_bounded().to_radians(), g((a + b).to_radians())));
    assert!(same64((ua * d(3.0)).to_bounded().to_radians(), g((a * d(3.0)).to_radians())));
}

#[test]
fn a_sum_is_reduced_once() {
    let angles: Vec<Angle32> = [3.0f32, 3.0, 3.0, -1.0, 2.5].iter().map(|&x| Angle::from_radians(s(x))).collect();
    let total = 0.0f32 + 3.0 + 3.0 + 3.0 + -1.0 + 2.5;
    assert!(same32(Angle::sum(&angles).to_radians(), reduce32(total)));
    let none: Vec<Angle32> = Vec::new();
    assert!(same32(Angle::sum(&none).to_radians(), 0.0));
    let displacements: Vec<AngleUnbounded32> =
        [3.0f32, 3.0, 3.0, -1.0, 2.5].iter().map(|&x| AngleUnbounded::from_radians(s(x))).collect();
    assert!(same32(AngleUnbounded::sum(&displacements).to_radians(), total));
    let none: Vec<AngleUnbounded32> = Vec::new();
    assert!(same32(AngleUnbounded::sum(&none).to_radians(), 0.0));
}

#[test]
fn widening_and_narrowing() {
    let mut r = Lcg(5);
    for _ in 0..2000 {
        let x = ((r.unit() * 2.0 - 1.0) * 3.1415926) as f32;
        let a = Angle::from_radians(s(x));
        let wide = a.to_f64();
        assert!(same64(wide.to_radians(), f(a.to_radians()) as f64));
        assert!(same32(wide.to_f32().to_radians(), f(a.to_radians())));
        assert_eq!(wide.to_f32(), a);
        let u = AngleUnbounded::from_radians(s(x * 100.0));
        assert!(same64(u.to_f64().to_radians(), (x * 100.0) as f64));
        assert!(same32(u.to_f64().to_f32().to_radians(), x * 100.0));
    }
    for _ in 0..2000 {
        let x = (r.unit() * 2.0 - 1.0) * PI64;
        let a = Angle::from_radians(d(x));
        let want = reduce32(g(a.to_radians()) as f32);
        assert!(same32(a.to_f32().to_radians(), want));
        let u = AngleUnbounded::from_radians(d(x * 1.0e30));
        assert!(same32(u.to_f32().to_radians(), (x * 1.0e30) as f32));
    }
}

#[test]
fn narrowing_past_the_half_turn_comes_back_into_range() {
    // just above minus the half turn of binary64: rounds to minus that of binary32
    let low = Angle::from_radians(d(f64::from_bits((-PI64).to_bits() - 1)));
    assert!(g(low.to_radians()) > -PI64);
    assert_eq!((g(low.to_radians()) as f32).to_bits(), (-PI32).to_bits());
    assert!(same32(low.to_f32().to_radians(), PI32));
    // the half turn of binary64 rounds to that of binary32, and stays
    assert!(same32(Angle64::half().to_f32().to_radians(), PI32));
    assert!(Angle::from_radians(d(f64::NAN)).to_f32().is_nan());
    assert!(Angle::from_radians(s(f32::NAN)).to_f64().is_nan());
}

#[test]
fn wrappers_read_their_unit() {
    let a = Angle::from_degrees(s(90.0));
    assert!(same32(Radians(a).to_value(), f(a.to_radians())));
    assert!(same32(Degrees(a).to_value(), 90.0));
    assert!(same32(Turns(a).to_value(), 0.25));
    assert!(same32(Gradians(a).to_value(), 100.0));
    assert!(same32(Radians::<Angle32>::from_value(s(7.0)).0.to_radians(), 7.0 - TAU32));
    assert!(same32(Degrees::<Angle32>::from_value(s(450.0)).0.to_radians(), f(Angle::from_degrees(s(450.0)).to_radians())));
    assert!(same32(Turns::<Angle32>::from_value(s(1.25)).0.to_turns(), 0.25));
    assert!(same32(Gradians::<Angle32>::from_value(s(100.0)).0.to_radians(), f(Angle::from_gradians(s(100.0)).to_radians())));
    let u = AngleUnbounded::from_degrees(d(270.0));
    assert!(same64(Radians(u).to_value(), g(u.to_radians())));
    assert!(same64(Degrees(u).to_value(), g(u.to_degrees())));
    assert!(same64(Turns(u).to_value(), g(u.to_turns())));
    assert!(same64(Gradians(u).to_value(), g(u.to_gradians())));
    assert!(same64(Radians::<AngleUnbounded<Binary64>>::from_value(d(7.0)).0.to_radians(), 7.0));
    assert!(same64(Degrees::<AngleUnbounded<Binary64>>::from_value(d(450.0)).0.to_radians(), 450.0 * (PI64 / 180.0)));
    assert!(same64(Turns::<AngleUnbounded<Binary64>>::from_value(d(50.0)).0.to_radians(), 50.0 * TAU64));
    assert!(same64(Gradians::<AngleUnbounded<Binary64>>::from_value(d(150.0)).0.to_radians(), 150.0 * (PI64 / 200.0)));
    assert_eq!(<Radians<Angle32> as UnitName>::unit(), " rad");
    assert_eq!(<Degrees<Angle32> as UnitName>::unit(), "°");
    assert_eq!(<Turns<Angle32> as UnitName>::unit(), " tr");
    assert_eq!(<Gradians<Angle32> as UnitName>::unit(), "g");
}

#[test]
fn an_arc_runs_counterclockwise_from_low_to_high() {
    let top = Angle32::quarter();
    let bottom = -Angle32::quarter();
    // the right half: no turn is added
    let right = UniformAngle::new(bottom, top).unwrap();
    assert!(same32(right.low(), -core::f32::consts::FRAC_PI_2));
    assert!(same32(right.high(), core::f32::consts::FRAC_PI_2));
    // the left half: the upper bound is taken one turn further
    let left = UniformAngle::new_inclusive(top, bottom).unwrap();
    assert!(same32(left.low(), core::f32::consts::FRAC_PI_2));
    assert!(same32(left.high(), -core::f32::consts::FRAC_PI_2 + TAU32));
    assert!(f(left.sample(left.high()).to_radians()) < 0.0);
    assert!(same32(left.sample(s(4.0)).to_radians(), 4.0 - TAU32));
    // one point: nothing to draw unless the end counts
    assert_eq!(UniformAngle::new(top, top).err(), Some(EmptyRange));
    assert!(UniformAngle::new_inclusive(top, top).is_ok());
    let nan = Angle::from_radians(s(f32::NAN));
    assert!(UniformAngle::new(nan, top).is_err());
    assert!(UniformAngle::new_inclusive(top, nan).is_err());
}

#[test]
fn a_stretch_of_displacements_must_lead_upwards() {
    let low = AngleUnbounded32::zero();
    let high = AngleUnbounded32::quarter();
    let up = UniformAngleUnbounded::new(low, high).unwrap();
    assert!(same32(up.low(), 0.0));
    assert!(same32(up.high(), core::f32::consts::FRAC_PI_2));
    assert!(same32(up.sample(s(1.0)).to_radians(), 1.0));
    assert!(UniformAngleUnbounded::new_inclusive(low, high).is_ok());
    assert_eq!(UniformAngleUnbounded::new(high, low).err(), Some(EmptyRange));
    assert_eq!(UniformAngleUnbounded::new_inclusive(high, low).err(), Some(EmptyRange));
    assert!(UniformAngleUnbounded::new(low, low).is_err());
    assert!(UniformAngleUnbounded::new_inclusive(low, low).is_ok());
    let nan = AngleUnbounded::from_radians(s(f32::NAN));
    let inf = AngleUnbounded::from_radians(s(f32::INFINITY));
    assert!(UniformAngleUnbounded::new(low, nan).is_err());
    assert!(UniformAngleUnbounded::new(low, inf).is_err());
    assert!(UniformAngleUnbounded::new_inclusive(-inf, low).is_err());
}

#[test]
fn numbers_below_one_spread_over_the_circle() {
    assert!(same32(on_circle(s(0.0)).to_radians(), PI32));
    assert!(same32(on_circle(s(0.5)).to_radians(), -(0.5 * TAU32 - PI32)));
    let mut r = Lcg(9);
    for _ in 0..3000 {
        let x = (r.next() >> 40) as f32 / (1u64 << 24) as f32;
        let want = -(x * TAU32 - PI32);
        assert!(-PI32 < want && want <= PI32);
        assert!(same32(on_circle(s(x)).to_radians(), want), "{:e}", x);
        let y = r.unit();
        let want = -(y * TAU64 - PI64);
        assert!(same64(on_circle(d(y)).to_radians(), want), "{:e}", y);
    }
    let last = f32::from_bits(1.0f32.to_bits() - 1);
    assert!(same32(on_circle(s(last)).to_radians(), -(last * TAU32 - PI32)));
    assert!(on_circle(s(f32::NAN)).is_nan());
}

#[test]
fn wrappers_are_made_from_angles() {
    let a = Angle::from_degrees(s(30.0));
    let shown: Degrees<Angle32> = Degrees::from(a);
    assert!(same32(shown.to_value(), f(a.to_degrees())));
    let turns: Turns<Angle32> = a.into();
    assert!(same32(turns.to_value(), f(a.to_turns())));
    assert!(same32(Radians::from(a).clone().0.to_radians(), f(a.to_radians())));
    assert!(same32(Gradians::from(a.to_unbounded()).to_value(), f(a.to_unbounded().to_gradians())));
    let range = UniformAngle::new(Angle32::zero(), a).unwrap();
    assert!(same32(range.clone().high(), f(a.to_radians())));
    let stretch = UniformAngleUnbounded::new(AngleUnbounded32::zero(), a.to_unbounded()).unwrap();
    assert!(same32(stretch.clone().high(), f(a.to_radians())));
    assert!(same32(a.clone().to_radians(), f(a.to_radians())));
    assert!(same32(a.to_unbounded().clone().to_radians(), f(a.to_radians())));
}
