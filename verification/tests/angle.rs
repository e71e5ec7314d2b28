use angulus::angle::Angle;
use angulus::scalar::{Binary32, Binary64};
use angulus::unbounded::AngleUnbounded;

fn s(x: f32) -> Binary32 {
    Binary32::from_bits(x.to_bits())
}

fn d(x: f64) -> Binary64 {
    Binary64::from_bits(x.to_bits())
}

fn f(x: Binary32) -> f32 {
    f32::from_bits(x.to_bits())
}

#[test]
fn angle_pi_eq_neg_pi() {
    assert_eq!(
        Angle::from_radians(s(core::f32::consts::PI)),
        Angle::from_radians(s(-core::f32::consts::PI)),
    );
}

#[test]
fn angle_sum_is_accurate() {
    const ANGLES: [f32; 20] = [
        0.711_889,
        0.612_456_56,
        -1.165_211_3,
        -1.452_307,
        -0.587_785_5,
        0.593_006_5,
        0.012_860_533,
        -1.142_349_6,
        -1.302_776_9,
        0.510_909_6,
        2.365_249_2,
        1.743_016_8,
        1.165_635_7,
        -2.191_822_8,
        2.505_914_4,
        0.498_677,
        2.496_595,
        -0.108_386_315,
        0.991_436_9,
        -2.835_525_5,
    ];

    let angles: Vec<Angle<Binary32>> = ANGLES.iter().map(|&x| Angle::from_radians(s(x))).collect();

    let sum = Angle::sum(&angles);
    let add = angles.iter().copied().fold(Angle::zero(), |a, b| a + b);

    let difference = (f(sum.to_radians()) - f(add.to_radians())).abs();
    assert!(difference <= 1e-5, "{}", difference);
}

#[test]
fn angle_from_nan_is_nan() {
    assert!(Angle::from_radians(s(f32::NAN)).is_nan());
    assert!(Angle::from_degrees(s(f32::NAN)).is_nan());
    assert!(Angle::from_turns(s(f32::NAN)).is_nan());
    assert!(Angle::from_gradians(s(f32::NAN)).is_nan());
    assert!(Angle::from_radians(d(f64::NAN)).is_nan());
    assert!(Angle::from_degrees(d(f64::NAN)).is_nan());
    assert!(Angle::from_turns(d(f64::NAN)).is_nan());
    assert!(Angle::from_gradians(d(f64::NAN)).is_nan());
}

#[test]
fn angle_from_infinity_is_nan() {
    assert!(Angle::from_radians(s(f32::INFINITY)).is_nan());
    assert!(Angle::from_degrees(s(f32::INFINITY)).is_nan());
    assert!(Angle::from_turns(s(f32::INFINITY)).is_nan());
    assert!(Angle::from_gradians(s(f32::INFINITY)).is_nan());
    assert!(Angle::from_radians(s(f32::NEG_INFINITY)).is_nan());
    assert!(Angle::from_degrees(s(f32::NEG_INFINITY)).is_nan());
    assert!(Angle::from_turns(s(f32::NEG_INFINITY)).is_nan());
    assert!(Angle::from_gradians(s(f32::NEG_INFINITY)).is_nan());
    assert!(Angle::from_radians(d(f64::INFINITY)).is_nan());
    assert!(Angle::from_degrees(d(f64::INFINITY)).is_nan());
    assert!(Angle::from_turns(d(f64::INFINITY)).is_nan());
    assert!(Angle::from_gradians(d(f64::INFINITY)).is_nan());
    assert!(Angle::from_radians(d(f64::NEG_INFINITY)).is_nan());
    assert!(Angle::from_degrees(d(f64::NEG_INFINITY)).is_nan());
    assert!(Angle::from_turns(d(f64::NEG_INFINITY)).is_nan());
    assert!(Angle::from_gradians(d(f64::NEG_INFINITY)).is_nan());
}

#[test]
fn angle_from_big_value_is_not_nan() {
    assert!(!Angle::from_radians(s(f32::MAX)).is_nan());
    assert!(!Angle::from_degrees(s(f32::MAX)).is_nan());
    assert!(!Angle::from_turns(s(f32::MAX)).is_nan());
    assert!(!Angle::from_gradians(s(f32::MAX)).is_nan());
    assert!(!Angle::from_radians(s(f32::MIN)).is_nan());
    assert!(!Angle::from_degrees(s(f32::MIN)).is_nan());
    assert!(!Angle::from_turns(s(f32::MIN)).is_nan());
    assert!(!Angle::from_gradians(s(f32::MIN)).is_nan());
    assert!(!Angle::from_radians(d(f64::MAX)).is_nan());
    assert!(!Angle::from_degrees(d(f64::MAX)).is_nan());
    assert!(!Angle::from_turns(d(f64::MAX)).is_nan());
    assert!(!Angle::from_gradians(d(f64::MAX)).is_nan());
    assert!(!Angle::from_radians(d(f64::MIN)).is_nan());
    assert!(!Angle::from_degrees(d(f64::MIN)).is_nan());
    assert!(!Angle::from_turns(d(f64::MIN)).is_nan());
    assert!(!Angle::from_gradians(d(f64::MIN)).is_nan());
}

#[test]
fn angle_unbounded_sum_is_accurate() {
    const ANGLES: [f32; 20] = [
        -1.093_766_9,
        -2.507_797_2,
        -1.995_534_5,
        -0.704_018_65,
        0.601_837_7,
        -1.887_757_9,
        0.630_587_64,
        -0.860_579_43,
        2.683_119,
        0.664_140_76,
        0.018_360_304,
        0.041_261_05,
        2.733_847_6,
        2.532_730_3,
        -3.082_243_2,
        -1.973_592_4,
        2.883_761_2,
        0.876_528_8,
        -1.492_470_1,
        -1.600_921_4,
    ];

    let angles: Vec<AngleUnbounded<Binary32>> =
        ANGLES.iter().map(|&x| AngleUnbounded::from_radians(s(x))).collect();

    let sum = AngleUnbounded::sum(&angles);
    let add = angles.iter().fold(AngleUnbounded::zero(), |a, b| a + *b);

    let difference = (f(sum.to_radians()) - f(add.to_radians())).abs();
    assert!(difference <= 1e-5, "{}", difference);
}
