use angulus::scalar::{Binary32, Binary64, Float};
use angulus::units::{Degrees, Gradians, Measure, Part, Radians, Turns, Unit};
use angulus::Angle32;

fn f(x: Binary32) -> f32 {
    f32::from_bits(x.to_bits())
}

fn g(x: Binary64) -> f64 {
    f64::from_bits(x.to_bits())
}

const PARTS: [(Part, u32); 7] = [
    (Part::Full, 1),
    (Part::Half, 2),
    (Part::Quarter, 4),
    (Part::Sixth, 6),
    (Part::Eighth, 8),
    (Part::Twelfth, 12),
    (Part::Sixteenth, 16),
];

#[test]
fn the_parts_of_the_circle_in_degrees_turns_and_gradians() {
    for (part, count) in PARTS {
        assert_eq!(part.divisor(), count);
        assert_eq!(f(Measure::Degrees.part(part)), 360.0f32 / count as f32);
        assert_eq!(g(Measure::Degrees.part(part)), 360.0f64 / count as f64);
        assert_eq!(f(Measure::Turns.part(part)), 1.0f32 / count as f32);
        assert_eq!(g(Measure::Turns.part(part)), 1.0f64 / count as f64);
        assert_eq!(f(Measure::Gradians.part(part)), 400.0f32 / count as f32);
        assert_eq!(g(Measure::Gradians.part(part)), 400.0f64 / count as f64);
    }
    assert_eq!(f(Measure::Degrees.part(Part::Sixteenth)), 22.5);
    assert_eq!(g(Measure::Degrees.part(Part::Quarter)), 90.0);
    assert_eq!(g(Measure::Turns.part(Part::Sixth)).to_bits(), (1.0f64 / 6.0).to_bits());
    assert_eq!(f(Measure::Turns.part(Part::Twelfth)).to_bits(), (1.0f32 / 12.0).to_bits());
    assert_eq!(g(Measure::Gradians.part(Part::Half)), 200.0);
    assert_eq!(f(Measure::Gradians.part(Part::Eighth)), 50.0);
}

#[test]
fn the_parts_of_the_circle_in_radians() {
    assert_eq!(f(Measure::Radians.part(Part::Full)), core::f32::consts::TAU);
    assert_eq!(f(Measure::Radians.part(Part::Half)), core::f32::consts::PI);
    assert_eq!(f(Measure::Radians.part(Part::Quarter)), core::f32::consts::FRAC_PI_2);
    assert_eq!(f(Measure::Radians.part(Part::Sixth)), core::f32::consts::FRAC_PI_3);
    assert_eq!(f(Measure::Radians.part(Part::Eighth)), core::f32::consts::FRAC_PI_4);
    assert_eq!(f(Measure::Radians.part(Part::Twelfth)), core::f32::consts::FRAC_PI_6);
    assert_eq!(f(Measure::Radians.part(Part::Sixteenth)), core::f32::consts::FRAC_PI_8);
    assert_eq!(g(Measure::Radians.part(Part::Full)), core::f64::consts::TAU);
    assert_eq!(g(Measure::Radians.part(Part::Half)), core::f64::consts::PI);
    assert_eq!(g(Measure::Radians.part(Part::Quarter)), core::f64::consts::FRAC_PI_2);
    assert_eq!(g(Measure::Radians.part(Part::Sixth)), core::f64::consts::FRAC_PI_3);
    assert_eq!(g(Measure::Radians.part(Part::Eighth)), core::f64::consts::FRAC_PI_4);
    assert_eq!(g(Measure::Radians.part(Part::Twelfth)), core::f64::consts::FRAC_PI_6);
    assert_eq!(g(Measure::Radians.part(Part::Sixteenth)), core::f64::consts::FRAC_PI_8);
}

#[test]
fn the_factors_of_the_units() {
    assert_eq!(f(Measure::Radians.factor_to_radians()), 1.0);
    assert_eq!(f(Measure::Radians.factor_from_radians()), 1.0);
    assert_eq!(f(Measure::Degrees.factor_to_radians()), core::f32::consts::PI / 180.0);
    assert_eq!(f(Measure::Degrees.factor_from_radians()), 180.0 / core::f32::consts::PI);
    assert_eq!(f(Measure::Turns.factor_to_radians()), core::f32::consts::TAU);
    assert_eq!(f(Measure::Turns.factor_from_radians()), 1.0 / core::f32::consts::TAU);
    assert_eq!(f(Measure::Gradians.factor_to_radians()), core::f32::consts::PI / 200.0);
    assert_eq!(f(Measure::Gradians.factor_from_radians()), 200.0 / core::f32::consts::PI);
    assert_eq!(g(Measure::Degrees.factor_to_radians()), core::f64::consts::PI / 180.0);
    assert_eq!(g(Measure::Degrees.factor_from_radians()), 180.0 / core::f64::consts::PI);
    assert_eq!(g(Measure::Turns.factor_to_radians()), core::f64::consts::TAU);
    assert_eq!(g(Measure::Turns.factor_from_radians()), 1.0 / core::f64::consts::TAU);
    assert_eq!(g(Measure::Gradians.factor_to_radians()), core::f64::consts::PI / 200.0);
    assert_eq!(g(Measure::Gradians.factor_from_radians()), 200.0 / core::f64::consts::PI);
}

#[test]
fn the_wrappers_name_their_unit() {
    assert_eq!(<Radians<Angle32> as Unit>::measure(), Measure::Radians);
    assert_eq!(<Degrees<Angle32> as Unit>::measure(), Measure::Degrees);
    assert_eq!(<Turns<Angle32> as Unit>::measure(), Measure::Turns);
    assert_eq!(<Gradians<Angle32> as Unit>::measure(), Measure::Gradians);
}

#[test]
fn whole_numbers_become_scalars() {
    for n in [0u32, 1, 2, 3, 180, 360, 400, 16_777_215, 16_777_216, 16_777_217, 33_554_433, u32::MAX] {
        assert_eq!(f(Binary32::from_count(n)).to_bits(), (n as f32).to_bits(), "{}", n);
        assert_eq!(g(Binary64::from_count(n)).to_bits(), (n as f64).to_bits(), "{}", n);
    }
}
