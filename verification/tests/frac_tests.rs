use sensor_fusion::frac::Rational;
use sensor_fusion::non_blocking_generator::{CircleGenerator, HelixGenerator, PositionGeneratorType};

#[test]
fn rationals_are_canonical() {
    assert_eq!(Rational::new(2, 4), Rational::new(1, 2));
    assert_eq!(Rational::new(-6, 4), Rational::new(-3, 2));
    assert_eq!(Rational::new(0, 7), Rational::new(0, 1));
}

#[test]
fn exact_arithmetic() {
    let a = Rational::new(1, 3);
    let b = Rational::new(1, 6);
    assert_eq!(a.try_add(&b).unwrap(), Rational::new(1, 2));
    assert_eq!(a.try_sub(&b).unwrap(), Rational::new(1, 6));
    assert_eq!(a.try_mul(&b).unwrap(), Rational::new(1, 18));
    assert_eq!(a.try_div(&b).unwrap(), Rational::new(2, 1));
    assert_eq!(a.neg(), Rational::new(-1, 3));
    assert!(b.lt(&a));
    assert!(b.le(&a));
    assert!(!a.le(&b));
    assert!(Rational::new(0, 5).is_zero());
}

#[test]
fn generators_anchor_at_creation() {
    let helix = HelixGenerator::new();
    let circle = CircleGenerator::new();
    // The anchors are opaque time points; they exist and can be copied.
    let _h = helix;
    let _c = circle;
    let kind = PositionGeneratorType::AngledHelical;
    assert!(matches!(kind, PositionGeneratorType::AngledHelical));
}
