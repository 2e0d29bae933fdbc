use lithos::units::{Distance, Position3D};

#[test]
fn test_distance_precision() {
    let d1 = Distance::from_meters(1);
    let d2 = Distance::from_picometers(1);
    let sum = d1 + d2;
    assert_eq!(sum.as_picometers(), 1_000_000_000_001);
}

#[test]
fn test_position_operations() {
    let p1 = Position3D::new(
        Distance::from_nanometers(100),
        Distance::from_nanometers(200),
        Distance::from_nanometers(300),
    );
    let p2 = Position3D::new(
        Distance::from_nanometers(50),
        Distance::from_nanometers(50),
        Distance::from_nanometers(50),
    );
    let diff = p1 - p2;
    assert_eq!(diff.x, Distance::from_nanometers(50));
}

#[test]
fn add_then_sub_is_exact() {
    let a = Distance::from_picometers(123_456_789_012_345);
    let b = Distance::from_meters(-7);
    assert_eq!((a + b) - b, a);
    let c = Distance::from_picometers(i128::MAX - 5);
    let d = Distance::from_picometers(5);
    assert_eq!((c + d) - d, c);
}

#[test]
fn unit_constructors_scale_exactly() {
    assert_eq!(Distance::from_nanometers(13).as_picometers(), 13_000);
    assert_eq!(Distance::from_micrometers(30).as_picometers(), 30_000_000);
    assert_eq!(Distance::from_millimeters(-50).as_picometers(), -50_000_000_000);
    assert_eq!(Distance::from_meters(2).as_picometers(), 2_000_000_000_000);
}

#[test]
fn negation_multiplication_division_and_abs() {
    let d = Distance::from_picometers(-10);
    assert_eq!((-d).as_picometers(), 10);
    assert_eq!((d * 3).as_picometers(), -30);
    assert_eq!((d / 4).as_picometers(), -2);
    assert_eq!((Distance::from_picometers(10) / -4).as_picometers(), -2);
    assert_eq!(d.abs().as_picometers(), 10);
    assert_eq!(Distance::zero().as_picometers(), 0);
}

#[test]
fn distance_between_points_rounds_down() {
    let a = Position3D::zero();
    let b = Position3D::new(Distance::from_meters(3), Distance::from_meters(4), Distance::zero());
    assert_eq!(a.distance_to(&b), Distance::from_meters(5));
    let c = Position3D::new(Distance::from_picometers(1), Distance::from_picometers(1), Distance::zero());
    assert_eq!(a.distance_to(&c).as_picometers(), 1);
}

#[test]
fn integer_square_root() {
    assert_eq!(lithos::units::isqrt(0), 0);
    assert_eq!(lithos::units::isqrt(15), 3);
    assert_eq!(lithos::units::isqrt(16), 4);
    assert_eq!(lithos::units::isqrt(u128::MAX), u64::MAX as u128);
}
