use price_action::double::Double;

fn d(x: f64) -> Double {
    Double::from_bits(x.to_bits())
}

#[test]
fn classifies_finite_values() {
    for x in [0.0, -0.0, 1.5, -2.25, f64::MAX, f64::MIN, f64::MIN_POSITIVE, 5e-324] {
        assert!(d(x).is_finite(), "{x}");
    }
    for x in [f64::INFINITY, f64::NEG_INFINITY, f64::NAN] {
        assert!(!d(x).is_finite(), "{x}");
    }
}

#[test]
fn positive_means_strictly_greater_than_zero() {
    assert!(d(1.0).is_positive());
    assert!(d(5e-324).is_positive());
    assert!(!d(0.0).is_positive());
    assert!(!d(-0.0).is_positive());
    assert!(!d(-1.0).is_positive());
}

#[test]
fn orders_like_numbers() {
    let values = [f64::MIN, -1e300, -2.5, -1.0, -5e-324, 0.0, 5e-324, 1e-300, 1.0, 2.5, 1e300, f64::MAX];
    for &a in &values {
        for &b in &values {
            assert_eq!(d(a).lt(&d(b)), a < b, "{a} < {b}");
            assert_eq!(d(a).num_eq(&d(b)), a == b, "{a} == {b}");
        }
    }
    assert!(d(-0.0).num_eq(&d(0.0)));
    assert!(!d(-0.0).lt(&d(0.0)));
}

#[test]
fn bits_round_trip() {
    assert_eq!(d(12.5).to_bits(), 12.5f64.to_bits());
    assert_eq!(Double::zero().to_bits(), 0);
}
