use kineto::cursor::{CLICK_GROWN, CLICK_OVER};
use kineto::motion_blur::{DEADZONE, MIDDLE_BLUR, MIN_BLUR, MIN_SPEED, SHORT_BLUR};
use kineto::scalar::{Scalar, NAN, ZERO};
use kineto::zoom::{CONNECTED_PAN_GAP, NOT_ZOOMED};

fn scalar(value: f64) -> Scalar {
    Scalar::from_bits(value.to_bits())
}

#[test]
fn constants_are_the_doubles_they_stand_for() {
    let pairs: [(u64, f64); 10] = [
        (ZERO, 0.0),
        (CLICK_GROWN, 50.0),
        (CLICK_OVER, 150.0),
        (DEADZONE, 12.0),
        (MIN_BLUR, 0.5),
        (MIN_SPEED, 0.001),
        (SHORT_BLUR, 4.0),
        (MIDDLE_BLUR, 8.0),
        (NOT_ZOOMED, 1.01),
        (CONNECTED_PAN_GAP, 1.5),
    ];
    for (bits, value) in pairs {
        assert_eq!(bits, value.to_bits(), "{value}");
    }
}

#[test]
fn scalars_are_ordered_as_doubles_are() {
    let values = [
        f64::NEG_INFINITY,
        f64::MIN,
        -1.5,
        -f64::MIN_POSITIVE,
        -5e-324,
        -0.0,
        0.0,
        5e-324,
        f64::MIN_POSITIVE,
        0.1,
        1.0,
        1.0 + f64::EPSILON,
        f64::MAX,
        f64::INFINITY,
        f64::NAN,
        -f64::NAN,
    ];
    for a in values {
        for b in values {
            assert_eq!(scalar(a).le(scalar(b)), a <= b, "{a} <= {b}");
            assert_eq!(scalar(a).lt(scalar(b)), a < b, "{a} < {b}");
        }
    }
}

#[test]
fn scalars_turn_back_into_doubles() {
    for value in [f64::NEG_INFINITY, -2.5, -5e-324, 0.0, 1e-300, 1.01, f64::MAX, f64::INFINITY] {
        assert_eq!(scalar(value).to_bits(), value.to_bits(), "{value}");
    }
    assert_eq!(scalar(-0.0).to_bits(), 0.0f64.to_bits());
    assert_eq!(scalar(-f64::NAN).to_bits(), NAN);
    assert!(f64::from_bits(NAN).is_nan());
}

#[test]
fn the_larger_and_the_smaller_are_those_of_doubles() {
    let values = [f64::NEG_INFINITY, -1.0, 0.0, 1e-320, 2.5, f64::INFINITY, f64::NAN];
    for a in values {
        for b in values {
            assert_eq!(scalar(a).max(scalar(b)), scalar(a.max(b)), "{a} and {b}");
            assert_eq!(scalar(a).min(scalar(b)), scalar(a.min(b)), "{a} and {b}");
        }
    }
}

#[test]
fn the_zeros_are_one_number() {
    assert_eq!(scalar(-0.0), scalar(0.0));
    assert_eq!(scalar(f64::NAN), Scalar::NotANumber);
}
