use ropes::scalar::{Part, Scalar};
use ropes::vector::Vector;

fn scalar(x: f64) -> Scalar {
    Scalar::from_bits(x.to_bits())
}

const SAMPLES: [f64; 44] = [
    0.0,
    -0.0,
    0.25,
    -0.25,
    0.5,
    -0.5,
    0.75,
    -0.75,
    1.0,
    -1.0,
    1.5,
    -1.5,
    2.5,
    -2.5,
    2.4999999999999996,
    -2.4999999999999996,
    2.5000000000000004,
    3.999999999999999,
    1234567.5,
    -1234567.5,
    1234567.4999,
    -1234567.5001,
    2147483646.5,
    2147483647.0,
    2147483647.5,
    2147483648.0,
    2147483648.5,
    -2147483647.5,
    -2147483648.0,
    -2147483648.5,
    -2147483649.0,
    4503599627370495.5,
    4503599627370496.0,
    9007199254740993.0,
    1e300,
    -1e300,
    f64::MIN_POSITIVE,
    5e-324,
    -5e-324,
    0.49999999999999994,
    f64::MAX,
    f64::INFINITY,
    f64::NEG_INFINITY,
    f64::NAN,
];

#[test]
fn trunc_agrees_with_the_cast() {
    for x in SAMPLES {
        assert_eq!(scalar(x).trunc(), x as i32, "{x}");
    }
}

#[test]
fn floor_agrees_with_the_float_floor() {
    for x in SAMPLES {
        assert_eq!(scalar(x).floor(), x.floor() as i32, "{x}");
    }
}

#[test]
fn ceil_agrees_with_the_float_ceil() {
    for x in SAMPLES {
        assert_eq!(scalar(x).ceil(), x.ceil() as i32, "{x}");
    }
}

#[test]
fn round_agrees_with_the_float_round() {
    for x in SAMPLES {
        assert_eq!(scalar(x).round(), x.round() as i32, "{x}");
    }
}

#[test]
fn round_half_down_takes_back_an_upper_half() {
    for x in SAMPLES {
        let mut expected = x.round() as i32;
        if x.fract() == 0.5 {
            expected -= 1;
        }
        assert_eq!(scalar(x).round_half_down(), expected, "{x}");
    }
    assert_eq!(scalar(2.5).round_half_down(), 2);
    assert_eq!(scalar(-2.5).round_half_down(), -3);
    assert_eq!(scalar(2147483648.5).round_half_down(), i32::MAX - 1);
}

#[test]
fn round_half_up_takes_back_a_lower_half() {
    for x in SAMPLES {
        let mut expected = x.round() as i32;
        if x.fract() == -0.5 {
            expected += 1;
        }
        assert_eq!(scalar(x).round_half_up(), expected, "{x}");
    }
    assert_eq!(scalar(-2.5).round_half_up(), -2);
    assert_eq!(scalar(2.5).round_half_up(), 3);
    assert_eq!(scalar(-2147483648.5).round_half_up(), i32::MIN + 1);
}

#[test]
fn split_caps_the_whole_part_and_places_the_fraction() {
    assert_eq!(scalar(0.0).split(), (0, Part::Zero));
    assert_eq!(scalar(5e-324).split(), (0, Part::Less));
    assert_eq!(scalar(0.5).split(), (0, Part::Half));
    assert_eq!(scalar(-0.75).split(), (0, Part::More));
    assert_eq!(scalar(7.25).split(), (7, Part::Less));
    assert_eq!(scalar(-7.5).split(), (7, Part::Half));
    assert_eq!(scalar(7.75).split(), (7, Part::More));
    assert_eq!(scalar(2147483647.5).split(), (2147483647, Part::Half));
    assert_eq!(scalar(2147483648.0).split(), (2147483648, Part::Zero));
    assert_eq!(scalar(1e300).split(), (2147483648, Part::Zero));
    assert_eq!(scalar(f64::INFINITY).split(), (2147483648, Part::Zero));
}

#[test]
fn nan_and_sign_are_read_from_the_bits() {
    assert!(scalar(f64::NAN).is_nan());
    assert!(!scalar(f64::INFINITY).is_nan());
    assert!(!scalar(1.0).is_nan());
    assert!(scalar(-0.0).is_sign_negative());
    assert!(!scalar(0.0).is_sign_negative());
    assert!(scalar(-3.0).is_sign_negative());
    assert_eq!(scalar(1.0).to_bits(), 0x3ff0_0000_0000_0000);
}

#[test]
fn vectors_round_by_coordinate() {
    let v = Vector::new(scalar(1.5), scalar(-1.5));
    assert_eq!(v.round(), Vector::new(2, -2));
    assert_eq!(v.round_half_down(), Vector::new(1, -2));
    assert_eq!(v.round_half_up(), Vector::new(2, -1));
    assert_eq!(v.trunc(), Vector::new(1, -1));
    assert_eq!(v.floor(), Vector::new(1, -2));
    assert_eq!(v.ceil(), Vector::new(2, -1));
}

#[test]
fn integer_vectors_multiply() {
    let a: Vector<i32> = Vector::new(1, 2);
    let b: Vector<i32> = Vector::new(3, 4);
    assert_eq!(a.dot(b), 11);
    assert_eq!(a.perp_dot(b), -2);
    assert_eq!(b.length_squared(), 25);
    let wide: Vector<i64> = a.into();
    assert_eq!(wide, Vector::new(1i64, 2i64));
}

#[test]
fn integer_vectors_add_and_scale() {
    let a: Vector<i32> = Vector::new(1, 2);
    let b: Vector<i32> = Vector::new(3, 5);
    assert_eq!(a + b, Vector::new(4, 7));
    assert_eq!(a - b, Vector::new(-2, -3));
    assert_eq!(-a, Vector::new(-1, -2));
    assert_eq!(b * 3, Vector::new(9, 15));
    assert_eq!(b / 2, Vector::new(1, 2));
    assert_eq!(a * b, 13);
    let mut c = a;
    c += b;
    assert_eq!(c, Vector::new(4, 7));
    c -= a;
    assert_eq!(c, b);
    c *= 4;
    assert_eq!(c, Vector::new(12, 20));
    c /= 3;
    assert_eq!(c, Vector::new(4, 6));
}

#[test]
fn vectors_convert_to_and_from_pairs() {
    let v: Vector<i32> = Vector::from((7, 9));
    assert_eq!(v, Vector::new(7, 9));
    let pair = <(i32, i32)>::from(v);
    assert_eq!(pair, (7, 9));
    let array: [i32; 2] = <[i32; 2]>::from(v);
    assert_eq!(array, [7, 9]);
    assert_eq!(Vector::from([7, 9]), v);
}

#[test]
fn coincident_vectors_are_the_same_numbers() {
    let a = Vector::new(scalar(0.0), scalar(7.0));
    let b = Vector::new(scalar(-0.0), scalar(7.0));
    let c = Vector::new(scalar(0.0), scalar(7.000000000000001));
    let d = Vector::new(scalar(f64::NAN), scalar(7.0));
    assert!(a.coincides(b));
    assert!(a.coincides(a));
    assert!(!a.coincides(c));
    assert!(!d.coincides(d));
    for x in SAMPLES {
        for y in SAMPLES {
            assert_eq!(scalar(x).equals(scalar(y)), x == y, "{x} {y}");
        }
    }
}

#[test]
fn named_integer_vectors() {
    assert_eq!(Vector::<i32>::zero(), Vector::new(0, 0));
    assert_eq!(Vector::<i32>::one(), Vector::new(1, 1));
    assert_eq!(Vector::<i32>::i(), Vector::new(1, 0));
    assert_eq!(Vector::<i32>::j(), Vector::new(0, 1));
}

#[test]
fn scalars_compare_as_the_floats_do() {
    for x in SAMPLES {
        for y in SAMPLES {
            assert_eq!(scalar(x).less_than(scalar(y)), x < y, "{x} {y}");
            assert_eq!(scalar(x).at_most(scalar(y)), x <= y, "{x} {y}");
        }
        assert_eq!(scalar(x).is_zero(), x == 0., "{x}");
        assert_eq!(scalar(x).is_positive(), x > 0., "{x}");
        assert_eq!(scalar(x).is_not_negative(), x >= 0., "{x}");
        assert_eq!(scalar(x).is_below_one(), x < 1., "{x}");
    }
    assert_eq!(Scalar::zero(), scalar(0.0));
    assert_eq!(Scalar::one(), scalar(1.0));
}
