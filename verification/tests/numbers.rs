use meme_data_service::double::Double;

fn double(number: f64) -> Double {
    Double { bits: number.to_bits() }
}

const SAMPLES: [f64; 16] = [
    0.0,
    -0.0,
    1.0,
    -1.0,
    0.1,
    -0.1,
    150.0,
    149.99999999999997,
    1e300,
    -1e300,
    5e-324,
    -5e-324,
    2.2250738585072014e-308,
    f64::INFINITY,
    f64::NEG_INFINITY,
    f64::NAN,
];

#[test]
fn patterns_are_ordered_as_numbers_are() {
    for a in SAMPLES {
        for b in SAMPLES {
            assert_eq!(double(a).less_than(double(b)), a < b, "{} < {}", a, b);
        }
    }
}

#[test]
fn greater_and_smaller_are_those_of_the_numbers() {
    for a in SAMPLES {
        for b in SAMPLES {
            let max = f64::from_bits(double(a).max(double(b)).bits);
            let min = f64::from_bits(double(a).min(double(b)).bits);
            if a.is_nan() && b.is_nan() {
                assert!(max.is_nan() && min.is_nan());
            } else {
                assert_eq!(max, a.max(b), "max of {} and {}", a, b);
                assert_eq!(min, a.min(b), "min of {} and {}", a, b);
            }
        }
    }
}

#[test]
fn only_patterns_of_no_number_are_not_a_number() {
    for a in SAMPLES {
        assert_eq!(double(a).not_a_number(), a.is_nan());
    }
}
