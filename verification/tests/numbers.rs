use detector::digits::exact_text;
use detector::digits::fixed_text;
use detector::double::Double;
use detector::reader::parse_double;
use detector::reader::parse_i64;

fn d(x: f64) -> Double {
    Double { bits: x.to_bits() }
}

fn f(x: Double) -> f64 {
    f64::from_bits(x.bits)
}

/// Doubles of every kind: the ends of each range, and an even spread over the bit patterns.
fn doubles() -> Vec<f64> {
    let mut v = vec![
        0.0,
        -0.0,
        1.0,
        -1.0,
        0.1,
        0.2,
        0.3,
        2.5,
        -2.5,
        0.5,
        1.5,
        0.99,
        100.0,
        1e15,
        4503599627370495.5,
        4503599627370496.0,
        9007199254740993.0,
        1e300,
        -1e300,
        1e-300,
        5e-324,
        -5e-324,
        2.2250738585072014e-308,
        2.225073858507201e-308,
        1.7976931348623157e308,
        f64::INFINITY,
        f64::NEG_INFINITY,
        f64::NAN,
    ];
    let mut seed: u64 = 0x9e37_79b9_7f4a_7c15;
    for _ in 0..40 {
        seed = seed.wrapping_mul(6364136223846793005).wrapping_add(1442695040888963407);
        v.push(f64::from_bits(seed));
        v.push((seed >> 40) as f64 / 1024.0);
    }
    v
}

fn alike(a: Double, b: f64) -> bool {
    if b.is_nan() {
        f(a).is_nan()
    } else {
        a.bits == b.to_bits()
    }
}

#[test]
fn arithmetic_is_that_of_the_machine() {
    for x in doubles() {
        for y in doubles() {
            assert!(alike(d(x).plus(d(y)), x + y), "{x} + {y}");
            assert!(alike(d(x).minus(d(y)), x - y), "{x} - {y}");
            assert!(alike(d(x).times(d(y)), x * y), "{x} * {y}");
            assert!(alike(d(x).over(d(y)), x / y), "{x} / {y}");
        }
    }
}

#[test]
fn order_is_that_of_the_machine() {
    for x in doubles() {
        for y in doubles() {
            assert_eq!(d(x).lt(d(y)), x < y, "{x} < {y}");
            assert_eq!(d(x).le(d(y)), x <= y, "{x} <= {y}");
            assert_eq!(d(x).equals(d(y)), x == y, "{x} == {y}");
            if x != y {
                assert!(alike(d(x).max(d(y)), x.max(y)), "max of {x} and {y}");
                assert!(alike(d(x).min(d(y)), x.min(y)), "min of {x} and {y}");
            }
        }
    }
}

#[test]
fn unary_operations_are_those_of_the_machine() {
    for x in doubles() {
        assert!(alike(d(x).abs(), x.abs()));
        assert!(alike(d(x).neg(), -x));
        assert!(alike(d(x).signum(), x.signum()));
        assert!(alike(d(x).round(), x.round()), "{x} rounded");
        assert!(alike(d(x).clamp(d(0.0), d(100.0)), x.clamp(0.0, 100.0)));
        assert_eq!(d(x).is_nan(), x.is_nan());
        assert_eq!(d(x).is_finite(), x.is_finite());
        assert_eq!(d(x).is_positive(), x.is_finite() && x > 0.0);
    }
}

#[test]
fn halves_round_away_from_zero() {
    assert_eq!(f(d(0.5).round()), 1.0);
    assert_eq!(f(d(-0.5).round()), -1.0);
    assert_eq!(f(d(2.5).round()), 3.0);
    assert_eq!(f(d(0.49999999999999994).round()), 0.0);
}

#[test]
fn integers_become_the_nearest_doubles() {
    for n in [0u64, 1, 53, 1 << 53, (1 << 53) + 1, (1 << 53) + 3, u64::MAX - 1024, u64::MAX] {
        assert!(alike(Double::from_u64(n), n as f64), "{n}");
    }
    for n in [0i64, 1, -1, i64::MIN, i64::MIN + 513, i64::MAX, -(1 << 53) - 1] {
        assert!(alike(Double::from_i64(n), n as f64), "{n}");
    }
    assert!(alike(Double::from_usize(12), 12.0));
}

#[test]
fn products_of_larger_factors_are_not_smaller() {
    for x in doubles() {
        for y in doubles() {
            if x <= y {
                let factor = d(0.7);
                assert!(!d(y).times(factor).lt(d(x).times(factor)));
            }
        }
    }
}

#[test]
fn fixed_digits_are_those_of_the_formatter() {
    for x in doubles() {
        assert_eq!(fixed_text(d(x), 0), format!("{x:.0}"));
        assert_eq!(fixed_text(d(x), 2), format!("{x:.2}"));
        assert_eq!(fixed_text(d(x), 4), format!("{x:.4}"));
        assert_eq!(fixed_text(d(x), 6), format!("{x:.6}"));
    }
    assert_eq!(fixed_text(d(0.125), 2), "0.12");
    assert_eq!(fixed_text(d(0.375), 2), "0.38");
    assert_eq!(fixed_text(d(-1.0), 1), "-1.0");
}

#[test]
fn exact_digits_are_read_back() {
    for x in doubles() {
        let text = exact_text(d(x));
        let read: f64 = text.parse().expect("a number");
        assert!(alike(d(read), x), "{x} written as {text}");
        assert!(alike(parse_double(&text).expect("a number"), x));
    }
}

#[test]
fn numbers_are_read_as_by_the_parser() {
    let texts = [
        "0", "-0", "+1", "1.", ".5", ".", "", "-", "+", "1e3", "1E-3", "1e", "1e+", "e5", "1.5e+2",
        "0.1", "0.30000000000000004", "1e400", "-1e400", "1e-400", "123456789012345678901234567890",
        "2.2250738585072011e-308", "4.9e-324", "2.4703282292062327e-324", "inf", "-INF", "Infinity",
        "nan", "NaN", "infinit", " 1", "1 ", "1_000", "0x10", "1.2.3", "--1", "1e99999999999999999999",
        "0.0000000000000000000000000000000000000000000001e40", "9007199254740993", "1e-99999999999",
        "0e99999999999999999999",
    ];
    for text in texts {
        match (parse_double(text), text.parse::<f64>()) {
            (Some(x), Ok(y)) => assert!(alike(x, y), "{text} read as {}", f(x)),
            (None, Err(_)) => {}
            (read, expected) => panic!("{text}: {read:?} in place of {expected:?}"),
        }
    }
}

#[test]
fn shortest_digits_are_read_back() {
    for x in doubles() {
        assert!(alike(parse_double(&format!("{x}")).expect("a number"), x));
        assert!(alike(parse_double(&format!("{x:e}")).expect("a number"), x));
    }
}

#[test]
fn whole_numbers_are_read_as_by_the_parser() {
    let texts = [
        "0", "-0", "+7", "-7", "9223372036854775807", "9223372036854775808", "-9223372036854775808",
        "-9223372036854775809", "", "+", "-", "1.0", " 1", "1e3", "00012", "18446744073709551616",
    ];
    for text in texts {
        assert_eq!(parse_i64(text), text.parse::<i64>().ok(), "{text}");
    }
}
