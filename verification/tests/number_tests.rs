use symdiff::number::Number;

fn n(v: f64) -> Number {
    Number::from_bits(v.to_bits())
}

#[test]
fn patterns_of_the_constants() {
    assert_eq!(Number::zero_value(), n(0.0));
    assert_eq!(Number::one_value(), n(1.0));
    assert_eq!(Number::two_value(), n(2.0));
    assert_eq!(Number::minus_one_value(), n(-1.0));
    assert_eq!(n(1.5).to_bits(), 1.5f64.to_bits());
}

#[test]
fn classification() {
    assert!(n(0.0).check_zero());
    assert!(n(-0.0).check_zero());
    assert!(!n(1e-320).check_zero());
    assert!(n(1.0).check_one());
    assert!(!n(-1.0).check_one());
    assert!(!n(1.0000000000000002).check_one());
    assert!(n(f64::NAN).check_nan());
    assert!(n(-f64::NAN).check_nan());
    assert!(!n(f64::INFINITY).check_nan());
    assert!(!n(f64::NEG_INFINITY).check_nan());
    assert!(!n(0.0).check_nan());
}

#[test]
fn equality_of_values() {
    let values = [
        0.0,
        -0.0,
        1.0,
        -1.0,
        f64::NAN,
        f64::INFINITY,
        f64::NEG_INFINITY,
        1e-320,
        2.5,
    ];
    for a in values {
        for b in values {
            assert_eq!(n(a).equals(n(b)), a == b, "{} {}", a, b);
        }
    }
}

#[test]
fn negation_flips_the_sign() {
    let values = [0.0, -0.0, 1.0, -2.5, f64::INFINITY, f64::NEG_INFINITY, 1e-320, 1e308];
    for a in values {
        assert_eq!(n(a).negate().to_bits(), (-a).to_bits(), "{}", a);
    }
    assert!(n(f64::NAN).negate().check_nan());
}

#[test]
fn arithmetic() {
    assert_eq!(n(1.5).plus(n(2.25)), n(3.75));
    assert_eq!(n(1.5).minus(n(2.25)), n(-0.75));
    assert_eq!(n(1.5).times(n(2.0)), n(3.0));
    assert_eq!(n(1.0).divided_by(n(3.0)), n(1.0 / 3.0));
    assert_eq!(n(2.0).raised_to(n(10.0)), n(1024.0));
    assert_eq!(n(0.1).plus(n(0.2)), n(0.1 + 0.2));
    assert_eq!(n(9.0).raised_to(n(0.5)), n(3.0));
    assert_eq!(n(2.0).raised_to(n(-1.0)), n(0.5));
    assert_eq!(n(5.0).raised_to(n(0.0)), n(1.0));
    assert_eq!(n(1e308).times(n(10.0)), n(f64::INFINITY));
    assert!(n(0.0).divided_by(n(0.0)).check_nan());
    assert!(n(-8.0).raised_to(n(1.0 / 3.0)).check_nan());
}

#[test]
fn integer_powers_of_integers_are_exact() {
    for base in -6i64..7 {
        for exponent in 0u32..8 {
            let want = base.pow(exponent) as f64;
            let got = n(base as f64).raised_to(n(exponent as f64));
            assert_eq!(got, n(want), "{} ^ {}", base, exponent);
        }
    }
}

#[test]
fn powers_are_within_one_unit_of_native_powers() {
    let values: [f64; 9] = [0.5, 1.5, 2.0, 3.0, 10.0, 0.1, 7.25, 1e10, 1e-10];
    let exponents: [f64; 10] = [-6.0, -2.5, -1.0, -0.5, 0.3, 0.5, 1.5, 2.0, 3.7, 10.0];
    for a in values {
        for b in exponents {
            let want = a.powf(b);
            let got = f64::from_bits(n(a).raised_to(n(b)).to_bits());
            let distance = (got.to_bits() as i64 - want.to_bits() as i64).abs();
            assert!(distance <= 1, "{} ^ {}: {} {}", a, b, got, want);
        }
    }
}

#[test]
fn parsing_decimal_literals() {
    assert_eq!(Number::parse("123"), Some(n(123.0)));
    assert_eq!(Number::parse("4.56"), Some(n(4.56)));
    assert_eq!(Number::parse(".5"), Some(n(0.5)));
    assert_eq!(Number::parse("5."), Some(n(5.0)));
    assert_eq!(Number::parse("0.1"), Some(n(0.1)));
    assert_eq!(Number::parse("000"), Some(n(0.0)));
    let largest = format!("{}", f64::MAX);
    assert_eq!(largest.len(), 309);
    assert_eq!(Number::parse(&largest), Some(n(f64::MAX)));
    assert_eq!(
        Number::parse("9".repeat(400).as_str()),
        Some(n(f64::INFINITY))
    );
    assert_eq!(Number::parse("0.30000000000000004"), Some(n(0.1 + 0.2)));
}

#[test]
fn what_is_no_decimal_literal() {
    for text in ["", ".", "..", "1.2.3", "1e5", "-1", "+1", " 1", "1 ", "inf", "nan", "1_000", "0x10", "١"] {
        assert_eq!(Number::parse(text), None, "{:?}", text);
    }
}

#[test]
fn decimal_text_round_trip() {
    for v in [0.0, 1.0, 2.5, 0.1, 1e21, 1e-7, 123456.789, 1.7976931348623157e308, 5e-324] {
        let text = n(v).to_text();
        assert_eq!(text, format!("{}", v));
        assert_eq!(Number::parse(&text), Some(n(v)));
    }
    assert_eq!(n(-2.5).to_text(), "-2.5");
}

#[test]
fn decimal_literals_are_what_std_reads_among_digits_and_points() {
    let alphabet = ['0', '1', '9', '.'];
    let mut texts = vec![String::new()];
    for _ in 0..6 {
        let mut longer = Vec::new();
        for text in &texts {
            for c in alphabet {
                let mut next = text.clone();
                next.push(c);
                longer.push(next);
            }
        }
        for text in &longer {
            let expected = text.parse::<f64>().ok().map(n);
            assert_eq!(Number::parse(text), expected, "{:?}", text);
        }
        texts = longer;
    }
}

#[test]
fn a_power_that_is_not_a_number_is_one_fixed_pattern() {
    let quiet = Number::from_bits(0x7ff8_0000_0000_0000);
    assert_eq!(n(-1.0).raised_to(n(0.5)), quiet);
    assert_eq!(n(-8.0).raised_to(n(1.0 / 3.0)), quiet);
    assert_eq!(n(f64::NAN).raised_to(n(2.0)), quiet);
    assert_eq!(n(-f64::NAN).raised_to(n(2.0)), quiet);
    assert_eq!(n(2.0).raised_to(n(f64::NAN)), quiet);
    assert_eq!(Number::from_bits(0xfff0_0000_0000_0001).raised_to(n(3.0)), quiet);
    assert_eq!(n(f64::NAN).raised_to(n(0.0)), n(1.0));
    assert_eq!(n(1.0).raised_to(n(f64::NAN)), n(1.0));
}
