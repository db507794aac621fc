use symdiff::constants::{get_constant, is_constant, value_to_constant_name, Constants};
use symdiff::number::Number;

fn n(v: f64) -> Number {
    Number::from_bits(v.to_bits())
}

#[test]
fn names_of_constants() {
    for name in ["pi", "π", "e", "euler", "deg", "degree", "inf", "infinity", "nan"] {
        assert!(is_constant(name), "{}", name);
        assert!(Constants::new().is_constant(name), "{}", name);
    }
    for name in ["", "p", "Pi", "tau", "x", "pi ", "degrees"] {
        assert!(!is_constant(name), "{}", name);
        assert_eq!(get_constant(name), None);
    }
}

#[test]
fn values_of_constants() {
    assert_eq!(get_constant("pi"), Some(n(std::f64::consts::PI)));
    assert_eq!(get_constant("π"), Some(n(std::f64::consts::PI)));
    assert_eq!(get_constant("e"), Some(n(std::f64::consts::E)));
    assert_eq!(get_constant("euler"), Some(n(std::f64::consts::E)));
    assert_eq!(get_constant("deg"), Some(n(std::f64::consts::PI / 180.0)));
    assert_eq!(get_constant("degree"), Some(n(std::f64::consts::PI / 180.0)));
    assert_eq!(get_constant("inf"), Some(n(f64::INFINITY)));
    assert_eq!(get_constant("infinity"), Some(n(f64::INFINITY)));
    assert!(get_constant("nan").unwrap().check_nan());
    assert_eq!(Constants::new().get("pi"), Some(n(std::f64::consts::PI)));
}

#[test]
fn name_of_a_value() {
    assert_eq!(value_to_constant_name(n(std::f64::consts::PI)), Some("pi".to_string()));
    assert_eq!(value_to_constant_name(n(std::f64::consts::E)), Some("e".to_string()));
    assert_eq!(
        value_to_constant_name(n(std::f64::consts::PI / 180.0)),
        Some("deg".to_string())
    );
    assert_eq!(
        value_to_constant_name(n(std::f64::consts::PI / 180.0 + 1e-16)),
        Some("deg".to_string())
    );
    assert_eq!(value_to_constant_name(n(std::f64::consts::PI / 180.0 + 3e-16)), None);
    assert_eq!(value_to_constant_name(n(3.14)), None);
    assert_eq!(value_to_constant_name(n(f64::INFINITY)), None);
    assert_eq!(value_to_constant_name(n(f64::NAN)), None);
    assert_eq!(value_to_constant_name(n(0.0)), None);
    assert_eq!(
        Constants::new().name_of(n(std::f64::consts::E)),
        Some("e".to_string())
    );
}

#[test]
fn closeness_is_distance_below_epsilon() {
    let names = ["pi", "e", "deg", "inf"];
    let offsets = [0.0, 1e-17, 1e-16, 2e-16, 2.3e-16, 4e-16, 1e-15, -1e-16, -3e-16, 1.0];
    for name in names {
        let c = f64::from_bits(get_constant(name).unwrap().to_bits());
        for o in offsets {
            let v = c + o;
            let close = (v - c).abs() < f64::EPSILON;
            let found = value_to_constant_name(n(v)).is_some();
            assert_eq!(found, close, "{} {}", name, o);
        }
    }
}
