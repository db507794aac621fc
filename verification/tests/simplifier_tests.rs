use symdiff::ast::{Expr, Op};
use symdiff::number::Number;
use symdiff::parser::Parser;
use symdiff::simplifier::simplify;
use symdiff::tokenizer::tokenize;

fn n(v: f64) -> Expr {
    Expr::Num(Number::from_bits(v.to_bits()))
}

fn v(name: &str) -> Expr {
    Expr::Var(name.to_string())
}

fn bin(op: Op, l: Expr, r: Expr) -> Expr {
    Expr::BinaryOp { op, left: Box::new(l), right: Box::new(r) }
}

fn add(l: Expr, r: Expr) -> Expr {
    bin(Op::Add, l, r)
}

fn sub(l: Expr, r: Expr) -> Expr {
    bin(Op::Sub, l, r)
}

fn mul(l: Expr, r: Expr) -> Expr {
    bin(Op::Mul, l, r)
}

fn div(l: Expr, r: Expr) -> Expr {
    bin(Op::Div, l, r)
}

fn pow(l: Expr, r: Expr) -> Expr {
    bin(Op::Pow, l, r)
}

fn call(name: &str, arg: Expr) -> Expr {
    Expr::FuncCall { name: name.to_string(), arg: Box::new(arg) }
}

fn x() -> Expr {
    v("x")
}

fn y() -> Expr {
    v("y")
}

#[test]
fn like_terms_are_collected() {
    assert_eq!(simplify(&add(x(), x())), mul(n(2.0), x()));
    assert_eq!(simplify(&add(add(x(), x()), x())), mul(n(3.0), x()));
    assert_eq!(simplify(&add(x(), add(x(), x()))), mul(n(3.0), x()));
    assert_eq!(
        simplify(&add(mul(n(2.0), x()), mul(x(), n(3.0)))),
        mul(n(5.0), x())
    );
}

#[test]
fn identities() {
    assert_eq!(simplify(&mul(x(), n(0.0))), n(0.0));
    assert_eq!(simplify(&mul(n(0.0), x())), n(0.0));
    assert_eq!(simplify(&mul(x(), n(-0.0))), n(0.0));
    assert_eq!(simplify(&pow(x(), n(1.0))), x());
    assert_eq!(simplify(&pow(x(), n(0.0))), n(1.0));
    assert_eq!(simplify(&pow(x(), n(-0.0))), n(1.0));
    assert_eq!(simplify(&mul(n(1.0), x())), x());
    assert_eq!(simplify(&mul(x(), n(1.0))), x());
    assert_eq!(simplify(&sub(x(), n(0.0))), x());
    assert_eq!(simplify(&div(x(), n(1.0))), x());
}

#[test]
fn nodes_without_identity_are_rebuilt() {
    assert_eq!(simplify(&sub(n(0.0), x())), sub(n(0.0), x()));
    assert_eq!(simplify(&div(n(1.0), x())), div(n(1.0), x()));
    assert_eq!(simplify(&div(n(0.0), x())), div(n(0.0), x()));
    assert_eq!(simplify(&pow(n(1.0), x())), pow(n(1.0), x()));
    assert_eq!(simplify(&mul(n(2.0), x())), mul(n(2.0), x()));
    assert_eq!(simplify(&sub(x(), x())), sub(x(), x()));
    assert_eq!(simplify(&n(7.0)), n(7.0));
    assert_eq!(simplify(&x()), x());
}

#[test]
fn literals_fold() {
    assert_eq!(simplify(&sub(n(5.0), n(3.0))), n(2.0));
    assert_eq!(simplify(&mul(n(5.0), n(3.0))), n(15.0));
    assert_eq!(simplify(&div(n(5.0), n(4.0))), n(1.25));
    assert_eq!(simplify(&pow(n(2.0), n(10.0))), n(1024.0));
    assert_eq!(simplify(&pow(n(2.0), n(0.5))), n(2.0f64.powf(0.5)));
    assert_eq!(simplify(&div(n(1.0), n(3.0))), n(1.0 / 3.0));
    assert_eq!(simplify(&sub(n(0.1), n(0.3))), n(0.1 - 0.3));
    assert_eq!(simplify(&mul(n(0.1), n(0.3))), n(0.1 * 0.3));
    assert_eq!(simplify(&div(n(1.0), n(0.0))), n(f64::INFINITY));
    assert_eq!(simplify(&div(n(-1.0), n(0.0))), n(f64::NEG_INFINITY));
}

#[test]
fn a_sum_of_two_literals_is_left_as_a_sum() {
    assert_eq!(simplify(&add(n(1.0), n(2.0))), add(n(1.0), n(2.0)));
}

#[test]
fn zero_times_infinity_is_zero() {
    assert_eq!(simplify(&mul(n(0.0), n(f64::INFINITY))), n(0.0));
}

#[test]
fn fold_agrees_with_native_arithmetic() {
    let values = [
        0.0,
        -0.0,
        1.0,
        -1.0,
        2.0,
        0.5,
        3.0,
        -7.25,
        0.1,
        0.2,
        0.3,
        1e-310,
        4.9e-324,
        1e308,
        -1e308,
        1.7976931348623157e308,
        2.2250738585072014e-308,
        123456789.123456789,
        1e-5,
        1e16,
        f64::INFINITY,
        f64::NEG_INFINITY,
    ];
    for a in values {
        for b in values {
            if b != 0.0 && !(a - b).is_nan() {
                let d = simplify(&sub(n(a), n(b)));
                assert_eq!(d, n(a - b), "{} - {}", a, b);
            }
            if a != 0.0 && b != 0.0 && a != 1.0 && b != 1.0 && !(a * b).is_nan() {
                let p = simplify(&mul(n(a), n(b)));
                assert_eq!(p, n(a * b), "{} * {}", a, b);
            }
            if b != 1.0 && !(a / b).is_nan() {
                let q = simplify(&div(n(a), n(b)));
                assert_eq!(q, n(a / b), "{} / {}", a, b);
            }
        }
    }
}

#[test]
fn arithmetic_on_many_patterns_agrees_with_native_arithmetic() {
    let mut state: u64 = 0x9e37_79b9_7f4a_7c15;
    let mut next = || {
        state ^= state << 13;
        state ^= state >> 7;
        state ^= state << 17;
        state
    };
    for _ in 0..200000 {
        let a = f64::from_bits(next());
        let b = f64::from_bits(next());
        if a.is_nan() || b.is_nan() {
            continue;
        }
        let na = Number::from_bits(a.to_bits());
        let nb = Number::from_bits(b.to_bits());
        let check = |got: Number, want: f64, what: &str| {
            if want.is_nan() {
                assert!(got.check_nan(), "{} {} {}", a, what, b);
            } else {
                assert_eq!(got.to_bits(), want.to_bits(), "{} {} {}", a, what, b);
            }
        };
        check(na.plus(nb), a + b, "+");
        check(na.minus(nb), a - b, "-");
        check(na.times(nb), a * b, "*");
        check(na.divided_by(nb), a / b, "/");
    }
}

#[test]
fn arithmetic_near_one_agrees_with_native_arithmetic() {
    let mut state: u64 = 0x1234_5678_9abc_def1;
    let mut next = || {
        state ^= state << 13;
        state ^= state >> 7;
        state ^= state << 17;
        state
    };
    for _ in 0..20000 {
        let a = f64::from_bits(0x3ff0_0000_0000_0000 ^ (next() >> 10));
        let b = f64::from_bits(0x4000_0000_0000_0000 ^ (next() >> 9));
        let na = Number::from_bits(a.to_bits());
        let nb = Number::from_bits(b.to_bits());
        assert_eq!(na.plus(nb).to_bits(), (a + b).to_bits());
        assert_eq!(na.minus(nb).to_bits(), (a - b).to_bits());
        assert_eq!(na.times(nb).to_bits(), (a * b).to_bits());
        assert_eq!(na.divided_by(nb).to_bits(), (a / b).to_bits());
    }
}

#[test]
fn sums_keep_the_order_of_first_appearance() {
    assert_eq!(
        simplify(&add(add(y(), x()), add(y(), x()))),
        add(mul(n(2.0), y()), mul(n(2.0), x()))
    );
    assert_eq!(simplify(&add(x(), y())), add(x(), y()));
    assert_eq!(
        simplify(&add(add(x(), n(1.0)), add(y(), n(2.0)))),
        add(add(add(x(), n(1.0)), y()), n(2.0))
    );
}

#[test]
fn coefficients_that_cancel_leave_zero() {
    assert_eq!(simplify(&add(x(), mul(n(-1.0), x()))), n(0.0));
    assert_eq!(
        simplify(&add(add(x(), y()), mul(n(-1.0), x()))),
        add(n(0.0), y())
    );
}

#[test]
fn powers_and_applications_are_like_terms() {
    let square = pow(x(), n(2.0));
    assert_eq!(
        simplify(&add(pow(x(), n(2.0)), mul(n(3.0), pow(x(), n(2.0))))),
        mul(n(4.0), square)
    );
    assert_eq!(
        simplify(&add(call("sin", x()), call("sin", x()))),
        mul(n(2.0), call("sin", x()))
    );
    assert_eq!(
        simplify(&add(call("sin", x()), call("cos", x()))),
        add(call("sin", x()), call("cos", x()))
    );
    assert_eq!(
        simplify(&add(call("sin", x()), call("sin", y()))),
        add(call("sin", x()), call("sin", y()))
    );
    assert_eq!(
        simplify(&add(pow(x(), n(0.0 + 2.0)), pow(x(), n(3.0)))),
        add(pow(x(), n(2.0)), pow(x(), n(3.0)))
    );
}

#[test]
fn products_and_quotients_are_not_like_terms() {
    let p = mul(x(), y());
    assert_eq!(
        simplify(&add(mul(x(), y()), mul(x(), y()))),
        add(p, mul(x(), y()))
    );
    assert_eq!(
        simplify(&add(div(x(), y()), div(x(), y()))),
        add(div(x(), y()), div(x(), y()))
    );
}

#[test]
fn literals_in_products_move_to_the_front() {
    assert_eq!(
        simplify(&add(mul(mul(n(2.0), x()), mul(n(3.0), y())), n(1.0))),
        add(mul(n(6.0), mul(x(), y())), n(1.0))
    );
    assert_eq!(
        simplify(&add(mul(x(), n(2.0)), y())),
        add(mul(n(2.0), x()), y())
    );
}

#[test]
fn literals_equal_by_value_make_like_terms() {
    assert_eq!(
        simplify(&add(pow(x(), n(-0.0 - 2.0)), pow(x(), n(-2.0)))),
        mul(n(2.0), pow(x(), n(-2.0)))
    );
    let nan = f64::NAN;
    assert_eq!(
        simplify(&add(call("sin", n(nan)), call("sin", n(nan)))),
        add(call("sin", n(nan)), call("sin", n(nan)))
    );
    let a = pow(n(0.0), x());
    let b = pow(n(-0.0), x());
    assert!(a.same(&b));
    assert!(!n(nan).same(&n(nan)));
    assert!(n(1.5).same(&n(1.5)));
    assert!(!n(1.5).same(&n(2.5)));
    assert!(!x().same(&y()));
    assert!(!x().same(&n(1.0)));
    assert!(call("sin", x()).same(&call("sin", x())));
    assert!(!call("sin", x()).same(&call("cos", x())));
    assert!(!add(x(), y()).same(&sub(x(), y())));
}

#[test]
fn application_simplifies_its_argument_only() {
    assert_eq!(simplify(&call("sin", add(x(), x()))), call("sin", mul(n(2.0), x())));
    assert_eq!(simplify(&call("nosuch", mul(x(), n(1.0)))), call("nosuch", x()));
}

#[test]
fn simplifying_twice_changes_nothing_on_steady_trees() {
    let trees = vec![
        add(x(), x()),
        add(add(x(), y()), add(x(), n(4.0))),
        mul(add(x(), n(1.0)), y()),
        add(mul(n(2.0), pow(x(), n(2.0))), mul(n(3.0), pow(x(), n(2.0)))),
        add(call("sin", add(x(), x())), mul(n(2.0), call("sin", mul(n(2.0), x())))),
        sub(add(x(), y()), n(0.0)),
        add(x(), mul(n(-1.0), x())),
        add(mul(mul(n(2.0), x()), mul(n(3.0), y())), n(1.0)),
        pow(add(x(), x()), sub(n(3.0), n(1.0))),
        add(mul(n(2.0), add(x(), y())), mul(n(3.0), add(x(), y()))),
    ];
    for t in trees {
        let once = simplify(&t);
        let twice = simplify(&once);
        assert_eq!(twice, once);
    }
}

#[test]
fn simplifying_twice_changes_nothing_where_the_form_is_normal() {
    let t = add(mul(n(1.0), add(x(), y())), v("z"));
    let once = simplify(&t);
    assert_eq!(once, add(add(x(), y()), v("z")));
    assert_eq!(simplify(&once), once);
    let u = add(mul(n(1.0), add(x(), y())), x());
    let once = simplify(&u);
    assert_eq!(once, add(add(x(), y()), x()));
    assert_eq!(simplify(&once), add(mul(n(2.0), x()), y()));
    let nan = f64::NAN;
    assert_eq!(
        simplify(&pow(n(-1.0), n(0.5))),
        Expr::Num(Number::from_bits(0x7ff8_0000_0000_0000))
    );
    assert!(!n(nan).same(&simplify(&pow(n(-1.0), n(0.5)))));
}

#[test]
fn a_sum_that_becomes_a_term_of_a_sum_is_not_a_fixed_point() {
    let t = add(x(), sub(add(x(), y()), n(0.0)));
    let once = simplify(&t);
    assert_eq!(once, add(x(), add(x(), y())));
    let twice = simplify(&once);
    assert_eq!(twice, add(mul(n(2.0), x()), y()));
    let u = add(v("z"), mul(n(0.5), mul(n(2.0), add(x(), y()))));
    let once = simplify(&u);
    assert_eq!(once, add(v("z"), add(x(), y())));
    assert_eq!(simplify(&once), add(add(v("z"), x()), y()));
}

#[test]
fn canonical_text() {
    assert_eq!(mul(n(3.0), pow(x(), n(2.0))).to_text(), "(3 * (x ^ 2))");
    assert_eq!(call("cos", x()).to_text(), "cos x");
    assert_eq!(call("sin", add(x(), n(1.0))).to_text(), "sin (x + 1)");
    assert_eq!(sub(div(x(), y()), n(-0.5)).to_text(), "((x / y) - -0.5)");
    assert_eq!(n(0.1).to_text(), "0.1");
    assert_eq!(n(1e21).to_text(), "1000000000000000000000");
    assert_eq!(n(1e-7).to_text(), "0.0000001");
    assert_eq!(n(-0.0).to_text(), "-0");
    assert_eq!(n(f64::INFINITY).to_text(), "inf");
    assert_eq!(n(f64::NAN).to_text(), "NaN");
    assert_eq!(n(1.0 / 3.0).to_text(), "0.3333333333333333");
    assert_eq!(Op::Add.to_text(), "+");
    assert_eq!(Op::Sub.to_text(), "-");
    assert_eq!(Op::Mul.to_text(), "*");
    assert_eq!(Op::Div.to_text(), "/");
    assert_eq!(Op::Pow.to_text(), "^");
}

#[test]
fn text_of_a_simplified_tree_parses_back_to_it() {
    let trees = vec![
        mul(n(3.0), pow(x(), n(2.0))),
        add(call("sin", x()), mul(x(), call("cos", x()))),
        add(add(mul(n(3.0), pow(x(), n(2.0))), n(2.0)), n(0.0)),
        div(sub(mul(n(2.5), x()), y()), pow(y(), n(2.0))),
        call("exp", mul(n(2.0), x())),
        sub(x(), n(-3.0)),
        pow(x(), call("sin", x())),
        mul(n(-1.0), call("sin", x())),
        n(-2.5),
        add(n(-1.0), x()),
        div(n(-0.5), x()),
        pow(n(-2.0), x()),
        add(mul(n(1.0), add(x(), y())), v("z")),
    ];
    for t in trees {
        let s = simplify(&t);
        let text = s.to_text();
        let parsed = Parser::new(tokenize(&text).unwrap()).parse().unwrap();
        assert_eq!(simplify(&parsed), s, "{}", text);
    }
}

#[test]
fn text_of_a_negative_exponent_does_not_parse_back() {
    let t = pow(x(), n(-1.0));
    assert_eq!(simplify(&t), pow(x(), n(-1.0)));
    assert_eq!(t.to_text(), "(x ^ -1)");
    let tokens = tokenize("(x ^ -1)").unwrap();
    assert_eq!(
        Parser::new(tokens).parse(),
        Err(symdiff::parser::ParseError::UnexpectedToken)
    );
}

#[test]
fn text_of_a_negative_argument_does_not_parse_back() {
    let t = call("sin", n(-1.0));
    assert_eq!(simplify(&t), call("sin", n(-1.0)));
    assert_eq!(t.to_text(), "sin -1");
    let tokens = tokenize("sin -1").unwrap();
    assert_eq!(
        Parser::new(tokens).parse(),
        Err(symdiff::parser::ParseError::MissingFunctionArgument)
    );
}

#[test]
fn text_of_an_unknown_function_parses_back_as_a_product() {
    let t = call("ln", x());
    assert_eq!(t.to_text(), "ln x");
    let parsed = Parser::new(tokenize("ln x").unwrap()).parse().unwrap();
    assert_eq!(parsed, mul(v("ln"), x()));
}

#[test]
fn builders_and_copies() {
    assert_eq!(Expr::binary(Op::Add, x(), y()), add(x(), y()));
    assert_eq!(Expr::call("sin", x()), call("sin", x()));
    assert_eq!(Expr::num(Number::from_bits(2.0f64.to_bits())), n(2.0));
    assert_eq!(Expr::var("x"), x());
    let t = add(call("sin", x()), mul(n(2.0), y()));
    assert_eq!(t.duplicate(), t);
}
