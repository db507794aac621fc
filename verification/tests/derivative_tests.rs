use symdiff::ast::{Expr, Op};
use symdiff::derivative::derivative;
use symdiff::function_table::{conversion, DifferentiationError, FunctionKind};
use symdiff::number::Number;
use symdiff::simplifier::simplify;

fn n(v: f64) -> Expr {
    Expr::Num(Number::from_bits(v.to_bits()))
}

fn v(name: &str) -> Expr {
    Expr::Var(name.to_string())
}

fn bin(op: Op, l: Expr, r: Expr) -> Expr {
    Expr::BinaryOp { op, left: Box::new(l), right: Box::new(r) }
}

fn add(l: Expr, r: Expr) -> Expr {
    bin(Op::Add, l, r)
}

fn sub(l: Expr, r: Expr) -> Expr {
    bin(Op::Sub, l, r)
}

fn mul(l: Expr, r: Expr) -> Expr {
    bin(Op::Mul, l, r)
}

fn div(l: Expr, r: Expr) -> Expr {
    bin(Op::Div, l, r)
}

fn pow(l: Expr, r: Expr) -> Expr {
    bin(Op::Pow, l, r)
}

fn call(name: &str, arg: Expr) -> Expr {
    Expr::FuncCall { name: name.to_string(), arg: Box::new(arg) }
}

fn x() -> Expr {
    v("x")
}

fn d(e: &Expr) -> Expr {
    derivative(e, "x").unwrap()
}

#[test]
fn literal_and_variables() {
    assert_eq!(d(&n(5.0)), n(0.0));
    assert_eq!(d(&x()), n(1.0));
    assert_eq!(d(&v("y")), n(0.0));
    assert_eq!(d(&v("xy")), n(0.0));
    assert_eq!(derivative(&v("xy"), "xy"), Ok(n(1.0)));
}

#[test]
fn sum_and_difference() {
    assert_eq!(d(&add(x(), n(2.0))), add(n(1.0), n(0.0)));
    assert_eq!(d(&sub(x(), v("y"))), sub(n(1.0), n(0.0)));
}

#[test]
fn product() {
    assert_eq!(d(&mul(n(3.0), x())), mul(n(3.0), n(1.0)));
    assert_eq!(d(&mul(x(), n(3.0))), mul(n(3.0), n(1.0)));
    assert_eq!(d(&mul(n(3.0), n(4.0))), mul(n(3.0), n(0.0)));
    assert_eq!(
        d(&mul(x(), v("y"))),
        add(mul(n(1.0), v("y")), mul(x(), n(0.0)))
    );
}

#[test]
fn quotient() {
    assert_eq!(
        d(&div(x(), v("y"))),
        div(
            sub(mul(n(1.0), v("y")), mul(x(), n(0.0))),
            pow(v("y"), n(2.0))
        )
    );
}

#[test]
fn power_with_literal_exponent() {
    assert_eq!(d(&pow(x(), n(3.0))), mul(n(3.0), pow(x(), n(2.0))));
    assert_eq!(d(&pow(x(), n(0.5))), mul(n(0.5), pow(x(), n(-0.5))));
    assert_eq!(
        d(&pow(v("y"), n(3.0))),
        mul(n(3.0), mul(pow(v("y"), n(2.0)), n(0.0)))
    );
    assert_eq!(
        d(&pow(call("sin", x()), n(2.0))),
        mul(
            n(2.0),
            mul(
                pow(call("sin", x()), n(1.0)),
                mul(call("cos", x()), n(1.0))
            )
        )
    );
}

#[test]
fn power_with_general_exponent() {
    assert_eq!(
        d(&pow(x(), x())),
        mul(
            pow(x(), x()),
            add(mul(n(1.0), call("ln", x())), mul(x(), div(n(1.0), x())))
        )
    );
}

#[test]
fn chain_rule() {
    assert_eq!(
        d(&call("sin", mul(n(2.0), x()))),
        mul(call("cos", mul(n(2.0), x())), mul(n(2.0), n(1.0)))
    );
}

#[test]
fn unknown_function_is_an_error() {
    assert_eq!(
        derivative(&call("ln", x()), "x"),
        Err(DifferentiationError::UnknownFunction("ln".to_string()))
    );
    assert_eq!(
        derivative(&add(call("foo", x()), call("bar", x())), "x"),
        Err(DifferentiationError::UnknownFunction("foo".to_string()))
    );
    assert_eq!(
        derivative(&mul(x(), call("sin", call("bar", x()))), "x"),
        Err(DifferentiationError::UnknownFunction("bar".to_string()))
    );
    assert_eq!(
        derivative(&call("foo", call("bar", x())), "x"),
        Err(DifferentiationError::UnknownFunction("foo".to_string()))
    );
    assert_eq!(
        DifferentiationError::UnknownFunction("ln".to_string()).to_text(),
        "Unknown function: ln"
    );
    let twice = derivative(&d(&pow(x(), x())), "x");
    assert_eq!(
        twice,
        Err(DifferentiationError::UnknownFunction("ln".to_string()))
    );
}

#[test]
fn derivative_table() {
    let a = || add(x(), n(1.0));
    let sq = || pow(a(), n(2.0));
    let table: Vec<(&str, Expr)> = vec![
        ("sin", call("cos", a())),
        ("cos", mul(n(-1.0), call("sin", a()))),
        ("tan", pow(call("sec", a()), n(2.0))),
        ("cot", mul(n(-1.0), pow(call("cosec", a()), n(2.0)))),
        ("sec", mul(call("sec", a()), call("tan", a()))),
        ("cosec", mul(n(-1.0), mul(call("cosec", a()), call("cot", a())))),
        ("log", div(n(1.0), a())),
        ("exp", call("exp", a())),
        ("sqrt", div(n(1.0), mul(n(2.0), call("sqrt", a())))),
        ("abs", div(a(), call("abs", a()))),
        ("arcsin", div(n(1.0), call("sqrt", sub(n(1.0), sq())))),
        ("arccos", mul(n(-1.0), div(n(1.0), call("sqrt", sub(n(1.0), sq()))))),
        ("arctan", div(n(1.0), add(n(1.0), sq()))),
        ("arccot", mul(n(-1.0), div(n(1.0), add(n(1.0), sq())))),
        (
            "arcsec",
            div(n(1.0), mul(call("abs", a()), call("sqrt", sub(sq(), n(1.0))))),
        ),
        (
            "arccsc",
            mul(
                n(-1.0),
                div(n(1.0), mul(call("abs", a()), call("sqrt", sub(sq(), n(1.0))))),
            ),
        ),
    ];
    assert_eq!(table.len(), 16);
    for (name, expected) in table {
        assert_eq!(conversion(name, a()), Ok(expected), "{}", name);
    }
}

#[test]
fn conversion_of_unknown_name() {
    for name in ["ln", "", "Sin", "sinh", "csc", "si", "sin "] {
        assert_eq!(
            conversion(name, x()),
            Err(DifferentiationError::UnknownFunction(name.to_string()))
        );
    }
}

#[test]
fn names_and_kinds_correspond() {
    let all = FunctionKind::all();
    assert_eq!(all.len(), 16);
    for (i, kind) in all.iter().enumerate() {
        assert_eq!(FunctionKind::lookup(kind.name_text()), Some(*kind));
        for (j, other) in all.iter().enumerate() {
            if i != j {
                assert_ne!(kind.name_text(), other.name_text());
            }
            if i < j {
                assert!(kind.name_text().len() >= other.name_text().len());
            }
        }
        assert_eq!(
            kind.apply(x()),
            call(kind.name_text(), x())
        );
        assert_eq!(Ok(kind.derivative_at(x())), conversion(kind.name_text(), x()));
    }
    assert_eq!(FunctionKind::lookup("ln"), None);
}

#[test]
fn derivatives_simplify() {
    assert_eq!(simplify(&d(&pow(x(), n(3.0)))), mul(n(3.0), pow(x(), n(2.0))));
    assert_eq!(simplify(&d(&call("sin", x()))), call("cos", x()));
    assert_eq!(
        simplify(&d(&mul(x(), call("sin", x())))),
        add(call("sin", x()), mul(x(), call("cos", x())))
    );
    assert_eq!(
        simplify(&d(&call("cos", x()))),
        mul(n(-1.0), call("sin", x()))
    );
    assert_eq!(
        simplify(&d(&call("tan", x()))),
        pow(call("sec", x()), n(2.0))
    );
}
