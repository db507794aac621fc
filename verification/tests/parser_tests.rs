use symdiff::ast::{Expr, Op};
use symdiff::number::Number;
use symdiff::parser::{ParseError, Parser};
use symdiff::tokenizer::{tokenize, Token};

fn n(v: f64) -> Expr {
    Expr::Num(Number::from_bits(v.to_bits()))
}

fn v(name: &str) -> Expr {
    Expr::Var(name.to_string())
}

fn bin(op: Op, l: Expr, r: Expr) -> Expr {
    Expr::BinaryOp { op, left: Box::new(l), right: Box::new(r) }
}

fn call(name: &str, arg: Expr) -> Expr {
    Expr::FuncCall { name: name.to_string(), arg: Box::new(arg) }
}

fn parse(text: &str) -> Result<Expr, ParseError> {
    Parser::new(tokenize(text).unwrap()).parse()
}

fn parse_tokens(tokens: Vec<Token>) -> Result<Expr, ParseError> {
    Parser::new(tokens).parse()
}

#[test]
fn sums_group_to_the_left() {
    assert_eq!(
        parse("a - b + c"),
        Ok(bin(Op::Add, bin(Op::Sub, v("a"), v("b")), v("c")))
    );
}

#[test]
fn products_bind_tighter_than_sums() {
    assert_eq!(
        parse("a + b * c / d"),
        Ok(bin(Op::Add, v("a"), bin(Op::Div, bin(Op::Mul, v("b"), v("c")), v("d"))))
    );
}

#[test]
fn powers_group_to_the_right() {
    assert_eq!(
        parse("2^3^4"),
        Ok(bin(Op::Pow, n(2.0), bin(Op::Pow, n(3.0), n(4.0))))
    );
}

#[test]
fn exponent_chain_takes_adjacent_operands() {
    assert_eq!(
        parse("2^2x"),
        Ok(bin(Op::Pow, n(2.0), bin(Op::Mul, n(2.0), v("x"))))
    );
    assert_eq!(
        parse_tokens(vec![
            Token::Number(Number::from_bits(2.0f64.to_bits())),
            Token::Pow,
            Token::Identifier("x".to_string()),
            Token::Identifier("y".to_string()),
        ]),
        Ok(bin(Op::Pow, n(2.0), bin(Op::Mul, v("x"), v("y"))))
    );
    assert_eq!(
        parse("2^(x+1)"),
        Ok(bin(Op::Pow, n(2.0), bin(Op::Add, v("x"), n(1.0))))
    );
    assert_eq!(
        parse("x^sin x"),
        Ok(bin(Op::Pow, v("x"), call("sin", v("x"))))
    );
}

#[test]
fn implicit_power_of_identifier() {
    assert_eq!(parse("x2"), Ok(bin(Op::Pow, v("x"), n(2.0))));
    assert_eq!(
        parse("3x2"),
        Ok(bin(Op::Mul, n(3.0), bin(Op::Pow, v("x"), n(2.0))))
    );
}

#[test]
fn juxtaposition_inside_a_factor() {
    assert_eq!(
        parse_tokens(vec![
            Token::Identifier("x".to_string()),
            Token::Function("sin".to_string()),
            Token::Identifier("y".to_string()),
        ]),
        Ok(bin(Op::Mul, v("x"), call("sin", v("y"))))
    );
    assert_eq!(parse("xsin y"), Ok(bin(Op::Mul, v("x"), call("sin", v("y")))));
}

#[test]
fn unary_minus_folds_into_a_literal() {
    assert_eq!(parse("-3"), Ok(n(-3.0)));
    assert_eq!(parse("--3"), Ok(n(3.0)));
    assert_eq!(parse("-0"), Ok(n(-0.0)));
    assert_eq!(parse("-x"), Ok(bin(Op::Mul, n(-1.0), v("x"))));
    assert_eq!(
        parse("--x"),
        Ok(bin(Op::Mul, n(-1.0), bin(Op::Mul, n(-1.0), v("x"))))
    );
    assert_eq!(
        parse("a - -b"),
        Ok(bin(Op::Sub, v("a"), bin(Op::Mul, n(-1.0), v("b"))))
    );
    assert_eq!(
        parse("-x^2"),
        Ok(bin(Op::Pow, bin(Op::Mul, n(-1.0), v("x")), n(2.0)))
    );
}

#[test]
fn function_application() {
    assert_eq!(parse("sin(x)"), Ok(call("sin", v("x"))));
    assert_eq!(parse("sin x"), Ok(call("sin", v("x"))));
    assert_eq!(parse("sin cos x"), Ok(call("sin", call("cos", v("x")))));
    assert_eq!(
        parse("sin 2x"),
        Ok(bin(Op::Mul, call("sin", n(2.0)), v("x")))
    );
    assert_eq!(
        parse("sin(x+1)"),
        Ok(call("sin", bin(Op::Add, v("x"), n(1.0))))
    );
    assert_eq!(
        parse("2sinx"),
        Ok(bin(Op::Mul, n(2.0), call("sin", v("x"))))
    );
}

#[test]
fn powered_function_notation() {
    assert_eq!(parse("sin^2 x"), Ok(bin(Op::Pow, call("sin", v("x")), n(2.0))));
    assert_eq!(
        parse("sin^2(x+1)"),
        Ok(bin(Op::Pow, call("sin", bin(Op::Add, v("x"), n(1.0))), n(2.0)))
    );
    assert_eq!(parse("cos^3 x"), Ok(bin(Op::Pow, call("cos", v("x")), n(3.0))));
    assert_eq!(
        parse_tokens(vec![
            Token::Function("sin".to_string()),
            Token::Pow,
            Token::Identifier("n".to_string()),
            Token::Mul,
            Token::Identifier("x".to_string()),
        ]),
        Err(ParseError::MissingFunctionArgument)
    );
    assert_eq!(
        parse_tokens(vec![
            Token::Function("sin".to_string()),
            Token::Pow,
            Token::LParen,
            Token::Identifier("n".to_string()),
            Token::RParen,
            Token::Identifier("x".to_string()),
        ]),
        Err(ParseError::MissingFunctionArgument)
    );
    assert_eq!(parse("sin^(2)(x)"), Err(ParseError::MissingFunctionArgument));
    assert_eq!(parse("sin^x y"), Err(ParseError::MissingFunctionArgument));
}

#[test]
fn power_one_of_a_function_is_elided() {
    assert_eq!(parse("sin^1 x"), Ok(call("sin", v("x"))));
    assert_eq!(parse("sin^1.0000000000000000001 x"), Ok(call("sin", v("x"))));
    assert_eq!(parse("sin^0.99999999999999989 x"), Ok(call("sin", v("x"))));
    assert_eq!(
        parse("sin^0.9999999999999998 x"),
        Ok(bin(Op::Pow, call("sin", v("x")), n(0.9999999999999998)))
    );
    assert_eq!(
        parse("sin^1.0000000000000002 x"),
        Ok(bin(Op::Pow, call("sin", v("x")), n(1.0000000000000002)))
    );
}

#[test]
fn near_one_is_distance_below_epsilon() {
    let candidates = [
        1.0,
        1.0 - f64::EPSILON / 2.0,
        1.0 - f64::EPSILON,
        1.0 + f64::EPSILON,
        1.0 + 2.0 * f64::EPSILON,
        0.5,
        2.0,
        0.0,
        -1.0,
        f64::NAN,
        f64::INFINITY,
        1e300,
        -1e300,
        0.9999999999999999,
        0.9999999999999998,
    ];
    for c in candidates {
        let expected = (c - 1.0).abs() < f64::EPSILON;
        assert_eq!(Number::from_bits(c.to_bits()).check_near_one(), expected, "{}", c);
    }
}

#[test]
fn unmatched_parenthesis() {
    assert_eq!(parse("(x"), Err(ParseError::UnmatchedParen));
    assert_eq!(parse("(x + 1"), Err(ParseError::UnmatchedParen));
    assert_eq!(parse("sin(x"), Err(ParseError::UnmatchedParen));
    assert_eq!(parse("((x)"), Err(ParseError::UnmatchedParen));
}

#[test]
fn unexpected_token() {
    assert_eq!(parse(""), Err(ParseError::UnexpectedToken));
    assert_eq!(parse("x +"), Err(ParseError::UnexpectedToken));
    assert_eq!(parse("* x"), Err(ParseError::UnexpectedToken));
    assert_eq!(parse("x ^ - 2"), Err(ParseError::UnexpectedToken));
    assert_eq!(parse("x ^"), Err(ParseError::UnexpectedToken));
    assert_eq!(parse("()"), Err(ParseError::UnexpectedToken));
    assert_eq!(parse("sin ^"), Err(ParseError::UnexpectedToken));
}

#[test]
fn missing_function_argument() {
    assert_eq!(parse("sin"), Err(ParseError::MissingFunctionArgument));
    assert_eq!(parse("sin +"), Err(ParseError::MissingFunctionArgument));
    assert_eq!(parse("sin^2"), Err(ParseError::MissingFunctionArgument));
    assert_eq!(parse("sin -x"), Err(ParseError::MissingFunctionArgument));
}

#[test]
fn trailing_tokens() {
    assert_eq!(parse("x)"), Err(ParseError::TrailingTokens));
    assert_eq!(parse("(x))"), Err(ParseError::TrailingTokens));
}

#[test]
fn parse_moves_the_position_to_the_end() {
    let mut parser = Parser::new(tokenize("x").unwrap());
    assert_eq!(parser.parse(), Ok(v("x")));
    assert_eq!(parser.parse(), Err(ParseError::UnexpectedToken));
}

#[test]
fn parse_error_messages() {
    assert_eq!(
        ParseError::UnexpectedToken.to_text(),
        "Expected a number, variable, or '('"
    );
    assert_eq!(ParseError::UnmatchedParen.to_text(), "Expected ')'");
    assert_eq!(
        ParseError::MissingFunctionArgument.to_text(),
        "Expected function argument after function name"
    );
    assert_eq!(
        ParseError::TrailingTokens.to_text(),
        "Unexpected token at end of expression"
    );
}
