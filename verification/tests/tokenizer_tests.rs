use symdiff::number::Number;
use symdiff::tokenizer::{tokenize, Token, TokenizeError};

fn num(v: f64) -> Token {
    Token::Number(Number::from_bits(v.to_bits()))
}

fn id(name: &str) -> Token {
    Token::Identifier(name.to_string())
}

fn func(name: &str) -> Token {
    Token::Function(name.to_string())
}

#[test]
fn number_then_identifier_gets_product() {
    assert_eq!(tokenize("2x"), Ok(vec![num(2.0), Token::Mul, id("x")]));
}

#[test]
fn identifier_then_number_gets_power() {
    assert_eq!(tokenize("x2"), Ok(vec![id("x"), Token::Pow, num(2.0)]));
}

#[test]
fn function_call_with_parentheses() {
    assert_eq!(
        tokenize("sin(x)"),
        Ok(vec![func("sin"), Token::LParen, id("x"), Token::RParen])
    );
}

#[test]
fn explicit_power_is_left_alone() {
    assert_eq!(tokenize("x^2"), Ok(vec![id("x"), Token::Pow, num(2.0)]));
    assert_eq!(
        tokenize("x2^3"),
        Ok(vec![id("x"), num(2.0), Token::Pow, num(3.0)])
    );
}

#[test]
fn run_of_letters_is_segmented() {
    assert_eq!(tokenize("sinx"), Ok(vec![func("sin"), id("x")]));
    assert_eq!(tokenize("xsin"), Ok(vec![id("x"), func("sin")]));
    assert_eq!(tokenize("xysin"), Ok(vec![id("xy"), func("sin")]));
    assert_eq!(tokenize("abc"), Ok(vec![id("abc")]));
    assert_eq!(tokenize("sincosx"), Ok(vec![func("sin"), func("cos"), id("x")]));
}

#[test]
fn longest_function_name_wins() {
    assert_eq!(tokenize("cosecx"), Ok(vec![func("cosec"), id("x")]));
    assert_eq!(tokenize("cosx"), Ok(vec![func("cos"), id("x")]));
    assert_eq!(tokenize("arcsinx"), Ok(vec![func("arcsin"), id("x")]));
    assert_eq!(tokenize("arccscx"), Ok(vec![func("arccsc"), id("x")]));
    assert_eq!(tokenize("sqrtabs"), Ok(vec![func("sqrt"), func("abs")]));
}

#[test]
fn every_function_name_is_recognized() {
    for name in [
        "sin", "cos", "tan", "cot", "sec", "cosec", "log", "exp", "sqrt", "abs", "arcsin",
        "arccos", "arctan", "arccot", "arcsec", "arccsc",
    ] {
        assert_eq!(tokenize(name), Ok(vec![func(name)]));
    }
}

#[test]
fn signs_and_blanks() {
    assert_eq!(
        tokenize(" 1 + 2\t-3*4 / 5 ^ 6\n"),
        Ok(vec![
            num(1.0),
            Token::Plus,
            num(2.0),
            Token::Minus,
            num(3.0),
            Token::Mul,
            num(4.0),
            Token::Div,
            num(5.0),
            Token::Pow,
            num(6.0),
        ])
    );
    assert_eq!(tokenize(""), Ok(vec![]));
    assert_eq!(tokenize("  \r\n"), Ok(vec![]));
}

#[test]
fn implicit_products() {
    assert_eq!(
        tokenize("2(x)"),
        Ok(vec![num(2.0), Token::Mul, Token::LParen, id("x"), Token::RParen])
    );
    assert_eq!(
        tokenize("(x)(y)"),
        Ok(vec![
            Token::LParen,
            id("x"),
            Token::RParen,
            Token::Mul,
            Token::LParen,
            id("y"),
            Token::RParen,
        ])
    );
    assert_eq!(tokenize("x y"), Ok(vec![id("x"), Token::Mul, id("y")]));
    assert_eq!(tokenize("2 3"), Ok(vec![num(2.0), Token::Mul, num(3.0)]));
    assert_eq!(
        tokenize("(x)2"),
        Ok(vec![Token::LParen, id("x"), Token::RParen, Token::Mul, num(2.0)])
    );
    assert_eq!(
        tokenize("2sinx"),
        Ok(vec![num(2.0), Token::Mul, func("sin"), id("x")])
    );
    assert_eq!(tokenize("x(y)"), Ok(vec![
        id("x"),
        Token::Mul,
        Token::LParen,
        id("y"),
        Token::RParen,
    ]));
}

#[test]
fn no_product_after_a_function() {
    assert_eq!(tokenize("sin 2"), Ok(vec![func("sin"), num(2.0)]));
    assert_eq!(tokenize("sin cos x"), Ok(vec![func("sin"), func("cos"), id("x")]));
    assert_eq!(
        tokenize("sin2x"),
        Ok(vec![func("sin"), num(2.0), Token::Mul, id("x")])
    );
}

#[test]
fn no_product_after_a_number_that_starts_an_exponent() {
    assert_eq!(
        tokenize("2^2x"),
        Ok(vec![num(2.0), Token::Pow, num(2.0), id("x")])
    );
    assert_eq!(
        tokenize("x^2 3"),
        Ok(vec![id("x"), Token::Pow, num(2.0), num(3.0)])
    );
    assert_eq!(
        tokenize("x^(2)y"),
        Ok(vec![
            id("x"),
            Token::Pow,
            Token::LParen,
            num(2.0),
            Token::RParen,
            Token::Mul,
            id("y"),
        ])
    );

    assert_eq!(
        tokenize("sin^2(x)"),
        Ok(vec![
            func("sin"),
            Token::Pow,
            num(2.0),
            Token::LParen,
            id("x"),
            Token::RParen,
        ])
    );
    assert_eq!(
        tokenize("sin^2 x"),
        Ok(vec![func("sin"), Token::Pow, num(2.0), id("x")])
    );
    assert_eq!(
        tokenize("x^2(y)"),
        Ok(vec![
            id("x"),
            Token::Pow,
            num(2.0),
            Token::LParen,
            id("y"),
            Token::RParen,
        ])
    );
}

#[test]
fn decimal_literals() {
    assert_eq!(tokenize("4.56"), Ok(vec![num(4.56)]));
    assert_eq!(tokenize(".5"), Ok(vec![num(0.5)]));
    assert_eq!(tokenize("5."), Ok(vec![num(5.0)]));
    assert_eq!(tokenize("0.1"), Ok(vec![num(0.1)]));
    assert_eq!(tokenize("123456789012345678901234567890"), Ok(vec![num(123456789012345678901234567890.0)]));
}

#[test]
fn invalid_number_is_rejected() {
    assert_eq!(tokenize("1.2.3"), Err(TokenizeError::InvalidNumber));
    assert_eq!(tokenize("."), Err(TokenizeError::InvalidNumber));
    assert_eq!(tokenize("x + .."), Err(TokenizeError::InvalidNumber));
}

#[test]
fn unknown_character_is_rejected() {
    assert_eq!(tokenize("@"), Err(TokenizeError::UnknownCharacter('@')));
    assert_eq!(tokenize("x + #"), Err(TokenizeError::UnknownCharacter('#')));
    assert_eq!(tokenize("xé"), Err(TokenizeError::UnknownCharacter('é')));
}

#[test]
fn tokenize_error_messages() {
    assert_eq!(
        TokenizeError::UnknownCharacter('@').to_text(),
        "Unknown character: @"
    );
    assert_eq!(
        TokenizeError::InvalidNumber.to_text(),
        "Invalid number: invalid float literal"
    );
}

#[test]
fn names_are_ascii_letters() {
    assert_eq!(tokenize("é"), Err(TokenizeError::UnknownCharacter('é')));
    assert_eq!(tokenize("xé + 1"), Err(TokenizeError::UnknownCharacter('é')));
    assert_eq!(tokenize("λ"), Err(TokenizeError::UnknownCharacter('λ')));
    assert_eq!(tokenize("xYz"), Ok(vec![id("xYz")]));
}
