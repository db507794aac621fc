use symdiff::engine::{check_variable, differentiate_expression, trim};

fn ok(text: &str) -> Result<String, String> {
    Ok(text.to_string())
}

fn err(text: &str) -> Result<String, String> {
    Err(text.to_string())
}

#[test]
fn derivative_of_cube() {
    assert_eq!(differentiate_expression("x^3", "x"), ok("(3 * (x ^ 2))"));
}

#[test]
fn derivative_of_sine() {
    assert_eq!(differentiate_expression("sin(x)", "x"), ok("cos x"));
}

#[test]
fn derivative_of_product_with_sine() {
    assert_eq!(
        differentiate_expression("x*sin(x)", "x"),
        ok("(sin x + (x * cos x))")
    );
}

#[test]
fn derivative_of_polynomial() {
    assert_eq!(
        differentiate_expression("x^3 + 2x + 1", "x"),
        ok("(((3 * (x ^ 2)) + 2) + 0)")
    );
}

#[test]
fn derivative_with_respect_to_another_variable() {
    assert_eq!(differentiate_expression("x^3", "y"), ok("0"));
    assert_eq!(differentiate_expression("y", "y"), ok("1"));
    assert_eq!(differentiate_expression("abc", "a"), ok("0"));
}

#[test]
fn empty_input_is_rejected_first() {
    assert_eq!(differentiate_expression("", "x"), err("Input expression is empty"));
    assert_eq!(differentiate_expression("  \t\n ", "x"), err("Input expression is empty"));
    assert_eq!(differentiate_expression("\u{a0}\u{2003}", "x"), err("Input expression is empty"));
    assert_eq!(differentiate_expression("   ", "xy"), err("Input expression is empty"));
}

#[test]
fn bad_variable_is_rejected_before_tokenizing() {
    let message = "Variable must be a single alphabetic character";
    assert_eq!(differentiate_expression("@", "xy"), err(message));
    assert_eq!(differentiate_expression("x", ""), err(message));
    assert_eq!(differentiate_expression("x", "1"), err(message));
    assert_eq!(differentiate_expression("x", "é"), err(message));
    assert_eq!(differentiate_expression("x", " x"), err(message));
}

#[test]
fn tokenizer_error_is_prefixed() {
    assert_eq!(
        differentiate_expression("@", "x"),
        err("Tokenizer error: Unknown character: @")
    );
    assert_eq!(
        differentiate_expression("1.2.3", "x"),
        err("Tokenizer error: Invalid number: invalid float literal")
    );
}

#[test]
fn parser_error_is_prefixed() {
    assert_eq!(
        differentiate_expression("(x", "x"),
        err("Parser error: Expected ')'")
    );
    assert_eq!(
        differentiate_expression("x +", "x"),
        err("Parser error: Expected a number, variable, or '('")
    );
    assert_eq!(
        differentiate_expression("sin", "x"),
        err("Parser error: Expected function argument after function name")
    );
    assert_eq!(
        differentiate_expression("x)", "x"),
        err("Parser error: Unexpected token at end of expression")
    );
}

#[test]
fn surrounding_white_space_is_dropped() {
    assert_eq!(differentiate_expression("\u{a0} x^3 \u{3000}", "x"), ok("(3 * (x ^ 2))"));
    assert_eq!(trim("  a b  "), "a b");
    assert_eq!(trim("\u{b}\u{c}x\u{85}"), "x");
    assert_eq!(trim("x"), "x");
    assert_eq!(trim(""), "");
    assert_eq!(trim(" \u{2028} "), "");
    assert_eq!(trim("\u{200b}"), "\u{200b}");
}

#[test]
fn variable_is_one_letter() {
    assert!(check_variable("x"));
    assert!(check_variable("Z"));
    assert!(!check_variable("xy"));
    assert!(!check_variable(""));
    assert!(!check_variable("7"));
    assert!(!check_variable("λ"));
}

#[test]
fn general_power_uses_logarithm() {
    assert_eq!(
        differentiate_expression("2^x", "x"),
        ok("((2 ^ x) * (ln 2 + 0))")
    );
}

#[test]
fn decimal_results_are_printed_in_shortest_form() {
    assert_eq!(differentiate_expression("0.1x", "x"), ok("0.1"));
    assert_eq!(differentiate_expression("x^2.5", "x"), ok("(2.5 * (x ^ 1.5))"));
    assert_eq!(differentiate_expression("x^0.3", "x"), ok("(0.3 * (x ^ -0.7))"));
}

#[test]
fn every_function_can_be_differentiated_from_text() {
    for name in [
        "sin", "cos", "tan", "cot", "sec", "cosec", "log", "exp", "sqrt", "abs", "arcsin",
        "arccos", "arctan", "arccot", "arcsec", "arccsc",
    ] {
        let source = format!("{}(2x)", name);
        let result = differentiate_expression(&source, "x");
        assert!(result.is_ok(), "{}: {:?}", name, result);
    }
    assert_eq!(differentiate_expression("cos(x)", "x"), ok("(-1 * sin x)"));
    assert_eq!(differentiate_expression("tan x", "x"), ok("(sec x ^ 2)"));
    assert_eq!(differentiate_expression("log(x)", "x"), ok("(1 / x)"));
    assert_eq!(differentiate_expression("exp(2x)", "x"), ok("(exp (2 * x) * 2)"));
    assert_eq!(differentiate_expression("ln(x)", "x"), ok("(0 + ln)"));
}

#[test]
fn powers_with_chains() {
    assert_eq!(
        differentiate_expression("2^2x", "x"),
        ok("((2 ^ (2 * x)) * ((2 * ln 2) + 0))")
    );
    assert_eq!(differentiate_expression("sin^2 x", "x"), ok("(2 * (sin x * cos x))"));
    assert_eq!(differentiate_expression("x2", "x"), ok("(2 * x)"));
}

#[test]
fn quotient_rule_from_text() {
    assert_eq!(
        differentiate_expression("x/y", "x"),
        ok("(y / (y ^ 2))")
    );
    assert_eq!(
        differentiate_expression("1/x", "x"),
        ok("(-1 / (x ^ 2))")
    );
}

#[test]
fn examples_of_the_manual() {
    assert_eq!(differentiate_expression("sin(x)", "x"), ok("cos x"));
    assert_eq!(differentiate_expression("exp(x)", "x"), ok("exp x"));
    assert_eq!(differentiate_expression("sin^2(x)", "x"), ok("(2 * (sin x * cos x))"));
    assert_eq!(
        differentiate_expression("cos^3 x", "x"),
        ok("(3 * ((cos x ^ 2) * (-1 * sin x)))")
    );
    assert_eq!(differentiate_expression("2sinx", "x"), ok("(2 * cos x)"));
    assert_eq!(
        differentiate_expression("(x+1)*(x-1)", "x"),
        ok("(((1 + 0) * (x - 1)) + (x + 1))")
    );
    assert_eq!(
        differentiate_expression("sin^2(x+1)", "x"),
        ok("(2 * (sin (x + 1) * (cos (x + 1) * (1 + 0))))")
    );
}

#[test]
fn a_long_sum() {
    let mut source = String::from("x");
    for i in 0..300 {
        source.push_str(&format!(" + {}x^{}", i + 2, i + 2));
    }
    let mut expected = String::from("1");
    for i in 2..302 {
        let term = if i == 2 {
            String::from("(4 * x)")
        } else {
            format!("({} * (x ^ {}))", i * i, i - 1)
        };
        expected = format!("({} + {})", expected, term);
    }
    assert_eq!(differentiate_expression(&source, "x"), Ok(expected));
}

#[test]
fn white_space_is_what_std_trims() {
    for code in 0..0x11_0000u32 {
        if let Some(c) = char::from_u32(code) {
            let text = format!("{}a{}", c, c);
            assert_eq!(trim(&text), text.trim(), "{:x}", code);
        }
    }
}

#[test]
fn a_variable_is_one_byte_that_is_alphabetic() {
    for code in 0..0x11_0000u32 {
        if let Some(c) = char::from_u32(code) {
            let text = c.to_string();
            let expected = text.len() == 1 && text.chars().all(|c| c.is_alphabetic());
            assert_eq!(check_variable(&text), expected, "{:x}", code);
        }
    }
}
