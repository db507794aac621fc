//! What is read from a text applies built-in functions only, so that its
//! derivative exists.
use crate::ast::Op;
use crate::ast::Term;
use crate::derivative::derivative_of;
use crate::function_table::FunctionKind;
use crate::function_table::lemma_from_name_of_name;
use crate::number::decimal_value;
use crate::number::is_decimal_literal;
use crate::number::Number;
use crate::parser::negation;
use crate::parser::parse_argument;
use crate::parser::parse_chain;
use crate::parser::parse_chain_rest;
use crate::parser::parse_exponent;
use crate::parser::parse_expr;
use crate::parser::parse_expr_rest;
use crate::parser::parse_factor;
use crate::parser::parse_factor_rest;
use crate::parser::parse_function_power;
use crate::parser::parse_group;
use crate::parser::parse_primary;
use crate::parser::parse_term;
use crate::parser::parse_term_rest;
use crate::parser::parse_unary;
use crate::parser::Parsed;
use crate::parser::powered;
use crate::parser::starts_bare_argument;
use crate::parser::starts_operand;
use crate::parser::tree_of;
use crate::tokenizer::function_at;
use crate::tokenizer::gathered;
use crate::tokenizer::is_blank;
use crate::tokenizer::is_letter;
use crate::tokenizer::is_number_char;
use crate::tokenizer::letters_end;
use crate::tokenizer::Lexeme;
use crate::tokenizer::number_end;
use crate::tokenizer::product_before_name;
use crate::tokenizer::product_before_number;
use crate::tokenizer::scan;
use crate::tokenizer::segments;
use crate::tokenizer::sign;
use crate::tokenizer::tokens_of;
use crate::tokenizer::with_powers;
use crate::tokenizer::with_product;
use vstd::prelude::*;

verus! {

/// Whether each function token names a built-in function.
pub open spec fn has_known_functions(tokens: Seq<Lexeme>) -> bool {
    forall|i: int|
        0 <= i < tokens.len() ==> ((#[trigger] tokens[i]) matches Lexeme::Function(name)
            ==> FunctionKind::from_name(name) is Some)
}

/// Whether each application in the tree applies a built-in function.
pub open spec fn has_known_calls(t: Term) -> bool
    decreases t,
{
    match t {
        Term::Num(_) => true,
        Term::Var(_) => true,
        Term::BinaryOp { op, left, right } => has_known_calls(*left) && has_known_calls(*right),
        Term::FuncCall { name, arg } => FunctionKind::from_name(name) is Some && has_known_calls(
            *arg,
        ),
    }
}

/// Whether the tree that was parsed, if one was, applies built-in functions
/// only.
pub open spec fn is_known(r: Parsed) -> bool {
    r matches Ok(found) ==> has_known_calls(found.0)
}

/// A tree that applies built-in functions only has a derivative.
pub proof fn lemma_known_calls_differentiate(t: Term, var: Seq<char>)
    requires
        has_known_calls(t),
    ensures
        derivative_of(t, var) is Ok,
    decreases t,
{
    match t {
        Term::Num(_) => {},
        Term::Var(_) => {},
        Term::FuncCall { name, arg } => {
            lemma_known_calls_differentiate(*arg, var);
        },
        Term::BinaryOp { op, left, right } => {
            lemma_known_calls_differentiate(*left, var);
            lemma_known_calls_differentiate(*right, var);
        },
    }
}

/// The negation of such a tree is such a tree.
pub proof fn lemma_negation_known(e: Term)
    requires
        has_known_calls(e),
    ensures
        has_known_calls(negation(e)),
{
    let minus_one = Term::Num(Number::minus_one());
    assert(has_known_calls(minus_one));
    assert(has_known_calls(Term::binary(Op::Mul, minus_one, e)));
}

/// A parenthesized expression that is parsed applies built-in functions only.
proof fn lemma_group_known(t: Seq<Lexeme>, p: int)
    requires
        has_known_functions(t),
    ensures
        is_known(parse_group(t, p)),
    decreases t.len() - p, 0int,
{
    if 0 <= p < t.len() {
        lemma_expr_known(t, p + 1);
    }
}

/// The power of a function that is parsed applies built-in functions only.
proof fn lemma_function_power_known(t: Seq<Lexeme>, p: int)
    requires
        has_known_functions(t),
    ensures
        is_known(parse_function_power(t, p)),
    decreases t.len() - p, 0int,
{
    if 0 <= p < t.len() && t[p] is Pow && p + 1 < t.len() {
        match t[p + 1] {
            Lexeme::Number(n) => {},
            _ => {
                lemma_chain_known(t, p + 1);
            },
        }
    }
}

/// The argument of a function that is parsed applies built-in functions only.
proof fn lemma_argument_known(t: Seq<Lexeme>, p: int)
    requires
        has_known_functions(t),
    ensures
        is_known(parse_argument(t, p)),
    decreases t.len() - p, 2int,
{
    if 0 <= p < t.len() && t[p] is LParen {
        lemma_group_known(t, p);
    } else if starts_bare_argument(t, p) {
        lemma_primary_known(t, p);
    }
}

/// A primary that is parsed applies built-in functions only.
proof fn lemma_primary_known(t: Seq<Lexeme>, p: int)
    requires
        has_known_functions(t),
    ensures
        is_known(parse_primary(t, p)),
    decreases t.len() - p, 1int,
{
    if 0 <= p < t.len() {
        match t[p] {
            Lexeme::LParen => {
                lemma_group_known(t, p);
            },
            Lexeme::Function(name) => {
                lemma_function_power_known(t, p + 1);
                match parse_function_power(t, p + 1) {
                    Ok((power, q)) => {
                        if p < q <= t.len() {
                            lemma_argument_known(t, q);
                            match parse_argument(t, q) {
                                Ok((arg, r)) => {
                                    assert(has_known_calls(Term::call(name, arg)));
                                    assert(has_known_calls(powered(Term::call(name, arg), power)));
                                },
                                Err(_) => {},
                            }
                        }
                    },
                    Err(_) => {},
                }
            },
            _ => {},
        }
    }
}

/// The rest of a chain that is parsed applies built-in functions only.
proof fn lemma_chain_rest_known(t: Seq<Lexeme>, left: Term, p: int)
    requires
        has_known_functions(t),
        has_known_calls(left),
    ensures
        is_known(parse_chain_rest(t, left, p)),
    decreases t.len() - p, 2int,
{
    if starts_operand(t, p) {
        lemma_primary_known(t, p);
        match parse_primary(t, p) {
            Ok((right, q)) => {
                if p < q <= t.len() {
                    lemma_chain_rest_known(t, Term::binary(Op::Mul, left, right), q);
                }
            },
            Err(_) => {},
        }
    }
}

/// A chain that is parsed applies built-in functions only.
proof fn lemma_chain_known(t: Seq<Lexeme>, p: int)
    requires
        has_known_functions(t),
    ensures
        is_known(parse_chain(t, p)),
    decreases t.len() - p, 2int,
{
    if p < t.len() {
        lemma_primary_known(t, p);
        match parse_primary(t, p) {
            Ok((first, q)) => {
                if p < q <= t.len() {
                    lemma_chain_rest_known(t, first, q);
                }
            },
            Err(_) => {},
        }
    }
}

/// A primary behind minus signs that is parsed applies built-in functions only.
proof fn lemma_unary_known(t: Seq<Lexeme>, p: int)
    requires
        has_known_functions(t),
    ensures
        is_known(parse_unary(t, p)),
    decreases t.len() - p, 2int,
{
    if 0 <= p < t.len() && t[p] is Minus {
        lemma_unary_known(t, p + 1);
        match parse_unary(t, p + 1) {
            Ok((e, q)) => {
                lemma_negation_known(e);
            },
            Err(_) => {},
        }
    } else {
        lemma_primary_known(t, p);
    }
}

/// An exponent that is parsed applies built-in functions only.
proof fn lemma_exponent_known(t: Seq<Lexeme>, p: int)
    requires
        has_known_functions(t),
    ensures
        is_known(parse_exponent(t, p)),
    decreases t.len() - p, 5int,
{
    if 0 <= p < t.len() {
        match t[p] {
            Lexeme::Number(_) => {
                if starts_operand(t, p + 1) {
                    lemma_chain_known(t, p);
                } else {
                    lemma_factor_known(t, p);
                }
            },
            Lexeme::Identifier(_) => {
                lemma_chain_known(t, p);
            },
            Lexeme::Function(_) => {
                lemma_chain_known(t, p);
            },
            Lexeme::LParen => {
                lemma_chain_known(t, p);
            },
            _ => {},
        }
    }
}

/// The rest of a factor that is parsed applies built-in functions only.
proof fn lemma_factor_rest_known(t: Seq<Lexeme>, left: Term, p: int)
    requires
        has_known_functions(t),
        has_known_calls(left),
    ensures
        is_known(parse_factor_rest(t, left, p)),
    decreases t.len() - p, 3int,
{
    if starts_operand(t, p) {
        lemma_unary_known(t, p);
        match parse_unary(t, p) {
            Ok((right, q)) => {
                if p < q <= t.len() {
                    lemma_factor_rest_known(t, Term::binary(Op::Mul, left, right), q);
                }
            },
            Err(_) => {},
        }
    } else if 0 <= p < t.len() && t[p] is Pow {
        lemma_exponent_known(t, p + 1);
        match parse_exponent(t, p + 1) {
            Ok((right, q)) => {
                if p < q <= t.len() {
                    lemma_factor_rest_known(t, Term::binary(Op::Pow, left, right), q);
                }
            },
            Err(_) => {},
        }
    }
}

/// A factor that is parsed applies built-in functions only.
proof fn lemma_factor_known(t: Seq<Lexeme>, p: int)
    requires
        has_known_functions(t),
    ensures
        is_known(parse_factor(t, p)),
    decreases t.len() - p, 4int,
{
    if p < t.len() {
        lemma_unary_known(t, p);
        match parse_unary(t, p) {
            Ok((left, q)) => {
                if p < q <= t.len() {
                    lemma_factor_rest_known(t, left, q);
                }
            },
            Err(_) => {},
        }
    }
}

/// The rest of a term that is parsed applies built-in functions only.
proof fn lemma_term_rest_known(t: Seq<Lexeme>, left: Term, p: int)
    requires
        has_known_functions(t),
        has_known_calls(left),
    ensures
        is_known(parse_term_rest(t, left, p)),
    decreases t.len() - p, 5int,
{
    if 0 <= p < t.len() && (t[p] is Mul || t[p] is Div) {
        let op = if t[p] is Mul {
            Op::Mul
        } else {
            Op::Div
        };
        lemma_factor_known(t, p + 1);
        match parse_factor(t, p + 1) {
            Ok((right, q)) => {
                if p < q <= t.len() {
                    lemma_term_rest_known(t, Term::binary(op, left, right), q);
                }
            },
            Err(_) => {},
        }
    }
}

/// A term that is parsed applies built-in functions only.
proof fn lemma_term_known(t: Seq<Lexeme>, p: int)
    requires
        has_known_functions(t),
    ensures
        is_known(parse_term(t, p)),
    decreases t.len() - p, 5int,
{
    if p < t.len() {
        lemma_factor_known(t, p);
        match parse_factor(t, p) {
            Ok((left, q)) => {
                if p < q <= t.len() {
                    lemma_term_rest_known(t, left, q);
                }
            },
            Err(_) => {},
        }
    }
}

/// The rest of an expression that is parsed applies built-in functions only.
proof fn lemma_expr_rest_known(t: Seq<Lexeme>, left: Term, p: int)
    requires
        has_known_functions(t),
        has_known_calls(left),
    ensures
        is_known(parse_expr_rest(t, left, p)),
    decreases t.len() - p, 6int,
{
    if 0 <= p < t.len() && (t[p] is Plus || t[p] is Minus) {
        let op = if t[p] is Plus {
            Op::Add
        } else {
            Op::Sub
        };
        lemma_term_known(t, p + 1);
        match parse_term(t, p + 1) {
            Ok((right, q)) => {
                if p < q <= t.len() {
                    lemma_expr_rest_known(t, Term::binary(op, left, right), q);
                }
            },
            Err(_) => {},
        }
    }
}

/// An expression that is parsed applies built-in functions only.
proof fn lemma_expr_known(t: Seq<Lexeme>, p: int)
    requires
        has_known_functions(t),
    ensures
        is_known(parse_expr(t, p)),
    decreases t.len() - p, 6int,
{
    if p < t.len() {
        lemma_term_known(t, p);
        match parse_term(t, p) {
            Ok((left, q)) => {
                if p < q <= t.len() {
                    lemma_expr_rest_known(t, left, q);
                }
            },
            Err(_) => {},
        }
    }
}

/// A tree that is parsed from tokens whose function tokens name built-in
/// functions applies built-in functions only.
pub proof fn lemma_parsed_calls_are_known(tokens: Seq<Lexeme>)
    requires
        has_known_functions(tokens),
    ensures
        tree_of(tokens) matches Ok(tree) ==> has_known_calls(tree),
{
    lemma_expr_known(tokens, 0);
}

/// Two sequences of tokens with known functions, joined.
pub proof fn lemma_join_known(a: Seq<Lexeme>, b: Seq<Lexeme>)
    requires
        has_known_functions(a),
        has_known_functions(b),
    ensures
        has_known_functions(a + b),
{
    let all = a + b;
    assert forall|i: int| 0 <= i < all.len() implies ((#[trigger] all[i]) matches Lexeme::Function(
        name,
    ) ==> FunctionKind::from_name(name) is Some) by {
        if i < a.len() {
            assert(all[i] == a[i]);
        } else {
            assert(all[i] == b[i - a.len()]);
        }
    }
}

/// One more token that is no function token, or names a built-in function.
pub proof fn lemma_push_known(a: Seq<Lexeme>, token: Lexeme)
    requires
        has_known_functions(a),
        token matches Lexeme::Function(name) ==> FunctionKind::from_name(name) is Some,
    ensures
        has_known_functions(a.push(token)),
{
    assert(a.push(token) =~= a + seq![token]);
    assert(seq![token][0] == token);
    lemma_join_known(a, seq![token]);
}

/// The function tokens of a run of letters name built-in functions.
pub proof fn lemma_segments_known(run: Seq<char>, at: int, pending: int)
    ensures
        has_known_functions(segments(run, at, pending)),
    decreases run.len() - at,
{
    let own = gathered(run, pending, at);
    assert(has_known_functions(own)) by {
        if pending < at {
            assert(own[0] is Identifier);
        }
    }
    if 0 <= at < run.len() {
        match function_at(run, at) {
            Some(kind) => {
                let next = at + kind.name().len();
                if at < next <= run.len() {
                    lemma_segments_known(run, next, next);
                    lemma_from_name_of_name(kind);
                    lemma_push_known(own, Lexeme::Function(kind.name()));
                    assert(own.push(Lexeme::Function(kind.name())) =~= own + seq![
                        Lexeme::Function(kind.name()),
                    ]);
                    lemma_join_known(
                        own + seq![Lexeme::Function(kind.name())],
                        segments(run, next, next),
                    );
                }
            },
            None => {
                lemma_segments_known(run, at + 1, pending);
            },
        }
    }
}

/// The first pass keeps the function tokens to built-in functions.
pub proof fn lemma_scan_known(s: Seq<char>, at: int, acc: Seq<Lexeme>)
    requires
        has_known_functions(acc),
    ensures
        scan(s, at, acc) matches Ok(tokens) ==> has_known_functions(tokens),
    decreases s.len() - at,
{
    if 0 <= at < s.len() {
        let c = s[at];
        if is_number_char(c) {
            let end = number_end(s, at + 1);
            let text = s.subrange(at, end);
            if at < end <= s.len() && is_decimal_literal(text) {
                let value = Lexeme::Number(
                    Number { bits: decimal_value(text) },
                );
                let before = with_product(
                    acc,
                    product_before_number(acc),
                );
                lemma_push_known(acc, Lexeme::Mul);
                lemma_push_known(before, value);
                lemma_scan_known(s, end, before.push(value));
            }
        } else if is_letter(c) {
            let end = letters_end(s, at + 1);
            if at < end <= s.len() {
                let before = with_product(
                    acc,
                    product_before_name(acc),
                );
                lemma_push_known(acc, Lexeme::Mul);
                lemma_segments_known(s.take(end), at, at);
                lemma_join_known(before, segments(s.take(end), at, at));
                lemma_scan_known(s, end, before + segments(s.take(end), at, at));
            }
        } else if c == '(' {
            let before = with_product(
                acc,
                product_before_name(acc),
            );
            lemma_push_known(acc, Lexeme::Mul);
            lemma_push_known(before, Lexeme::LParen);
            lemma_scan_known(s, at + 1, before.push(Lexeme::LParen));
        } else if sign(c) is Some {
            let token = sign(c)->Some_0;
            lemma_push_known(acc, token);
            lemma_scan_known(s, at + 1, acc.push(token));
        } else if is_blank(c) {
            lemma_scan_known(s, at + 1, acc);
        }
    }
}

/// The second pass keeps the function tokens to built-in functions.
pub proof fn lemma_with_powers_known(tokens: Seq<Lexeme>, upto: int)
    requires
        has_known_functions(tokens),
        upto <= tokens.len(),
    ensures
        has_known_functions(with_powers(tokens, upto)),
    decreases upto,
{
    if upto > 0 {
        lemma_with_powers_known(tokens, upto - 1);
        let before = with_powers(tokens, upto - 1);
        lemma_push_known(before, tokens[upto - 1]);
        lemma_push_known(before.push(tokens[upto - 1]), Lexeme::Pow);
    }
}

/// The function tokens of a text name built-in functions.
pub proof fn lemma_tokens_are_known(s: Seq<char>)
    ensures
        tokens_of(s) matches Ok(tokens) ==> has_known_functions(tokens),
{
    lemma_scan_known(s, 0, seq![]);
    match scan(s, 0, seq![]) {
        Ok(first) => {
            lemma_with_powers_known(first, first.len() as int);
        },
        Err(_) => {},
    }
}

/// What is read from a text has a derivative with respect to any variable:
/// differentiation can fail only on trees that were made in another way.
pub proof fn lemma_text_differentiates(s: Seq<char>, var: Seq<char>)
    ensures
        tokens_of(s) matches Ok(tokens) ==> (tree_of(tokens) matches Ok(tree) ==> derivative_of(
            tree,
            var,
        ) is Ok),
{
    lemma_tokens_are_known(s);
    match tokens_of(s) {
        Ok(tokens) => {
            lemma_parsed_calls_are_known(tokens);
            match tree_of(tokens) {
                Ok(tree) => {
                    lemma_known_calls_differentiate(tree, var);
                },
                Err(_) => {},
            }
        },
        Err(_) => {},
    }
}

} // verus!
