//! What is scanned and parsed ends after where it starts. The specifications
//! test this before they go on from a position; the test never fails.
use crate::ast::Op;
use crate::ast::Term;
use crate::parser::parse_argument;
use crate::parser::parse_chain;
use crate::parser::parse_chain_rest;
use crate::parser::parse_exponent;
use crate::parser::parse_expr;
use crate::parser::parse_expr_rest;
use crate::parser::parse_factor;
use crate::parser::parse_factor_rest;
use crate::parser::parse_function_power;
use crate::parser::parse_group;
use crate::parser::parse_primary;
use crate::parser::parse_term;
use crate::parser::parse_term_rest;
use crate::parser::parse_unary;
use crate::parser::Parsed;
use crate::parser::starts_bare_argument;
use crate::parser::starts_operand;
use crate::tokenizer::function_at;
use crate::tokenizer::is_letter;
use crate::tokenizer::is_number_char;
use crate::tokenizer::lemma_function_at_is_longest;
use crate::tokenizer::lemma_function_name_letters;
use crate::tokenizer::letters_end;
use crate::tokenizer::Lexeme;
use crate::tokenizer::number_end;
use vstd::prelude::*;

verus! {

/// The run of letters from `from` ends at or after `from`, inside the text.
pub proof fn lemma_letters_end_bounds(s: Seq<char>, from: int)
    requires
        0 <= from <= s.len(),
    ensures
        from <= letters_end(s, from) <= s.len(),
        from < s.len() && is_letter(s[from]) ==> from < letters_end(s, from),
    decreases s.len() - from,
{
    if from < s.len() && is_letter(s[from]) {
        lemma_letters_end_bounds(s, from + 1);
    }
}

/// The run of digits and points from `from` ends at or after `from`, inside
/// the text.
pub proof fn lemma_number_end_bounds(s: Seq<char>, from: int)
    requires
        0 <= from <= s.len(),
    ensures
        from <= number_end(s, from) <= s.len(),
        from < s.len() && is_number_char(s[from]) ==> from < number_end(s, from),
    decreases s.len() - from,
{
    if from < s.len() && is_number_char(s[from]) {
        lemma_number_end_bounds(s, from + 1);
    }
}

/// The name of a function that is found at a position ends after that
/// position, inside the run.
pub proof fn lemma_function_fits(run: Seq<char>, at: int)
    ensures
        function_at(run, at) matches Some(kind) ==> at < at + kind.name().len() <= run.len(),
{
    lemma_function_at_is_longest(run, at);
    match function_at(run, at) {
        Some(kind) => {
            lemma_function_name_letters(kind);
        },
        None => {},
    }
}

/// Whether what was parsed from `p`, if anything was, ends after `p` and
/// inside `len` tokens.
pub open spec fn advances(r: Parsed, p: int, len: int) -> bool {
    r matches Ok(found) ==> p < found.1 <= len
}

/// Whether what was parsed from `p`, if anything was, ends at or after `p`
/// and inside `len` tokens.
pub open spec fn stays_or_advances(r: Parsed, p: int, len: int) -> bool {
    r matches Ok(found) ==> p <= found.1 <= len
}

proof fn lemma_group_advances(t: Seq<Lexeme>, p: int)
    ensures
        advances(parse_group(t, p), p, t.len() as int),
    decreases t.len() - p, 0int,
{
    if 0 <= p < t.len() {
        lemma_expr_advances(t, p + 1);
    }
}

proof fn lemma_function_power_advances(t: Seq<Lexeme>, p: int)
    requires
        p <= t.len(),
    ensures
        stays_or_advances(parse_function_power(t, p), p, t.len() as int),
    decreases t.len() - p, 0int,
{
    if 0 <= p < t.len() && t[p] is Pow && p + 1 < t.len() {
        match t[p + 1] {
            Lexeme::Number(n) => {},
            _ => {
                lemma_chain_advances(t, p + 1);
            },
        }
    }
}

proof fn lemma_argument_advances(t: Seq<Lexeme>, p: int)
    ensures
        advances(parse_argument(t, p), p, t.len() as int),
    decreases t.len() - p, 2int,
{
    if 0 <= p < t.len() && t[p] is LParen {
        lemma_group_advances(t, p);
    } else if starts_bare_argument(t, p) {
        lemma_primary_advances(t, p);
    }
}

proof fn lemma_primary_advances(t: Seq<Lexeme>, p: int)
    ensures
        advances(parse_primary(t, p), p, t.len() as int),
    decreases t.len() - p, 1int,
{
    if 0 <= p < t.len() {
        match t[p] {
            Lexeme::LParen => {
                lemma_group_advances(t, p);
            },
            Lexeme::Function(name) => {
                lemma_function_power_advances(t, p + 1);
                match parse_function_power(t, p + 1) {
                    Ok((power, q)) => {
                        if p < q <= t.len() {
                            lemma_argument_advances(t, q);
                        }
                    },
                    Err(_) => {},
                }
            },
            _ => {},
        }
    }
}

proof fn lemma_chain_rest_advances(t: Seq<Lexeme>, left: Term, p: int)
    requires
        p <= t.len(),
    ensures
        stays_or_advances(parse_chain_rest(t, left, p), p, t.len() as int),
    decreases t.len() - p, 2int,
{
    if starts_operand(t, p) {
        lemma_primary_advances(t, p);
        match parse_primary(t, p) {
            Ok((right, q)) => {
                if p < q <= t.len() {
                    lemma_chain_rest_advances(t, Term::binary(Op::Mul, left, right), q);
                }
            },
            Err(_) => {},
        }
    }
}

proof fn lemma_chain_advances(t: Seq<Lexeme>, p: int)
    ensures
        advances(parse_chain(t, p), p, t.len() as int),
    decreases t.len() - p, 2int,
{
    lemma_primary_advances(t, p);
    match parse_primary(t, p) {
        Ok((first, q)) => {
            if p < q <= t.len() {
                lemma_chain_rest_advances(t, first, q);
            }
        },
        Err(_) => {},
    }
}

proof fn lemma_unary_advances(t: Seq<Lexeme>, p: int)
    ensures
        advances(parse_unary(t, p), p, t.len() as int),
    decreases t.len() - p, 2int,
{
    if 0 <= p < t.len() && t[p] is Minus {
        lemma_unary_advances(t, p + 1);
    } else {
        lemma_primary_advances(t, p);
    }
}

proof fn lemma_exponent_advances(t: Seq<Lexeme>, p: int)
    ensures
        advances(parse_exponent(t, p), p, t.len() as int),
    decreases t.len() - p, 5int,
{
    if 0 <= p < t.len() {
        match t[p] {
            Lexeme::Number(_) => {
                if starts_operand(t, p + 1) {
                    lemma_chain_advances(t, p);
                } else {
                    lemma_factor_advances(t, p);
                }
            },
            Lexeme::Identifier(_) => {
                lemma_chain_advances(t, p);
            },
            Lexeme::Function(_) => {
                lemma_chain_advances(t, p);
            },
            Lexeme::LParen => {
                lemma_chain_advances(t, p);
            },
            _ => {},
        }
    }
}

proof fn lemma_factor_rest_advances(t: Seq<Lexeme>, left: Term, p: int)
    requires
        p <= t.len(),
    ensures
        stays_or_advances(parse_factor_rest(t, left, p), p, t.len() as int),
    decreases t.len() - p, 3int,
{
    if starts_operand(t, p) {
        lemma_unary_advances(t, p);
        match parse_unary(t, p) {
            Ok((right, q)) => {
                if p < q <= t.len() {
                    lemma_factor_rest_advances(t, Term::binary(Op::Mul, left, right), q);
                }
            },
            Err(_) => {},
        }
    } else if 0 <= p < t.len() && t[p] is Pow {
        lemma_exponent_advances(t, p + 1);
        match parse_exponent(t, p + 1) {
            Ok((right, q)) => {
                if p < q <= t.len() {
                    lemma_factor_rest_advances(t, Term::binary(Op::Pow, left, right), q);
                }
            },
            Err(_) => {},
        }
    }
}

proof fn lemma_factor_advances(t: Seq<Lexeme>, p: int)
    ensures
        advances(parse_factor(t, p), p, t.len() as int),
    decreases t.len() - p, 4int,
{
    lemma_unary_advances(t, p);
    match parse_unary(t, p) {
        Ok((left, q)) => {
            if p < q <= t.len() {
                lemma_factor_rest_advances(t, left, q);
            }
        },
        Err(_) => {},
    }
}

proof fn lemma_term_rest_advances(t: Seq<Lexeme>, left: Term, p: int)
    requires
        p <= t.len(),
    ensures
        stays_or_advances(parse_term_rest(t, left, p), p, t.len() as int),
    decreases t.len() - p, 5int,
{
    if 0 <= p < t.len() && (t[p] is Mul || t[p] is Div) {
        let op = if t[p] is Mul {
            Op::Mul
        } else {
            Op::Div
        };
        lemma_factor_advances(t, p + 1);
        match parse_factor(t, p + 1) {
            Ok((right, q)) => {
                if p < q <= t.len() {
                    lemma_term_rest_advances(t, Term::binary(op, left, right), q);
                }
            },
            Err(_) => {},
        }
    }
}

proof fn lemma_term_advances(t: Seq<Lexeme>, p: int)
    ensures
        advances(parse_term(t, p), p, t.len() as int),
    decreases t.len() - p, 5int,
{
    lemma_factor_advances(t, p);
    match parse_factor(t, p) {
        Ok((left, q)) => {
            if p < q <= t.len() {
                lemma_term_rest_advances(t, left, q);
            }
        },
        Err(_) => {},
    }
}

proof fn lemma_expr_rest_advances(t: Seq<Lexeme>, left: Term, p: int)
    requires
        p <= t.len(),
    ensures
        stays_or_advances(parse_expr_rest(t, left, p), p, t.len() as int),
    decreases t.len() - p, 6int,
{
    if 0 <= p < t.len() && (t[p] is Plus || t[p] is Minus) {
        let op = if t[p] is Plus {
            Op::Add
        } else {
            Op::Sub
        };
        lemma_term_advances(t, p + 1);
        match parse_term(t, p + 1) {
            Ok((right, q)) => {
                if p < q <= t.len() {
                    lemma_expr_rest_advances(t, Term::binary(op, left, right), q);
                }
            },
            Err(_) => {},
        }
    }
}

proof fn lemma_expr_advances(t: Seq<Lexeme>, p: int)
    ensures
        advances(parse_expr(t, p), p, t.len() as int),
    decreases t.len() - p, 6int,
{
    lemma_term_advances(t, p);
    match parse_term(t, p) {
        Ok((left, q)) => {
            if p < q <= t.len() {
                lemma_expr_rest_advances(t, left, q);
            }
        },
        Err(_) => {},
    }
}

/// Each part of the grammar that is parsed from a position ends after that
/// position and inside the tokens.
pub proof fn lemma_parse_advances(t: Seq<Lexeme>, p: int)
    ensures
        advances(parse_group(t, p), p, t.len() as int),
        advances(parse_argument(t, p), p, t.len() as int),
        advances(parse_primary(t, p), p, t.len() as int),
        advances(parse_chain(t, p), p, t.len() as int),
        advances(parse_unary(t, p), p, t.len() as int),
        advances(parse_exponent(t, p), p, t.len() as int),
        advances(parse_factor(t, p), p, t.len() as int),
        advances(parse_term(t, p), p, t.len() as int),
        advances(parse_expr(t, p), p, t.len() as int),
{
    lemma_group_advances(t, p);
    lemma_argument_advances(t, p);
    lemma_primary_advances(t, p);
    lemma_chain_advances(t, p);
    lemma_unary_advances(t, p);
    lemma_exponent_advances(t, p);
    lemma_factor_advances(t, p);
    lemma_term_advances(t, p);
    lemma_expr_advances(t, p);
}

/// What follows a parsed part ends at or after the position from which it is
/// parsed, and inside the tokens.
pub proof fn lemma_parse_rest_stays(t: Seq<Lexeme>, left: Term, p: int)
    requires
        p <= t.len(),
    ensures
        stays_or_advances(parse_function_power(t, p), p, t.len() as int),
        stays_or_advances(parse_chain_rest(t, left, p), p, t.len() as int),
        stays_or_advances(parse_factor_rest(t, left, p), p, t.len() as int),
        stays_or_advances(parse_term_rest(t, left, p), p, t.len() as int),
        stays_or_advances(parse_expr_rest(t, left, p), p, t.len() as int),
{
    lemma_function_power_advances(t, p);
    lemma_chain_rest_advances(t, left, p);
    lemma_factor_rest_advances(t, left, p);
    lemma_term_rest_advances(t, left, p);
    lemma_expr_rest_advances(t, left, p);
}

} // verus!
