//! From tokens to an expression tree, by recursive descent.
//!
//! ```text
//! expr    := term (('+' | '-') term)*
//! term    := factor (('*' | '/') factor)*
//! factor  := unary (unary | '^' exponent)*
//! unary   := '-' unary | primary
//! primary := Number | Identifier | '(' expr ')' | Function power? argument
//! ```
//!
//! The specification of each part gives a tree and the position after it.
//! Before it goes on from such a position it tests that the position lies
//! after the one at which the part started; the module `progress` proves that
//! it always does.
use crate::ast::Expr;
use crate::ast::Op;
use crate::ast::Term;
use crate::number::Number;
use crate::tokenizer::Lexeme;
use crate::tokenizer::lexemes;
use crate::tokenizer::Token;
use vstd::prelude::*;
use vstd::string::StringExecFns;

verus! {

/// Why a sequence of tokens is not an expression.
#[derive(Clone, Copy, Debug, PartialEq, Eq, Structural)]
pub enum ParseError {
    /// A token, or the end, where an operand has to start.
    UnexpectedToken,
    /// An opening parenthesis whose closing one is not where it has to be.
    UnmatchedParen,
    /// A function that nothing is applied to.
    MissingFunctionArgument,
    /// Tokens after the end of the expression.
    TrailingTokens,
}

/// A tree and the position after its last token, or the reason for none.
pub type Parsed = Result<(Term, int), ParseError>;

/// Whether an operand can start at `p`.
pub open spec fn starts_operand(t: Seq<Lexeme>, p: int) -> bool {
    0 <= p < t.len() && (t[p] is Number || t[p] is Identifier || t[p] is Function || t[p] is LParen)
}

/// Whether the argument of a function that is written without parentheses
/// can start at `p`.
pub open spec fn starts_bare_argument(t: Seq<Lexeme>, p: int) -> bool {
    0 <= p < t.len() && (t[p] is Number || t[p] is Identifier || t[p] is Function)
}

/// The negation of a tree: of a literal, the literal of opposite sign; of any
/// other tree, its product with minus one.
pub open spec fn negation(e: Term) -> Term {
    match e {
        Term::Num(n) => Term::Num(n.negated()),
        _ => Term::binary(Op::Mul, Term::Num(Number::minus_one()), e),
    }
}

/// A function application raised to `power`; the application itself where
/// the power is a literal within `2^-52` of one.
pub open spec fn powered(call: Term, power: Term) -> Term {
    match power {
        Term::Num(n) => if n.is_near_one() {
            call
        } else {
            Term::binary(Op::Pow, call, power)
        },
        _ => Term::binary(Op::Pow, call, power),
    }
}

/// `'(' expr ')'`, with the opening parenthesis at `p`.
pub open spec fn parse_group(t: Seq<Lexeme>, p: int) -> Parsed
    decreases t.len() - p, 0int,
{
    if p < 0 || p >= t.len() {
        Err(ParseError::UnexpectedToken)
    } else {
        match parse_expr(t, p + 1) {
            Err(e) => Err(e),
            Ok((e, q)) => if 0 <= q < t.len() && t[q] is RParen {
                Ok((e, q + 1))
            } else {
                Err(ParseError::UnmatchedParen)
            },
        }
    }
}

/// The power of a function, from the position after the function: the literal
/// one where no `^` stands there; after `^`, a number by itself, or else a
/// chain of adjacent operands.
pub open spec fn parse_function_power(t: Seq<Lexeme>, p: int) -> Parsed
    decreases t.len() - p, 0int,
{
    if 0 <= p < t.len() && t[p] is Pow {
        if p + 1 < t.len() {
            match t[p + 1] {
                Lexeme::Number(n) => Ok((Term::Num(n), p + 2)),
                _ => parse_chain(t, p + 1),
            }
        } else {
            Err(ParseError::UnexpectedToken)
        }
    } else {
        Ok((Term::Num(Number::one()), p))
    }
}

/// The argument of a function: a parenthesized expression, or else one
/// primary that starts with a number, an identifier or a function.
pub open spec fn parse_argument(t: Seq<Lexeme>, p: int) -> Parsed
    decreases t.len() - p, 2int,
{
    if 0 <= p < t.len() && t[p] is LParen {
        parse_group(t, p)
    } else if starts_bare_argument(t, p) {
        parse_primary(t, p)
    } else {
        Err(ParseError::MissingFunctionArgument)
    }
}

/// A number, an identifier, a parenthesized expression or a function
/// application.
pub open spec fn parse_primary(t: Seq<Lexeme>, p: int) -> Parsed
    decreases t.len() - p, 1int,
{
    if p < 0 || p >= t.len() {
        Err(ParseError::UnexpectedToken)
    } else {
        match t[p] {
            Lexeme::Number(n) => Ok((Term::Num(n), p + 1)),
            Lexeme::Identifier(name) => Ok((Term::Var(name), p + 1)),
            Lexeme::LParen => parse_group(t, p),
            Lexeme::Function(name) => match parse_function_power(t, p + 1) {
                Err(e) => Err(e),
                Ok((power, q)) => if p < q <= t.len() {
                    match parse_argument(t, q) {
                        Err(e) => Err(e),
                        Ok((arg, r)) => Ok((powered(Term::call(name, arg), power), r)),
                    }
                } else {
                    Err(ParseError::MissingFunctionArgument)
                },
            },
            _ => Err(ParseError::UnexpectedToken),
        }
    }
}

/// The product of `left` and the adjacent primaries from `p` on.
pub open spec fn parse_chain_rest(t: Seq<Lexeme>, left: Term, p: int) -> Parsed
    decreases t.len() - p, 2int,
{
    if starts_operand(t, p) {
        match parse_primary(t, p) {
            Err(e) => Err(e),
            Ok((right, q)) => if p < q <= t.len() {
                parse_chain_rest(t, Term::binary(Op::Mul, left, right), q)
            } else {
                Err(ParseError::UnexpectedToken)
            },
        }
    } else {
        Ok((left, p))
    }
}

/// An exponent chain: the longest run of adjacent primaries, multiplied from
/// the left.
pub open spec fn parse_chain(t: Seq<Lexeme>, p: int) -> Parsed
    decreases t.len() - p, 2int,
{
    match parse_primary(t, p) {
        Err(e) => Err(e),
        Ok((first, q)) => if p < q <= t.len() {
            parse_chain_rest(t, first, q)
        } else {
            Err(ParseError::UnexpectedToken)
        },
    }
}

/// A primary behind any number of minus signs.
pub open spec fn parse_unary(t: Seq<Lexeme>, p: int) -> Parsed
    decreases t.len() - p, 2int,
{
    if 0 <= p < t.len() && t[p] is Minus {
        match parse_unary(t, p + 1) {
            Err(e) => Err(e),
            Ok((e, q)) => Ok((negation(e), q)),
        }
    } else {
        parse_primary(t, p)
    }
}

/// The exponent after `^`: a number that no operand follows is the start of a
/// factor, so that powers group to the right; a number that an operand
/// follows, an identifier, a function or a parenthesis starts a chain.
pub open spec fn parse_exponent(t: Seq<Lexeme>, p: int) -> Parsed
    decreases t.len() - p, 5int,
{
    if 0 <= p < t.len() {
        match t[p] {
            Lexeme::Number(_) => if starts_operand(t, p + 1) {
                parse_chain(t, p)
            } else {
                parse_factor(t, p)
            },
            Lexeme::Identifier(_) => parse_chain(t, p),
            Lexeme::Function(_) => parse_chain(t, p),
            Lexeme::LParen => parse_chain(t, p),
            _ => Err(ParseError::UnexpectedToken),
        }
    } else {
        Err(ParseError::UnexpectedToken)
    }
}

/// `left` followed by adjacent operands, which multiply it, and by powers.
pub open spec fn parse_factor_rest(t: Seq<Lexeme>, left: Term, p: int) -> Parsed
    decreases t.len() - p, 3int,
{
    if starts_operand(t, p) {
        match parse_unary(t, p) {
            Err(e) => Err(e),
            Ok((right, q)) => if p < q <= t.len() {
                parse_factor_rest(t, Term::binary(Op::Mul, left, right), q)
            } else {
                Err(ParseError::UnexpectedToken)
            },
        }
    } else if 0 <= p < t.len() && t[p] is Pow {
        match parse_exponent(t, p + 1) {
            Err(e) => Err(e),
            Ok((right, q)) => if p < q <= t.len() {
                parse_factor_rest(t, Term::binary(Op::Pow, left, right), q)
            } else {
                Err(ParseError::UnexpectedToken)
            },
        }
    } else {
        Ok((left, p))
    }
}

/// A factor: a unary and what follows it of adjacent operands and powers.
pub open spec fn parse_factor(t: Seq<Lexeme>, p: int) -> Parsed
    decreases t.len() - p, 4int,
{
    match parse_unary(t, p) {
        Err(e) => Err(e),
        Ok((left, q)) => if p < q <= t.len() {
            parse_factor_rest(t, left, q)
        } else {
            Err(ParseError::UnexpectedToken)
        },
    }
}

/// `left` followed by `*` and `/` with their factors, grouped to the left.
pub open spec fn parse_term_rest(t: Seq<Lexeme>, left: Term, p: int) -> Parsed
    decreases t.len() - p, 5int,
{
    if 0 <= p < t.len() && (t[p] is Mul || t[p] is Div) {
        let op = if t[p] is Mul {
            Op::Mul
        } else {
            Op::Div
        };
        match parse_factor(t, p + 1) {
            Err(e) => Err(e),
            Ok((right, q)) => if p < q <= t.len() {
                parse_term_rest(t, Term::binary(op, left, right), q)
            } else {
                Err(ParseError::UnexpectedToken)
            },
        }
    } else {
        Ok((left, p))
    }
}

/// A term: factors joined by `*` and `/`.
pub open spec fn parse_term(t: Seq<Lexeme>, p: int) -> Parsed
    decreases t.len() - p, 5int,
{
    match parse_factor(t, p) {
        Err(e) => Err(e),
        Ok((left, q)) => if p < q <= t.len() {
            parse_term_rest(t, left, q)
        } else {
            Err(ParseError::UnexpectedToken)
        },
    }
}

/// `left` followed by `+` and `-` with their terms, grouped to the left.
pub open spec fn parse_expr_rest(t: Seq<Lexeme>, left: Term, p: int) -> Parsed
    decreases t.len() - p, 6int,
{
    if 0 <= p < t.len() && (t[p] is Plus || t[p] is Minus) {
        let op = if t[p] is Plus {
            Op::Add
        } else {
            Op::Sub
        };
        match parse_term(t, p + 1) {
            Err(e) => Err(e),
            Ok((right, q)) => if p < q <= t.len() {
                parse_expr_rest(t, Term::binary(op, left, right), q)
            } else {
                Err(ParseError::UnexpectedToken)
            },
        }
    } else {
        Ok((left, p))
    }
}

/// An expression: terms joined by `+` and `-`.
pub open spec fn parse_expr(t: Seq<Lexeme>, p: int) -> Parsed
    decreases t.len() - p, 6int,
{
    match parse_term(t, p) {
        Err(e) => Err(e),
        Ok((left, q)) => if p < q <= t.len() {
            parse_expr_rest(t, left, q)
        } else {
            Err(ParseError::UnexpectedToken)
        },
    }
}

/// The tree of the tokens from `start` to the end.
pub open spec fn parse_from(t: Seq<Lexeme>, start: int) -> Result<Term, ParseError> {
    match parse_expr(t, start) {
        Err(e) => Err(e),
        Ok((e, q)) => if q < t.len() {
            Err(ParseError::TrailingTokens)
        } else {
            Ok(e)
        },
    }
}

/// The tree of a whole sequence of tokens.
pub open spec fn tree_of(t: Seq<Lexeme>) -> Result<Term, ParseError> {
    parse_from(t, 0)
}

/// Whether what a parsing function returned is what the grammar gives from
/// position `p`, which is then a tree that ends after `p` and inside the
/// tokens.
pub open spec fn agrees(r: Result<(Expr, usize), ParseError>, wanted: Parsed, p: int, len: int) -> bool {
    match wanted {
        Ok((e, q)) => r is Ok && r->Ok_0.0@ == e && r->Ok_0.1 == q && p < q <= len,
        Err(e) => r is Err && r->Err_0 == e,
    }
}

fn is_operand_start(tokens: &Vec<Token>, p: usize) -> (r: bool)
    ensures
        r == starts_operand(lexemes(tokens@), p as int),
{
    if p >= tokens.len() {
        return false;
    }
    match &tokens[p] {
        Token::Number(_) => true,
        Token::Identifier(_) => true,
        Token::Function(_) => true,
        Token::LParen => true,
        _ => false,
    }
}

fn is_bare_argument_start(tokens: &Vec<Token>, p: usize) -> (r: bool)
    ensures
        r == starts_bare_argument(lexemes(tokens@), p as int),
{
    if p >= tokens.len() {
        return false;
    }
    match &tokens[p] {
        Token::Number(_) => true,
        Token::Identifier(_) => true,
        Token::Function(_) => true,
        _ => false,
    }
}

fn negate(e: Expr) -> (r: Expr)
    ensures
        r@ == negation(e@),
{
    match e {
        Expr::Num(n) => Expr::Num(n.negate()),
        other => Expr::binary(Op::Mul, Expr::Num(Number::minus_one_value()), other),
    }
}

fn raise(call: Expr, power: Expr) -> (r: Expr)
    ensures
        r@ == powered(call@, power@),
{
    let elide = match &power {
        Expr::Num(n) => n.check_near_one(),
        _ => false,
    };
    if elide {
        call
    } else {
        Expr::binary(Op::Pow, call, power)
    }
}

fn group(tokens: &Vec<Token>, p: usize) -> (r: Result<(Expr, usize), ParseError>)
    requires
        p < tokens.len(),
    ensures
        agrees(r, parse_group(lexemes(tokens@), p as int), p as int, tokens.len() as int),
    decreases tokens.len() - p, 0int,
{
    match expr(tokens, p + 1) {
        Err(e) => Err(e),
        Ok((e, q)) => {
            if q < tokens.len() {
                match &tokens[q] {
                    Token::RParen => Ok((e, q + 1)),
                    _ => Err(ParseError::UnmatchedParen),
                }
            } else {
                Err(ParseError::UnmatchedParen)
            }
        },
    }
}

fn function_power(tokens: &Vec<Token>, p: usize) -> (r: Result<(Expr, usize), ParseError>)
    requires
        p <= tokens.len(),
    ensures
        agrees(r, parse_function_power(lexemes(tokens@), p as int), p - 1, tokens.len() as int),
    decreases tokens.len() - p, 0int,
{
    let has_power = p < tokens.len() && match &tokens[p] {
        Token::Pow => true,
        _ => false,
    };
    if !has_power {
        return Ok((Expr::Num(Number::one_value()), p));
    }
    if p + 1 >= tokens.len() {
        return Err(ParseError::UnexpectedToken);
    }
    match &tokens[p + 1] {
        Token::Number(n) => Ok((Expr::Num(*n), p + 2)),
        _ => {
            match chain(tokens, p + 1) {
                Ok(found) => Ok(found),
                Err(e) => Err(e),
            }
        },
    }
}

fn argument(tokens: &Vec<Token>, p: usize) -> (r: Result<(Expr, usize), ParseError>)
    requires
        p <= tokens.len(),
    ensures
        agrees(r, parse_argument(lexemes(tokens@), p as int), p as int, tokens.len() as int),
    decreases tokens.len() - p, 2int,
{
    let parenthesized = p < tokens.len() && match &tokens[p] {
        Token::LParen => true,
        _ => false,
    };
    if parenthesized {
        group(tokens, p)
    } else if is_bare_argument_start(tokens, p) {
        primary(tokens, p)
    } else {
        Err(ParseError::MissingFunctionArgument)
    }
}

fn primary(tokens: &Vec<Token>, p: usize) -> (r: Result<(Expr, usize), ParseError>)
    requires
        p <= tokens.len(),
    ensures
        agrees(r, parse_primary(lexemes(tokens@), p as int), p as int, tokens.len() as int),
    decreases tokens.len() - p, 1int,
{
    if p >= tokens.len() {
        return Err(ParseError::UnexpectedToken);
    }
    match &tokens[p] {
        Token::Number(n) => Ok((Expr::Num(*n), p + 1)),
        Token::Identifier(name) => Ok((Expr::Var(name.clone()), p + 1)),
        Token::LParen => group(tokens, p),
        Token::Function(name) => {
            match function_power(tokens, p + 1) {
                Err(e) => Err(e),
                Ok((power, q)) => {
                    match argument(tokens, q) {
                        Err(e) => Err(e),
                        Ok((arg, r)) => {
                            let call = Expr::FuncCall { name: name.clone(), arg: Box::new(arg) };
                            Ok((raise(call, power), r))
                        },
                    }
                },
            }
        },
        _ => Err(ParseError::UnexpectedToken),
    }
}

fn chain_rest(tokens: &Vec<Token>, left: Expr, p: usize) -> (r: Result<(Expr, usize), ParseError>)
    requires
        p <= tokens.len(),
    ensures
        agrees(
            r,
            parse_chain_rest(lexemes(tokens@), left@, p as int),
            p - 1,
            tokens.len() as int,
        ),
    decreases tokens.len() - p, 2int,
{
    if is_operand_start(tokens, p) {
        match primary(tokens, p) {
            Err(e) => Err(e),
            Ok((right, q)) => chain_rest(tokens, Expr::binary(Op::Mul, left, right), q),
        }
    } else {
        Ok((left, p))
    }
}

fn chain(tokens: &Vec<Token>, p: usize) -> (r: Result<(Expr, usize), ParseError>)
    requires
        p <= tokens.len(),
    ensures
        agrees(r, parse_chain(lexemes(tokens@), p as int), p as int, tokens.len() as int),
    decreases tokens.len() - p, 2int,
{
    match primary(tokens, p) {
        Err(e) => Err(e),
        Ok((first, q)) => chain_rest(tokens, first, q),
    }
}

fn unary(tokens: &Vec<Token>, p: usize) -> (r: Result<(Expr, usize), ParseError>)
    requires
        p <= tokens.len(),
    ensures
        agrees(r, parse_unary(lexemes(tokens@), p as int), p as int, tokens.len() as int),
    decreases tokens.len() - p, 2int,
{
    let minus = p < tokens.len() && match &tokens[p] {
        Token::Minus => true,
        _ => false,
    };
    if minus {
        match unary(tokens, p + 1) {
            Err(e) => Err(e),
            Ok((e, q)) => Ok((negate(e), q)),
        }
    } else {
        primary(tokens, p)
    }
}

fn exponent(tokens: &Vec<Token>, p: usize) -> (r: Result<(Expr, usize), ParseError>)
    requires
        p <= tokens.len(),
    ensures
        agrees(r, parse_exponent(lexemes(tokens@), p as int), p as int, tokens.len() as int),
    decreases tokens.len() - p, 5int,
{
    if p >= tokens.len() {
        return Err(ParseError::UnexpectedToken);
    }
    match &tokens[p] {
        Token::Number(_) => {
            if is_operand_start(tokens, p + 1) {
                chain(tokens, p)
            } else {
                factor(tokens, p)
            }
        },
        Token::Identifier(_) => chain(tokens, p),
        Token::Function(_) => chain(tokens, p),
        Token::LParen => chain(tokens, p),
        _ => Err(ParseError::UnexpectedToken),
    }
}

fn factor_rest(tokens: &Vec<Token>, left: Expr, p: usize) -> (r: Result<(Expr, usize), ParseError>)
    requires
        p <= tokens.len(),
    ensures
        agrees(
            r,
            parse_factor_rest(lexemes(tokens@), left@, p as int),
            p - 1,
            tokens.len() as int,
        ),
    decreases tokens.len() - p, 3int,
{
    if is_operand_start(tokens, p) {
        match unary(tokens, p) {
            Err(e) => Err(e),
            Ok((right, q)) => factor_rest(tokens, Expr::binary(Op::Mul, left, right), q),
        }
    } else {
        let power = p < tokens.len() && match &tokens[p] {
            Token::Pow => true,
            _ => false,
        };
        if power {
            match exponent(tokens, p + 1) {
                Err(e) => Err(e),
                Ok((right, q)) => factor_rest(tokens, Expr::binary(Op::Pow, left, right), q),
            }
        } else {
            Ok((left, p))
        }
    }
}

fn factor(tokens: &Vec<Token>, p: usize) -> (r: Result<(Expr, usize), ParseError>)
    requires
        p <= tokens.len(),
    ensures
        agrees(r, parse_factor(lexemes(tokens@), p as int), p as int, tokens.len() as int),
    decreases tokens.len() - p, 4int,
{
    match unary(tokens, p) {
        Err(e) => Err(e),
        Ok((left, q)) => factor_rest(tokens, left, q),
    }
}

fn term_rest(tokens: &Vec<Token>, left: Expr, p: usize) -> (r: Result<(Expr, usize), ParseError>)
    requires
        p <= tokens.len(),
    ensures
        agrees(
            r,
            parse_term_rest(lexemes(tokens@), left@, p as int),
            p - 1,
            tokens.len() as int,
        ),
    decreases tokens.len() - p, 5int,
{
    let op = if p < tokens.len() {
        match &tokens[p] {
            Token::Mul => Some(Op::Mul),
            Token::Div => Some(Op::Div),
            _ => None,
        }
    } else {
        None
    };
    match op {
        Some(op) => {
            match factor(tokens, p + 1) {
                Err(e) => Err(e),
                Ok((right, q)) => term_rest(tokens, Expr::binary(op, left, right), q),
            }
        },
        None => Ok((left, p)),
    }
}

fn term(tokens: &Vec<Token>, p: usize) -> (r: Result<(Expr, usize), ParseError>)
    requires
        p <= tokens.len(),
    ensures
        agrees(r, parse_term(lexemes(tokens@), p as int), p as int, tokens.len() as int),
    decreases tokens.len() - p, 5int,
{
    match factor(tokens, p) {
        Err(e) => Err(e),
        Ok((left, q)) => term_rest(tokens, left, q),
    }
}

fn expr_rest(tokens: &Vec<Token>, left: Expr, p: usize) -> (r: Result<(Expr, usize), ParseError>)
    requires
        p <= tokens.len(),
    ensures
        agrees(
            r,
            parse_expr_rest(lexemes(tokens@), left@, p as int),
            p - 1,
            tokens.len() as int,
        ),
    decreases tokens.len() - p, 6int,
{
    let op = if p < tokens.len() {
        match &tokens[p] {
            Token::Plus => Some(Op::Add),
            Token::Minus => Some(Op::Sub),
            _ => None,
        }
    } else {
        None
    };
    match op {
        Some(op) => {
            match term(tokens, p + 1) {
                Err(e) => Err(e),
                Ok((right, q)) => expr_rest(tokens, Expr::binary(op, left, right), q),
            }
        },
        None => Ok((left, p)),
    }
}

fn expr(tokens: &Vec<Token>, p: usize) -> (r: Result<(Expr, usize), ParseError>)
    requires
        p <= tokens.len(),
    ensures
        agrees(r, parse_expr(lexemes(tokens@), p as int), p as int, tokens.len() as int),
    decreases tokens.len() - p, 6int,
{
    match term(tokens, p) {
        Err(e) => Err(e),
        Ok((left, q)) => expr_rest(tokens, left, q),
    }
}

impl ParseError {
    /// The message of the error.
    pub open spec fn text(self) -> Seq<char> {
        match self {
            ParseError::UnexpectedToken => "Expected a number, variable, or '('"@,
            ParseError::UnmatchedParen => "Expected ')'"@,
            ParseError::MissingFunctionArgument => "Expected function argument after function name"@,
            ParseError::TrailingTokens => "Unexpected token at end of expression"@,
        }
    }

    /// A message for people.
    pub fn to_text(&self) -> (r: String)
        ensures
            r@ == self.text(),
    {
        match self {
            ParseError::UnexpectedToken => String::from_str("Expected a number, variable, or '('"),
            ParseError::UnmatchedParen => String::from_str("Expected ')'"),
            ParseError::MissingFunctionArgument => String::from_str(
                "Expected function argument after function name",
            ),
            ParseError::TrailingTokens => String::from_str("Unexpected token at end of expression"),
        }
    }
}

/// A parser: a sequence of tokens and a position in it.
pub struct Parser {
    tokens: Vec<Token>,
    pos: usize,
}

impl Parser {
    /// The position lies inside the tokens or at their end.
    #[verifier::type_invariant]
    spec fn position_is_inside(self) -> bool {
        self.pos <= self.tokens.len()
    }

    /// The tokens that the parser reads.
    pub closed spec fn tokens(&self) -> Seq<Lexeme> {
        lexemes(self.tokens@)
    }

    /// The position of the next token to read.
    pub closed spec fn position(&self) -> int {
        self.pos as int
    }

    /// A parser at the start of `tokens`.
    pub fn new(tokens: Vec<Token>) -> (r: Parser)
        ensures
            r.tokens() == lexemes(tokens@),
            r.position() == 0,
    {
        Parser { tokens, pos: 0 }
    }

    /// Parses the tokens from the position on as one expression that takes
    /// them all. The position is then the end; after an error it is unchanged.
    pub fn parse(&mut self) -> (r: Result<Expr, ParseError>)
        ensures
            final(self).tokens() == old(self).tokens(),
            match parse_from(old(self).tokens(), old(self).position()) {
                Ok(e) => r is Ok && r->Ok_0@ == e && final(self).position() == old(
                    self,
                ).tokens().len(),
                Err(e) => r is Err && r->Err_0 == e && final(self).position() == old(
                    self,
                ).position(),
            },
    {
        proof {
            use_type_invariant(&*self);
        }
        match expr(&self.tokens, self.pos) {
            Err(e) => Err(e),
            Ok((e, q)) => {
                if q < self.tokens.len() {
                    Err(ParseError::TrailingTokens)
                } else {
                    self.pos = q;
                    Ok(e)
                }
            },
        }
    }
}

} // verus!
