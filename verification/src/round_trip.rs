//! The canonical text of a tree, read back.
use crate::ast::Op;
use crate::ast::Term;
use crate::function_table::FunctionKind;
use crate::function_table::lemma_names_differ;
use crate::normal_form::is_normal;
use crate::normal_form::lemma_normal_is_fixed;
use crate::number::decimal_text;
use crate::number::decimal_value;
use crate::number::digit_count;
use crate::number::is_decimal_literal;
use crate::number::is_digit;
use crate::number::Number;
use crate::parser::negation;
use crate::parser::parse_argument;
use crate::parser::parse_chain;
use crate::parser::parse_chain_rest;
use crate::parser::parse_exponent;
use crate::parser::parse_expr;
use crate::parser::parse_expr_rest;
use crate::parser::parse_factor;
use crate::parser::parse_factor_rest;
use crate::parser::parse_function_power;
use crate::parser::parse_group;
use crate::parser::parse_primary;
use crate::parser::parse_term;
use crate::parser::parse_term_rest;
use crate::parser::parse_unary;
use crate::parser::Parsed;
use crate::parser::ParseError;
use crate::parser::powered;
use crate::parser::starts_operand;
use crate::parser::tree_of;
use crate::simplifier::simplified;
use crate::tokenizer::function_at;
use crate::tokenizer::gathered;
use crate::tokenizer::implicit_power_at;
use crate::tokenizer::is_letter;
use crate::tokenizer::is_number_char;
use crate::tokenizer::lemma_function_at_is_longest;
use crate::tokenizer::lemma_function_name_letters;
use crate::tokenizer::letters_end;
use crate::tokenizer::Lexeme;
use crate::tokenizer::number_end;
use crate::tokenizer::scan;
use crate::tokenizer::segments;
use crate::tokenizer::sign;
use crate::tokenizer::starts_with;
use crate::tokenizer::TokenizeError;
use crate::tokenizer::tokens_of;
use crate::tokenizer::with_powers;
use vstd::prelude::*;

verus! {

/// The token of an operator.
pub open spec fn op_lexeme(op: Op) -> Lexeme {
    match op {
        Op::Add => Lexeme::Plus,
        Op::Sub => Lexeme::Minus,
        Op::Mul => Lexeme::Mul,
        Op::Div => Lexeme::Div,
        Op::Pow => Lexeme::Pow,
    }
}

/// The tokens of a literal: its number, or, for a literal in `minus`, a
/// minus sign and the number of opposite sign.
pub open spec fn literal_tokens(n: Number, minus: Set<Number>) -> Seq<Lexeme> {
    if minus.contains(n) {
        seq![Lexeme::Minus, Lexeme::Number(n.negated())]
    } else {
        seq![Lexeme::Number(n)]
    }
}

/// The tokens of a tree in which the literals in `minus` are written with a
/// minus sign: a literal is its tokens and a variable is one token; a binary
/// node is its operands around its operator, in parentheses; an application
/// is the function and then the argument.
pub open spec fn tree_tokens(t: Term, minus: Set<Number>) -> Seq<Lexeme>
    decreases t,
{
    match t {
        Term::Num(n) => literal_tokens(n, minus),
        Term::Var(name) => seq![Lexeme::Identifier(name)],
        Term::BinaryOp { op, left, right } => seq![Lexeme::LParen] + tree_tokens(*left, minus)
            + seq![op_lexeme(op)] + tree_tokens(*right, minus) + seq![Lexeme::RParen],
        Term::FuncCall { name, arg } => seq![Lexeme::Function(name)] + tree_tokens(*arg, minus),
    }
}

/// The canonical tokens of a tree: those in which each literal is one
/// number.
pub open spec fn canonical_tokens(t: Term) -> Seq<Lexeme> {
    tree_tokens(t, Set::empty())
}

/// Whether the tokens of the tree can be read as a primary: no literal that
/// is written with a minus sign is the tree itself, the argument of a
/// function or an exponent. (Such a literal is read as the operand of a sum,
/// a difference, a product or a quotient, and as the base of a power.)
pub open spec fn fits_primary(t: Term, minus: Set<Number>) -> bool
    decreases t,
{
    match t {
        Term::Num(n) => !minus.contains(n),
        Term::Var(_) => true,
        Term::FuncCall { name, arg } => fits_primary(*arg, minus),
        Term::BinaryOp { op, left, right } => {
            &&& *left is Num || fits_primary(*left, minus)
            &&& (op != Op::Pow && *right is Num) || fits_primary(*right, minus)
        },
    }
}

/// Whether the tokens of the tree can be read where a minus sign may stand
/// first: a literal, or what can be read as a primary.
pub open spec fn fits_unary(t: Term, minus: Set<Number>) -> bool {
    t is Num || fits_primary(t, minus)
}

/// The opposite of the opposite is the value.
pub proof fn lemma_negated_twice(n: Number)
    ensures
        n.negated().negated() == n,
{
}

/// The tokens of a tree start with the token of its kind.
pub proof fn lemma_first_token(t: Term, minus: Set<Number>)
    ensures
        tree_tokens(t, minus).len() >= 1,
        match t {
            Term::Num(n) => tree_tokens(t, minus) == literal_tokens(n, minus),
            Term::Var(name) => tree_tokens(t, minus) == seq![Lexeme::Identifier(name)],
            Term::BinaryOp { .. } => tree_tokens(t, minus)[0] == Lexeme::LParen,
            Term::FuncCall { name, .. } => tree_tokens(t, minus)[0] == Lexeme::Function(name),
        },
{
}

/// Whether the tokens of `t` stand in `tokens` at `p`.
pub open spec fn stands_at(tokens: Seq<Lexeme>, p: int, t: Term, minus: Set<Number>) -> bool {
    &&& 0 <= p
    &&& p + tree_tokens(t, minus).len() <= tokens.len()
    &&& tokens.subrange(p, p + tree_tokens(t, minus).len()) == tree_tokens(t, minus)
}

/// A tree and the position after it, as the result of a parsing function.
pub open spec fn found(t: Term, q: int) -> Parsed {
    Ok((t, q))
}

/// Whether an expression can end at `d`: at the end of the tokens or before
/// a closing parenthesis.
pub open spec fn closes(tokens: Seq<Lexeme>, d: int) -> bool {
    d == tokens.len() || (0 <= d < tokens.len() && tokens[d] is RParen)
}

/// Where an expression can end, nothing is added to what was parsed.
pub proof fn lemma_rest_at_close(tokens: Seq<Lexeme>, x: Term, d: int)
    requires
        closes(tokens, d),
    ensures
        parse_chain_rest(tokens, x, d) == found(x, d),
        parse_factor_rest(tokens, x, d) == found(x, d),
        parse_term_rest(tokens, x, d) == found(x, d),
        parse_expr_rest(tokens, x, d) == found(x, d),
{
}

/// A unary that ends where an expression can end is also a factor, a term
/// and an expression.
pub proof fn lemma_unary_at_close(tokens: Seq<Lexeme>, x: Term, c: int, d: int)
    requires
        parse_unary(tokens, c) == found(x, d),
        0 <= c < d <= tokens.len(),
        closes(tokens, d),
    ensures
        parse_factor(tokens, c) == found(x, d),
        parse_term(tokens, c) == found(x, d),
        parse_expr(tokens, c) == found(x, d),
{
    lemma_rest_at_close(tokens, x, d);
    assert(parse_factor(tokens, c) == found(x, d));
    assert(parse_term(tokens, c) == found(x, d));
}

/// A primary that starts with no minus sign and ends where an expression
/// can end is also a unary and a chain.
pub proof fn lemma_operand_at_close(tokens: Seq<Lexeme>, x: Term, c: int, d: int)
    requires
        parse_primary(tokens, c) == found(x, d),
        0 <= c < d <= tokens.len(),
        !(tokens[c] is Minus),
        closes(tokens, d),
    ensures
        parse_unary(tokens, c) == found(x, d),
        parse_chain(tokens, c) == found(x, d),
{
    lemma_rest_at_close(tokens, x, d);
}

/// Such a primary is also an exponent, where a number is it alone.
pub proof fn lemma_exponent_at_close(tokens: Seq<Lexeme>, x: Term, c: int, d: int)
    requires
        parse_primary(tokens, c) == found(x, d),
        0 <= c < d <= tokens.len(),
        starts_operand(tokens, c),
        tokens[c] is Number ==> d == c + 1,
        closes(tokens, d),
    ensures
        parse_exponent(tokens, c) == found(x, d),
{
    lemma_operand_at_close(tokens, x, c, d);
    lemma_unary_at_close(tokens, x, c, d);
}

/// A unary, an operator and what follows it as the right operand, up to
/// where an expression can end, are the expression of the binary node.
pub proof fn lemma_binary_at_close(
    tokens: Seq<Lexeme>,
    op: Op,
    l: Term,
    r: Term,
    a: int,
    b: int,
    d: int,
)
    requires
        parse_unary(tokens, a) == found(l, b),
        0 <= a < b < d <= tokens.len(),
        tokens[b] == op_lexeme(op),
        op == Op::Pow ==> parse_exponent(tokens, b + 1) == found(r, d),
        op != Op::Pow ==> parse_unary(tokens, b + 1) == found(r, d),
        closes(tokens, d),
    ensures
        parse_expr(tokens, a) == found(Term::binary(op, l, r), d),
{
    let t = Term::binary(op, l, r);
    lemma_rest_at_close(tokens, t, d);
    assert(!starts_operand(tokens, b));
    if op != Op::Pow {
        lemma_unary_at_close(tokens, r, b + 1, d);
    }
    match op {
        Op::Pow => {
            assert(parse_factor_rest(tokens, l, b) == found(t, d));
            assert(parse_factor(tokens, a) == found(t, d));
            assert(parse_term(tokens, a) == found(t, d));
        },
        Op::Mul => {
            assert(parse_factor_rest(tokens, l, b) == found(l, b));
            assert(parse_factor(tokens, a) == found(l, b));
            assert(parse_term_rest(tokens, l, b) == found(t, d));
            assert(parse_term(tokens, a) == found(t, d));
        },
        Op::Div => {
            assert(parse_factor_rest(tokens, l, b) == found(l, b));
            assert(parse_factor(tokens, a) == found(l, b));
            assert(parse_term_rest(tokens, l, b) == found(t, d));
            assert(parse_term(tokens, a) == found(t, d));
        },
        Op::Add => {
            assert(parse_factor_rest(tokens, l, b) == found(l, b));
            assert(parse_factor(tokens, a) == found(l, b));
            assert(parse_term_rest(tokens, l, b) == found(l, b));
            assert(parse_term(tokens, a) == found(l, b));
            assert(parse_expr_rest(tokens, l, b) == found(t, d));
        },
        Op::Sub => {
            assert(parse_factor_rest(tokens, l, b) == found(l, b));
            assert(parse_factor(tokens, a) == found(l, b));
            assert(parse_term_rest(tokens, l, b) == found(l, b));
            assert(parse_term(tokens, a) == found(l, b));
            assert(parse_expr_rest(tokens, l, b) == found(t, d));
        },
    }
}

/// The application of a function whose token stands at `p` to a primary
/// that starts the argument there is a primary.
pub proof fn lemma_application(tokens: Seq<Lexeme>, name: Seq<char>, arg: Term, p: int, d: int)
    requires
        0 <= p,
        p + 1 < d <= tokens.len(),
        tokens[p] == Lexeme::Function(name),
        starts_operand(tokens, p + 1),
        parse_primary(tokens, p + 1) == found(arg, d),
    ensures
        parse_primary(tokens, p) == found(Term::call(name, arg), d),
{
    let a = p + 1;
    let one = Term::Num(Number::one());
    assert(parse_function_power(tokens, a) == found(one, a));
    if tokens[a] is LParen {
        assert(parse_group(tokens, a) == parse_primary(tokens, a));
    }
    assert(parse_argument(tokens, a) == found(arg, d));
    assert(powered(Term::call(name, arg), one) == Term::call(name, arg));
}

/// The parts of the tokens of a binary node, where they stand.
pub proof fn lemma_binary_stands(
    tokens: Seq<Lexeme>,
    p: int,
    op: Op,
    left: Term,
    right: Term,
    minus: Set<Number>,
)
    requires
        stands_at(tokens, p, Term::binary(op, left, right), minus),
    ensures
        tokens[p] == Lexeme::LParen,
        stands_at(tokens, p + 1, left, minus),
        tokens[p + 1 + tree_tokens(left, minus).len()] == op_lexeme(op),
        stands_at(tokens, p + 2 + tree_tokens(left, minus).len(), right, minus),
        tokens[p + 2 + tree_tokens(left, minus).len() + tree_tokens(right, minus).len()]
            == Lexeme::RParen,
        tree_tokens(Term::binary(op, left, right), minus).len() == 3 + tree_tokens(
            left,
            minus,
        ).len() + tree_tokens(right, minus).len(),
{
    let t = Term::binary(op, left, right);
    let own = tree_tokens(t, minus);
    let l = tree_tokens(left, minus);
    let r = tree_tokens(right, minus);
    let end = p + own.len();
    let a = p + 1;
    let b = a + l.len();
    let c = b + 1;
    let d = c + r.len();
    assert(own =~= seq![Lexeme::LParen] + l + seq![op_lexeme(op)] + r + seq![Lexeme::RParen]);
    assert(tokens[p] == tokens.subrange(p, end)[0]);
    assert(tokens.subrange(a, b) =~= l) by {
        assert forall|i: int| 0 <= i < l.len() implies tokens.subrange(a, b)[i] == l[i] by {
            assert(tokens.subrange(p, end)[i + 1] == own[i + 1]);
        }
    }
    assert(tokens.subrange(c, d) =~= r) by {
        assert forall|i: int| 0 <= i < r.len() implies tokens.subrange(c, d)[i] == r[i] by {
            assert(tokens.subrange(p, end)[c - p + i] == own[c - p + i]);
        }
    }
    assert(tokens[b] == op_lexeme(op)) by {
        assert(tokens.subrange(p, end)[b - p] == own[b - p]);
    }
    assert(tokens[d] == Lexeme::RParen) by {
        assert(tokens.subrange(p, end)[d - p] == own[d - p]);
    }
}

/// The parts of the tokens of an application, where they stand.
pub proof fn lemma_application_stands(
    tokens: Seq<Lexeme>,
    p: int,
    name: Seq<char>,
    arg: Term,
    minus: Set<Number>,
)
    requires
        stands_at(tokens, p, Term::call(name, arg), minus),
    ensures
        tokens[p] == Lexeme::Function(name),
        stands_at(tokens, p + 1, arg, minus),
        tree_tokens(Term::call(name, arg), minus).len() == 1 + tree_tokens(arg, minus).len(),
{
    let own = tree_tokens(Term::call(name, arg), minus);
    let inner = tree_tokens(arg, minus);
    let end = p + own.len();
    assert(own =~= seq![Lexeme::Function(name)] + inner);
    assert(tokens[p] == tokens.subrange(p, end)[0]);
    assert(tokens.subrange(p + 1, end) =~= inner) by {
        assert forall|i: int| 0 <= i < inner.len() implies tokens.subrange(p + 1, end)[i]
            == inner[i] by {
            assert(tokens.subrange(p, end)[i + 1] == own[i + 1]);
        }
    }
}

/// Where the tokens of a tree stand that can be read as a primary, an
/// operand starts, and a number there is the whole tree.
pub proof fn lemma_primary_start(tokens: Seq<Lexeme>, p: int, t: Term, minus: Set<Number>)
    requires
        stands_at(tokens, p, t, minus),
        fits_primary(t, minus),
    ensures
        starts_operand(tokens, p),
        !(tokens[p] is Minus),
        tokens[p] is Number ==> tree_tokens(t, minus).len() == 1,
{
    lemma_first_token(t, minus);
    assert(tokens[p] == tokens.subrange(p, p + tree_tokens(t, minus).len())[0]);
}

/// Where the tokens of a tree stand that can be read as a primary, a primary
/// is parsed that is the tree and ends where they end.
pub proof fn lemma_parse_primary_tokens(t: Term, tokens: Seq<Lexeme>, p: int, minus: Set<Number>)
    requires
        stands_at(tokens, p, t, minus),
        fits_primary(t, minus),
    ensures
        parse_primary(tokens, p) == found(t, p + tree_tokens(t, minus).len()),
    decreases t, 0int,
{
    lemma_primary_start(tokens, p, t, minus);
    match t {
        Term::Num(n) => {
            assert(tokens[p] == tokens.subrange(p, p + 1)[0]);
        },
        Term::Var(name) => {
            assert(tokens[p] == tokens.subrange(p, p + 1)[0]);
        },
        Term::FuncCall { name, arg } => {
            assert(t == Term::call(name, *arg));
            lemma_application_stands(tokens, p, name, *arg, minus);
            lemma_parse_primary_tokens(*arg, tokens, p + 1, minus);
            lemma_primary_start(tokens, p + 1, *arg, minus);
            lemma_application(tokens, name, *arg, p, p + 1 + tree_tokens(*arg, minus).len());
        },
        Term::BinaryOp { op, left, right } => {
            assert(t == Term::binary(op, *left, *right));
            lemma_binary_stands(tokens, p, op, *left, *right, minus);
            let a = p + 1;
            let b = a + tree_tokens(*left, minus).len();
            let c = b + 1;
            let d = c + tree_tokens(*right, minus).len();
            lemma_first_token(*left, minus);
            lemma_first_token(*right, minus);
            lemma_parse_unary_tokens(*left, tokens, a, minus);
            if op == Op::Pow {
                lemma_parse_primary_tokens(*right, tokens, c, minus);
                lemma_primary_start(tokens, c, *right, minus);
                lemma_exponent_at_close(tokens, *right, c, d);
            } else {
                lemma_parse_unary_tokens(*right, tokens, c, minus);
            }
            lemma_binary_at_close(tokens, op, *left, *right, a, b, d);
            assert(parse_group(tokens, p) == found(t, d + 1));
        },
    }
}

/// Where the tokens of a tree stand that can be read behind a minus sign, a
/// unary is parsed that is the tree and ends where they end.
pub proof fn lemma_parse_unary_tokens(t: Term, tokens: Seq<Lexeme>, p: int, minus: Set<Number>)
    requires
        stands_at(tokens, p, t, minus),
        fits_unary(t, minus),
    ensures
        parse_unary(tokens, p) == found(t, p + tree_tokens(t, minus).len()),
    decreases t, 1int,
{
    if fits_primary(t, minus) {
        lemma_primary_start(tokens, p, t, minus);
        lemma_parse_primary_tokens(t, tokens, p, minus);
    } else {
        let n = t->Num_0;
        let own = tree_tokens(t, minus);
        assert(own == seq![Lexeme::Minus, Lexeme::Number(n.negated())]);
        assert(tokens[p] == tokens.subrange(p, p + 2)[0]);
        assert(tokens[p + 1] == tokens.subrange(p, p + 2)[1]);
        lemma_negated_twice(n);
        assert(parse_primary(tokens, p + 1) == found(Term::Num(n.negated()), p + 2));
        assert(parse_unary(tokens, p + 1) == found(Term::Num(n.negated()), p + 2));
        assert(negation(Term::Num(n.negated())) == t);
    }
}

/// Parsing the tokens of a tree that can be read behind a minus sign gives
/// the tree.
pub proof fn lemma_tree_tokens_parse(t: Term, minus: Set<Number>)
    requires
        fits_unary(t, minus),
    ensures
        tree_of(tree_tokens(t, minus)) == Ok::<Term, ParseError>(t),
{
    let tokens = tree_tokens(t, minus);
    let n = tokens.len() as int;
    assert(tokens.subrange(0, n) =~= tokens);
    lemma_first_token(t, minus);
    lemma_parse_unary_tokens(t, tokens, 0, minus);
    lemma_unary_at_close(tokens, t, 0, n);
}

/// Where no literal is written with a minus sign, every tree can be read as
/// a primary.
pub proof fn lemma_fits_without_minus(t: Term)
    ensures
        fits_primary(t, Set::empty()),
    decreases t,
{
    match t {
        Term::Num(_) => {},
        Term::Var(_) => {},
        Term::FuncCall { name, arg } => {
            lemma_fits_without_minus(*arg);
        },
        Term::BinaryOp { op, left, right } => {
            lemma_fits_without_minus(*left);
            lemma_fits_without_minus(*right);
        },
    }
}

/// Parsing the canonical tokens of a tree gives the tree.
pub proof fn lemma_canonical_tokens_parse(t: Term)
    ensures
        tree_of(canonical_tokens(t)) == Ok::<Term, ParseError>(t),
{
    lemma_fits_without_minus(t);
    lemma_tree_tokens_parse(t, Set::empty());
}

/// Whether the decimal text of a literal is a decimal literal that denotes
/// the same value.
pub open spec fn reads_back(n: Number) -> bool {
    is_decimal_literal(decimal_text(n.bits)) && decimal_value(decimal_text(n.bits)) == n.bits
}

/// Whether the decimal text of a literal is a minus sign and a decimal
/// literal that denotes the value of opposite sign.
pub open spec fn reads_back_negated(n: Number) -> bool {
    let text = decimal_text(n.bits);
    &&& text.len() >= 1
    &&& text[0] == '-'
    &&& is_decimal_literal(text.skip(1))
    &&& decimal_value(text.skip(1)) == n.negated().bits
}

/// The literals that are written with a minus sign and read back.
pub open spec fn written_negative() -> Set<Number> {
    Set::new(|n: Number| reads_back_negated(n))
}

/// A literal is not written both without and with a minus sign.
pub proof fn lemma_one_way_written(n: Number)
    ensures
        !(reads_back(n) && reads_back_negated(n)),
{
    let text = decimal_text(n.bits);
    if reads_back(n) && text.len() >= 1 {
        assert(is_digit(text[0]) || text[0] == '.');
    }
}

/// A name that is read as one identifier: letters, at least one, among which
/// the name of no function stands.
pub open spec fn is_plain_name(name: Seq<char>) -> bool {
    &&& name.len() >= 1
    &&& forall|i: int| 0 <= i < name.len() ==> is_letter(#[trigger] name[i])
    &&& forall|i: int| 0 <= i < name.len() ==> #[trigger] function_at(name, i) is None
}

/// A tree whose canonical text gives its tokens: its literals read back,
/// without or with a minus sign, its variables are plain names, and its
/// functions are built-in functions.
pub open spec fn is_legible(t: Term) -> bool
    decreases t,
{
    match t {
        Term::Num(n) => reads_back(n) || reads_back_negated(n),
        Term::Var(name) => is_plain_name(name),
        Term::BinaryOp { op, left, right } => is_legible(*left) && is_legible(*right),
        Term::FuncCall { name, arg } => FunctionKind::from_name(name) is Some && is_legible(*arg),
    }
}

/// The tokens that the canonical text of a legible tree gives.
pub open spec fn written_tokens(t: Term) -> Seq<Lexeme> {
    tree_tokens(t, written_negative())
}

/// A tree whose canonical text can be read back: it is legible, and no
/// literal that is written with a minus sign is the argument of a function or
/// an exponent.
pub open spec fn is_printable(t: Term) -> bool {
    is_legible(t) && fits_unary(t, written_negative())
}

/// Whether a token can end before position `e`: at the end of the text, or
/// before a blank or a closing parenthesis.
pub open spec fn ends_token(s: Seq<char>, e: int) -> bool {
    e == s.len() || (0 <= e < s.len() && (s[e] == ' ' || s[e] == ')'))
}

/// Whether no product sign is put after the tokens `acc`.
pub open spec fn is_quiet(acc: Seq<Lexeme>) -> bool {
    acc.len() == 0 || !(acc.last() is Number || acc.last() is Identifier || acc.last() is RParen)
}

/// A run of digits and points ends where the first other character stands.
pub proof fn lemma_number_run(s: Seq<char>, from: int, end: int)
    requires
        0 <= from <= end <= s.len(),
        forall|i: int| from <= i < end ==> is_number_char(#[trigger] s[i]),
        end == s.len() || !is_number_char(s[end]),
    ensures
        number_end(s, from) == end,
    decreases end - from,
{
    if from < end {
        lemma_number_run(s, from + 1, end);
    }
}

/// A run of letters ends where the first other character stands.
pub proof fn lemma_letter_run(s: Seq<char>, from: int, end: int)
    requires
        0 <= from <= end <= s.len(),
        forall|i: int| from <= i < end ==> is_letter(#[trigger] s[i]),
        end == s.len() || !is_letter(s[end]),
    ensures
        letters_end(s, from) == end,
    decreases end - from,
{
    if from < end {
        lemma_letter_run(s, from + 1, end);
    }
}

/// A blank gives no token.
pub proof fn lemma_scan_blank(s: Seq<char>, at: int, acc: Seq<Lexeme>)
    requires
        0 <= at < s.len(),
        s[at] == ' ',
    ensures
        scan(s, at, acc) == scan(s, at + 1, acc),
{
}

/// The character of an operator gives the token of the operator.
pub proof fn lemma_scan_operator(s: Seq<char>, at: int, acc: Seq<Lexeme>, op: Op)
    requires
        0 <= at < s.len(),
        s[at] == op.symbol(),
    ensures
        scan(s, at, acc) == scan(s, at + 1, acc.push(op_lexeme(op))),
{
    assert(sign(op.symbol()) == Some(op_lexeme(op)));
}

/// A decimal literal that stands after quiet tokens, and after which a token
/// can end, gives one number.
pub proof fn lemma_scan_number(s: Seq<char>, at: int, text: Seq<char>, acc: Seq<Lexeme>)
    requires
        starts_with(s, at, text),
        is_decimal_literal(text),
        ends_token(s, at + text.len()),
        is_quiet(acc),
    ensures
        text.len() >= 1,
        scan(s, at, acc) == scan(
            s,
            at + text.len(),
            acc.push(Lexeme::Number(Number { bits: decimal_value(text) })),
        ),
{
    let end = at + text.len();
    assert(text.len() >= 1) by {
        if text.len() == 0 {
            assert(digit_count(text) == 0);
        }
    }
    assert forall|i: int| at <= i < end implies is_number_char(#[trigger] s[i]) by {
        assert(s.subrange(at, end)[i - at] == text[i - at]);
    }
    lemma_number_run(s, at + 1, end);
}

/// A word that stands in a run also stands in the part of the run that
/// holds it, and the other way round.
pub proof fn lemma_starts_with_shift(run: Seq<char>, at: int, p: int, word: Seq<char>)
    requires
        0 <= at <= p <= run.len(),
    ensures
        starts_with(run, p, word) == starts_with(run.subrange(at, run.len() as int), p - at, word),
{
    let part = run.subrange(at, run.len() as int);
    if p + word.len() <= run.len() {
        assert(part.subrange(p - at, p - at + word.len()) =~= run.subrange(p, p + word.len()));
    }
}

/// No function is found in a run where none is found in the part of the
/// run that holds the position.
pub proof fn lemma_no_function_in_run(run: Seq<char>, at: int, p: int)
    requires
        0 <= at <= p < run.len(),
        function_at(run.subrange(at, run.len() as int), p - at) is None,
    ensures
        function_at(run, p) is None,
{
    let part = run.subrange(at, run.len() as int);
    lemma_function_at_is_longest(part, p - at);
    lemma_function_at_is_longest(run, p);
    match function_at(run, p) {
        Some(kind) => {
            lemma_starts_with_shift(run, at, p, kind.name());
            assert(starts_with(part, p - at, kind.name()));
        },
        None => {},
    }
}

/// A plain name at the end of a run is one identifier.
pub proof fn lemma_segments_plain(run: Seq<char>, at: int, p: int)
    requires
        0 <= at <= p <= run.len(),
        at < run.len(),
        is_plain_name(run.subrange(at, run.len() as int)),
    ensures
        segments(run, p, at) == seq![Lexeme::Identifier(run.subrange(at, run.len() as int))],
    decreases run.len() - p,
{
    if p < run.len() {
        lemma_no_function_in_run(run, at, p);
        lemma_segments_plain(run, at, p + 1);
    }
}

/// The name of a function at the end of a run is one function token.
pub proof fn lemma_segments_function(run: Seq<char>, at: int, kind: FunctionKind)
    requires
        0 <= at,
        at + kind.name().len() == run.len(),
        run.subrange(at, run.len() as int) == kind.name(),
    ensures
        segments(run, at, at) == seq![Lexeme::Function(kind.name())],
{
    lemma_function_name_letters(kind);
    lemma_function_at_is_longest(run, at);
    assert(starts_with(run, at, kind.name()));
    match function_at(run, at) {
        Some(found) => {
            assert(found.name().len() == kind.name().len());
            assert(found.name() =~= kind.name());
            lemma_names_differ();
            let next = at + kind.name().len();
            assert(segments(run, next, next) =~= seq![]);
            assert(gathered(run, at, at) =~= seq![]);
            assert(segments(run, at, at) =~= seq![Lexeme::Function(kind.name())]);
        },
        None => {},
    }
}

/// A run of letters that stands after quiet tokens, and after which a token
/// can end, gives the tokens of its segments.
pub proof fn lemma_scan_letters(s: Seq<char>, at: int, word: Seq<char>, acc: Seq<Lexeme>)
    requires
        starts_with(s, at, word),
        word.len() >= 1,
        forall|i: int| 0 <= i < word.len() ==> is_letter(#[trigger] word[i]),
        ends_token(s, at + word.len()),
        is_quiet(acc),
    ensures
        scan(s, at, acc) == scan(
            s,
            at + word.len(),
            acc + segments(s.take(at + word.len()), at, at),
        ),
{
    let end = at + word.len();
    assert forall|i: int| at <= i < end implies is_letter(#[trigger] s[i]) by {
        assert(s.subrange(at, end)[i - at] == word[i - at]);
    }
    lemma_letter_run(s, at + 1, end);
}

/// The parts of the canonical text of a binary node, where they stand.
pub proof fn lemma_binary_text(s: Seq<char>, at: int, op: Op, left: Term, right: Term)
    requires
        starts_with(s, at, Term::binary(op, left, right).text()),
    ensures
        Term::binary(op, left, right).text().len() == left.text().len() + right.text().len() + 5,
        s[at] == '(',
        starts_with(s, at + 1, left.text()),
        s[at + 1 + left.text().len()] == ' ',
        s[at + 2 + left.text().len()] == op.symbol(),
        s[at + 3 + left.text().len()] == ' ',
        starts_with(s, at + 4 + left.text().len(), right.text()),
        s[at + 4 + left.text().len() + right.text().len()] == ')',
{
    let own = Term::binary(op, left, right).text();
    let lt = left.text();
    let rt = right.text();
    let end = at + own.len();
    let a = at + 1;
    let b = a + lt.len();
    let c = b + 3;
    let d = c + rt.len();
    assert(own =~= seq!['('] + lt + seq![' ', op.symbol(), ' '] + rt + seq![')']);
    assert(s[at] == s.subrange(at, end)[0]);
    assert(s.subrange(a, b) =~= lt) by {
        assert forall|i: int| 0 <= i < lt.len() implies s.subrange(a, b)[i] == lt[i] by {
            assert(s.subrange(at, end)[i + 1] == own[i + 1]);
        }
    }
    assert(s.subrange(c, d) =~= rt) by {
        assert forall|i: int| 0 <= i < rt.len() implies s.subrange(c, d)[i] == rt[i] by {
            assert(s.subrange(at, end)[c - at + i] == own[c - at + i]);
        }
    }
    assert(s[b] == ' ') by {
        assert(s.subrange(at, end)[b - at] == own[b - at]);
    }
    assert(s[b + 1] == op.symbol()) by {
        assert(s.subrange(at, end)[b + 1 - at] == own[b + 1 - at]);
    }
    assert(s[b + 2] == ' ') by {
        assert(s.subrange(at, end)[b + 2 - at] == own[b + 2 - at]);
    }
    assert(s[d] == ')') by {
        assert(s.subrange(at, end)[d - at] == own[d - at]);
    }
}

/// The parts of the canonical text of an application, where they stand.
pub proof fn lemma_application_text(s: Seq<char>, at: int, name: Seq<char>, arg: Term)
    requires
        starts_with(s, at, Term::call(name, arg).text()),
    ensures
        Term::call(name, arg).text().len() == name.len() + arg.text().len() + 1,
        starts_with(s, at, name),
        s[at + name.len()] == ' ',
        starts_with(s, at + name.len() + 1, arg.text()),
{
    let own = Term::call(name, arg).text();
    let inner = arg.text();
    let end = at + own.len();
    let b = at + name.len();
    assert(own =~= name + seq![' '] + inner);
    assert(s.subrange(at, b) =~= name) by {
        assert forall|i: int| 0 <= i < name.len() implies s.subrange(at, b)[i] == name[i] by {
            assert(s.subrange(at, end)[i] == own[i]);
        }
    }
    assert(s.subrange(b + 1, end) =~= inner) by {
        assert forall|i: int| 0 <= i < inner.len() implies s.subrange(b + 1, end)[i]
            == inner[i] by {
            assert(s.subrange(at, end)[b + 1 - at + i] == own[b + 1 - at + i]);
        }
    }
    assert(s[b] == ' ') by {
        assert(s.subrange(at, end)[b - at] == own[b - at]);
    }
}

/// The function of a name that some function has is a function of that
/// name.
pub proof fn lemma_from_name(name: Seq<char>)
    requires
        FunctionKind::from_name(name) is Some,
    ensures
        FunctionKind::from_name(name)->Some_0.name() == name,
{
}

/// A plain name that stands after quiet tokens, and after which a token can
/// end, gives one identifier.
pub proof fn lemma_scan_variable(s: Seq<char>, at: int, name: Seq<char>, acc: Seq<Lexeme>)
    requires
        is_plain_name(name),
        starts_with(s, at, name),
        ends_token(s, at + name.len()),
        is_quiet(acc),
    ensures
        scan(s, at, acc) == scan(s, at + name.len(), acc + seq![Lexeme::Identifier(name)]),
{
    let end = at + name.len();
    lemma_scan_letters(s, at, name, acc);
    let run = s.take(end);
    assert(run.subrange(at, run.len() as int) =~= name);
    lemma_segments_plain(run, at, at);
}

/// The name of a function that stands after quiet tokens and before a blank
/// gives one function token, and the blank none.
pub proof fn lemma_scan_function(s: Seq<char>, at: int, name: Seq<char>, acc: Seq<Lexeme>)
    requires
        FunctionKind::from_name(name) is Some,
        starts_with(s, at, name),
        at + name.len() < s.len(),
        s[at + name.len()] == ' ',
        is_quiet(acc),
    ensures
        scan(s, at, acc) == scan(s, at + name.len() + 1, acc + seq![Lexeme::Function(name)]),
        is_quiet(acc + seq![Lexeme::Function(name)]),
{
    lemma_from_name(name);
    let kind = FunctionKind::from_name(name)->Some_0;
    lemma_function_name_letters(kind);
    let b = at + name.len();
    lemma_scan_letters(s, at, name, acc);
    let run = s.take(b);
    assert(run.subrange(at, run.len() as int) =~= name);
    lemma_segments_function(run, at, kind);
    let named = acc + seq![Lexeme::Function(name)];
    assert(named.last() == Lexeme::Function(name));
    lemma_scan_blank(s, b, named);
}

/// An opening parenthesis after quiet tokens: its token, after which the
/// tokens are quiet.
pub proof fn lemma_scan_opening(s: Seq<char>, at: int, acc: Seq<Lexeme>)
    requires
        0 <= at < s.len(),
        s[at] == '(',
        is_quiet(acc),
    ensures
        scan(s, at, acc) == scan(s, at + 1, acc + seq![Lexeme::LParen]),
        is_quiet(acc + seq![Lexeme::LParen]),
{
    assert(acc.push(Lexeme::LParen) =~= acc + seq![Lexeme::LParen]);
    assert((acc + seq![Lexeme::LParen]).last() == Lexeme::LParen);
}

/// An operator between two blanks: its token, after which the tokens are
/// quiet.
pub proof fn lemma_scan_infix(s: Seq<char>, b: int, acc: Seq<Lexeme>, op: Op)
    requires
        0 <= b,
        b + 2 < s.len(),
        s[b] == ' ',
        s[b + 1] == op.symbol(),
        s[b + 2] == ' ',
    ensures
        scan(s, b, acc) == scan(s, b + 3, acc + seq![op_lexeme(op)]),
        is_quiet(acc + seq![op_lexeme(op)]),
{
    lemma_scan_blank(s, b, acc);
    lemma_scan_operator(s, b + 1, acc, op);
    assert(acc.push(op_lexeme(op)) =~= acc + seq![op_lexeme(op)]);
    lemma_scan_blank(s, b + 2, acc + seq![op_lexeme(op)]);
    assert((acc + seq![op_lexeme(op)]).last() == op_lexeme(op));
}

/// A closing parenthesis: its token.
pub proof fn lemma_scan_closing(s: Seq<char>, at: int, acc: Seq<Lexeme>)
    requires
        0 <= at < s.len(),
        s[at] == ')',
    ensures
        scan(s, at, acc) == scan(s, at + 1, acc + seq![Lexeme::RParen]),
{
    assert(sign(')') == Some(Lexeme::RParen));
    assert(acc.push(Lexeme::RParen) =~= acc + seq![Lexeme::RParen]);
}

/// A literal that reads back, without or with a minus sign, after quiet
/// tokens and where a token can end after it, gives its tokens.
pub proof fn lemma_scan_literal(s: Seq<char>, at: int, n: Number, acc: Seq<Lexeme>)
    requires
        reads_back(n) || reads_back_negated(n),
        starts_with(s, at, decimal_text(n.bits)),
        ends_token(s, at + decimal_text(n.bits).len()),
        is_quiet(acc),
    ensures
        decimal_text(n.bits).len() >= 1,
        scan(s, at, acc) == scan(
            s,
            at + decimal_text(n.bits).len(),
            acc + literal_tokens(n, written_negative()),
        ),
{
    let text = decimal_text(n.bits);
    let end = at + text.len();
    lemma_one_way_written(n);
    if reads_back_negated(n) {
        let digits = text.skip(1);
        assert(s[at] == s.subrange(at, end)[0]);
        assert(s.subrange(at + 1, end) =~= digits) by {
            assert forall|i: int| 0 <= i < digits.len() implies s.subrange(at + 1, end)[i]
                == digits[i] by {
                assert(s.subrange(at, end)[i + 1] == text[i + 1]);
            }
        }
        lemma_scan_operator(s, at, acc, Op::Sub);
        let signed = acc.push(Lexeme::Minus);
        assert(signed.last() == Lexeme::Minus);
        lemma_scan_number(s, at + 1, digits, signed);
        assert(Number { bits: decimal_value(digits) } == n.negated());
        assert(signed.push(Lexeme::Number(n.negated())) =~= acc + literal_tokens(
            n,
            written_negative(),
        ));
    } else {
        lemma_scan_number(s, at, text, acc);
        assert(acc.push(Lexeme::Number(Number { bits: decimal_value(text) })) =~= acc
            + literal_tokens(n, written_negative()));
    }
}

/// Where the canonical text of a legible tree stands after quiet tokens,
/// and a token can end after it, the first pass gives the tokens of the
/// tree.
pub proof fn lemma_scan_text(t: Term, s: Seq<char>, at: int, acc: Seq<Lexeme>)
    requires
        is_legible(t),
        starts_with(s, at, t.text()),
        ends_token(s, at + t.text().len()),
        is_quiet(acc),
    ensures
        t.text().len() >= 1,
        scan(s, at, acc) == scan(s, at + t.text().len(), acc + written_tokens(t)),
    decreases t,
{
    match t {
        Term::Num(n) => {
            lemma_scan_literal(s, at, n, acc);
        },
        Term::Var(name) => {
            lemma_scan_variable(s, at, name, acc);
        },
        Term::FuncCall { name, arg } => {
            assert(t == Term::call(name, *arg));
            lemma_application_text(s, at, name, *arg);
            lemma_scan_function(s, at, name, acc);
            let named = acc + seq![Lexeme::Function(name)];
            lemma_scan_text(*arg, s, at + name.len() + 1, named);
            assert(named + written_tokens(*arg) =~= acc + written_tokens(t));
        },
        Term::BinaryOp { op, left, right } => {
            assert(t == Term::binary(op, *left, *right));
            lemma_binary_text(s, at, op, *left, *right);
            let a = at + 1;
            let b = a + left.text().len();
            let c = b + 3;
            let d = c + right.text().len();
            lemma_scan_opening(s, at, acc);
            let opened = acc + seq![Lexeme::LParen];
            lemma_scan_text(*left, s, a, opened);
            let with_left = opened + written_tokens(*left);
            lemma_scan_infix(s, b, with_left, op);
            let with_op = with_left + seq![op_lexeme(op)];
            lemma_scan_text(*right, s, c, with_op);
            let with_right = with_op + written_tokens(*right);
            lemma_scan_closing(s, d, with_right);
            assert(with_right + seq![Lexeme::RParen] =~= acc + written_tokens(t));
        },
    }
}

/// Whether no number follows an identifier directly.
pub open spec fn has_no_adjacent_pair(tokens: Seq<Lexeme>) -> bool {
    forall|i: int|
        0 <= i && i + 1 < tokens.len() && (#[trigger] tokens[i]) is Identifier ==> !(tokens[i
            + 1] is Number)
}

/// Two sequences without such a pair, joined where there is none either.
pub proof fn lemma_join_no_pair(a: Seq<Lexeme>, b: Seq<Lexeme>)
    requires
        has_no_adjacent_pair(a),
        has_no_adjacent_pair(b),
        a.len() > 0 && b.len() > 0 ==> !(a.last() is Identifier && b[0] is Number),
    ensures
        has_no_adjacent_pair(a + b),
{
    let all = a + b;
    assert forall|i: int| 0 <= i && i + 1 < all.len() && (#[trigger] all[i]) is Identifier implies !(
    all[i + 1] is Number) by {
        if i + 1 < a.len() {
            assert(all[i] == a[i]);
            assert(all[i + 1] == a[i + 1]);
        } else if i < a.len() {
            assert(all[i] == a.last());
            assert(all[i + 1] == b[0]);
        } else {
            assert(all[i] == b[i - a.len()]);
            assert(all[i + 1] == b[i - a.len() + 1]);
        }
    }
}

/// In the tokens of a tree no number follows an identifier directly.
pub proof fn lemma_tokens_no_pair(t: Term, minus: Set<Number>)
    ensures
        has_no_adjacent_pair(tree_tokens(t, minus)),
    decreases t,
{
    match t {
        Term::Num(n) => {},
        Term::Var(name) => {},
        Term::FuncCall { name, arg } => {
            lemma_tokens_no_pair(*arg, minus);
            lemma_join_no_pair(seq![Lexeme::Function(name)], tree_tokens(*arg, minus));
        },
        Term::BinaryOp { op, left, right } => {
            lemma_tokens_no_pair(*left, minus);
            lemma_tokens_no_pair(*right, minus);
            let opened = seq![Lexeme::LParen] + tree_tokens(*left, minus);
            lemma_join_no_pair(seq![Lexeme::LParen], tree_tokens(*left, minus));
            let with_op = opened + seq![op_lexeme(op)];
            lemma_join_no_pair(opened, seq![op_lexeme(op)]);
            assert(with_op.last() == op_lexeme(op));
            let with_right = with_op + tree_tokens(*right, minus);
            lemma_join_no_pair(with_op, tree_tokens(*right, minus));
            lemma_join_no_pair(with_right, seq![Lexeme::RParen]);
        },
    }
}

/// The second pass adds nothing where no number follows an identifier
/// directly.
pub proof fn lemma_no_powers_added(tokens: Seq<Lexeme>, upto: int)
    requires
        has_no_adjacent_pair(tokens),
        0 <= upto <= tokens.len(),
    ensures
        with_powers(tokens, upto) == tokens.take(upto),
    decreases upto,
{
    if upto > 0 {
        lemma_no_powers_added(tokens, upto - 1);
        assert(!implicit_power_at(tokens, upto - 1));
        assert(tokens.take(upto - 1).push(tokens[upto - 1]) =~= tokens.take(upto));
    } else {
        assert(tokens.take(0) =~= seq![]);
    }
}

/// The canonical text of a legible tree gives the tokens of the tree.
pub proof fn lemma_text_gives_tokens(t: Term)
    requires
        is_legible(t),
    ensures
        tokens_of(t.text()) == Ok::<Seq<Lexeme>, TokenizeError>(written_tokens(t)),
{
    let s = t.text();
    let tokens = written_tokens(t);
    assert(s.subrange(0, s.len() as int) =~= s);
    lemma_scan_text(t, s, 0, seq![]);
    assert(seq![] + tokens =~= tokens);
    assert(scan(s, s.len() as int, tokens) == Ok::<Seq<Lexeme>, TokenizeError>(tokens));
    lemma_tokens_no_pair(t, written_negative());
    lemma_no_powers_added(tokens, tokens.len() as int);
    assert(tokens.take(tokens.len() as int) =~= tokens);
}

/// The canonical text of a printable tree is read back as the tree: the
/// text gives the tokens of the tree, and they parse to the tree.
pub proof fn lemma_text_reads_back(t: Term)
    requires
        is_printable(t),
    ensures
        tokens_of(t.text()) == Ok::<Seq<Lexeme>, TokenizeError>(written_tokens(t)),
        tree_of(written_tokens(t)) == Ok::<Term, ParseError>(t),
{
    lemma_text_gives_tokens(t);
    lemma_tree_tokens_parse(t, written_negative());
}

/// A tree whose simplified form is normal and printable: the canonical text
/// of the simplified form is read back as a tree that simplification leaves
/// as it is, which is the simplified form.
pub proof fn lemma_simplified_text_reads_back(t: Term)
    requires
        is_normal(simplified(t)),
        is_printable(simplified(t)),
    ensures
        tokens_of(simplified(t).text()) is Ok,
        tree_of(tokens_of(simplified(t).text())->Ok_0) is Ok,
        simplified(tree_of(tokens_of(simplified(t).text())->Ok_0)->Ok_0) == simplified(t),
{
    lemma_text_reads_back(simplified(t));
    lemma_normal_is_fixed(simplified(t));
}

} // verus!
