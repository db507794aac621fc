//! The built-in functions and the derivative of each.
use crate::ast::Expr;
use crate::ast::Op;
use crate::ast::Term;
use crate::number::Number;
use vstd::prelude::*;
use vstd::string::StringExecFns;

verus! {

/// A built-in function.
#[derive(Clone, Copy, Debug, PartialEq, Eq, Structural)]
pub enum FunctionKind {
    Sin,
    Cos,
    Tan,
    Cot,
    Sec,
    Cosec,
    Log,
    Exp,
    Sqrt,
    Abs,
    Arcsin,
    Arccos,
    Arctan,
    Arccot,
    Arcsec,
    Arccsc,
}

/// Differentiation met a function that has no derivative rule.
#[derive(Debug, PartialEq, Eq)]
pub enum DifferentiationError {
    UnknownFunction(String),
}

impl View for DifferentiationError {
    type V = Seq<char>;

    /// The name that was not found.
    open spec fn view(&self) -> Seq<char> {
        match self {
            DifferentiationError::UnknownFunction(name) => name@,
        }
    }
}

/// The message of an unknown function, before the name.
pub open spec fn unknown_function_prefix() -> Seq<char> {
    seq![
        'U',
        'n',
        'k',
        'n',
        'o',
        'w',
        'n',
        ' ',
        'f',
        'u',
        'n',
        'c',
        't',
        'i',
        'o',
        'n',
        ':',
        ' ',
    ]
}

impl DifferentiationError {
    /// A message for people: `Unknown function: ` and the name.
    pub fn to_text(&self) -> (r: String)
        ensures
            r@ == unknown_function_prefix() + self@,
    {
        proof {
            reveal_strlit("Unknown function: ");
        }
        match self {
            DifferentiationError::UnknownFunction(name) => {
                let mut out = String::from_str("Unknown function: ");
                assert(out@ =~= unknown_function_prefix());
                out.append(name.as_str());
                out
            },
        }
    }
}

impl FunctionKind {
    /// The name by which the function is written and looked up.
    pub open spec fn name(self) -> Seq<char> {
        match self {
            FunctionKind::Sin => seq!['s', 'i', 'n'],
            FunctionKind::Cos => seq!['c', 'o', 's'],
            FunctionKind::Tan => seq!['t', 'a', 'n'],
            FunctionKind::Cot => seq!['c', 'o', 't'],
            FunctionKind::Sec => seq!['s', 'e', 'c'],
            FunctionKind::Cosec => seq!['c', 'o', 's', 'e', 'c'],
            FunctionKind::Log => seq!['l', 'o', 'g'],
            FunctionKind::Exp => seq!['e', 'x', 'p'],
            FunctionKind::Sqrt => seq!['s', 'q', 'r', 't'],
            FunctionKind::Abs => seq!['a', 'b', 's'],
            FunctionKind::Arcsin => seq!['a', 'r', 'c', 's', 'i', 'n'],
            FunctionKind::Arccos => seq!['a', 'r', 'c', 'c', 'o', 's'],
            FunctionKind::Arctan => seq!['a', 'r', 'c', 't', 'a', 'n'],
            FunctionKind::Arccot => seq!['a', 'r', 'c', 'c', 'o', 't'],
            FunctionKind::Arcsec => seq!['a', 'r', 'c', 's', 'e', 'c'],
            FunctionKind::Arccsc => seq!['a', 'r', 'c', 'c', 's', 'c'],
        }
    }

    /// The function of a given name, if there is one.
    pub open spec fn from_name(name: Seq<char>) -> Option<FunctionKind> {
        if exists|k: FunctionKind| k.name() == name {
            Some(choose|k: FunctionKind| k.name() == name)
        } else {
            None
        }
    }

    /// The application of the function to `arg`.
    pub open spec fn of(self, arg: Term) -> Term {
        Term::call(self.name(), arg)
    }

    /// The derivative of the function, taken at `arg`.
    pub open spec fn outer_derivative(self, arg: Term) -> Term {
        let one = Term::Num(Number::one());
        let two = Term::Num(Number::two());
        let minus_one = Term::Num(Number::minus_one());
        let square = Term::binary(Op::Pow, arg, two);
        match self {
            FunctionKind::Sin => FunctionKind::Cos.of(arg),
            FunctionKind::Cos => Term::binary(Op::Mul, minus_one, FunctionKind::Sin.of(arg)),
            FunctionKind::Tan => Term::binary(Op::Pow, FunctionKind::Sec.of(arg), two),
            FunctionKind::Cot => Term::binary(
                Op::Mul,
                minus_one,
                Term::binary(Op::Pow, FunctionKind::Cosec.of(arg), two),
            ),
            FunctionKind::Sec => Term::binary(
                Op::Mul,
                FunctionKind::Sec.of(arg),
                FunctionKind::Tan.of(arg),
            ),
            FunctionKind::Cosec => Term::binary(
                Op::Mul,
                minus_one,
                Term::binary(Op::Mul, FunctionKind::Cosec.of(arg), FunctionKind::Cot.of(arg)),
            ),
            FunctionKind::Log => Term::binary(Op::Div, one, arg),
            FunctionKind::Exp => FunctionKind::Exp.of(arg),
            FunctionKind::Sqrt => Term::binary(
                Op::Div,
                one,
                Term::binary(Op::Mul, two, FunctionKind::Sqrt.of(arg)),
            ),
            FunctionKind::Abs => Term::binary(Op::Div, arg, FunctionKind::Abs.of(arg)),
            FunctionKind::Arcsin => Term::binary(
                Op::Div,
                one,
                FunctionKind::Sqrt.of(Term::binary(Op::Sub, one, square)),
            ),
            FunctionKind::Arccos => Term::binary(
                Op::Mul,
                minus_one,
                Term::binary(
                    Op::Div,
                    one,
                    FunctionKind::Sqrt.of(Term::binary(Op::Sub, one, square)),
                ),
            ),
            FunctionKind::Arctan => Term::binary(Op::Div, one, Term::binary(Op::Add, one, square)),
            FunctionKind::Arccot => Term::binary(
                Op::Mul,
                minus_one,
                Term::binary(Op::Div, one, Term::binary(Op::Add, one, square)),
            ),
            FunctionKind::Arcsec => Term::binary(
                Op::Div,
                one,
                Term::binary(
                    Op::Mul,
                    FunctionKind::Abs.of(arg),
                    FunctionKind::Sqrt.of(Term::binary(Op::Sub, square, one)),
                ),
            ),
            FunctionKind::Arccsc => Term::binary(
                Op::Mul,
                minus_one,
                Term::binary(
                    Op::Div,
                    one,
                    Term::binary(
                        Op::Mul,
                        FunctionKind::Abs.of(arg),
                        FunctionKind::Sqrt.of(Term::binary(Op::Sub, square, one)),
                    ),
                ),
            ),
        }
    }

    /// The name of the function.
    pub fn name_text(self) -> (r: &'static str)
        ensures
            r@ == self.name(),
    {
        proof {
            reveal_strlit("sin");
            reveal_strlit("cos");
            reveal_strlit("tan");
            reveal_strlit("cot");
            reveal_strlit("sec");
            reveal_strlit("cosec");
            reveal_strlit("log");
            reveal_strlit("exp");
            reveal_strlit("sqrt");
            reveal_strlit("abs");
            reveal_strlit("arcsin");
            reveal_strlit("arccos");
            reveal_strlit("arctan");
            reveal_strlit("arccot");
            reveal_strlit("arcsec");
            reveal_strlit("arccsc");
        }
        let r = match self {
            FunctionKind::Sin => "sin",
            FunctionKind::Cos => "cos",
            FunctionKind::Tan => "tan",
            FunctionKind::Cot => "cot",
            FunctionKind::Sec => "sec",
            FunctionKind::Cosec => "cosec",
            FunctionKind::Log => "log",
            FunctionKind::Exp => "exp",
            FunctionKind::Sqrt => "sqrt",
            FunctionKind::Abs => "abs",
            FunctionKind::Arcsin => "arcsin",
            FunctionKind::Arccos => "arccos",
            FunctionKind::Arctan => "arctan",
            FunctionKind::Arccot => "arccot",
            FunctionKind::Arcsec => "arcsec",
            FunctionKind::Arccsc => "arccsc",
        };
        assert(r@ =~= self.name());
        r
    }

    /// The sixteen functions, longest names first.
    pub fn all() -> (r: Vec<FunctionKind>)
        ensures
            r@ == FunctionKind::by_length(),
    {
        let r = vec![
            FunctionKind::Arcsin,
            FunctionKind::Arccos,
            FunctionKind::Arctan,
            FunctionKind::Arccot,
            FunctionKind::Arcsec,
            FunctionKind::Arccsc,
            FunctionKind::Cosec,
            FunctionKind::Sqrt,
            FunctionKind::Sin,
            FunctionKind::Cos,
            FunctionKind::Tan,
            FunctionKind::Cot,
            FunctionKind::Sec,
            FunctionKind::Log,
            FunctionKind::Exp,
            FunctionKind::Abs,
        ];
        assert(r@ =~= FunctionKind::by_length());
        r
    }

    /// The sixteen functions in an order in which no name is shorter than a
    /// later one.
    pub open spec fn by_length() -> Seq<FunctionKind> {
        seq![
            FunctionKind::Arcsin,
            FunctionKind::Arccos,
            FunctionKind::Arctan,
            FunctionKind::Arccot,
            FunctionKind::Arcsec,
            FunctionKind::Arccsc,
            FunctionKind::Cosec,
            FunctionKind::Sqrt,
            FunctionKind::Sin,
            FunctionKind::Cos,
            FunctionKind::Tan,
            FunctionKind::Cot,
            FunctionKind::Sec,
            FunctionKind::Log,
            FunctionKind::Exp,
            FunctionKind::Abs,
        ]
    }

    /// The function of a given name, if there is one.
    pub fn lookup(name: &str) -> (r: Option<FunctionKind>)
        ensures
            r == FunctionKind::from_name(name@),
    {
        let all = FunctionKind::all();
        let wanted = String::from_str(name);
        let mut i: usize = 0;
        while i < all.len()
            invariant
                i <= all.len(),
                all@ == FunctionKind::by_length(),
                wanted@ == name@,
                forall|j: int| 0 <= j < i ==> (#[trigger] all[j]).name() != name@,
            decreases all.len() - i,
        {
            let candidate = String::from_str(all[i].name_text());
            if candidate == wanted {
                proof {
                    lemma_names_differ();
                    let k = all[i as int];
                    assert(k.name() == name@);
                    let c = choose|k: FunctionKind| k.name() == name@;
                    assert(c.name() == k.name());
                }
                return Some(all[i]);
            }
            i += 1;
        }
        proof {
            assert forall|k: FunctionKind| k.name() != name@ by {
                lemma_all_listed(k);
                let j = choose|j: int|
                    0 <= j < FunctionKind::by_length().len() && FunctionKind::by_length()[j] == k;
                assert(all[j] == k);
            }
        }
        None
    }

    /// The application of the function to `arg`.
    pub fn apply(self, arg: Expr) -> (r: Expr)
        ensures
            r@ == self.of(arg@),
    {
        Expr::call(self.name_text(), arg)
    }

    /// The derivative of the function, taken at `arg`.
    pub fn derivative_at(self, arg: Expr) -> (r: Expr)
        ensures
            r@ == self.outer_derivative(arg@),
    {
        match self {
            FunctionKind::Sin => FunctionKind::Cos.apply(arg),
            FunctionKind::Cos => Expr::binary(Op::Mul, minus_one(), FunctionKind::Sin.apply(arg)),
            FunctionKind::Tan => Expr::binary(Op::Pow, FunctionKind::Sec.apply(arg), two()),
            FunctionKind::Cot => Expr::binary(
                Op::Mul,
                minus_one(),
                Expr::binary(Op::Pow, FunctionKind::Cosec.apply(arg), two()),
            ),
            FunctionKind::Sec => {
                let copy = arg.duplicate();
                Expr::binary(Op::Mul, FunctionKind::Sec.apply(copy), FunctionKind::Tan.apply(arg))
            },
            FunctionKind::Cosec => {
                let copy = arg.duplicate();
                Expr::binary(
                    Op::Mul,
                    minus_one(),
                    Expr::binary(
                        Op::Mul,
                        FunctionKind::Cosec.apply(copy),
                        FunctionKind::Cot.apply(arg),
                    ),
                )
            },
            FunctionKind::Log => Expr::binary(Op::Div, one(), arg),
            FunctionKind::Exp => FunctionKind::Exp.apply(arg),
            FunctionKind::Sqrt => Expr::binary(
                Op::Div,
                one(),
                Expr::binary(Op::Mul, two(), FunctionKind::Sqrt.apply(arg)),
            ),
            FunctionKind::Abs => {
                let copy = arg.duplicate();
                Expr::binary(Op::Div, copy, FunctionKind::Abs.apply(arg))
            },
            FunctionKind::Arcsin => reciprocal_root_of_one_minus_square(arg),
            FunctionKind::Arccos => Expr::binary(
                Op::Mul,
                minus_one(),
                reciprocal_root_of_one_minus_square(arg),
            ),
            FunctionKind::Arctan => reciprocal_of_one_plus_square(arg),
            FunctionKind::Arccot => Expr::binary(
                Op::Mul,
                minus_one(),
                reciprocal_of_one_plus_square(arg),
            ),
            FunctionKind::Arcsec => reciprocal_of_abs_times_root(arg),
            FunctionKind::Arccsc => Expr::binary(
                Op::Mul,
                minus_one(),
                reciprocal_of_abs_times_root(arg),
            ),
        }
    }
}

fn one() -> (r: Expr)
    ensures
        r@ == Term::Num(Number::one()),
{
    Expr::Num(Number::one_value())
}

fn two() -> (r: Expr)
    ensures
        r@ == Term::Num(Number::two()),
{
    Expr::Num(Number::two_value())
}

fn minus_one() -> (r: Expr)
    ensures
        r@ == Term::Num(Number::minus_one()),
{
    Expr::Num(Number::minus_one_value())
}

fn square(arg: Expr) -> (r: Expr)
    ensures
        r@ == Term::binary(Op::Pow, arg@, Term::Num(Number::two())),
{
    Expr::binary(Op::Pow, arg, two())
}

/// `1 / sqrt(1 - arg^2)`
fn reciprocal_root_of_one_minus_square(arg: Expr) -> (r: Expr)
    ensures
        r@ == FunctionKind::Arcsin.outer_derivative(arg@),
{
    Expr::binary(
        Op::Div,
        one(),
        FunctionKind::Sqrt.apply(Expr::binary(Op::Sub, one(), square(arg))),
    )
}

/// `1 / (1 + arg^2)`
fn reciprocal_of_one_plus_square(arg: Expr) -> (r: Expr)
    ensures
        r@ == FunctionKind::Arctan.outer_derivative(arg@),
{
    Expr::binary(Op::Div, one(), Expr::binary(Op::Add, one(), square(arg)))
}

/// `1 / (abs(arg) * sqrt(arg^2 - 1))`
fn reciprocal_of_abs_times_root(arg: Expr) -> (r: Expr)
    ensures
        r@ == FunctionKind::Arcsec.outer_derivative(arg@),
{
    let copy = arg.duplicate();
    Expr::binary(
        Op::Div,
        one(),
        Expr::binary(
            Op::Mul,
            FunctionKind::Abs.apply(copy),
            FunctionKind::Sqrt.apply(Expr::binary(Op::Sub, square(arg), one())),
        ),
    )
}

/// Every function stands in the list of all functions.
pub proof fn lemma_all_listed(k: FunctionKind)
    ensures
        FunctionKind::by_length().contains(k),
{
    let l = FunctionKind::by_length();
    match k {
        FunctionKind::Arcsin => assert(l[0] == k),
        FunctionKind::Arccos => assert(l[1] == k),
        FunctionKind::Arctan => assert(l[2] == k),
        FunctionKind::Arccot => assert(l[3] == k),
        FunctionKind::Arcsec => assert(l[4] == k),
        FunctionKind::Arccsc => assert(l[5] == k),
        FunctionKind::Cosec => assert(l[6] == k),
        FunctionKind::Sqrt => assert(l[7] == k),
        FunctionKind::Sin => assert(l[8] == k),
        FunctionKind::Cos => assert(l[9] == k),
        FunctionKind::Tan => assert(l[10] == k),
        FunctionKind::Cot => assert(l[11] == k),
        FunctionKind::Sec => assert(l[12] == k),
        FunctionKind::Log => assert(l[13] == k),
        FunctionKind::Exp => assert(l[14] == k),
        FunctionKind::Abs => assert(l[15] == k),
    }
}

/// The mapping from functions to names is injective: two functions with the
/// same name are the same function.
pub proof fn lemma_names_differ()
    ensures
        forall|a: FunctionKind, b: FunctionKind| #[trigger] a.name() == #[trigger] b.name() ==> a == b,
{
    assert forall|a: FunctionKind, b: FunctionKind| #[trigger]
        a.name() == #[trigger] b.name() implies a == b by {
        let x = a.name();
        let y = b.name();
        assert(x.len() == y.len());
        assert(x[0] == y[0]);
        assert(x[1] == y[1]);
        assert(x[2] == y[2]);
        if x.len() > 3 {
            assert(x[3] == y[3]);
        }
        if x.len() > 4 {
            assert(x[4] == y[4]);
        }
        if x.len() > 5 {
            assert(x[5] == y[5]);
        }
    }
}

/// Looking a function up by its own name finds it.
pub proof fn lemma_from_name_of_name(k: FunctionKind)
    ensures
        FunctionKind::from_name(k.name()) == Some(k),
{
    lemma_names_differ();
    let c = choose|c: FunctionKind| c.name() == k.name();
    assert(c.name() == k.name());
}

/// The derivative of the function called `func_name`, taken at `arg`; an
/// error with the name where there is no such function.
pub fn conversion(func_name: &str, arg: Expr) -> (r: Result<Expr, DifferentiationError>)
    ensures
        match FunctionKind::from_name(func_name@) {
            Some(kind) => r is Ok && r->Ok_0@ == kind.outer_derivative(arg@),
            None => r is Err && r->Err_0@ == func_name@,
        },
{
    match FunctionKind::lookup(func_name) {
        Some(kind) => Ok(kind.derivative_at(arg)),
        None => Err(DifferentiationError::UnknownFunction(String::from_str(func_name))),
    }
}

} // verus!
