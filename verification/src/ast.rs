//! The expression tree, its mathematical model and its canonical text.
use crate::number::decimal_text;
use crate::number::Number;
use vstd::prelude::*;
use vstd::string::StringExecFns;

verus! {

/// The five binary operators of an expression tree.
#[derive(Clone, Copy, Debug, PartialEq, Eq, Structural)]
pub enum Op {
    Add,
    Sub,
    Mul,
    Div,
    Pow,
}

impl Op {
    /// The character that writes the operator.
    pub open spec fn symbol(self) -> char {
        match self {
            Op::Add => '+',
            Op::Sub => '-',
            Op::Mul => '*',
            Op::Div => '/',
            Op::Pow => '^',
        }
    }

    /// The operator as text.
    pub fn to_text(&self) -> (r: &'static str)
        ensures
            r@ == seq![self.symbol()],
    {
        proof {
            reveal_strlit("+");
            reveal_strlit("-");
            reveal_strlit("*");
            reveal_strlit("/");
            reveal_strlit("^");
        }
        let r = match self {
            Op::Add => "+",
            Op::Sub => "-",
            Op::Mul => "*",
            Op::Div => "/",
            Op::Pow => "^",
        };
        assert(r@ =~= seq![self.symbol()]);
        r
    }
}

/// An expression tree. Each node owns its children.
#[derive(Debug, PartialEq, Eq)]
pub enum Expr {
    Num(Number),
    Var(String),
    BinaryOp { op: Op, left: Box<Expr>, right: Box<Expr> },
    FuncCall { name: String, arg: Box<Expr> },
}

/// The mathematical model of an expression tree: names are sequences of
/// characters.
pub enum Term {
    Num(Number),
    Var(Seq<char>),
    BinaryOp { op: Op, left: Box<Term>, right: Box<Term> },
    FuncCall { name: Seq<char>, arg: Box<Term> },
}

impl View for Expr {
    type V = Term;

    open spec fn view(&self) -> Term {
        self.model()
    }
}

impl Term {
    /// A binary node.
    pub open spec fn binary(op: Op, left: Term, right: Term) -> Term {
        Term::BinaryOp { op, left: Box::new(left), right: Box::new(right) }
    }

    /// A function application.
    pub open spec fn call(name: Seq<char>, arg: Term) -> Term {
        Term::FuncCall { name, arg: Box::new(arg) }
    }

    /// The number of nodes of the tree.
    pub open spec fn size(self) -> nat
        decreases self,
    {
        match self {
            Term::Num(_) => 1,
            Term::Var(_) => 1,
            Term::BinaryOp { op, left, right } => 1 + left.size() + right.size(),
            Term::FuncCall { name, arg } => 1 + arg.size(),
        }
    }

    /// Structural equality with literals compared by value: two trees of the
    /// same shape, with equal names, and whose literals are equal values.
    pub open spec fn same(self, other: Term) -> bool
        decreases self,
    {
        match (self, other) {
            (Term::Num(a), Term::Num(b)) => a.same_value(b),
            (Term::Var(a), Term::Var(b)) => a == b,
            (
                Term::BinaryOp { op: oa, left: la, right: ra },
                Term::BinaryOp { op: ob, left: lb, right: rb },
            ) => oa == ob && la.same(*lb) && ra.same(*rb),
            (Term::FuncCall { name: na, arg: aa }, Term::FuncCall { name: nb, arg: ab }) => na == nb
                && aa.same(*ab),
            _ => false,
        }
    }

    /// The canonical text: a literal as its decimal text, a variable as its
    /// name, a binary node as `(left op right)`, an application as `name arg`.
    pub open spec fn text(self) -> Seq<char>
        decreases self,
    {
        match self {
            Term::Num(n) => decimal_text(n.bits),
            Term::Var(name) => name,
            Term::BinaryOp { op, left, right } => seq!['('] + left.text() + seq![' ', op.symbol(), ' ']
                + right.text() + seq![')'],
            Term::FuncCall { name, arg } => name + seq![' '] + arg.text(),
        }
    }
}

impl Expr {
    /// The model of the tree.
    pub open spec fn model(&self) -> Term
        decreases self,
    {
        match self {
            Expr::Num(n) => Term::Num(*n),
            Expr::Var(name) => Term::Var(name@),
            Expr::BinaryOp { op, left, right } => Term::BinaryOp {
                op: *op,
                left: Box::new(left.model()),
                right: Box::new(right.model()),
            },
            Expr::FuncCall { name, arg } => Term::FuncCall {
                name: name@,
                arg: Box::new(arg.model()),
            },
        }
    }

    /// A binary node.
    pub fn binary(op: Op, left: Expr, right: Expr) -> (r: Expr)
        ensures
            r@ == Term::binary(op, left@, right@),
    {
        Expr::BinaryOp { op, left: Box::new(left), right: Box::new(right) }
    }

    /// A function application.
    pub fn call(name: &str, arg: Expr) -> (r: Expr)
        ensures
            r@ == Term::call(name@, arg@),
    {
        Expr::FuncCall { name: String::from_str(name), arg: Box::new(arg) }
    }

    /// A literal.
    pub fn num(n: Number) -> (r: Expr)
        ensures
            r@ == Term::Num(n),
    {
        Expr::Num(n)
    }

    /// A variable.
    pub fn var(name: &str) -> (r: Expr)
        ensures
            r@ == Term::Var(name@),
    {
        Expr::Var(String::from_str(name))
    }

    /// A copy of the tree.
    pub fn duplicate(&self) -> (r: Expr)
        ensures
            r@ == self@,
        decreases self,
    {
        match self {
            Expr::Num(n) => Expr::Num(*n),
            Expr::Var(name) => Expr::Var(name.clone()),
            Expr::BinaryOp { op, left, right } => Expr::BinaryOp {
                op: *op,
                left: Box::new(left.duplicate()),
                right: Box::new(right.duplicate()),
            },
            Expr::FuncCall { name, arg } => Expr::FuncCall {
                name: name.clone(),
                arg: Box::new(arg.duplicate()),
            },
        }
    }

    /// Structural equality with literals compared by value.
    pub fn same(&self, other: &Expr) -> (r: bool)
        ensures
            r == self@.same(other@),
        decreases self,
    {
        match self {
            Expr::Num(a) => match other {
                Expr::Num(b) => a.equals(*b),
                _ => false,
            },
            Expr::Var(a) => match other {
                Expr::Var(b) => *a == *b,
                _ => false,
            },
            Expr::BinaryOp { op: oa, left: la, right: ra } => match other {
                Expr::BinaryOp { op: ob, left: lb, right: rb } => {
                    let ops = *oa == *ob;
                    let lefts = la.same(lb);
                    let rights = ra.same(rb);
                    ops && lefts && rights
                },
                _ => false,
            },
            Expr::FuncCall { name: na, arg: aa } => match other {
                Expr::FuncCall { name: nb, arg: ab } => {
                    let names = *na == *nb;
                    let args = aa.same(ab);
                    names && args
                },
                _ => false,
            },
        }
    }

    /// The canonical text of the tree.
    pub fn to_text(&self) -> (r: String)
        ensures
            r@ == self@.text(),
        decreases self,
    {
        match self {
            Expr::Num(n) => n.to_text(),
            Expr::Var(name) => name.clone(),
            Expr::BinaryOp { op, left, right } => {
                proof {
                    reveal_strlit("(");
                    reveal_strlit(" ");
                    reveal_strlit(")");
                }
                let mut out = String::from_str("(");
                let l = left.to_text();
                out.append(l.as_str());
                out.append(" ");
                out.append(op.to_text());
                out.append(" ");
                let r = right.to_text();
                out.append(r.as_str());
                out.append(")");
                assert(out@ =~= self@.text());
                out
            },
            Expr::FuncCall { name, arg } => {
                proof {
                    reveal_strlit(" ");
                }
                let mut out = name.clone();
                out.append(" ");
                let a = arg.to_text();
                out.append(a.as_str());
                assert(out@ =~= self@.text());
                out
            },
        }
    }
}

} // verus!
