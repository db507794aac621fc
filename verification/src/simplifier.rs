//! Simplification: constant folding, identities and the collection of like
//! terms in sums.
use crate::ast::Expr;
use crate::ast::Op;
use crate::ast::Term;
use crate::number::Number;
use vstd::prelude::*;

verus! {

/// A group of like terms: what they have in common, and the sum of their
/// coefficients.
pub type Group = (Term, Number);

/// Whether `t` is the literal one.
pub open spec fn is_one_literal(t: Term) -> bool {
    t matches Term::Num(n) && n.is_one()
}

/// Whether `t` is a literal zero.
pub open spec fn is_zero_literal(t: Term) -> bool {
    t matches Term::Num(n) && n.is_zero()
}

/// The product of two coefficients. One is neutral: the other factor is
/// taken as it is.
pub open spec fn scaled(a: Number, b: Number) -> Number {
    if a.is_one() {
        b
    } else if b.is_one() {
        a
    } else {
        a.product(b)
    }
}

/// The numeric coefficient of a term: the product of the literals in its
/// chain of products.
pub open spec fn coefficient(t: Term) -> Number
    decreases t,
{
    match t {
        Term::BinaryOp { op: Op::Mul, left, right } => scaled(coefficient(*left), coefficient(*right)),
        Term::Num(n) => n,
        _ => Number::one(),
    }
}

/// The product of two bases, in which the literal one is absorbed.
pub open spec fn combined(left: Term, right: Term) -> Term {
    if is_one_literal(left) {
        right
    } else if is_one_literal(right) {
        left
    } else {
        Term::binary(Op::Mul, left, right)
    }
}

/// The base of a term: what is left of its chain of products without the
/// literals; the literal one where nothing is left.
pub open spec fn base(t: Term) -> Term
    decreases t,
{
    match t {
        Term::BinaryOp { op: Op::Mul, left, right } => combined(base(*left), base(*right)),
        Term::Num(n) => Term::Num(Number::one()),
        _ => t,
    }
}

/// Whether two bases are alike: the same variable, or two powers with equal
/// bases and equal exponents, or two applications of the same function to
/// equal arguments.
pub open spec fn alike(a: Term, b: Term) -> bool {
    match (a, b) {
        (Term::Var(x), Term::Var(y)) => x == y,
        (
            Term::BinaryOp { op: Op::Pow, left: la, right: ra },
            Term::BinaryOp { op: Op::Pow, left: lb, right: rb },
        ) => la.same(*lb) && ra.same(*rb),
        (Term::FuncCall { name: fa, arg: aa }, Term::FuncCall { name: fb, arg: ab }) => fa == fb
            && aa.same(*ab),
        _ => false,
    }
}

/// The first group from `from` on whose base `b` is like.
pub open spec fn first_alike(groups: Seq<Group>, b: Term, from: int) -> Option<int>
    decreases groups.len() - from,
{
    if from < 0 || from >= groups.len() {
        None
    } else if alike(b, groups[from].0) {
        Some(from)
    } else {
        first_alike(groups, b, from + 1)
    }
}

/// The groups after one more term: its coefficient is added to the first
/// group whose base its base is like; where there is none, it starts a group.
pub open spec fn absorbed(groups: Seq<Group>, b: Term, c: Number) -> Seq<Group> {
    match first_alike(groups, b, 0) {
        Some(i) => groups.update(i, (groups[i].0, groups[i].1.sum(c))),
        None => groups.push((b, c)),
    }
}

/// The groups of a sequence of terms, in the order in which they first
/// appear.
pub open spec fn collected(terms: Seq<Term>) -> Seq<Group>
    decreases terms.len(),
{
    if terms.len() == 0 {
        seq![]
    } else {
        absorbed(collected(terms.drop_last()), base(terms.last()), coefficient(terms.last()))
    }
}

/// The term of a group: the coefficient alone where the base is the literal
/// one; the base alone where the coefficient is one; zero where the
/// coefficient is zero; else their product.
pub open spec fn group_term(g: Group) -> Term {
    if is_one_literal(g.0) {
        Term::Num(g.1)
    } else if g.1.is_one() {
        g.0
    } else if g.1.is_zero() {
        Term::Num(Number::zero())
    } else {
        Term::binary(Op::Mul, Term::Num(g.1), g.0)
    }
}

/// The sum of the terms of the groups, from the left; zero for no group.
pub open spec fn sum_of(groups: Seq<Group>) -> Term
    decreases groups.len(),
{
    if groups.len() == 0 {
        Term::Num(Number::zero())
    } else if groups.len() == 1 {
        group_term(groups[0])
    } else {
        Term::binary(Op::Add, sum_of(groups.drop_last()), group_term(groups.last()))
    }
}

/// A difference, product, quotient or power of two simplified operands:
/// an identity or a fold of two literals where one applies, else the node.
pub open spec fn folded(op: Op, l: Term, r: Term) -> Term {
    match op {
        Op::Add => Term::binary(op, l, r),
        Op::Sub => if is_zero_literal(r) {
            l
        } else {
            match (l, r) {
                (Term::Num(a), Term::Num(b)) => Term::Num(a.difference(b)),
                _ => Term::binary(op, l, r),
            }
        },
        Op::Mul => if is_zero_literal(l) || is_zero_literal(r) {
            Term::Num(Number::zero())
        } else if is_one_literal(l) {
            r
        } else if is_one_literal(r) {
            l
        } else {
            match (l, r) {
                (Term::Num(a), Term::Num(b)) => Term::Num(a.product(b)),
                _ => Term::binary(op, l, r),
            }
        },
        Op::Div => if is_one_literal(r) {
            l
        } else {
            match (l, r) {
                (Term::Num(a), Term::Num(b)) => Term::Num(a.quotient(b)),
                _ => Term::binary(op, l, r),
            }
        },
        Op::Pow => if is_zero_literal(r) {
            Term::Num(Number::one())
        } else if is_one_literal(r) {
            l
        } else {
            match (l, r) {
                (Term::Num(a), Term::Num(b)) => Term::Num(a.power(b)),
                _ => Term::binary(op, l, r),
            }
        },
    }
}

/// The addends of a sum: the operands of its nested sums, from the left, each
/// simplified.
pub open spec fn addends(t: Term) -> Seq<Term>
    decreases t, 1int,
{
    match t {
        Term::BinaryOp { op: Op::Add, left, right } => addends(*left) + addends(*right),
        _ => seq![simplified(t)],
    }
}

/// The simplified form of a tree.
pub open spec fn simplified(t: Term) -> Term
    decreases t, 0int,
{
    match t {
        Term::Num(n) => t,
        Term::Var(name) => t,
        Term::FuncCall { name, arg } => Term::call(name, simplified(*arg)),
        Term::BinaryOp { op, left, right } => if op == Op::Add {
            sum_of(collected(addends(*left) + addends(*right)))
        } else {
            folded(op, simplified(*left), simplified(*right))
        },
    }
}

/// The models of a sequence of trees.
pub open spec fn terms_of(v: Seq<Expr>) -> Seq<Term> {
    Seq::new(v.len(), |i: int| v[i]@)
}

/// The groups that two vectors of equal length hold.
pub open spec fn groups_of(bases: Seq<Expr>, coefficients: Seq<Number>) -> Seq<Group> {
    Seq::new(bases.len(), |i: int| (bases[i]@, coefficients[i]))
}

fn check_one_literal(e: &Expr) -> (r: bool)
    ensures
        r == is_one_literal(e@),
{
    match e {
        Expr::Num(n) => n.check_one(),
        _ => false,
    }
}

fn check_zero_literal(e: &Expr) -> (r: bool)
    ensures
        r == is_zero_literal(e@),
{
    match e {
        Expr::Num(n) => n.check_zero(),
        _ => false,
    }
}

fn scale(a: Number, b: Number) -> (r: Number)
    ensures
        r == scaled(a, b),
{
    if a.check_one() {
        b
    } else if b.check_one() {
        a
    } else {
        a.times(b)
    }
}

fn is_like_term(a: &Expr, b: &Expr) -> (r: bool)
    ensures
        r == alike(a@, b@),
{
    match a {
        Expr::Var(x) => match b {
            Expr::Var(y) => *x == *y,
            _ => false,
        },
        Expr::BinaryOp { op: Op::Pow, left: la, right: ra } => match b {
            Expr::BinaryOp { op: Op::Pow, left: lb, right: rb } => {
                let lefts = la.same(lb);
                let rights = ra.same(rb);
                lefts && rights
            },
            _ => false,
        },
        Expr::FuncCall { name: fa, arg: aa } => match b {
            Expr::FuncCall { name: fb, arg: ab } => {
                let names = *fa == *fb;
                let args = aa.same(ab);
                names && args
            },
            _ => false,
        },
        _ => false,
    }
}

/// The coefficient and the base of a term.
fn flatten_mul(expr: &Expr) -> (r: (Number, Expr))
    ensures
        r.0 == coefficient(expr@),
        r.1@ == base(expr@),
    decreases expr,
{
    match expr {
        Expr::BinaryOp { op: Op::Mul, left, right } => {
            let (cl, bl) = flatten_mul(left);
            let (cr, br) = flatten_mul(right);
            let c = scale(cl, cr);
            let b = if check_one_literal(&bl) {
                br
            } else if check_one_literal(&br) {
                bl
            } else {
                Expr::binary(Op::Mul, bl, br)
            };
            (c, b)
        },
        Expr::Num(n) => (*n, Expr::Num(Number::one_value())),
        _ => (Number::one_value(), expr.duplicate()),
    }
}

fn extract_coeff_and_base(expr: &Expr) -> (r: (Number, Expr))
    ensures
        r.0 == coefficient(expr@),
        r.1@ == base(expr@),
{
    flatten_mul(expr)
}

/// Adds one term to the groups.
fn absorb(bases: &mut Vec<Expr>, coefficients: &mut Vec<Number>, b: Expr, c: Number)
    requires
        old(bases).len() == old(coefficients).len(),
    ensures
        final(bases).len() == final(coefficients).len(),
        groups_of(final(bases)@, final(coefficients)@) == absorbed(
            groups_of(old(bases)@, old(coefficients)@),
            b@,
            c,
        ),
{
    let ghost groups = groups_of(bases@, coefficients@);
    let mut i: usize = 0;
    while i < bases.len()
        invariant
            i <= bases.len(),
            bases.len() == coefficients.len(),
            bases@ == old(bases)@,
            coefficients@ == old(coefficients)@,
            groups == groups_of(bases@, coefficients@),
            first_alike(groups, b@, 0) == first_alike(groups, b@, i as int),
        decreases bases.len() - i,
    {
        if is_like_term(&b, &bases[i]) {
            let total = coefficients[i].plus(c);
            coefficients.set(i, total);
            proof {
                assert(groups_of(bases@, coefficients@) =~= groups.update(
                    i as int,
                    (groups[i as int].0, groups[i as int].1.sum(c)),
                ));
            }
            return ;
        }
        i += 1;
    }
    bases.push(b);
    coefficients.push(c);
    proof {
        assert(groups_of(bases@, coefficients@) =~= groups.push((b@, c)));
    }
}

fn term_of_group(b: &Expr, c: Number) -> (r: Expr)
    ensures
        r@ == group_term((b@, c)),
{
    if check_one_literal(b) {
        Expr::Num(c)
    } else if c.check_one() {
        b.duplicate()
    } else if c.check_zero() {
        Expr::Num(Number::zero_value())
    } else {
        Expr::binary(Op::Mul, Expr::Num(c), b.duplicate())
    }
}

fn build_sum(bases: &Vec<Expr>, coefficients: &Vec<Number>) -> (r: Expr)
    requires
        bases.len() == coefficients.len(),
    ensures
        r@ == sum_of(groups_of(bases@, coefficients@)),
{
    let ghost groups = groups_of(bases@, coefficients@);
    if bases.len() == 0 {
        return Expr::Num(Number::zero_value());
    }
    let mut acc = term_of_group(&bases[0], coefficients[0]);
    let mut i: usize = 1;
    proof {
        assert(groups.take(1) =~= seq![groups[0]]);
    }
    while i < bases.len()
        invariant
            1 <= i <= bases.len(),
            bases.len() == coefficients.len(),
            groups == groups_of(bases@, coefficients@),
            acc@ == sum_of(groups.take(i as int)),
        decreases bases.len() - i,
    {
        let term = term_of_group(&bases[i], coefficients[i]);
        proof {
            assert(groups.take(i + 1).drop_last() =~= groups.take(i as int));
            assert(groups.take(i + 1).last() == groups[i as int]);
        }
        acc = Expr::binary(Op::Add, acc, term);
        i += 1;
    }
    proof {
        assert(groups.take(bases.len() as int) =~= groups);
    }
    acc
}

fn fold(op: Op, l: Expr, r: Expr) -> (out: Expr)
    ensures
        out@ == folded(op, l@, r@),
{
    match op {
        Op::Add => Expr::binary(op, l, r),
        Op::Sub => {
            if check_zero_literal(&r) {
                l
            } else {
                match (&l, &r) {
                    (Expr::Num(a), Expr::Num(b)) => Expr::Num(a.minus(*b)),
                    _ => Expr::binary(op, l, r),
                }
            }
        },
        Op::Mul => {
            if check_zero_literal(&l) || check_zero_literal(&r) {
                Expr::Num(Number::zero_value())
            } else if check_one_literal(&l) {
                r
            } else if check_one_literal(&r) {
                l
            } else {
                match (&l, &r) {
                    (Expr::Num(a), Expr::Num(b)) => Expr::Num(a.times(*b)),
                    _ => Expr::binary(op, l, r),
                }
            }
        },
        Op::Div => {
            if check_one_literal(&r) {
                l
            } else {
                match (&l, &r) {
                    (Expr::Num(a), Expr::Num(b)) => Expr::Num(a.divided_by(*b)),
                    _ => Expr::binary(op, l, r),
                }
            }
        },
        Op::Pow => {
            if check_zero_literal(&r) {
                Expr::Num(Number::one_value())
            } else if check_one_literal(&r) {
                l
            } else {
                match (&l, &r) {
                    (Expr::Num(a), Expr::Num(b)) => Expr::Num(a.raised_to(*b)),
                    _ => Expr::binary(op, l, r),
                }
            }
        },
    }
}

/// Adds the addends of `e` to `terms`.
fn collect_terms(e: &Expr, terms: &mut Vec<Expr>)
    ensures
        terms_of(final(terms)@) == terms_of(old(terms)@) + addends(e@),
    decreases e@.size(), 1int,
{
    match e {
        Expr::BinaryOp { op: Op::Add, left, right } => {
            collect_terms(left, terms);
            collect_terms(right, terms);
            proof {
                assert(terms_of(terms@) =~= terms_of(old(terms)@) + addends(e@));
            }
        },
        _ => {
            let s = simplify(e);
            terms.push(s);
            proof {
                assert(terms_of(terms@) =~= terms_of(old(terms)@) + addends(e@));
            }
        },
    }
}

/// The groups of `terms`.
fn collect_groups(terms: &Vec<Expr>) -> (r: (Vec<Expr>, Vec<Number>))
    ensures
        r.0.len() == r.1.len(),
        groups_of(r.0@, r.1@) == collected(terms_of(terms@)),
{
    let mut bases: Vec<Expr> = Vec::new();
    let mut coefficients: Vec<Number> = Vec::new();
    let ghost all = terms_of(terms@);
    let mut i: usize = 0;
    proof {
        assert(groups_of(bases@, coefficients@) =~= collected(all.take(0)));
    }
    while i < terms.len()
        invariant
            i <= terms.len(),
            all == terms_of(terms@),
            bases.len() == coefficients.len(),
            groups_of(bases@, coefficients@) == collected(all.take(i as int)),
        decreases terms.len() - i,
    {
        let (c, b) = extract_coeff_and_base(&terms[i]);
        proof {
            assert(all.take(i + 1).drop_last() =~= all.take(i as int));
            assert(all.take(i + 1).last() == terms[i as int]@);
        }
        absorb(&mut bases, &mut coefficients, b, c);
        i += 1;
    }
    proof {
        assert(all.take(terms.len() as int) =~= all);
    }
    (bases, coefficients)
}

/// The simplified form of a tree. A sum is flattened into its addends, which
/// are simplified and collected into groups of like terms; any other node is
/// rebuilt from its simplified operands, unless an identity or a fold of two
/// literals applies.
pub fn simplify(expr: &Expr) -> (r: Expr)
    ensures
        r@ == simplified(expr@),
    decreases expr@.size(), 0int,
{
    match expr {
        Expr::Num(n) => Expr::Num(*n),
        Expr::Var(name) => Expr::Var(name.clone()),
        Expr::FuncCall { name, arg } => {
            let inner = simplify(arg);
            Expr::FuncCall { name: name.clone(), arg: Box::new(inner) }
        },
        Expr::BinaryOp { op, left, right } => {
            match op {
                Op::Add => {
                    let mut terms: Vec<Expr> = Vec::new();
                    collect_terms(left, &mut terms);
                    collect_terms(right, &mut terms);
                    proof {
                        assert(terms_of(terms@) =~= addends(left@) + addends(right@));
                    }
                    let (bases, coefficients) = collect_groups(&terms);
                    build_sum(&bases, &coefficients)
                },
                _ => {
                    let l = simplify(left);
                    let r = simplify(right);
                    fold(*op, l, r)
                },
            }
        },
    }
}

} // verus!
