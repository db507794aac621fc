//! Symbolic differentiation with respect to one variable.
use crate::ast::Expr;
use crate::ast::Op;
use crate::ast::Term;
use crate::function_table::conversion;
use crate::function_table::DifferentiationError;
use crate::function_table::FunctionKind;
use crate::number::Number;
use vstd::prelude::*;
use vstd::string::StringExecFns;

verus! {

/// A derivative, or the name of the function that has no rule.
pub type Derived = Result<Term, Seq<char>>;

/// The name of the natural logarithm in the rule for general powers.
pub open spec fn ln_name() -> Seq<char> {
    seq!['l', 'n']
}

/// The literal zero.
pub open spec fn zero() -> Term {
    Term::Num(Number::zero())
}

/// The literal one.
pub open spec fn one() -> Term {
    Term::Num(Number::one())
}

/// The derivative of a variable: one for the variable of differentiation,
/// zero for any other.
pub open spec fn variable_rule(name: Seq<char>, var: Seq<char>) -> Term {
    if name == var {
        one()
    } else {
        zero()
    }
}

/// `c * f'`
pub open spec fn constant_multiple(c: Number, df: Term) -> Term {
    Term::binary(Op::Mul, Term::Num(c), df)
}

/// `u' * v + u * v'`
pub open spec fn product_rule(u: Term, v: Term, du: Term, dv: Term) -> Term {
    Term::binary(Op::Add, Term::binary(Op::Mul, du, v), Term::binary(Op::Mul, u, dv))
}

/// `(u' * v - u * v') / v^2`
pub open spec fn quotient_rule(u: Term, v: Term, du: Term, dv: Term) -> Term {
    Term::binary(
        Op::Div,
        Term::binary(Op::Sub, Term::binary(Op::Mul, du, v), Term::binary(Op::Mul, u, dv)),
        Term::binary(Op::Pow, v, Term::Num(Number::two())),
    )
}

/// `n * x^(n - 1)`
pub open spec fn power_of_variable(var: Seq<char>, n: Number) -> Term {
    Term::binary(
        Op::Mul,
        Term::Num(n),
        Term::binary(Op::Pow, Term::Var(var), Term::Num(n.difference(Number::one()))),
    )
}

/// `n * (f^(n - 1) * f')`
pub open spec fn power_of_base(f: Term, n: Number, df: Term) -> Term {
    Term::binary(
        Op::Mul,
        Term::Num(n),
        Term::binary(
            Op::Mul,
            Term::binary(Op::Pow, f, Term::Num(n.difference(Number::one()))),
            df,
        ),
    )
}

/// `f^g * (g' * ln f + g * (f' / f))`
pub open spec fn general_power(f: Term, g: Term, df: Term, dg: Term) -> Term {
    Term::binary(
        Op::Mul,
        Term::binary(Op::Pow, f, g),
        Term::binary(
            Op::Add,
            Term::binary(Op::Mul, dg, Term::call(ln_name(), f)),
            Term::binary(Op::Mul, g, Term::binary(Op::Div, df, f)),
        ),
    )
}

/// `outer * inner'`
pub open spec fn chain_rule(outer: Term, inner_derivative: Term) -> Term {
    Term::binary(Op::Mul, outer, inner_derivative)
}

/// The derivative of `t` with respect to the variable `var`.
pub open spec fn derivative_of(t: Term, var: Seq<char>) -> Derived
    decreases t,
{
    match t {
        Term::Num(_) => Ok(zero()),
        Term::Var(name) => Ok(variable_rule(name, var)),
        Term::FuncCall { name, arg } => match FunctionKind::from_name(name) {
            None => Err(name),
            Some(kind) => match derivative_of(*arg, var) {
                Err(e) => Err(e),
                Ok(da) => Ok(chain_rule(kind.outer_derivative(*arg), da)),
            },
        },
        Term::BinaryOp { op, left, right } => match op {
            Op::Add => match derivative_of(*left, var) {
                Err(e) => Err(e),
                Ok(dl) => match derivative_of(*right, var) {
                    Err(e) => Err(e),
                    Ok(dr) => Ok(Term::binary(Op::Add, dl, dr)),
                },
            },
            Op::Sub => match derivative_of(*left, var) {
                Err(e) => Err(e),
                Ok(dl) => match derivative_of(*right, var) {
                    Err(e) => Err(e),
                    Ok(dr) => Ok(Term::binary(Op::Sub, dl, dr)),
                },
            },
            Op::Mul => match *left {
                Term::Num(c) => match derivative_of(*right, var) {
                    Err(e) => Err(e),
                    Ok(dr) => Ok(constant_multiple(c, dr)),
                },
                _ => match *right {
                    Term::Num(c) => match derivative_of(*left, var) {
                        Err(e) => Err(e),
                        Ok(dl) => Ok(constant_multiple(c, dl)),
                    },
                    _ => match derivative_of(*left, var) {
                        Err(e) => Err(e),
                        Ok(dl) => match derivative_of(*right, var) {
                            Err(e) => Err(e),
                            Ok(dr) => Ok(product_rule(*left, *right, dl, dr)),
                        },
                    },
                },
            },
            Op::Div => match derivative_of(*left, var) {
                Err(e) => Err(e),
                Ok(dl) => match derivative_of(*right, var) {
                    Err(e) => Err(e),
                    Ok(dr) => Ok(quotient_rule(*left, *right, dl, dr)),
                },
            },
            Op::Pow => match *right {
                Term::Num(n) => if *left == Term::Var(var) {
                    Ok(power_of_variable(var, n))
                } else {
                    match derivative_of(*left, var) {
                        Err(e) => Err(e),
                        Ok(dl) => Ok(power_of_base(*left, n, dl)),
                    }
                },
                _ => match derivative_of(*left, var) {
                    Err(e) => Err(e),
                    Ok(dl) => match derivative_of(*right, var) {
                        Err(e) => Err(e),
                        Ok(dr) => Ok(general_power(*left, *right, dl, dr)),
                    },
                },
            },
        },
    }
}

/// Whether what was computed is the derivative that the rules give.
pub open spec fn is_derivative(r: Result<Expr, DifferentiationError>, wanted: Derived) -> bool {
    match wanted {
        Ok(t) => r is Ok && r->Ok_0@ == t,
        Err(name) => r is Err && r->Err_0@ == name,
    }
}

/// The derivative of a literal is zero.
fn constant_rule() -> (r: Expr)
    ensures
        r@ == zero(),
{
    Expr::Num(Number::zero_value())
}

fn variable_rule_of(name: &String, var: &String) -> (r: Expr)
    ensures
        r@ == variable_rule(name@, var@),
{
    if *name == *var {
        Expr::Num(Number::one_value())
    } else {
        Expr::Num(Number::zero_value())
    }
}

fn add_rule(left: &Expr, right: &Expr, var: &String) -> (r: Result<Expr, DifferentiationError>)
    ensures
        is_derivative(r, derivative_of(Term::binary(Op::Add, left@, right@), var@)),
    decreases 1 + left@.size() + right@.size(), 0int,
{
    let dl = match derive(left, var) {
        Ok(d) => d,
        Err(e) => {
            return Err(e);
        },
    };
    let dr = match derive(right, var) {
        Ok(d) => d,
        Err(e) => {
            return Err(e);
        },
    };
    Ok(Expr::binary(Op::Add, dl, dr))
}

fn sub_rule(left: &Expr, right: &Expr, var: &String) -> (r: Result<Expr, DifferentiationError>)
    ensures
        is_derivative(r, derivative_of(Term::binary(Op::Sub, left@, right@), var@)),
    decreases 1 + left@.size() + right@.size(), 0int,
{
    let dl = match derive(left, var) {
        Ok(d) => d,
        Err(e) => {
            return Err(e);
        },
    };
    let dr = match derive(right, var) {
        Ok(d) => d,
        Err(e) => {
            return Err(e);
        },
    };
    Ok(Expr::binary(Op::Sub, dl, dr))
}

fn product_rule_of(left: &Expr, right: &Expr, var: &String) -> (r: Result<
    Expr,
    DifferentiationError,
>)
    ensures
        is_derivative(r, derivative_of(Term::binary(Op::Mul, left@, right@), var@)),
    decreases 1 + left@.size() + right@.size(), 0int,
{
    match left {
        Expr::Num(c) => {
            match derive(right, var) {
                Ok(d) => Ok(Expr::binary(Op::Mul, Expr::Num(*c), d)),
                Err(e) => Err(e),
            }
        },
        _ => match right {
            Expr::Num(c) => {
                match derive(left, var) {
                    Ok(d) => Ok(Expr::binary(Op::Mul, Expr::Num(*c), d)),
                    Err(e) => Err(e),
                }
            },
            _ => {
                let du = match derive(left, var) {
                    Ok(d) => d,
                    Err(e) => {
                        return Err(e);
                    },
                };
                let dv = match derive(right, var) {
                    Ok(d) => d,
                    Err(e) => {
                        return Err(e);
                    },
                };
                Ok(
                    Expr::binary(
                        Op::Add,
                        Expr::binary(Op::Mul, du, right.duplicate()),
                        Expr::binary(Op::Mul, left.duplicate(), dv),
                    ),
                )
            },
        },
    }
}

fn quotient_rule_of(left: &Expr, right: &Expr, var: &String) -> (r: Result<
    Expr,
    DifferentiationError,
>)
    ensures
        is_derivative(r, derivative_of(Term::binary(Op::Div, left@, right@), var@)),
    decreases 1 + left@.size() + right@.size(), 0int,
{
    let du = match derive(left, var) {
        Ok(d) => d,
        Err(e) => {
            return Err(e);
        },
    };
    let dv = match derive(right, var) {
        Ok(d) => d,
        Err(e) => {
            return Err(e);
        },
    };
    let numerator = Expr::binary(
        Op::Sub,
        Expr::binary(Op::Mul, du, right.duplicate()),
        Expr::binary(Op::Mul, left.duplicate(), dv),
    );
    let denominator = Expr::binary(Op::Pow, right.duplicate(), Expr::Num(Number::two_value()));
    Ok(Expr::binary(Op::Div, numerator, denominator))
}

fn is_variable(e: &Expr, var: &String) -> (r: bool)
    ensures
        r == (e@ == Term::Var(var@)),
{
    match e {
        Expr::Var(name) => *name == *var,
        _ => false,
    }
}

fn pow_rule(left: &Expr, right: &Expr, var: &String) -> (r: Result<Expr, DifferentiationError>)
    ensures
        is_derivative(r, derivative_of(Term::binary(Op::Pow, left@, right@), var@)),
    decreases 1 + left@.size() + right@.size(), 0int,
{
    match right {
        Expr::Num(n) => {
            let lowered = Expr::Num(n.minus(Number::one_value()));
            if is_variable(left, var) {
                Ok(
                    Expr::binary(
                        Op::Mul,
                        Expr::Num(*n),
                        Expr::binary(Op::Pow, Expr::Var(var.clone()), lowered),
                    ),
                )
            } else {
                match derive(left, var) {
                    Err(e) => Err(e),
                    Ok(df) => Ok(
                        Expr::binary(
                            Op::Mul,
                            Expr::Num(*n),
                            Expr::binary(
                                Op::Mul,
                                Expr::binary(Op::Pow, left.duplicate(), lowered),
                                df,
                            ),
                        ),
                    ),
                }
            }
        },
        _ => {
            let df = match derive(left, var) {
                Ok(d) => d,
                Err(e) => {
                    return Err(e);
                },
            };
            let dg = match derive(right, var) {
                Ok(d) => d,
                Err(e) => {
                    return Err(e);
                },
            };
            proof {
                reveal_strlit("ln");
            }
            let ln_f = Expr::call("ln", left.duplicate());
            assert(ln_f@ == Term::call(ln_name(), left@)) by {
                assert("ln"@ =~= ln_name());
            }
            let first = Expr::binary(Op::Mul, dg, ln_f);
            let second = Expr::binary(
                Op::Mul,
                right.duplicate(),
                Expr::binary(Op::Div, df, left.duplicate()),
            );
            Ok(
                Expr::binary(
                    Op::Mul,
                    Expr::binary(Op::Pow, left.duplicate(), right.duplicate()),
                    Expr::binary(Op::Add, first, second),
                ),
            )
        },
    }
}

fn func_rule(name: &String, arg: &Expr, var: &String) -> (r: Result<Expr, DifferentiationError>)
    ensures
        is_derivative(r, derivative_of(Term::call(name@, arg@), var@)),
    decreases 1 + arg@.size(), 0int,
{
    let outer = match conversion(name.as_str(), arg.duplicate()) {
        Ok(outer) => outer,
        Err(e) => {
            return Err(e);
        },
    };
    match derive(arg, var) {
        Err(e) => Err(e),
        Ok(inner) => Ok(Expr::binary(Op::Mul, outer, inner)),
    }
}

fn derive(expr: &Expr, var: &String) -> (r: Result<Expr, DifferentiationError>)
    ensures
        is_derivative(r, derivative_of(expr@, var@)),
    decreases expr@.size(), 1int,
{
    match expr {
        Expr::Num(_) => Ok(constant_rule()),
        Expr::Var(name) => Ok(variable_rule_of(name, var)),
        Expr::BinaryOp { op, left, right } => match op {
            Op::Add => add_rule(left, right, var),
            Op::Sub => sub_rule(left, right, var),
            Op::Mul => product_rule_of(left, right, var),
            Op::Div => quotient_rule_of(left, right, var),
            Op::Pow => pow_rule(left, right, var),
        },
        Expr::FuncCall { name, arg } => func_rule(name, arg, var),
    }
}

/// The derivative of `expr` with respect to the variable `var`, by the rules
/// for sums, products, quotients, powers and function applications. Fails on
/// the first application, in the order in which the rules reach them, of a
/// function that has no derivative rule.
pub fn derivative(expr: &Expr, var: &str) -> (r: Result<Expr, DifferentiationError>)
    ensures
        is_derivative(r, derivative_of(expr@, var@)),
{
    let var = String::from_str(var);
    derive(expr, &var)
}

} // verus!
