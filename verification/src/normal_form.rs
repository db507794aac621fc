//! Laws of simplification: the fold of two literals, and the trees that
//! simplification leaves as they are.
//!
//! Simplification is not idempotent on every tree. It leaves a tree in normal
//! form as it is (`lemma_normal_is_fixed`), so it is idempotent wherever the
//! simplified form is normal (`lemma_simplify_idempotent`); the steady trees
//! are a class of trees, described by their sums alone, on which it is
//! (`lemma_simplified_is_normal`).
use crate::ast::Op;
use crate::ast::Term;
use crate::number::Number;
use crate::simplifier::absorbed;
use crate::simplifier::addends;
use crate::simplifier::alike;
use crate::simplifier::base;
use crate::simplifier::coefficient;
use crate::simplifier::collected;
use crate::simplifier::combined;
use crate::simplifier::first_alike;
use crate::simplifier::folded;
use crate::simplifier::Group;
use crate::simplifier::group_term;
use crate::simplifier::is_one_literal;
use crate::simplifier::scaled;
use crate::simplifier::simplified;
use crate::simplifier::sum_of;
use vstd::prelude::*;

verus! {

/// What a difference, product, quotient or power of two literals folds to:
/// an operand or a constant where an identity applies, else the result of
/// the arithmetic.
pub open spec fn literal_result(op: Op, a: Number, b: Number) -> Number {
    match op {
        Op::Add => a.sum(b),
        Op::Sub => if b.is_zero() {
            a
        } else {
            a.difference(b)
        },
        Op::Mul => if a.is_zero() || b.is_zero() {
            Number::zero()
        } else if a.is_one() {
            b
        } else if b.is_one() {
            a
        } else {
            a.product(b)
        },
        Op::Div => if b.is_one() {
            a
        } else {
            a.quotient(b)
        },
        Op::Pow => if b.is_zero() {
            Number::one()
        } else if b.is_one() {
            a
        } else {
            a.power(b)
        },
    }
}

/// A difference, product, quotient or power of two literals simplifies to
/// one literal. (A sum of two literals is left as a sum.)
pub proof fn lemma_literals_fold(op: Op, a: Number, b: Number)
    requires
        op != Op::Add,
    ensures
        simplified(Term::binary(op, Term::Num(a), Term::Num(b))) == Term::Num(
            literal_result(op, a, b),
        ),
{
    let l = Term::Num(a);
    let r = Term::Num(b);
    assert(simplified(l) == l);
    assert(simplified(r) == r);
    assert(simplified(Term::binary(op, l, r)) == folded(op, l, r));
}

/// Whether `t` is a sum.
pub open spec fn is_sum(t: Term) -> bool {
    t is BinaryOp && t->op == Op::Add
}

/// A base in the strict sense: a term without literal factors, which is
/// therefore its own base.
pub open spec fn is_base(t: Term) -> bool
    decreases t,
{
    match t {
        Term::Num(_) => false,
        Term::BinaryOp { op: Op::Mul, left, right } => is_base(*left) && is_base(*right),
        _ => true,
    }
}

/// The group of a term.
pub open spec fn group_of(t: Term) -> Group {
    (base(t), coefficient(t))
}

/// Whether a term is the term of its own group.
pub open spec fn reassembles(t: Term) -> bool {
    group_term(group_of(t)) == t
}

/// The terms of a sum that is nested to the left; a tree that is no sum is
/// its own single term.
pub open spec fn sum_terms(t: Term) -> Seq<Term>
    decreases t,
{
    match t {
        Term::BinaryOp { op: Op::Add, left, right } => sum_terms(*left).push(*right),
        _ => seq![t],
    }
}

/// Whether `b` is like none of the bases of `terms`.
pub open spec fn unlike_all(b: Term, terms: Seq<Term>) -> bool {
    forall|k: int| 0 <= k < terms.len() ==> !alike(b, #[trigger] base(terms[k]))
}

/// Normal form: the literals and variables; the applications to normal
/// arguments; the other nodes with normal operands to which no identity and
/// no fold applies; and the sums that are nested to the left, whose terms are
/// normal and the terms of their groups, with bases none of which is like an
/// earlier one.
pub open spec fn is_normal(t: Term) -> bool
    decreases t, 0int,
{
    match t {
        Term::Num(_) => true,
        Term::Var(_) => true,
        Term::FuncCall { name, arg } => is_normal(*arg),
        Term::BinaryOp { op, left, right } => if op == Op::Add {
            &&& !is_sum(*right)
            &&& is_normal(*right)
            &&& reassembles(*right)
            &&& is_normal(*left)
            &&& (is_sum(*left) || reassembles(*left))
            &&& unlike_all(base(*right), sum_terms(*left))
        } else {
            is_normal(*left) && is_normal(*right) && folded(op, *left, *right) == t
        },
    }
}

/// The groups of a sequence of terms, one for each.
pub open spec fn groups_each(terms: Seq<Term>) -> Seq<Group> {
    Seq::new(terms.len(), |i: int| group_of(terms[i]))
}

/// Whether each term is the term of its group and no base is like an earlier
/// one.
pub open spec fn is_tidy(terms: Seq<Term>) -> bool {
    &&& forall|i: int| 0 <= i < terms.len() ==> reassembles(#[trigger] terms[i])
    &&& forall|i: int, k: int|
        0 <= k < i < terms.len() ==> !alike(#[trigger] base(terms[i]), #[trigger] base(terms[k]))
}

/// A base in the strict sense is its own base, with coefficient one.
pub proof fn lemma_base_of_base(t: Term)
    requires
        is_base(t),
    ensures
        base(t) == t,
        coefficient(t) == Number::one(),
    decreases t,
{
    match t {
        Term::BinaryOp { op: Op::Mul, left, right } => {
            lemma_base_of_base(*left);
            lemma_base_of_base(*right);
        },
        _ => {},
    }
}

/// The base of any term is the literal one or a base in the strict sense.
pub proof fn lemma_base_is_base(t: Term)
    ensures
        is_one_literal(base(t)) || is_base(base(t)),
    decreases t,
{
    match t {
        Term::BinaryOp { op: Op::Mul, left, right } => {
            lemma_base_is_base(*left);
            lemma_base_is_base(*right);
        },
        _ => {},
    }
}

/// The base of a normal term is normal.
pub proof fn lemma_base_is_normal(t: Term)
    requires
        is_normal(t),
    ensures
        is_normal(base(t)),
    decreases t,
{
    match t {
        Term::BinaryOp { op: Op::Mul, left, right } => {
            lemma_base_is_normal(*left);
            lemma_base_is_normal(*right);
            lemma_base_is_base(*left);
            lemma_base_is_base(*right);
        },
        _ => {},
    }
}

/// What can be the base of a group of simplified terms: the literal one or a
/// base in the strict sense, in normal form.
pub open spec fn is_group_base(b: Term) -> bool {
    (is_one_literal(b) || is_base(b)) && is_normal(b)
}

/// The term of a group with such a base is normal and the term of its own
/// group; its base is the literal one or the base of the group.
pub proof fn lemma_group_term(g: Group)
    requires
        is_group_base(g.0),
    ensures
        is_normal(group_term(g)),
        reassembles(group_term(g)),
        base(group_term(g)) == g.0 || base(group_term(g)) == Term::Num(Number::one()),
{
    let u = group_term(g);
    if is_one_literal(g.0) {
    } else {
        lemma_base_of_base(g.0);
        if g.1.is_one() {
        } else if g.1.is_zero() {
        } else {
            let literal = Term::Num(g.1);
            assert(u == Term::binary(Op::Mul, literal, g.0));
            assert(coefficient(literal) == g.1);
            assert(base(literal) == Term::Num(Number::one()));
            assert(coefficient(u) == scaled(coefficient(literal), coefficient(g.0)));
            assert(base(u) == combined(base(literal), base(g.0)));
            assert(is_normal(literal));
            assert(folded(Op::Mul, literal, g.0) == u);
            assert(is_normal(u));
        }
    }
}

/// Where the base is like none of the groups, it is like no group from any
/// position on.
pub proof fn lemma_first_alike_none(groups: Seq<Group>, b: Term, from: int)
    requires
        0 <= from,
        forall|k: int| 0 <= k < groups.len() ==> !alike(b, #[trigger] groups[k].0),
    ensures
        first_alike(groups, b, from) is None,
    decreases groups.len() - from,
{
    if from < groups.len() {
        lemma_first_alike_none(groups, b, from + 1);
    }
}

/// What `first_alike` finds is a group whose base is alike; where it finds
/// none, no group from the position on has such a base.
pub proof fn lemma_first_alike(groups: Seq<Group>, b: Term, from: int)
    requires
        0 <= from,
    ensures
        match first_alike(groups, b, from) {
            Some(i) => from <= i < groups.len() && alike(b, groups[i].0),
            None => forall|k: int| from <= k < groups.len() ==> !alike(b, #[trigger] groups[k].0),
        },
    decreases groups.len() - from,
{
    if from < groups.len() && !alike(b, groups[from].0) {
        lemma_first_alike(groups, b, from + 1);
    }
}

/// Tidy terms are collected into one group each.
pub proof fn lemma_collected_tidy(terms: Seq<Term>)
    requires
        is_tidy(terms),
    ensures
        collected(terms) == groups_each(terms),
    decreases terms.len(),
{
    if terms.len() == 0 {
        assert(collected(terms) =~= groups_each(terms));
    } else {
        let rest = terms.drop_last();
        let last = terms.last();
        assert forall|i: int| 0 <= i < rest.len() implies reassembles(#[trigger] rest[i]) by {
            assert(rest[i] == terms[i]);
        }
        assert forall|i: int, k: int| 0 <= k < i < rest.len() implies !alike(
            #[trigger] base(rest[i]),
            #[trigger] base(rest[k]),
        ) by {
            assert(rest[i] == terms[i]);
            assert(rest[k] == terms[k]);
        }
        lemma_collected_tidy(rest);
        let groups = groups_each(rest);
        assert forall|k: int| 0 <= k < groups.len() implies !alike(
            base(last),
            #[trigger] groups[k].0,
        ) by {
            assert(groups[k].0 == base(terms[k]));
            assert(last == terms[terms.len() - 1]);
        }
        lemma_first_alike_none(groups, base(last), 0);
        assert(groups.push(group_of(last)) =~= groups_each(terms));
    }
}

/// The terms of a normal tree that is a sum or the term of its own group
/// are tidy.
pub proof fn lemma_sum_terms_tidy(t: Term)
    requires
        is_normal(t),
        is_sum(t) || reassembles(t),
    ensures
        is_tidy(sum_terms(t)),
        sum_terms(t).len() >= 1,
    decreases t,
{
    match t {
        Term::BinaryOp { op: Op::Add, left, right } => {
            lemma_sum_terms_tidy(*left);
            let before = sum_terms(*left);
            let all = sum_terms(t);
            assert(all == before.push(*right));
            assert forall|i: int| 0 <= i < all.len() implies reassembles(#[trigger] all[i]) by {
                if i < before.len() {
                    assert(all[i] == before[i]);
                }
            }
            assert forall|i: int, k: int| 0 <= k < i < all.len() implies !alike(
                #[trigger] base(all[i]),
                #[trigger] base(all[k]),
            ) by {
                assert(all[k] == before[k]);
                if i < before.len() {
                    assert(all[i] == before[i]);
                } else {
                    assert(all[i] == *right);
                }
            }
        },
        _ => {},
    }
}

/// The sum of the groups of the terms of such a tree is the tree.
pub proof fn lemma_sum_rebuilds(t: Term)
    requires
        is_normal(t),
        is_sum(t) || reassembles(t),
    ensures
        sum_of(groups_each(sum_terms(t))) == t,
    decreases t,
{
    match t {
        Term::BinaryOp { op: Op::Add, left, right } => {
            lemma_sum_rebuilds(*left);
            lemma_sum_terms_tidy(*left);
            let groups = groups_each(sum_terms(t));
            assert(groups.drop_last() =~= groups_each(sum_terms(*left)));
            assert(groups.last() == group_of(*right));
            assert(groups.len() >= 2);
        },
        _ => {
            assert(groups_each(sum_terms(t))[0] == group_of(t));
        },
    }
}

/// Simplification leaves a tree in normal form as it is, and the addends of
/// such a tree are its terms.
pub proof fn lemma_normal_is_fixed(t: Term)
    requires
        is_normal(t),
    ensures
        simplified(t) == t,
        addends(t) == sum_terms(t),
    decreases t,
{
    match t {
        Term::Num(_) => {},
        Term::Var(_) => {},
        Term::FuncCall { name, arg } => {
            lemma_normal_is_fixed(*arg);
        },
        Term::BinaryOp { op, left, right } => {
            lemma_normal_is_fixed(*left);
            lemma_normal_is_fixed(*right);
            if op == Op::Add {
                assert(addends(*right) == seq![*right]);
                assert(addends(t) =~= sum_terms(t));
                lemma_sum_terms_tidy(t);
                lemma_collected_tidy(sum_terms(t));
                lemma_sum_rebuilds(t);
                assert(addends(*left) + addends(*right) =~= sum_terms(t));
            } else {
                assert(addends(t) == seq![simplified(t)]);
            }
        },
    }
}

/// Whether the term of no group is a sum.
pub open spec fn no_sum_terms(groups: Seq<Group>) -> bool {
    forall|i: int| 0 <= i < groups.len() ==> !is_sum(#[trigger] group_term(groups[i]))
}

/// Whether the addends of `t`, which are the operands of its nested sums,
/// are steady.
pub open spec fn has_steady_addends(t: Term) -> bool
    decreases t, 1int,
{
    match t {
        Term::BinaryOp { op: Op::Add, left, right } => has_steady_addends(*left)
            && has_steady_addends(*right),
        _ => is_steady(t),
    }
}

/// A steady tree: in each of its sums, the term of no group of like terms is
/// again a sum.
pub open spec fn is_steady(t: Term) -> bool
    decreases t, 0int,
{
    match t {
        Term::Num(_) => true,
        Term::Var(_) => true,
        Term::FuncCall { name, arg } => is_steady(*arg),
        Term::BinaryOp { op, left, right } => if op == Op::Add {
            &&& has_steady_addends(*left)
            &&& has_steady_addends(*right)
            &&& no_sum_terms(collected(addends(*left) + addends(*right)))
        } else {
            is_steady(*left) && is_steady(*right)
        },
    }
}

/// Whether no base of the groups is like the base of an earlier group.
pub open spec fn has_unlike_bases(groups: Seq<Group>) -> bool {
    forall|i: int, k: int|
        0 <= k < i < groups.len() ==> !alike(#[trigger] groups[i].0, #[trigger] groups[k].0)
}

/// Whether the base of each group can be the base of a group of simplified
/// terms.
pub open spec fn has_group_bases(groups: Seq<Group>) -> bool {
    forall|i: int| 0 <= i < groups.len() ==> is_group_base(#[trigger] groups[i].0)
}

/// The groups of normal terms: each has the base of a group of simplified
/// terms, no base is like an earlier one, and there is a group where there
/// is a term.
pub proof fn lemma_collected_groups(terms: Seq<Term>)
    requires
        forall|j: int| 0 <= j < terms.len() ==> is_normal(#[trigger] terms[j]),
    ensures
        has_group_bases(collected(terms)),
        has_unlike_bases(collected(terms)),
        terms.len() >= 1 ==> collected(terms).len() >= 1,
    decreases terms.len(),
{
    if terms.len() > 0 {
        let rest = terms.drop_last();
        let last = terms.last();
        assert forall|j: int| 0 <= j < rest.len() implies is_normal(#[trigger] rest[j]) by {
            assert(rest[j] == terms[j]);
        }
        lemma_collected_groups(rest);
        let before = collected(rest);
        let b = base(last);
        let c = coefficient(last);
        let after = collected(terms);
        assert(after == absorbed(before, b, c));
        assert(is_normal(last));
        lemma_base_is_base(last);
        lemma_base_is_normal(last);
        lemma_first_alike(before, b, 0);
        match first_alike(before, b, 0) {
            Some(i) => {
                assert forall|j: int| 0 <= j < after.len() implies is_group_base(
                    #[trigger] after[j].0,
                ) by {
                    assert(after[j].0 == before[j].0);
                }
                assert forall|j: int, k: int| 0 <= k < j < after.len() implies !alike(
                    #[trigger] after[j].0,
                    #[trigger] after[k].0,
                ) by {
                    assert(after[j].0 == before[j].0);
                    assert(after[k].0 == before[k].0);
                }
            },
            None => {
                assert forall|j: int| 0 <= j < after.len() implies is_group_base(
                    #[trigger] after[j].0,
                ) by {
                    if j < before.len() {
                        assert(after[j].0 == before[j].0);
                    }
                }
                assert forall|j: int, k: int| 0 <= k < j < after.len() implies !alike(
                    #[trigger] after[j].0,
                    #[trigger] after[k].0,
                ) by {
                    assert(after[k].0 == before[k].0);
                    if j < before.len() {
                        assert(after[j].0 == before[j].0);
                    }
                }
            },
        }
    }
}

/// The terms of a sequence of groups.
pub open spec fn terms_each(groups: Seq<Group>) -> Seq<Term> {
    Seq::new(groups.len(), |i: int| group_term(groups[i]))
}

/// The sum of such groups, none of whose terms is a sum, is in normal form,
/// and its terms are the terms of the groups.
pub proof fn lemma_sum_of_groups(groups: Seq<Group>)
    requires
        groups.len() >= 1,
        has_group_bases(groups),
        has_unlike_bases(groups),
        no_sum_terms(groups),
    ensures
        is_normal(sum_of(groups)),
        is_sum(sum_of(groups)) || reassembles(sum_of(groups)),
        sum_terms(sum_of(groups)) == terms_each(groups),
    decreases groups.len(),
{
    let last = groups.last();
    let u = group_term(last);
    assert(groups[groups.len() - 1] == last);
    lemma_group_term(last);
    if groups.len() == 1 {
        assert(sum_of(groups) == u);
        assert(!is_sum(u));
        assert(sum_terms(u) =~= terms_each(groups));
    } else {
        let rest = groups.drop_last();
        assert forall|i: int| 0 <= i < rest.len() implies is_group_base(#[trigger] rest[i].0) by {
            assert(rest[i] == groups[i]);
        }
        assert forall|i: int, k: int| 0 <= k < i < rest.len() implies !alike(
            #[trigger] rest[i].0,
            #[trigger] rest[k].0,
        ) by {
            assert(rest[i] == groups[i]);
            assert(rest[k] == groups[k]);
        }
        assert forall|i: int| 0 <= i < rest.len() implies !is_sum(
            #[trigger] group_term(rest[i]),
        ) by {
            assert(rest[i] == groups[i]);
        }
        lemma_sum_of_groups(rest);
        let left = sum_of(rest);
        let t = sum_of(groups);
        assert(t == Term::binary(Op::Add, left, u));
        assert(sum_terms(t) == sum_terms(left).push(u));
        assert(sum_terms(t) =~= terms_each(groups));
        assert forall|k: int| 0 <= k < sum_terms(left).len() implies !alike(
            base(u),
            #[trigger] base(sum_terms(left)[k]),
        ) by {
            assert(sum_terms(left)[k] == group_term(rest[k]));
            assert(rest[k] == groups[k]);
            lemma_group_term(groups[k]);
            assert(!alike(last.0, groups[k].0));
        }
        assert(is_normal(t));
    }
}

/// The addends of a tree with steady addends are in normal form.
pub proof fn lemma_addends_are_normal(t: Term)
    requires
        has_steady_addends(t),
    ensures
        forall|j: int| 0 <= j < addends(t).len() ==> is_normal(#[trigger] addends(t)[j]),
        addends(t).len() >= 1,
    decreases t, 1int,
{
    match t {
        Term::BinaryOp { op: Op::Add, left, right } => {
            lemma_addends_are_normal(*left);
            lemma_addends_are_normal(*right);
            let l = addends(*left);
            let r = addends(*right);
            assert forall|j: int| 0 <= j < addends(t).len() implies is_normal(
                #[trigger] addends(t)[j],
            ) by {
                if j < l.len() {
                    assert(addends(t)[j] == l[j]);
                } else {
                    assert(addends(t)[j] == r[j - l.len()]);
                }
            }
        },
        _ => {
            lemma_simplified_is_normal(t);
        },
    }
}

/// Simplification brings a steady tree into normal form.
pub proof fn lemma_simplified_is_normal(t: Term)
    requires
        is_steady(t),
    ensures
        is_normal(simplified(t)),
    decreases t, 0int,
{
    match t {
        Term::Num(_) => {},
        Term::Var(_) => {},
        Term::FuncCall { name, arg } => {
            lemma_simplified_is_normal(*arg);
        },
        Term::BinaryOp { op, left, right } => {
            if op == Op::Add {
                lemma_addends_are_normal(*left);
                lemma_addends_are_normal(*right);
                let l = addends(*left);
                let r = addends(*right);
                let all = l + r;
                assert forall|j: int| 0 <= j < all.len() implies is_normal(#[trigger] all[j]) by {
                    if j < l.len() {
                        assert(all[j] == l[j]);
                    } else {
                        assert(all[j] == r[j - l.len()]);
                    }
                }
                lemma_collected_groups(all);
                lemma_sum_of_groups(collected(all));
            } else {
                lemma_simplified_is_normal(*left);
                lemma_simplified_is_normal(*right);
                let l = simplified(*left);
                let r = simplified(*right);
                let s = folded(op, l, r);
                assert(simplified(t) == s);
                if s == Term::binary(op, l, r) {
                    assert(is_normal(s));
                }
            }
        },
    }
}

/// Simplification is idempotent wherever it reaches normal form: a tree
/// whose simplified form is normal is brought to a form that simplification
/// leaves as it is. (Every steady tree is such a tree, by
/// `lemma_simplified_is_normal`. A tree that is not is `(1 * (x + y)) + x`,
/// whose simplified form `(x + y) + x` has two like terms.)
pub proof fn lemma_simplify_idempotent(t: Term)
    requires
        is_normal(simplified(t)),
    ensures
        simplified(simplified(t)) == simplified(t),
{
    lemma_normal_is_fixed(simplified(t));
}

/// Simplification is idempotent on steady trees.
pub proof fn lemma_simplify_idempotent_on_steady(t: Term)
    requires
        is_steady(t),
    ensures
        simplified(simplified(t)) == simplified(t),
{
    lemma_simplified_is_normal(t);
    lemma_simplify_idempotent(t);
}

} // verus!
