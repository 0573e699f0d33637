//! What holds of the algebra as a whole.

use vstd::prelude::*;

use crate::expr::Expr;
use crate::scalar::Scalar;
use crate::gradient::{settled, the_partials_are_the_derivative, undivided};
use crate::scalar::{divides, lawful, lemma_absence, lemma_plus, lemma_units, product, rings};
use crate::tree::{
    all_alike, all_simplified, constants, lemma_simplified_size, lemma_size_positive, lemma_sizes,
    others, simple_neg, simple_sum, sizes, subtracts_from_nothing, terms, total, Tree,
};

verus! {

/// Whether every subexpression is a number here, not merely the root.
pub open spec fn numbers<V: Scalar>(t: Tree<V>, env: Seq<V>) -> bool
    decreases t,
{
    !t.value(env).absent() && match t {
        Tree::Const(_) => true,
        Tree::Var(_) => true,
        Tree::Powi(e, _) => numbers(*e, env),
        Tree::Select(c, a, b) => numbers(*c, env) && numbers(*a, env) && numbers(*b, env),
        Tree::Sum(xs) => all_numbers(xs, env),
        Tree::Add(l, r) => numbers(*l, env) && numbers(*r, env),
        Tree::Sub(l, r) => numbers(*l, env) && numbers(*r, env),
        Tree::Mul(l, r) => numbers(*l, env) && numbers(*r, env),
        Tree::Div(l, r) => numbers(*l, env) && numbers(*r, env),
        Tree::Min(l, r) => numbers(*l, env) && numbers(*r, env),
        Tree::Max(l, r) => numbers(*l, env) && numbers(*r, env),
        Tree::Cmp(l, r) => numbers(*l, env) && numbers(*r, env),
        Tree::Neg(e) => numbers(*e, env),
        Tree::Square(e) => numbers(*e, env),
        Tree::Abs(e) => numbers(*e, env),
        Tree::Sqrt(e) => numbers(*e, env),
        Tree::Exp(e) => numbers(*e, env),
        Tree::IsNan(e) => numbers(*e, env),
    }
}

pub open spec fn all_numbers<V: Scalar>(xs: Seq<Tree<V>>, env: Seq<V>) -> bool
    decreases xs,
{
    xs.len() == 0 || (all_numbers(xs.drop_last(), env) && numbers(xs.last(), env))
}

/// Expressions that are alike are worth the same.
proof fn lemma_alike<V: Scalar>(a: Tree<V>, b: Tree<V>, env: Seq<V>)
    requires
        lawful::<V>(),
        a.alike(b),
    ensures
        a.value(env) == b.value(env),
    decreases a,
{
    match (a, b) {
        (Tree::Powi(a, n), Tree::Powi(b, m)) => {
            lemma_alike(*a, *b, env);
        },
        (Tree::Select(a, b, c), Tree::Select(d, e, f)) => {
            lemma_alike(*a, *d, env);
            lemma_alike(*b, *e, env);
            lemma_alike(*c, *f, env);
        },
        (Tree::Sum(a), Tree::Sum(b)) => {
            lemma_all_alike(a, b, env);
        },
        (Tree::Add(a, b), Tree::Add(c, d)) => {
            lemma_alike(*a, *c, env);
            lemma_alike(*b, *d, env);
        },
        (Tree::Sub(a, b), Tree::Sub(c, d)) => {
            lemma_alike(*a, *c, env);
            lemma_alike(*b, *d, env);
        },
        (Tree::Mul(a, b), Tree::Mul(c, d)) => {
            lemma_alike(*a, *c, env);
            lemma_alike(*b, *d, env);
        },
        (Tree::Div(a, b), Tree::Div(c, d)) => {
            lemma_alike(*a, *c, env);
            lemma_alike(*b, *d, env);
        },
        (Tree::Min(a, b), Tree::Min(c, d)) => {
            lemma_alike(*a, *c, env);
            lemma_alike(*b, *d, env);
        },
        (Tree::Max(a, b), Tree::Max(c, d)) => {
            lemma_alike(*a, *c, env);
            lemma_alike(*b, *d, env);
        },
        (Tree::Cmp(a, b), Tree::Cmp(c, d)) => {
            lemma_alike(*a, *c, env);
            lemma_alike(*b, *d, env);
        },
        (Tree::Neg(a), Tree::Neg(b)) => {
            lemma_alike(*a, *b, env);
        },
        (Tree::Square(a), Tree::Square(b)) => {
            lemma_alike(*a, *b, env);
        },
        (Tree::Abs(a), Tree::Abs(b)) => {
            lemma_alike(*a, *b, env);
        },
        (Tree::Sqrt(a), Tree::Sqrt(b)) => {
            lemma_alike(*a, *b, env);
        },
        (Tree::Exp(a), Tree::Exp(b)) => {
            lemma_alike(*a, *b, env);
        },
        (Tree::IsNan(a), Tree::IsNan(b)) => {
            lemma_alike(*a, *b, env);
        },
        _ => {},
    }
}

proof fn lemma_all_alike<V: Scalar>(a: Seq<Tree<V>>, b: Seq<Tree<V>>, env: Seq<V>)
    requires
        lawful::<V>(),
        all_alike(a, b),
    ensures
        total(a, env) == total(b, env),
    decreases a,
{
    if a.len() > 0 {
        lemma_all_alike(a.drop_last(), b.drop_last(), env);
        lemma_alike(a.last(), b.last(), env);
    }
}

/// A sum is its varying terms and its constants.
proof fn lemma_parts<V: Scalar>(xs: Seq<Tree<V>>, env: Seq<V>)
    requires
        lawful::<V>(),
        forall|i: int| 0 <= i < xs.len() ==> !(#[trigger] xs[i]).value(env).absent(),
    ensures
        total(xs, env) == total(others(xs), env).plus(constants(xs)),
        !total(xs, env).absent(),
        !total(others(xs), env).absent(),
        !constants(xs).absent(),
    decreases xs.len(),
{
    if xs.len() > 0 {
        let rest = xs.drop_last();
        assert forall|i: int| 0 <= i < rest.len() implies !(#[trigger] rest[i]).value(
            env,
        ).absent() by {
            assert(rest[i] == xs[i]);
        }
        lemma_parts(rest, env);
        let (o, c, v) = (total(others(rest), env), constants(rest), xs.last().value(env));
        assert(!xs[xs.len() - 1].value(env).absent());
        lemma_absence(total(rest, env), v);
        lemma_plus(o, c, v);
        lemma_absence(c, v);
        lemma_absence(o, v);
        if xs.last() !is Const {
            assert(others(xs).drop_last() =~= others(rest));
            lemma_plus(o, v, c);
            lemma_plus(c, v, v);
        }
    } else {
        lemma_units(V::whole(0));
    }
}

proof fn lemma_simple_sum<V: Scalar>(xs: Seq<Tree<V>>, env: Seq<V>)
    requires
        lawful::<V>(),
        forall|i: int| 0 <= i < xs.len() ==> !(#[trigger] xs[i]).value(env).absent(),
    ensures
        simple_sum(xs).value(env) == total(xs, env),
{
    lemma_parts(xs, env);
    let (o, acc) = (total(others(xs), env), constants(xs));
    lemma_units(o);
    if !acc.equals(V::whole(0)) || others(xs).len() == 0 {
        assert(terms(xs).drop_last() =~= others(xs));
        assert(terms(xs).last() == Tree::Const(acc));
        assert(Tree::Const(acc).value(env) == acc);
        assert(total(terms(xs), env) == o.plus(acc));
    }
    assert(total(terms(xs), env) == total(xs, env));
    if terms(xs).len() == 1 {
        let only = terms(xs)[0].value(env);
        assert(terms(xs).drop_last() =~= Seq::empty());
        reveal_with_fuel(total, 2);
        lemma_absence(V::whole(0), only);
        lemma_units(only);
    }
}

proof fn lemma_neg<V: Scalar>(e: Tree<V>, env: Seq<V>)
    requires
        lawful::<V>(),
        numbers(e, env),
    ensures
        simple_neg(e).value(env) == e.value(env).negated(),
        numbers(simple_neg(e), env),
{
    match e {
        Tree::Neg(inner) => {
            assert(numbers(*inner, env));
            lemma_units(inner.value(env));
        },
        _ => {
            lemma_absence(e.value(env), e.value(env));
        },
    }
}

proof fn lemma_all_numbers<V: Scalar>(xs: Seq<Tree<V>>, env: Seq<V>, i: int)
    requires
        all_numbers(xs, env),
        0 <= i < xs.len(),
    ensures
        numbers(xs[i], env),
    decreases xs.len(),
{
    if i < xs.len() - 1 {
        lemma_all_numbers(xs.drop_last(), env, i);
    }
}

proof fn lemma_others_numbers<V: Scalar>(xs: Seq<Tree<V>>, env: Seq<V>)
    requires
        all_numbers(xs, env),
    ensures
        all_numbers(others(xs), env),
    decreases xs.len(),
{
    if xs.len() > 0 {
        lemma_others_numbers(xs.drop_last(), env);
        if xs.last() !is Const {
            assert(others(xs).drop_last() =~= others(xs.drop_last()));
        }
    }
}

proof fn lemma_sum_numbers<V: Scalar>(xs: Seq<Tree<V>>, env: Seq<V>)
    requires
        lawful::<V>(),
        all_numbers(xs, env),
    ensures
        numbers(simple_sum(xs), env),
{
    lemma_others_numbers(xs, env);
    assert forall|i: int| 0 <= i < xs.len() implies !(#[trigger] xs[i]).value(env).absent() by {
        lemma_all_numbers(xs, env, i);
    }
    lemma_parts(xs, env);
    lemma_simple_sum(xs, env);
    if !constants(xs).equals(V::whole(0)) || others(xs).len() == 0 {
        assert(terms(xs).drop_last() =~= others(xs));
        assert(Tree::Const(constants(xs)).value(env) == constants(xs));
        assert(numbers(Tree::Const(constants(xs)), env));
        assert(terms(xs).last() == Tree::Const(constants(xs)));
    }
    assert(all_numbers(terms(xs), env));
    if terms(xs).len() == 1 {
        lemma_all_numbers(terms(xs), env, 0);
    }
}

proof fn lemma_simplified<V: Scalar>(t: Tree<V>, env: Seq<V>)
    requires
        lawful::<V>(),
        numbers(t, env),
    ensures
        t.simplified().value(env) == t.value(env),
        numbers(t.simplified(), env),
    decreases t.size(), 0nat,
{
    lemma_sizes(t);
    match t {
        Tree::Const(_) => {},
        Tree::Var(_) => {},
        Tree::Powi(e, n) => {
            lemma_simplified(*e, env);
            let x = e.value(env);
            reveal_with_fuel(product, 2);
            lemma_units(x);
            reveal_with_fuel(Tree::value, 2);
        },
        Tree::Select(c, a, b) => {
            lemma_simplified(*c, env);
            lemma_simplified(*a, env);
            lemma_simplified(*b, env);
            if a.simplified().alike(b.simplified()) {
                lemma_alike(a.simplified(), b.simplified(), env);
            }
        },
        Tree::Sum(xs) => {
            lemma_all_simplified(xs, env);
            let ys = all_simplified(xs);
            assert forall|i: int| 0 <= i < ys.len() implies !(#[trigger] ys[i]).value(
                env,
            ).absent() by {
                lemma_all_numbers(ys, env, i);
            }
            lemma_simple_sum(ys, env);
            lemma_sum_numbers(ys, env);
        },
        Tree::Add(l, r) => {
            lemma_simplified(*l, env);
            lemma_simplified(*r, env);
            lemma_units(l.value(env));
            lemma_units(r.value(env));
        },
        Tree::Sub(l, r) => {
            lemma_simplified(*l, env);
            lemma_simplified(*r, env);
            lemma_simplified_size(*r);
            lemma_units(l.value(env));
            lemma_units(r.value(env));
            if subtracts_from_nothing(l.simplified(), r.simplified()) {
                lemma_simplified(r.simplified(), env);
                lemma_neg(r.simplified().simplified(), env);
            }
        },
        Tree::Mul(l, r) => {
            lemma_simplified(*l, env);
            lemma_simplified(*r, env);
            lemma_units(l.value(env));
            lemma_units(r.value(env));
        },
        Tree::Div(l, r) => {
            lemma_simplified(*l, env);
            lemma_simplified(*r, env);
            lemma_units(l.value(env));
            lemma_units(r.value(env));
        },
        Tree::Neg(e) => {
            lemma_simplified(*e, env);
            lemma_neg(e.simplified(), env);
        },
        Tree::Min(l, r) => {
            lemma_simplified(*l, env);
            lemma_simplified(*r, env);
            reveal_with_fuel(Tree::value, 2);
        },
        Tree::Max(l, r) => {
            lemma_simplified(*l, env);
            lemma_simplified(*r, env);
            reveal_with_fuel(Tree::value, 2);
        },
        Tree::Cmp(l, r) => {
            lemma_simplified(*l, env);
            lemma_simplified(*r, env);
            reveal_with_fuel(Tree::value, 2);
        },
        Tree::Square(e) => {
            lemma_simplified(*e, env);
            reveal_with_fuel(Tree::value, 2);
        },
        Tree::Abs(e) => {
            lemma_simplified(*e, env);
            reveal_with_fuel(Tree::value, 2);
        },
        Tree::Sqrt(e) => {
            lemma_simplified(*e, env);
            reveal_with_fuel(Tree::value, 2);
        },
        Tree::Exp(e) => {
            lemma_simplified(*e, env);
            reveal_with_fuel(Tree::value, 2);
        },
        Tree::IsNan(e) => {
            lemma_simplified(*e, env);
            reveal_with_fuel(Tree::value, 2);
        },
    }
}

proof fn lemma_all_simplified<V: Scalar>(xs: Seq<Tree<V>>, env: Seq<V>)
    requires
        lawful::<V>(),
        all_numbers(xs, env),
    ensures
        all_numbers(all_simplified(xs), env),
        total(all_simplified(xs), env) == total(xs, env),
    decreases sizes(xs), xs.len(),
{
    if xs.len() > 0 {
        lemma_size_positive(xs.last());
        lemma_all_simplified(xs.drop_last(), env);
        lemma_simplified(xs.last(), env);
        assert(all_simplified(xs).drop_last() =~= all_simplified(xs.drop_last()));
    }
}

/// Simplification is a rewrite of the same expression: where every subexpression is a number and
/// arithmetic is exact, the simplest form is worth what the expression is worth.
pub proof fn simplifying_keeps_the_value<V: Scalar>(t: Tree<V>, env: Seq<V>)
    requires
        lawful::<V>(),
        numbers(t, env),
    ensures
        t.simplified().value(env) == t.value(env),
{
    lemma_simplified(t, env);
}

/// The two planes of the algebra cannot say different things of one expression: what the typed
/// expression evaluates to is what its runtime projection is worth.
pub proof fn the_two_planes_agree<V: Scalar, E: Expr<V>>(e: E, env: Seq<V>)
    ensures
        e.lowered().value(env) == e.value(env),
{
    e.planes_agree(env);
}

/// What the chain-rule pass adds into a gradient is `seed` times the expression's symbolic
/// derivative, where arithmetic is exact and everything the value and the slope come from is a
/// number: the exact gradient and the documented derivative are one number.
pub proof fn the_gradient_is_the_derivative<V: Scalar, E: Expr<V>>(
    e: E,
    env: Seq<V>,
    seed: V,
    grad: Seq<V>,
    i: int,
)
    requires
        lawful::<V>(),
        rings::<V>(),
        divides::<V>() || undivided(e.lowered()),
        settled(e.lowered(), env),
        settled(e.lowered().derivative(i), env),
        !seed.absent(),
        0 <= i < grad.len(),
        !grad[i].absent(),
    ensures
        e.slopes(env, seed, grad)[i] == grad[i].plus(
            seed.times(e.lowered().derivative(i).value(env)),
        ),
{
    e.slopes_are_partials(env, seed, grad);
    the_partials_are_the_derivative(e.lowered(), env, seed, grad, i);
}

} // verus!
