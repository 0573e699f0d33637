//! The chain rule over a mathematical tree, and what it accumulates.

use vstd::prelude::*;

use crate::scalar::Scalar;
use crate::scalar::{
    divides, lawful, left_taken, lemma_absence, lemma_over, lemma_plus, lemma_sign, lemma_times,
    lemma_units, raised, rings, sign_of,
};
use crate::tree::{derivatives, total, Tree};

verus! {

impl<V: Scalar> Tree<V> {
    /// `grad` with `seed` times the partials of an expression added in, one node at a time.
    pub open spec fn partials(self, env: Seq<V>, seed: V, grad: Seq<V>) -> Seq<V>
        decreases self,
    {
        match self {
            Tree::Const(_) => grad,
            Tree::Var(i) => if 0 <= i < grad.len() {
                grad.update(i, grad[i].plus(seed))
            } else {
                grad
            },
            Tree::Add(l, r) => r.partials(env, seed, l.partials(env, seed, grad)),
            Tree::Sub(l, r) => r.partials(env, seed.negated(), l.partials(env, seed, grad)),
            Tree::Mul(l, r) => r.partials(
                env,
                seed.times(l.value(env)),
                l.partials(env, seed.times(r.value(env)), grad),
            ),
            Tree::Div(l, r) => r.partials(
                env,
                seed.negated().times(l.value(env)).over(r.value(env).times(r.value(env))),
                l.partials(env, seed.over(r.value(env)), grad),
            ),
            Tree::Min(l, r) => if left_taken(l.value(env).below(r.value(env)), r.value(env)) {
                l.partials(env, seed, grad)
            } else {
                r.partials(env, seed, grad)
            },
            Tree::Max(l, r) => if left_taken(r.value(env).below(l.value(env)), r.value(env)) {
                l.partials(env, seed, grad)
            } else {
                r.partials(env, seed, grad)
            },
            Tree::Cmp(_, _) => grad,
            Tree::IsNan(_) => grad,
            Tree::Neg(e) => e.partials(env, seed.negated(), grad),
            Tree::Square(e) => e.partials(
                env,
                seed.times(V::whole(2)).times(e.value(env)),
                grad,
            ),
            Tree::Abs(e) => e.partials(env, seed.times(sign_of(e.value(env))), grad),
            Tree::Sqrt(e) => e.partials(
                env,
                seed.over(V::whole(2).times(e.value(env).root())),
                grad,
            ),
            Tree::Exp(e) => e.partials(env, seed.times(e.value(env).exponential()), grad),
            Tree::Powi(e, n) => e.partials(
                env,
                seed.times(V::whole(n)).times(raised(e.value(env), n - 1)),
                grad,
            ),
            Tree::Select(c, a, b) => if !c.value(env).equals(V::whole(0)) {
                a.partials(env, seed, grad)
            } else {
                b.partials(env, seed, grad)
            },
            Tree::Sum(xs) => all_partials(xs, env, seed, grad),
        }
    }
}

pub open spec fn all_partials<V: Scalar>(
    xs: Seq<Tree<V>>,
    env: Seq<V>,
    seed: V,
    grad: Seq<V>,
) -> Seq<V>
    decreases xs,
{
    if xs.len() == 0 {
        grad
    } else {
        xs.last().partials(env, seed, all_partials(xs.drop_last(), env, seed, grad))
    }
}

/// Whether every subexpression a value comes from is a number: the branches not taken, and what is
/// only compared or asked about, need not be.
pub open spec fn settled<V: Scalar>(t: Tree<V>, env: Seq<V>) -> bool
    decreases t,
{
    !t.value(env).absent() && match t {
        Tree::Const(_) => true,
        Tree::Var(_) => true,
        Tree::Cmp(_, _) => true,
        Tree::IsNan(_) => true,
        Tree::Min(l, r) => if left_taken(l.value(env).below(r.value(env)), r.value(env)) {
            settled(*l, env)
        } else {
            settled(*r, env)
        },
        Tree::Max(l, r) => if left_taken(r.value(env).below(l.value(env)), r.value(env)) {
            settled(*l, env)
        } else {
            settled(*r, env)
        },
        Tree::Select(c, a, b) => if !c.value(env).equals(V::whole(0)) {
            settled(*a, env)
        } else {
            settled(*b, env)
        },
        Tree::Sum(xs) => all_settled(xs, env),
        Tree::Add(l, r) => settled(*l, env) && settled(*r, env),
        Tree::Sub(l, r) => settled(*l, env) && settled(*r, env),
        Tree::Mul(l, r) => settled(*l, env) && settled(*r, env),
        Tree::Div(l, r) => settled(*l, env) && settled(*r, env),
        Tree::Neg(e) => settled(*e, env),
        Tree::Square(e) => settled(*e, env),
        Tree::Abs(e) => settled(*e, env),
        Tree::Sqrt(e) => settled(*e, env),
        Tree::Exp(e) => settled(*e, env),
        Tree::Powi(e, _) => settled(*e, env),
    }
}

pub open spec fn all_settled<V: Scalar>(xs: Seq<Tree<V>>, env: Seq<V>) -> bool
    decreases xs,
{
    xs.len() == 0 || (all_settled(xs.drop_last(), env) && settled(xs.last(), env))
}

/// Whether nothing in an expression is divided for its slope: no quotient, no magnitude, no root.
pub open spec fn undivided<V: Scalar>(t: Tree<V>) -> bool
    decreases t,
{
    match t {
        Tree::Const(_) => true,
        Tree::Var(_) => true,
        Tree::Cmp(_, _) => true,
        Tree::IsNan(_) => true,
        Tree::Div(_, _) => false,
        Tree::Abs(_) => false,
        Tree::Sqrt(_) => false,
        Tree::Select(_, a, b) => undivided(*a) && undivided(*b),
        Tree::Sum(xs) => all_undivided(xs),
        Tree::Add(l, r) => undivided(*l) && undivided(*r),
        Tree::Sub(l, r) => undivided(*l) && undivided(*r),
        Tree::Mul(l, r) => undivided(*l) && undivided(*r),
        Tree::Min(l, r) => undivided(*l) && undivided(*r),
        Tree::Max(l, r) => undivided(*l) && undivided(*r),
        Tree::Neg(e) => undivided(*e),
        Tree::Square(e) => undivided(*e),
        Tree::Exp(e) => undivided(*e),
        Tree::Powi(e, _) => undivided(*e),
    }
}

pub open spec fn all_undivided<V: Scalar>(xs: Seq<Tree<V>>) -> bool
    decreases xs,
{
    xs.len() == 0 || (all_undivided(xs.drop_last()) && undivided(xs.last()))
}

/// Two slopes added one after the other.
proof fn lemma_two<V: Scalar>(g: V, a: V, b: V, sum: V)
    requires
        lawful::<V>(),
        sum == a.plus(b),
    ensures
        g.plus(a).plus(b) == g.plus(sum),
{
    lemma_plus(g, a, b);
}

/// The slope of a product.
proof fn lemma_mul<V: Scalar>(seed: V, l: V, r: V, dl: V, dr: V)
    requires
        lawful::<V>(),
        rings::<V>(),
    ensures
        seed.times(dl.times(r).plus(l.times(dr))) == seed.times(r).times(dl).plus(
            seed.times(l).times(dr),
        ),
{
    lemma_times(seed, dl.times(r), l.times(dr));
    lemma_times(dl, r, dl);
    lemma_times(seed, r, dl);
    lemma_times(seed, l, dr);
}

/// The slope of a difference.
proof fn lemma_sub<V: Scalar>(seed: V, dl: V, dr: V)
    requires
        lawful::<V>(),
        rings::<V>(),
    ensures
        seed.times(dl.minus(dr)) == seed.times(dl).plus(seed.negated().times(dr)),
{
    lemma_times(dl, dr, dr);
    lemma_times(seed, dl, dr.negated());
    lemma_times(seed, dr, dr);
}

/// A divided seed scales as the slope divided.
proof fn lemma_divided<V: Scalar>(seed: V, d: V, by: V)
    requires
        lawful::<V>(),
        rings::<V>(),
        divides::<V>(),
        !seed.absent(),
        !d.absent(),
        !d.over(by).absent(),
    ensures
        seed.over(by).times(d) == seed.times(d.over(by)),
        !seed.over(by).absent(),
{
    lemma_over(seed, d, by, d);
    lemma_over(d, seed, by, d);
    lemma_times(seed, d, d);
    lemma_times(seed.over(by), d, d);
}

/// The slope of a quotient.
proof fn lemma_div<V: Scalar>(seed: V, l: V, r: V, dl: V, dr: V)
    requires
        lawful::<V>(),
        rings::<V>(),
        divides::<V>(),
        !seed.absent(),
        !dl.absent(),
        !dr.absent(),
        !l.over(r).absent(),
        !dl.times(r).minus(l.times(dr)).over(r.times(r)).absent(),
    ensures
        !seed.over(r).absent(),
        !seed.negated().times(l).over(r.times(r)).absent(),
        seed.times(dl.times(r).minus(l.times(dr)).over(r.times(r))) == seed.over(r).times(dl).plus(
            seed.negated().times(l).over(r.times(r)).times(dr),
        ),
{
    let sq = r.times(r);
    let over = dl.times(r).minus(l.times(dr));
    lemma_absence(l, r);
    lemma_absence(dl, r);
    lemma_absence(l, dr);
    lemma_absence(seed, l);
    lemma_absence(seed.negated(), l);
    lemma_absence(seed.negated(), dr);
    // the two quotients of the difference
    lemma_over(dl.times(r), l.times(dr), sq, over);
    lemma_over(dl, dl, r, l);
    lemma_sub(seed, dl.over(r), l.times(dr).over(sq));
    // the left one
    lemma_divided(seed, dl, r);
    // the right one
    let y = seed.negated().times(l);
    lemma_over(y, dr, sq, over);
    lemma_over(dr, y, sq, over);
    lemma_times(dr, y, y);
    lemma_times(dr, y.over(sq), y);
    lemma_times(seed.negated(), l, dr);
    lemma_over(seed.negated(), l.times(dr), sq, over);
}

/// What an expression's partials add at one variable.
proof fn lemma_partial<V: Scalar>(t: Tree<V>, env: Seq<V>, seed: V, grad: Seq<V>, i: int)
    requires
        lawful::<V>(),
        rings::<V>(),
        divides::<V>() || undivided(t),
        settled(t, env),
        settled(t.derivative(i), env),
        !seed.absent(),
        0 <= i < grad.len(),
        !grad[i].absent(),
    ensures
        t.partials(env, seed, grad).len() == grad.len(),
        !t.partials(env, seed, grad)[i].absent(),
        t.partials(env, seed, grad)[i] == grad[i].plus(seed.times(t.derivative(i).value(env))),
    decreases t,
{
    reveal_with_fuel(settled, 5);
    reveal_with_fuel(Tree::value, 5);
    let (g, d) = (grad[i], t.derivative(i).value(env));
    lemma_units(seed);
    lemma_units(g);
    lemma_absence(seed, d);
    lemma_absence(g, seed.times(d));
    lemma_absence(g, seed);
    lemma_absence(seed, seed);
    match t {
        Tree::Const(_) => {},
        Tree::Var(_) => {},
        Tree::Cmp(_, _) => {},
        Tree::IsNan(_) => {},
        Tree::Add(l, r) => {
            let (dl, dr) = (l.derivative(i).value(env), r.derivative(i).value(env));
            lemma_partial(*l, env, seed, grad, i);
            lemma_partial(*r, env, seed, l.partials(env, seed, grad), i);
            lemma_times(seed, dl, dr);
            lemma_two(g, seed.times(dl), seed.times(dr), seed.times(d));
        },
        Tree::Sub(l, r) => {
            let (dl, dr) = (l.derivative(i).value(env), r.derivative(i).value(env));
            lemma_partial(*l, env, seed, grad, i);
            lemma_partial(*r, env, seed.negated(), l.partials(env, seed, grad), i);
            lemma_sub(seed, dl, dr);
            lemma_two(g, seed.times(dl), seed.negated().times(dr), seed.times(d));
        },
        Tree::Mul(l, r) => {
            let (lv, rv) = (l.value(env), r.value(env));
            let (dl, dr) = (l.derivative(i).value(env), r.derivative(i).value(env));
            lemma_absence(seed, lv);
            lemma_absence(seed, rv);
            lemma_partial(*l, env, seed.times(rv), grad, i);
            lemma_partial(*r, env, seed.times(lv), l.partials(env, seed.times(rv), grad), i);
            lemma_mul(seed, lv, rv, dl, dr);
            lemma_two(g, seed.times(rv).times(dl), seed.times(lv).times(dr), seed.times(d));
        },
        Tree::Div(l, r) => {
            let (lv, rv) = (l.value(env), r.value(env));
            let (dl, dr) = (l.derivative(i).value(env), r.derivative(i).value(env));
            lemma_div(seed, lv, rv, dl, dr);
            let (a, b) = (seed.over(rv), seed.negated().times(lv).over(rv.times(rv)));
            lemma_partial(*l, env, a, grad, i);
            lemma_partial(*r, env, b, l.partials(env, a, grad), i);
            lemma_two(g, a.times(dl), b.times(dr), seed.times(d));
        },
        Tree::Min(l, r) => {
            let (lv, rv) = (l.value(env), r.value(env));
            lemma_times(lv, rv, rv);
            if left_taken(lv.below(rv), rv) {
                lemma_partial(*l, env, seed, grad, i);
            } else {
                lemma_partial(*r, env, seed, grad, i);
            }
        },
        Tree::Max(l, r) => {
            let (lv, rv) = (l.value(env), r.value(env));
            lemma_times(rv, lv, rv);
            if left_taken(rv.below(lv), rv) {
                lemma_partial(*l, env, seed, grad, i);
            } else {
                lemma_partial(*r, env, seed, grad, i);
            }
        },
        Tree::Neg(e) => {
            let de = e.derivative(i).value(env);
            lemma_partial(*e, env, seed.negated(), grad, i);
            lemma_times(seed, de, de);
        },
        Tree::Square(e) => {
            let (v, de, two) = (e.value(env), e.derivative(i).value(env), V::whole(2));
            lemma_absence(seed, two);
            lemma_absence(seed.times(two), v);
            lemma_partial(*e, env, seed.times(two).times(v), grad, i);
            lemma_times(seed.times(two), v, de);
            lemma_times(seed, two, v.times(de));
        },
        Tree::Abs(e) => {
            let (v, de) = (e.value(env), e.derivative(i).value(env));
            lemma_sign(v);
            lemma_absence(seed, sign_of(v));
            lemma_partial(*e, env, seed.times(sign_of(v)), grad, i);
            lemma_times(seed, sign_of(v), de);
        },
        Tree::Sqrt(e) => {
            let (v, de) = (e.value(env), e.derivative(i).value(env));
            let by = V::whole(2).times(v.root());
            lemma_divided(seed, de, by);
            lemma_partial(*e, env, seed.over(by), grad, i);
        },
        Tree::Exp(e) => {
            let (v, de) = (e.value(env), e.derivative(i).value(env));
            lemma_absence(seed, v.exponential());
            lemma_partial(*e, env, seed.times(v.exponential()), grad, i);
            lemma_times(seed, v.exponential(), de);
        },
        Tree::Powi(e, n) => {
            let (v, de) = (e.value(env), e.derivative(i).value(env));
            let (k, p) = (V::whole(n), raised(v, n - 1));
            lemma_absence(seed, k);
            lemma_absence(seed.times(k), p);
            lemma_partial(*e, env, seed.times(k).times(p), grad, i);
            lemma_times(seed, k, p);
            lemma_times(seed, k.times(p), de);
        },
        Tree::Select(c, a, b) => {
            if !c.value(env).equals(V::whole(0)) {
                lemma_partial(*a, env, seed, grad, i);
            } else {
                lemma_partial(*b, env, seed, grad, i);
            }
        },
        Tree::Sum(xs) => {
            lemma_all_partial(xs, env, seed, grad, i);
        },
    }
}

proof fn lemma_all_partial<V: Scalar>(
    xs: Seq<Tree<V>>,
    env: Seq<V>,
    seed: V,
    grad: Seq<V>,
    i: int,
)
    requires
        lawful::<V>(),
        rings::<V>(),
        divides::<V>() || all_undivided(xs),
        all_settled(xs, env),
        all_settled(derivatives(xs, i), env),
        !seed.absent(),
        0 <= i < grad.len(),
        !grad[i].absent(),
    ensures
        all_partials(xs, env, seed, grad).len() == grad.len(),
        !all_partials(xs, env, seed, grad)[i].absent(),
        all_partials(xs, env, seed, grad)[i] == grad[i].plus(
            seed.times(total(derivatives(xs, i), env)),
        ),
        !total(derivatives(xs, i), env).absent(),
    decreases xs,
{
    let g = grad[i];
    if xs.len() == 0 {
        lemma_units(seed);
        lemma_units(g);
    } else {
        let rest = xs.drop_last();
        assert(derivatives(xs, i).drop_last() =~= derivatives(rest, i));
        lemma_all_partial(rest, env, seed, grad, i);
        let sofar = all_partials(rest, env, seed, grad);
        lemma_partial(xs.last(), env, seed, sofar, i);
        let (t, d) = (total(derivatives(rest, i), env), xs.last().derivative(i).value(env));
        lemma_times(seed, t, d);
        lemma_absence(t, d);
        lemma_two(g, seed.times(t), seed.times(d), seed.times(t.plus(d)));
    }
}

/// The chain-rule pass accumulates exactly the symbolic derivative: where arithmetic is exact and
/// every subexpression the value and the slope come from is a number, `seed` times the slope is what
/// is added, and nothing else.
pub proof fn the_partials_are_the_derivative<V: Scalar>(
    t: Tree<V>,
    env: Seq<V>,
    seed: V,
    grad: Seq<V>,
    i: int,
)
    requires
        lawful::<V>(),
        rings::<V>(),
        divides::<V>() || undivided(t),
        settled(t, env),
        settled(t.derivative(i), env),
        !seed.absent(),
        0 <= i < grad.len(),
        !grad[i].absent(),
    ensures
        t.partials(env, seed, grad)[i] == grad[i].plus(seed.times(t.derivative(i).value(env))),
{
    lemma_partial(t, env, seed, grad, i);
}

} // verus!
