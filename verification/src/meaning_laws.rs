//! What the operators of an expression mean, and what the numbers they are computed over do.

use vstd::prelude::*;

use crate::expr;
use crate::expr::Expr;
use crate::scalar::{
    lawful, lemma_absence, lemma_times, lemma_units, product, rings, sign_of, truth, Scalar,
};
use crate::order::{lemma_rank, ranks};
use crate::slope_laws::measures;
use crate::tree::{total, Tree};
use crate::whole::{is_root, Whole};

verus! {

/// An expression is worth what its operator makes of its operands: the sum, the difference, the product
/// and the quotient of two; the negation, the square, the magnitude, the root and the exponential of
/// one; a constant itself, and a variable what stands for it.
pub proof fn an_expression_is_worth_what_it_says<V: Scalar>(
    l: Box<Tree<V>>,
    r: Box<Tree<V>>,
    env: Seq<V>,
    c: V,
    i: int,
)
    ensures
        ({
            let (a, b) = (l.value(env), r.value(env));
            &&& Tree::Const(c).value(env) == c
            &&& Tree::Var(i).value(env) == env[i]
            &&& Tree::Add(l, r).value(env) == a.plus(b)
            &&& Tree::Sub(l, r).value(env) == a.minus(b)
            &&& Tree::Mul(l, r).value(env) == a.times(b)
            &&& Tree::Div(l, r).value(env) == a.over(b)
            &&& Tree::Neg(l).value(env) == a.negated()
            &&& Tree::Square(l).value(env) == a.times(a)
            &&& Tree::Abs(l).value(env) == a.magnitude()
            &&& Tree::Sqrt(l).value(env) == a.root()
            &&& Tree::Exp(l).value(env) == a.exponential()
        }),
{
}

/// Of numbers in line, the smaller of two is one of them and below neither, the larger one of them and
/// above neither; a comparison is one where the left is below the right and zero where it is not, and so
/// is the question whether there is a number at all; and a choice is its first branch wherever what it
/// goes by is not zero.
pub proof fn a_choice_falls_where_it_says<V: Scalar>(
    c: Box<Tree<V>>,
    l: Box<Tree<V>>,
    r: Box<Tree<V>>,
    env: Seq<V>,
)
    requires
        lawful::<V>(),
        ranks::<V>(),
        measures::<V>(),
    ensures
        ({
            let (p, a, b) = (c.value(env), l.value(env), r.value(env));
            let (least, most) = (Tree::Min(l, r).value(env), Tree::Max(l, r).value(env));
            &&& !a.absent() && !b.absent() ==> {
                &&& least == a || least == b
                &&& !a.below(least) && !b.below(least)
                &&& most == a || most == b
                &&& !most.below(a) && !most.below(b)
            }
            &&& Tree::Cmp(l, r).value(env) == if a.below(b) {
                V::whole(1)
            } else {
                V::whole(0)
            }
            &&& Tree::IsNan(l).value(env) == if a.absent() {
                V::whole(1)
            } else {
                V::whole(0)
            }
            &&& p.equals(V::whole(0)) ==> Tree::Select(c, l, r).value(env) == b
            &&& !p.equals(V::whole(0)) ==> Tree::Select(c, l, r).value(env) == a
        }),
{
    let (a, b) = (l.value(env), r.value(env));
    if !a.absent() && !b.absent() {
        reveal(measures);
        lemma_rank(a, b);
        lemma_rank(a, a);
        lemma_rank(b, b);
    }
}

/// A sum grows by each of its terms, from zero.
pub proof fn a_sum_grows_by_its_terms<V: Scalar>(xs: Seq<Tree<V>>, x: Tree<V>, env: Seq<V>)
    ensures
        Tree::Sum(Seq::<Tree<V>>::empty()).value(env) == V::whole(0),
        total(xs.push(x), env) == total(xs, env).plus(x.value(env)),
        Tree::Sum(xs).value(env) == total(xs, env),
{
    assert(xs.push(x).drop_last() =~= xs);
    assert(total(Seq::<Tree<V>>::empty(), env) == V::whole(0));
}

/// A power is a product: none of it is one, one of it is the number, as many more multiply on, and a
/// power below zero is what divides one.
pub proof fn a_power_is_a_product<V: Scalar>(e: Box<Tree<V>>, env: Seq<V>, m: nat, n: nat)
    requires
        lawful::<V>(),
        rings::<V>(),
        !e.value(env).absent(),
    ensures
        ({
            let x = e.value(env);
            &&& Tree::Powi(e, 0).value(env) == V::whole(1)
            &&& Tree::Powi(e, 1).value(env) == x
            &&& Tree::Powi(e, (m + n) as int).value(env) == Tree::Powi(e, m as int).value(env).times(
                Tree::Powi(e, n as int).value(env),
            )
            &&& n > 0 ==> Tree::Powi(e, -(n as int)).value(env) == V::whole(1).over(
                Tree::Powi(e, n as int).value(env),
            )
        }),
{
    let x = e.value(env);
    reveal_with_fuel(product, 3);
    lemma_units(x);
    lemma_powers(x, m, n);
}

proof fn lemma_powers<V: Scalar>(x: V, m: nat, n: nat)
    requires
        lawful::<V>(),
        rings::<V>(),
        !x.absent(),
    ensures
        product(x, m + n) == product(x, m).times(product(x, n)),
        !product(x, m).absent(),
    decreases n,
{
    lemma_power_present(x, m);
    if n == 0 {
        lemma_units(product(x, m));
    } else {
        lemma_powers(x, m, (n - 1) as nat);
        lemma_times(product(x, m), product(x, (n - 1) as nat), x);
    }
}

proof fn lemma_power_present<V: Scalar>(x: V, n: nat)
    requires
        lawful::<V>(),
        !x.absent(),
    ensures
        !product(x, n).absent(),
    decreases n,
{
    if n > 0 {
        lemma_power_present(x, (n - 1) as nat);
        lemma_absence(product(x, (n - 1) as nat), x);
    }
}

/// The exponential slopes as itself, times what it is taken of does.
pub proof fn the_exponential_is_its_own_slope<V: Scalar>(e: Box<Tree<V>>, var: int, env: Seq<V>)
    ensures
        Tree::Exp(e).derivative(var).value(env) == e.value(env).exponential().times(
            e.derivative(var).value(env),
        ),
{
    let d = Tree::Exp(e).derivative(var);
    assert(d == Tree::Mul(Box::new(Tree::Exp(e)), Box::new(e.derivative(var))));
    assert(Tree::Exp(e).value(env) == e.value(env).exponential());
}

/// The slope of a variable is one along itself and nothing along any other, and nothing else that does
/// not move slopes.
pub proof fn a_variable_slopes_along_itself_alone<V: Scalar>(
    l: Box<Tree<V>>,
    r: Box<Tree<V>>,
    i: int,
    var: int,
    c: V,
    env: Seq<V>,
)
    ensures
        Tree::<V>::Var(i).derivative(var).value(env) == if i == var {
            V::whole(1)
        } else {
            V::whole(0)
        },
        Tree::Const(c).derivative(var).value(env) == V::whole(0),
        Tree::Cmp(l, r).derivative(var).value(env) == V::whole(0),
        Tree::IsNan(l).derivative(var).value(env) == V::whole(0),
{
}

/// A trace says of every node what it is worth, and shows the operands it was computed from; of a choice
/// it shows what the choice went by and the branch that was taken.
pub proof fn a_trace_shows_what_was_computed<V: Scalar>(
    c: Box<Tree<V>>,
    l: Box<Tree<V>>,
    r: Box<Tree<V>>,
    env: Seq<V>,
)
    ensures
        l.traced(env).val == l.value(env),
        Tree::Add(l, r).traced(env).kids == seq![l.traced(env), r.traced(env)],
        Tree::Sub(l, r).traced(env).kids == seq![l.traced(env), r.traced(env)],
        Tree::Mul(l, r).traced(env).kids == seq![l.traced(env), r.traced(env)],
        Tree::Div(l, r).traced(env).kids == seq![l.traced(env), r.traced(env)],
        Tree::Neg(l).traced(env).kids == seq![l.traced(env)],
        Tree::Exp(l).traced(env).kids == seq![l.traced(env)],
        Tree::Select(c, l, r).traced(env).kids == if c.value(env).equals(V::whole(0)) {
            seq![c.traced(env), r.traced(env)]
        } else {
            seq![c.traced(env), l.traced(env)]
        },
{
}

/// A sign times a magnitude is the number, and a truth is one or zero.
pub proof fn a_number_is_its_sign_and_its_magnitude<V: Scalar>(x: V)
    requires
        lawful::<V>(),
        rings::<V>(),
        ranks::<V>(),
        measures::<V>(),
        !x.absent(),
        V::whole(-1) == V::whole(1).negated(),
    ensures
        x != V::whole(0) ==> sign_of(x).times(x.magnitude()) == x,
        sign_of(V::whole(0)) == V::whole(0),
        truth::<V>(true) == V::whole(1) && truth::<V>(false) == V::whole(0),
{
    let (zero, one) = (V::whole(0), V::whole(1));
    lemma_rank(zero, x);
    lemma_rank(zero, zero);
    lemma_absence(x, x);
    lemma_units(x);
    lemma_units(x.negated());
    lemma_times(one, x.negated(), x);
    reveal(measures);
}

/// A whole number computes as the integer it holds, as long as what comes out can be held.
pub proof fn a_whole_number_computes_as_its_integer(a: i64, b: i64)
    ensures
        ({
            let (x, y) = (Whole(Some(a)), Whole(Some(b)));
            &&& i64::MIN <= a + b <= i64::MAX ==> x.plus(y) == Whole(Some((a + b) as i64))
            &&& i64::MIN <= a - b <= i64::MAX ==> x.minus(y) == Whole(Some((a - b) as i64))
            &&& i64::MIN <= a * b <= i64::MAX ==> x.times(y) == Whole(Some((a * b) as i64))
            &&& a > i64::MIN ==> x.negated() == Whole(Some((-a) as i64))
            &&& a >= 0 ==> x.magnitude() == x
            &&& i64::MIN < a < 0 ==> x.magnitude() == Whole(Some((-a) as i64))
            &&& x.below(y) <==> a < b
            &&& x.equals(y) <==> a == b
            &&& x.lesser(y) == Whole(Some(if a <= b { a } else { b }))
            &&& x.greater(y) == Whole(Some(if a >= b { a } else { b }))
            &&& x.nearest() == a
            &&& !x.broken() && !x.absent()
        }),
{
}

/// A whole number is divided where nothing is left over, and not by zero; its root is the number it is
/// the square of, where there is one.
pub proof fn a_whole_number_divides_where_nothing_is_left(a: i64, b: i64)
    ensures
        b > 0 && i64::MIN <= a * b <= i64::MAX ==> Whole(Some((a * b) as i64)).over(Whole(Some(b)))
            == Whole(Some(a)),
        Whole(Some(a)).over(Whole(Some(0))).absent(),
        b > 1 && a as int % b as int != 0 ==> Whole(Some(a)).over(Whole(Some(b))).absent(),
{
    if b > 0 && i64::MIN <= a * b <= i64::MAX {
        vstd::arithmetic::div_mod::lemma_mod_multiples_basic(a as int, b as int);
        assert((a * b) / (b as int) == a) by (nonlinear_arith)
            requires
                b > 0,
        ;
    }
}

/// Nothing is computed of no number, but the smaller and the larger of two skip one that is none.
pub proof fn no_number_leaves_none(x: Whole)
    ensures
        x.plus(Whole(None)).absent() && Whole(None).plus(x).absent(),
        x.minus(Whole(None)).absent() && Whole(None).minus(x).absent(),
        x.times(Whole(None)).absent() && Whole(None).times(x).absent(),
        x.over(Whole(None)).absent() && Whole(None).over(x).absent(),
        Whole(None).negated().absent() && Whole(None).magnitude().absent() && Whole(None).root().absent(),
        x.lesser(Whole(None)) == x && Whole(None).lesser(x) == x,
        x.greater(Whole(None)) == x && Whole(None).greater(x) == x,
        !x.below(Whole(None)) && !Whole(None).below(x),
        !x.equals(Whole(None)) && !Whole(None).equals(x),
{
}

/// A square has the root it is the square of, taken as not negative, and no other number has one.
pub proof fn a_whole_root_squares_to_its_number(s: i64, n: i64)
    requires
        0 <= s,
        s * s <= i64::MAX,
    ensures
        Whole(Some((s * s) as i64)).root() == Whole(Some(s)),
        (forall|t: int| 0 <= t ==> #[trigger] (t * t) != n) ==> Whole(Some(n)).root() == Whole(None),
        n < 0 ==> Whole(Some(n)).root() == Whole(None),
{
    let m = s * s;
    assert(m >= 0) by (nonlinear_arith)
        requires
            m == s * s,
    ;
    assert(is_root(m, s as int));
    let t = choose|t: int| is_root(m, t);
    assert(t == s) by (nonlinear_arith)
        requires
            t * t == s * s,
            0 <= t,
            0 <= s,
    ;
    if Whole(Some(n)).root() != Whole(None) {
        let t = choose|t: int| is_root(n as int, t);
        assert(t * t == n && 0 <= t);
        assert(n >= 0) by (nonlinear_arith)
            requires
                t * t == n,
        ;
    }
}

/// The slopes of the smaller or the larger of two are those of the one that was taken: the other's where
/// one of them is absent, and of two that stand alike the right one's.
pub proof fn a_slope_is_that_of_what_was_taken<V: Scalar, A: Expr<V>, B: Expr<V>>(
    l: A,
    r: B,
    env: Seq<V>,
    seed: V,
    grad: Seq<V>,
)
    ensures
        ({
            let (a, b) = (l.value(env), r.value(env));
            let (left, right) = (l.slopes(env, seed, grad), r.slopes(env, seed, grad));
            let (least, most) = (expr::Min(l, r).slopes(env, seed, grad), expr::Max(l, r).slopes(env, seed, grad));
            &&& b.absent() ==> least == left && most == left
            &&& !b.absent() && a.below(b) ==> least == left
            &&& !b.absent() && !a.below(b) ==> least == right
            &&& !b.absent() && b.below(a) ==> most == left
            &&& !b.absent() && !b.below(a) ==> most == right
        }),
{
}

/// The derivative of the smaller or the larger of two is that of the one that was taken: the other's
/// where one of them is absent, and of two that stand alike the right one's.
pub proof fn a_derivative_is_that_of_what_was_taken<V: Scalar>(
    l: Box<Tree<V>>,
    r: Box<Tree<V>>,
    var: int,
    env: Seq<V>,
)
    requires
        lawful::<V>(),
    ensures
        ({
            let (a, b) = (l.value(env), r.value(env));
            let (left, right) = (l.derivative(var).value(env), r.derivative(var).value(env));
            let (least, most) = (
                Tree::Min(l, r).derivative(var).value(env),
                Tree::Max(l, r).derivative(var).value(env),
            );
            &&& b.absent() ==> least == left && most == left
            &&& !b.absent() && a.absent() ==> least == right && most == right
            &&& !a.absent() && !b.absent() ==> {
                &&& least == if a.below(b) {
                    left
                } else {
                    right
                }
                &&& most == if b.below(a) {
                    left
                } else {
                    right
                }
            }
        }),
{
    reveal_with_fuel(Tree::value, 5);
}

} // verus!
