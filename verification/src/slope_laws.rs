//! What a symbolic derivative is of the function it was taken of: the slope, to the first order of
//! the step.

use vstd::prelude::*;

use crate::algebra_laws::{numbers, simplifying_keeps_the_value};
use crate::scalar::Scalar;
use crate::scalar::{
    lawful, lemma_absence, lemma_plus, lemma_times, lemma_units, product, raised, rings,
};
use crate::tree::{derivatives, total, Tree};
use crate::whole::{is_root, wholes_are_lawful, wholes_ring, Whole};

verus! {

/// Whether a number divides one, and so has a reciprocal.
pub open spec fn invertible<V: Scalar>(x: V) -> bool {
    !V::whole(1).over(x).absent()
}

/// Whether two numbers stand on the same side of zero, and neither on it.
pub open spec fn one_side<V: Scalar>(x: V, y: V) -> bool {
    if V::whole(0).below(x) {
        V::whole(0).below(y)
    } else {
        x.below(V::whole(0)) && y.below(V::whole(0))
    }
}

/// Whether an expression is smooth where one variable moves by `h`: it is made of numbers, what it
/// divides by has a reciprocal before and after, and no choice in it falls out another way.
pub open spec fn smooth<V: Scalar>(t: Tree<V>, env: Seq<V>, var: int, h: V) -> bool
    decreases t,
{
    let moved = shifted(env, var, h);
    match t {
        Tree::Const(c) => !c.absent(),
        Tree::Var(i) => 0 <= i < env.len() && !env[i].absent(),
        Tree::Add(l, r) => smooth(*l, env, var, h) && smooth(*r, env, var, h),
        Tree::Sub(l, r) => smooth(*l, env, var, h) && smooth(*r, env, var, h),
        Tree::Mul(l, r) => smooth(*l, env, var, h) && smooth(*r, env, var, h),
        Tree::Neg(e) => smooth(*e, env, var, h),
        Tree::Square(e) => smooth(*e, env, var, h),
        Tree::Sum(xs) => all_smooth(xs, env, var, h),
        Tree::Div(l, r) => {
            let (y, z) = (r.value(env), r.value(moved));
            &&& smooth(*l, env, var, h)
            &&& smooth(*r, env, var, h)
            &&& invertible(y) && invertible(z) && invertible(y.times(y))
            &&& !t.value(env).absent() && !t.value(moved).absent()
            &&& !t.derivative(var).value(env).absent()
        },
        Tree::Powi(e, n) => {
            let (x, y) = (e.value(env), e.value(moved));
            &&& i32::MIN <= n <= i32::MAX
            &&& smooth(*e, env, var, h)
            &&& n <= 0 ==> !raised(x, n).absent() && !raised(y, n).absent() && !raised(
                x,
                n - 1,
            ).absent()
        },
        Tree::Sqrt(e) => {
            let (x, y) = (e.value(env), e.value(moved));
            &&& smooth(*e, env, var, h)
            &&& !x.root().absent() && !y.root().absent()
            &&& invertible(V::whole(2).times(x.root())) && invertible(y.root().plus(x.root()))
            &&& !t.derivative(var).value(env).absent()
        },
        Tree::Abs(e) => {
            let (x, y) = (e.value(env), e.value(moved));
            &&& smooth(*e, env, var, h)
            &&& one_side(x, y)
            &&& invertible(x.magnitude()) && !x.over(x.magnitude()).absent()
        },
        Tree::Min(l, r) => {
            &&& smooth(*l, env, var, h)
            &&& smooth(*r, env, var, h)
            &&& l.value(env).below(r.value(env)) == l.value(moved).below(r.value(moved))
        },
        Tree::Max(l, r) => {
            &&& smooth(*l, env, var, h)
            &&& smooth(*r, env, var, h)
            &&& r.value(env).below(l.value(env)) == r.value(moved).below(l.value(moved))
        },
        Tree::Cmp(l, r) => l.value(env).below(r.value(env)) == l.value(moved).below(r.value(moved)),
        Tree::IsNan(e) => e.value(env).absent() == e.value(moved).absent(),
        Tree::Select(c, a, b) => {
            &&& c.value(env).equals(V::whole(0)) == c.value(moved).equals(V::whole(0))
            &&& if !c.value(env).equals(V::whole(0)) {
                smooth(*a, env, var, h)
            } else {
                smooth(*b, env, var, h)
            }
        },
        Tree::Exp(_) => false,
    }
}

pub open spec fn all_smooth<V: Scalar>(xs: Seq<Tree<V>>, env: Seq<V>, var: int, h: V) -> bool
    decreases xs,
{
    xs.len() == 0 || (all_smooth(xs.drop_last(), env, var, h) && smooth(xs.last(), env, var, h))
}

/// Whether a scalar's whole numbers follow one another by one, on either side of zero.
#[verifier::opaque]
pub open spec fn counts<V: Scalar>() -> bool {
    &&& forall|n: int|
        -0x1_0000_0000 <= n < 0x1_0000_0000 ==> #[trigger] V::whole(n).plus(V::whole(1))
            == V::whole(n + 1)
    &&& forall|n: int|
        0 <= n <= 0x1_0000_0000 ==> #[trigger] V::whole(n).negated() == V::whole(-n)
}

/// Whether a scalar's reciprocals are: a quotient is the product with one, and a number times its own
/// is one.
#[verifier::opaque]
pub open spec fn inverts<V: Scalar>() -> bool {
    &&& forall|a: V, b: V|
        invertible(b) && !a.over(b).absent() ==> #[trigger] a.over(b) == a.times(
            V::whole(1).over(b),
        )
    &&& forall|b: V| #[trigger] invertible(b) ==> b.times(V::whole(1).over(b)) == V::whole(1)
}

/// Whether a scalar's roots, magnitudes and choices are what they are called.
#[verifier::opaque]
pub open spec fn measures<V: Scalar>() -> bool {
    &&& forall|a: V| !(#[trigger] a.root()).absent() ==> a.root().times(a.root()) == a
    &&& forall|a: V| V::whole(0).below(a) ==> #[trigger] a.magnitude() == a
    &&& forall|a: V| a.below(V::whole(0)) ==> #[trigger] a.magnitude() == a.negated()
    &&& forall|a: V, b: V|
        !a.absent() && !b.absent() ==> #[trigger] a.lesser(b) == if a.below(b) {
            a
        } else {
            b
        }
    &&& forall|a: V, b: V|
        !a.absent() && !b.absent() ==> #[trigger] a.greater(b) == if b.below(a) {
            a
        } else {
            b
        }
}

/// Whether a scalar's arithmetic is exact throughout: a ring, whose whole numbers count, whose
/// reciprocals invert, and whose roots, magnitudes and choices are what they are called.
pub open spec fn exact<V: Scalar>() -> bool {
    &&& lawful::<V>()
    &&& rings::<V>()
    &&& counts::<V>()
    &&& inverts::<V>()
    &&& measures::<V>()
}

/// Only one and its negation divide one, and what they leave of a number is it and its negation.
proof fn lemma_unit(a: int, b: int)
    requires
        b != 0,
        1int % b == 0,
    ensures
        b == 1 || b == -1,
        a / b == a * b,
        1int / b == b,
{
    if b >= 2 {
        assert(1int % b == 1) by (nonlinear_arith)
            requires
                b >= 2,
        ;
    }
    if b <= -2 {
        assert(1int % b == 1) by (nonlinear_arith)
            requires
                b <= -2,
        ;
    }
    if b == 1 {
        assert(a / 1 == a * 1 && 1int / 1 == 1);
    } else {
        assert(a / -1 == a * -1) by (nonlinear_arith);
        assert(1int / -1 == -1) by (nonlinear_arith);
    }
}

/// The arithmetic of the whole numbers is.
pub proof fn wholes_are_exact()
    ensures
        exact::<Whole>(),
{
    wholes_are_lawful();
    wholes_ring();
    assert(counts::<Whole>()) by {
        reveal(counts);
    }
    assert(inverts::<Whole>()) by {
        reveal(inverts);
        assert forall|b: Whole| #[trigger] invertible(b) implies b.times(Whole::whole(1).over(b))
            == Whole::whole(1) by {
            lemma_unit(1, b.0->Some_0 as int);
        }
        assert forall|a: Whole, b: Whole|
            invertible(b) && !a.over(b).absent() implies #[trigger] a.over(b) == a.times(
            Whole::whole(1).over(b),
        ) by {
            let (m, n) = (a.0->Some_0, b.0->Some_0);
            lemma_unit(m as int, n as int);
            assert(1i64 as int / n as int == n);
            assert(m as int / n as int == m * n);
            assert(m * n == (if n == 1 {
                m as int
            } else {
                -m
            })) by (nonlinear_arith)
                requires
                    n == 1 || n == -1,
            ;
            assert(a.over(b).0 == Some((m * n) as i64));
            assert(m.wrapping_mul(n) == (m * n) as i64);
        }
    }
    assert(measures::<Whole>()) by {
        reveal(measures);
        assert forall|a: Whole| !(#[trigger] a.root()).absent() implies a.root().times(a.root())
            == a by {
            let n = a.0->Some_0 as int;
            let s = choose|s: int| is_root(n, s);
            assert(is_root(n, s));
            assert(0 <= s <= n) by (nonlinear_arith)
                requires
                    0 <= s,
                    s * s == n,
            ;
        }
    }
}

/// Where a function worth `x` gets to in a step of `h`: along its slope `d`, and off it by no more
/// than the square of the step takes `r`.
pub open spec fn stepped_by<V: Scalar>(h: V, x: V, d: V, r: V) -> V {
    x.plus(h.times(d.plus(h.times(r))))
}

/// An environment with one of its variables moved by `h`.
pub open spec fn shifted<V: Scalar>(env: Seq<V>, var: int, h: V) -> Seq<V> {
    env.update(var, env[var].plus(h))
}

pub(crate) proof fn lemma_pairs<V: Scalar>(a: V, b: V, c: V, d: V)
    requires
        lawful::<V>(),
    ensures
        a.plus(b).plus(c.plus(d)) == a.plus(c).plus(b.plus(d)),
{
    lemma_plus(a, b, c.plus(d));
    lemma_plus(b, c, d);
    lemma_plus(c, b, d);
    lemma_plus(a, c, b.plus(d));
}

proof fn lemma_stepped_sum<V: Scalar>(h: V, x: V, d: V, r: V, y: V, e: V, s: V)
    requires
        lawful::<V>(),
        rings::<V>(),
    ensures
        stepped_by(h, x, d, r).plus(stepped_by(h, y, e, s)) == stepped_by(
            h,
            x.plus(y),
            d.plus(e),
            r.plus(s),
        ),
{
    let (u, v) = (d.plus(h.times(r)), e.plus(h.times(s)));
    lemma_pairs(x, h.times(u), y, h.times(v));
    lemma_times(h, u, v);
    lemma_pairs(d, h.times(r), e, h.times(s));
    lemma_times(h, r, s);
}

/// A negation goes into a sum.
pub(crate) proof fn lemma_negated<V: Scalar>(a: V, b: V)
    requires
        lawful::<V>(),
        rings::<V>(),
        !a.absent(),
        !b.absent(),
    ensures
        a.plus(b).negated() == a.negated().plus(b.negated()),
        a.times(b).negated() == a.times(b.negated()),
{
    let one = V::whole(1);
    lemma_absence(a, b);
    lemma_absence(b, b);
    lemma_absence(a.plus(b), a);
    lemma_absence(a.times(b), a);
    lemma_units(a.negated());
    lemma_units(b.negated());
    lemma_units(a.plus(b).negated());
    lemma_units(a.times(b).negated());
    // minus one times a number is its negation.
    lemma_times(one, a, a);
    lemma_times(one, b, b);
    lemma_times(one, a.plus(b), a);
    lemma_times(one.negated(), a, b);
    lemma_times(one, a.times(b), a);
    assert(one.negated().times(a.plus(b)) == a.plus(b).negated());
    assert(one.negated().times(a) == a.negated());
    assert(one.negated().times(b) == b.negated());
    assert(one.negated().times(a.times(b)) == a.times(b).negated());
    assert(a.times(b).negated() == a.negated().times(b));
    lemma_times(a, b, b);
}

proof fn lemma_stepped_negated<V: Scalar>(h: V, x: V, d: V, r: V)
    requires
        lawful::<V>(),
        rings::<V>(),
        !h.absent(),
        !x.absent(),
        !d.absent(),
        !r.absent(),
    ensures
        stepped_by(h, x, d, r).negated() == stepped_by(h, x.negated(), d.negated(), r.negated()),
{
    let hr = h.times(r);
    lemma_absence(h, r);
    lemma_absence(d, hr);
    lemma_absence(h, d.plus(hr));
    lemma_negated(h, r);
    lemma_negated(d, hr);
    lemma_negated(h, d.plus(hr));
    lemma_negated(x, h.times(d.plus(hr)));
}

/// What is left of a product beyond its slope.
pub open spec fn crossed<V: Scalar>(h: V, x: V, d: V, r: V, y: V, e: V, s: V) -> V {
    r.times(y).plus(x.times(s).plus(d.plus(h.times(r)).times(e.plus(h.times(s)))))
}

proof fn lemma_stepped_product<V: Scalar>(h: V, x: V, d: V, r: V, y: V, e: V, s: V)
    requires
        lawful::<V>(),
        rings::<V>(),
    ensures
        stepped_by(h, x, d, r).times(stepped_by(h, y, e, s)) == stepped_by(
            h,
            x.times(y),
            d.times(y).plus(x.times(e)),
            crossed(h, x, d, r, y, e, s),
        ),
{
    let (u, v) = (d.plus(h.times(r)), e.plus(h.times(s)));
    let (hu, hv, w) = (h.times(u), h.times(v), u.times(v));
    let left = x.plus(hu);
    lemma_times(left, y, hv);
    // the left factor times the value of the right.
    lemma_times(left, y, y);
    lemma_times(y, x, hu);
    lemma_times(x, y, y);
    lemma_times(hu, y, y);
    lemma_times(h, u, y);
    let uy = u.times(y);
    assert(left.times(y) == x.times(y).plus(h.times(uy)));
    // and times its step.
    lemma_times(left, hv, hv);
    lemma_times(hv, x, hu);
    lemma_times(x, hv, hv);
    lemma_times(hu, hv, hv);
    lemma_outwards(h, x, v);
    lemma_outwards(h, u, v);
    lemma_times(h, u, hv);
    let xv = x.times(v);
    assert(left.times(hv) == h.times(xv).plus(h.times(h.times(w))));
    lemma_plus(x.times(y), h.times(uy), left.times(hv));
    lemma_times(h, xv, h.times(w));
    lemma_times(h, uy, xv.plus(h.times(w)));
    // the step's own parts, its slope and what is beyond it.
    let (ry, xs) = (r.times(y), x.times(s));
    lemma_times(u, y, y);
    lemma_times(y, d, h.times(r));
    lemma_times(d, y, y);
    lemma_times(h.times(r), y, y);
    lemma_times(h, r, y);
    assert(uy == d.times(y).plus(h.times(ry)));
    lemma_times(x, e, h.times(s));
    lemma_outwards(h, x, s);
    assert(xv == x.times(e).plus(h.times(xs)));
    lemma_plus(x.times(e), h.times(xs), h.times(w));
    lemma_times(h, xs, w);
    lemma_pairs(d.times(y), h.times(ry), x.times(e), h.times(xs.plus(w)));
    lemma_times(h, ry, xs.plus(w));
}

/// A factor comes out to the front.
pub(crate) proof fn lemma_outwards<V: Scalar>(h: V, a: V, b: V)
    requires
        lawful::<V>(),
        rings::<V>(),
    ensures
        a.times(h.times(b)) == h.times(a.times(b)),
{
    lemma_times(a, h, b);
    lemma_times(h, a, b);
}

/// A whole number is a number, and the next is one more.
pub(crate) proof fn lemma_counted<V: Scalar>(n: int)
    requires
        lawful::<V>(),
        counts::<V>(),
        0 <= n < 0x1_0000_0000,
    ensures
        !V::whole(n).absent(),
        V::whole(n).plus(V::whole(1)) == V::whole(n + 1),
        V::whole(n).negated() == V::whole(-n),
    decreases n,
{
    reveal(counts);
    if n > 0 {
        lemma_counted::<V>(n - 1);
        lemma_absence(V::whole(n - 1), V::whole(1));
        assert(V::whole(n - 1).plus(V::whole(1)) == V::whole(n - 1 + 1));
    }
}

/// A number and its negation come to nothing.
pub(crate) proof fn lemma_opposite<V: Scalar>(a: V)
    requires
        lawful::<V>(),
        rings::<V>(),
        counts::<V>(),
        !a.absent(),
    ensures
        a.plus(a.negated()) == V::whole(0),
        a.negated().plus(a) == V::whole(0),
{
    let one = V::whole(1);
    lemma_counted::<V>(1);
    assert(V::whole(-1).plus(one) == V::whole(0)) by {
        reveal(counts);
        assert(V::whole(-1).plus(V::whole(1)) == V::whole(-1 + 1));
    }
    lemma_absence(one, one);
    lemma_absence(a, a);
    lemma_units(a);
    lemma_negated(a, one);
    lemma_times(a, one.negated(), one);
    lemma_plus(a, a.negated(), a);
    assert(a.times(one.negated()) == a.negated());
}

/// What is left of a sum without its last part.
pub(crate) proof fn lemma_without<V: Scalar>(p: V, q: V, sum: V)
    requires
        lawful::<V>(),
        rings::<V>(),
        counts::<V>(),
        p.plus(q) == sum,
        !p.absent(),
        !q.absent(),
    ensures
        p == sum.plus(q.negated()),
{
    lemma_opposite(q);
    lemma_plus(p, q, q.negated());
    lemma_units(p);
}

/// A sum times a number.
pub(crate) proof fn lemma_spread<V: Scalar>(a: V, b: V, c: V)
    requires
        lawful::<V>(),
        rings::<V>(),
    ensures
        a.plus(b).times(c) == a.times(c).plus(b.times(c)),
{
    lemma_times(a.plus(b), c, c);
    lemma_times(c, a, b);
    lemma_times(a, c, c);
    lemma_times(b, c, c);
}

/// A number has one reciprocal.
proof fn lemma_one_reciprocal<V: Scalar>(a: V, i: V, j: V)
    requires
        lawful::<V>(),
        rings::<V>(),
        !a.absent(),
        !i.absent(),
        !j.absent(),
        a.times(i) == V::whole(1),
        a.times(j) == V::whole(1),
    ensures
        i == j,
{
    lemma_units(i);
    lemma_units(j);
    lemma_times(i, a, j);
    lemma_times(a, i, j);
}

/// A reciprocal and what it is of.
pub(crate) proof fn lemma_reciprocal<V: Scalar>(b: V)
    requires
        lawful::<V>(),
        inverts::<V>(),
        invertible(b),
    ensures
        !b.absent(),
        b.times(V::whole(1).over(b)) == V::whole(1),
{
    reveal(inverts);
    lemma_absence(V::whole(1), b);
}

/// A quotient is a product with the reciprocal.
pub(crate) proof fn lemma_quotient<V: Scalar>(a: V, b: V)
    requires
        inverts::<V>(),
        invertible(b),
        !a.over(b).absent(),
    ensures
        a.over(b) == a.times(V::whole(1).over(b)),
{
    reveal(inverts);
}

/// How a reciprocal moves where the number it is of moves by `h` times `v`.
proof fn lemma_reciprocal_moves<V: Scalar>(h: V, y: V, v: V, i: V, k: V)
    requires
        lawful::<V>(),
        rings::<V>(),
        counts::<V>(),
        !h.absent(),
        !y.absent(),
        !v.absent(),
        !i.absent(),
        !k.absent(),
        y.times(i) == V::whole(1),
        y.plus(h.times(v)).times(k) == V::whole(1),
    ensures
        k == i.plus(h.times(i.times(k.times(v)).negated())),
        !i.times(k.times(v)).negated().absent(),
{
    let one = V::whole(1);
    let hv = h.times(v);
    let (yk, w) = (y.times(k), hv.times(k));
    lemma_absence(h, v);
    lemma_absence(y, k);
    lemma_absence(hv, k);
    lemma_absence(w, w);
    lemma_absence(k, v);
    lemma_absence(i, k.times(v));
    lemma_absence(i.times(k.times(v)), i);
    lemma_spread(y, hv, k);
    lemma_without(yk, w, one);
    // the reciprocal is itself times one, and one is the old number times its own.
    lemma_units(k);
    lemma_units(i);
    lemma_times(k, y, i);
    lemma_times(yk, i, i);
    lemma_times(y, k, i);
    assert(k == i.times(yk));
    lemma_times(i, one, w.negated());
    assert(k == i.plus(i.times(w.negated())));
    // and the step comes out to the front.
    lemma_times(h, v, k);
    lemma_times(v, k, k);
    assert(w == h.times(k.times(v)));
    lemma_negated(h, k.times(v));
    lemma_outwards(h, i, k.times(v).negated());
    lemma_negated(i, k.times(v));
    lemma_absence(k.times(v), i);
}

/// What is beyond the slope of a reciprocal.
pub open spec fn reciprocal_rest<V: Scalar>(h: V, i: V, k: V, e: V, b: V) -> V {
    let v = e.plus(h.times(b));
    let g = i.times(k.times(v)).negated();
    i.times(i.times(b)).negated().plus(i.times(g.times(v)).negated())
}

/// The step of a reciprocal.
proof fn lemma_stepped_reciprocal<V: Scalar>(h: V, y: V, e: V, b: V, i: V, k: V)
    requires
        lawful::<V>(),
        rings::<V>(),
        counts::<V>(),
        !h.absent(),
        !y.absent(),
        !e.absent(),
        !b.absent(),
        !i.absent(),
        !k.absent(),
        y.times(i) == V::whole(1),
        stepped_by(h, y, e, b).times(k) == V::whole(1),
    ensures
        k == stepped_by(h, i, i.times(i.times(e)).negated(), reciprocal_rest(h, i, k, e, b)),
        !i.times(i.times(e)).negated().absent(),
        !reciprocal_rest(h, i, k, e, b).absent(),
{
    let hb = h.times(b);
    let v = e.plus(hb);
    let g = i.times(k.times(v)).negated();
    lemma_absence(h, b);
    lemma_absence(e, hb);
    lemma_reciprocal_moves(h, y, v, i, k);
    // the new reciprocal, put into the move itself.
    let gv = g.times(v);
    let igv = i.times(gv);
    lemma_absence(g, v);
    lemma_absence(i, gv);
    lemma_absence(igv, igv);
    lemma_spread(i, h.times(g), v);
    lemma_times(h, g, v);
    assert(k.times(v) == i.times(v).plus(h.times(gv)));
    lemma_times(i, i.times(v), h.times(gv));
    lemma_outwards(h, i, gv);
    assert(i.times(k.times(v)) == i.times(i.times(v)).plus(h.times(igv)));
    // and the move of the number taken apart.
    let (ie, ib) = (i.times(e), i.times(b));
    let (iie, iib) = (i.times(ie), i.times(ib));
    lemma_times(i, e, hb);
    lemma_outwards(h, i, b);
    lemma_times(i, ie, h.times(ib));
    lemma_outwards(h, i, ib);
    assert(i.times(i.times(v)) == iie.plus(h.times(iib)));
    lemma_absence(i, e);
    lemma_absence(i, b);
    lemma_absence(i, ie);
    lemma_absence(i, ib);
    lemma_absence(iie, iib);
    lemma_absence(iib, iib);
    lemma_absence(h, iib);
    lemma_absence(h, igv);
    lemma_absence(iie, h.times(iib));
    lemma_negated(iie.plus(h.times(iib)), h.times(igv));
    lemma_negated(iie, h.times(iib));
    lemma_negated(h, iib);
    lemma_negated(h, igv);
    let (p, q) = (iib.negated(), igv.negated());
    lemma_plus(iie.negated(), h.times(p), h.times(q));
    lemma_times(h, p, q);
    lemma_absence(p, q);
    assert(g == iie.negated().plus(h.times(p.plus(q))));
}

proof fn lemma_product_present<V: Scalar>(x: V, n: nat)
    requires
        lawful::<V>(),
        !x.absent(),
    ensures
        !product(x, n).absent(),
    decreases n,
{
    if n > 0 {
        lemma_product_present(x, (n - 1) as nat);
        lemma_absence(product(x, (n - 1) as nat), x);
    }
}

/// The slope of a power.
pub open spec fn power_slope<V: Scalar>(x: V, d: V, n: nat) -> V {
    V::whole(n as int).times(product(x, (n - 1) as nat)).times(d)
}

proof fn lemma_stepped_power<V: Scalar>(h: V, x: V, d: V, r: V, n: nat) -> (s: V)
    requires
        lawful::<V>(),
        rings::<V>(),
        counts::<V>(),
        !h.absent(),
        !x.absent(),
        !d.absent(),
        !r.absent(),
        1 <= n <= 0x8000_0000,
    ensures
        !s.absent(),
        product(stepped_by(h, x, d, r), n) == stepped_by(h, product(x, n), power_slope(x, d, n), s),
    decreases n,
{
    let y = stepped_by(h, x, d, r);
    lemma_stepped_present(h, x, d, r);
    reveal_with_fuel(product, 2);
    if n == 1 {
        lemma_units(y);
        lemma_units(x);
        lemma_units(V::whole(1));
        lemma_units(d);
        return r;
    }
    let m = (n - 1) as nat;
    let s = lemma_stepped_power(h, x, d, r, m);
    let (p, q, k) = (product(x, m), product(x, (m - 1) as nat), V::whole(m as int));
    lemma_product_present(x, m);
    lemma_product_present(x, (m - 1) as nat);
    lemma_counted::<V>(m as int);
    let e = power_slope(x, d, m);
    lemma_absence(k, q);
    lemma_absence(k.times(q), d);
    lemma_stepped_product(h, p, e, s, x, d, r);
    // the slope of one power more.
    lemma_times(k.times(q), d, x);
    lemma_times(d, x, x);
    lemma_times(k.times(q), x, d);
    lemma_times(k, q, x);
    assert(e.times(x) == k.times(p).times(d));
    lemma_units(p);
    lemma_absence(k, p);
    lemma_times(d, k.times(p), p);
    lemma_times(p, k, V::whole(1));
    lemma_times(k.plus(V::whole(1)), p, p);
    lemma_times(k, p, p);
    lemma_times(k.times(p), d, d);
    lemma_times(p, d, d);
    lemma_times(k.times(p).plus(p), d, d);
    assert(e.times(x).plus(p.times(d)) == power_slope(x, d, n));
    lemma_crossed_present(h, p, e, s, x, d, r);
    crossed(h, p, e, s, x, d, r)
}

pub(crate) proof fn lemma_stepped_present<V: Scalar>(h: V, x: V, d: V, r: V)
    requires
        lawful::<V>(),
        !h.absent(),
        !x.absent(),
        !d.absent(),
        !r.absent(),
    ensures
        !stepped_by(h, x, d, r).absent(),
        !d.plus(h.times(r)).absent(),
{
    lemma_absence(h, r);
    lemma_absence(d, h.times(r));
    lemma_absence(h, d.plus(h.times(r)));
    lemma_absence(x, h.times(d.plus(h.times(r))));
}

proof fn lemma_crossed_present<V: Scalar>(h: V, x: V, d: V, r: V, y: V, e: V, s: V)
    requires
        lawful::<V>(),
        !h.absent(),
        !x.absent(),
        !d.absent(),
        !r.absent(),
        !y.absent(),
        !e.absent(),
        !s.absent(),
    ensures
        !crossed(h, x, d, r, y, e, s).absent(),
{
    lemma_stepped_present(h, x, d, r);
    lemma_stepped_present(h, y, e, s);
    let w = d.plus(h.times(r)).times(e.plus(h.times(s)));
    lemma_absence(d.plus(h.times(r)), e.plus(h.times(s)));
    lemma_absence(r, y);
    lemma_absence(x, s);
    lemma_absence(x.times(s), w);
    lemma_absence(r.times(y), x.times(s).plus(w));
}

/// A function that stays where it is has no slope and nothing beyond it.
proof fn lemma_still<V: Scalar>(h: V, x: V)
    requires
        lawful::<V>(),
        !h.absent(),
        !x.absent(),
    ensures
        stepped_by(h, x, V::whole(0), V::whole(0)) == x,
{
    lemma_units(h);
    lemma_units(V::whole(0));
    lemma_units(x);
}

/// A variable moves by the step itself.
proof fn lemma_moved<V: Scalar>(h: V, x: V)
    requires
        lawful::<V>(),
        !h.absent(),
        !x.absent(),
    ensures
        stepped_by(h, x, V::whole(1), V::whole(0)) == x.plus(h),
{
    lemma_units(h);
    lemma_units(V::whole(1));
}

/// The step of a quotient.
proof fn lemma_stepped_quotient<V: Scalar>(h: V, x: V, d: V, a: V, y: V, e: V, b: V) -> (r: V)
    requires
        exact::<V>(),
        !h.absent(),
        !x.absent(),
        !d.absent(),
        !a.absent(),
        !y.absent(),
        !e.absent(),
        !b.absent(),
        invertible(y),
        invertible(stepped_by(h, y, e, b)),
        invertible(y.times(y)),
        !x.over(y).absent(),
        !stepped_by(h, x, d, a).over(stepped_by(h, y, e, b)).absent(),
        !d.times(y).minus(x.times(e)).over(y.times(y)).absent(),
    ensures
        !r.absent(),
        stepped_by(h, x, d, a).over(stepped_by(h, y, e, b)) == stepped_by(
            h,
            x.over(y),
            d.times(y).minus(x.times(e)).over(y.times(y)),
            r,
        ),
{
    let one = V::whole(1);
    let z = stepped_by(h, y, e, b);
    let (i, k, j) = (one.over(y), one.over(z), one.over(y.times(y)));
    lemma_reciprocal(y);
    lemma_reciprocal(z);
    lemma_reciprocal(y.times(y));
    lemma_quotient(x, y);
    lemma_quotient(stepped_by(h, x, d, a), z);
    lemma_quotient(d.times(y).minus(x.times(e)), y.times(y));
    lemma_stepped_reciprocal(h, y, e, b, i, k);
    let (f, s) = (i.times(i.times(e)).negated(), reciprocal_rest(h, i, k, e, b));
    lemma_stepped_product(h, x, d, a, i, f, s);
    lemma_crossed_present(h, x, d, a, i, f, s);
    // the reciprocal of a square is the square of the reciprocal.
    let ii = i.times(i);
    lemma_absence(i, i);
    lemma_absence(y, y);
    lemma_times(y.times(y), i, i);
    lemma_times(y, y, i);
    lemma_units(y);
    assert(y.times(y).times(ii) == one);
    lemma_one_reciprocal(y.times(y), ii, j);
    // so the slope is the one that was said.
    let (dy, xe) = (d.times(y), x.times(e));
    lemma_absence(d, y);
    lemma_absence(x, e);
    lemma_absence(xe, xe);
    lemma_times(dy, xe, xe);
    lemma_spread(dy, xe.negated(), ii);
    lemma_times(d, y, ii);
    lemma_times(y, i, i);
    lemma_units(i);
    assert(dy.times(ii) == d.times(i));
    lemma_times(xe, ii, ii);
    lemma_times(x, e, ii);
    lemma_times(e, ii, ii);
    lemma_times(i, i, e);
    assert(xe.times(ii) == x.times(i.times(i.times(e))));
    lemma_absence(xe, ii);
    lemma_times(xe, ii, ii);
    lemma_negated(xe, ii);
    lemma_times(xe.negated(), ii, ii);
    lemma_absence(i, e);
    lemma_absence(i, i.times(e));
    lemma_negated(x, i.times(i.times(e)));
    assert(xe.negated().times(ii) == x.times(f));
    crossed(h, x, d, a, i, f, s)
}

/// The step of a power that is none or a reciprocal.
proof fn lemma_stepped_inverse_power<V: Scalar>(h: V, x: V, d: V, a: V, n: int) -> (r: V)
    requires
        exact::<V>(),
        !h.absent(),
        !x.absent(),
        !d.absent(),
        !a.absent(),
        i32::MIN <= n <= 0,
        !raised(x, n).absent(),
        !raised(stepped_by(h, x, d, a), n).absent(),
        !raised(x, n - 1).absent(),
    ensures
        !r.absent(),
        !V::whole(n).times(raised(x, n - 1)).times(d).absent(),
        raised(stepped_by(h, x, d, a), n) == stepped_by(
            h,
            raised(x, n),
            V::whole(n).times(raised(x, n - 1)).times(d),
            r,
        ),
{
    let one = V::whole(1);
    let y = stepped_by(h, x, d, a);
    let m = (-n) as nat;
    lemma_stepped_present(h, x, d, a);
    lemma_counted::<V>(m as int);
    lemma_absence(V::whole(m as int), one);
    lemma_absence(V::whole(n), raised(x, n - 1));
    lemma_absence(V::whole(n).times(raised(x, n - 1)), d);
    if n == 0 {
        lemma_units(raised(x, -1));
        lemma_units(d);
        lemma_still(h, one);
        return V::whole(0);
    }
    let (p, q, z) = (product(x, m), product(x, (m - 1) as nat), product(y, m));
    let (i, k, j) = (one.over(p), one.over(z), one.over(product(x, m + 1)));
    lemma_product_present(x, m);
    lemma_product_present(x, (m - 1) as nat);
    lemma_product_present(y, m);
    let s = lemma_stepped_power(h, x, d, a, m);
    let e = power_slope(x, d, m);
    let c = V::whole(m as int);
    lemma_absence(c, q);
    lemma_absence(c.times(q), d);
    lemma_reciprocal(p);
    lemma_reciprocal(z);
    lemma_reciprocal(product(x, m + 1));
    lemma_stepped_reciprocal(h, p, e, s, i, k);
    // the reciprocal one power on, off the one at hand.
    assert(product(x, m + 1) == p.times(x));
    assert(p == q.times(x));
    let ii = i.times(i);
    let iiq = ii.times(q);
    lemma_absence(i, i);
    lemma_absence(ii, q);
    lemma_absence(p, x);
    lemma_times(p.times(x), ii, q);
    lemma_times(p, x, iiq);
    lemma_times(x, ii, q);
    lemma_outwards(ii, x, q);
    lemma_times(x, q, q);
    assert(x.times(iiq) == ii.times(p));
    lemma_times(p, ii.times(p), p);
    lemma_times(ii, p, p);
    lemma_times(i, i, p);
    lemma_times(i, p, p);
    lemma_units(i);
    assert(ii.times(p) == i);
    assert(p.times(x).times(iiq) == one);
    lemma_one_reciprocal(p.times(x), iiq, j);
    // and the slope off it.
    let cq = c.times(q);
    lemma_times(i, i, e);
    lemma_outwards(cq, ii, d);
    lemma_times(ii, cq, d);
    lemma_outwards(c, ii, q);
    lemma_times(cq, d, d);
    assert(ii.times(e) == c.times(iiq).times(d)) by {
        lemma_times(ii, cq, d);
        assert(ii.times(cq.times(d)) == ii.times(cq).times(d));
        assert(ii.times(cq) == c.times(iiq));
    }
    assert(i.times(i.times(e)) == ii.times(e));
    let ciq = c.times(iiq);
    lemma_absence(c, iiq);
    lemma_absence(ciq, d);
    lemma_negated(ciq, d);
    lemma_times(ciq, d, d);
    lemma_times(ciq.negated(), d, d);
    lemma_negated(c, iiq);
    lemma_times(c, iiq, iiq);
    lemma_times(c.negated(), iiq, iiq);
    assert(ciq.times(d).negated() == c.negated().times(iiq).times(d));
    assert(V::whole(n) == c.negated());
    reciprocal_rest(h, i, k, e, s)
}

/// The step of a root.
proof fn lemma_stepped_root<V: Scalar>(h: V, x: V, d: V, a: V) -> (r: V)
    requires
        exact::<V>(),
        !h.absent(),
        !x.absent(),
        !d.absent(),
        !a.absent(),
        !x.root().absent(),
        !stepped_by(h, x, d, a).root().absent(),
        invertible(V::whole(2).times(x.root())),
        invertible(stepped_by(h, x, d, a).root().plus(x.root())),
        !d.over(V::whole(2).times(x.root())).absent(),
    ensures
        !r.absent(),
        stepped_by(h, x, d, a).root() == stepped_by(
            h,
            x.root(),
            d.over(V::whole(2).times(x.root())),
            r,
        ),
{
    let one = V::whole(1);
    let y = stepped_by(h, x, d, a);
    let u = d.plus(h.times(a));
    let hu = h.times(u);
    let (s, t) = (x.root(), y.root());
    let (twice, both) = (V::whole(2).times(s), t.plus(s));
    let (j, k) = (one.over(twice), one.over(both));
    assert(s.times(s) == x && t.times(t) == y) by {
        reveal(measures);
    }
    lemma_stepped_present(h, x, d, a);
    lemma_reciprocal(twice);
    lemma_reciprocal(both);
    lemma_quotient(d, twice);
    lemma_absence(h, u);
    lemma_absence(s, s);
    lemma_absence(t, s);
    lemma_absence(x, x);
    // the difference of the roots, times their sum, is the difference of the squares.
    let less = t.plus(s.negated());
    lemma_absence(t, s.negated());
    lemma_times(both, t, s.negated());
    lemma_spread(t, s, t);
    lemma_spread(t, s, s.negated());
    lemma_negated(t, s);
    lemma_negated(s, s);
    lemma_times(s, t, t);
    let st = t.times(s);
    assert(both.times(t) == y.plus(st));
    assert(both.times(s.negated()) == st.negated().plus(x.negated()));
    lemma_plus(y, st, st.negated().plus(x.negated()));
    lemma_plus(st, st.negated(), x.negated());
    lemma_opposite(st);
    lemma_absence(x, hu);
    lemma_units(x.negated());
    assert(both.times(less) == y.plus(x.negated()));
    lemma_plus(x, hu, x.negated());
    lemma_plus(hu, x, x.negated());
    lemma_opposite(x);
    lemma_units(hu);
    assert(y.plus(x.negated()) == hu);
    // so the root moves by the step times this.
    let g = u.times(k);
    lemma_absence(u, k);
    lemma_units(less);
    lemma_times(less, both, k);
    lemma_times(both, less, k);
    lemma_times(h, u, k);
    assert(less == h.times(g));
    lemma_plus(s, t, s.negated());
    lemma_plus(t, s.negated(), s);
    lemma_plus(less, s, s);
    lemma_opposite(s);
    lemma_units(t);
    assert(t == s.plus(h.times(g)));
    // the sum of the roots is twice the first, moved.
    lemma_counted::<V>(1);
    lemma_units(s);
    lemma_spread(one, one, s);
    assert(twice == s.plus(s));
    lemma_plus(s, h.times(g), s);
    lemma_plus(s, s, h.times(g));
    assert(both == twice.plus(h.times(g)));
    lemma_reciprocal_moves(h, twice, g, j, k);
    let w = j.times(k.times(g)).negated();
    lemma_times(u, j, h.times(w));
    lemma_outwards(h, u, w);
    lemma_spread(d, h.times(a), j);
    lemma_times(h, a, j);
    assert(g == d.times(j).plus(h.times(a.times(j))).plus(h.times(u.times(w))));
    lemma_plus(d.times(j), h.times(a.times(j)), h.times(u.times(w)));
    lemma_times(h, a.times(j), u.times(w));
    lemma_absence(a, j);
    lemma_absence(u, w);
    lemma_absence(a.times(j), u.times(w));
    a.times(j).plus(u.times(w))
}

/// What a magnitude is divided into is the sign.
proof fn lemma_side<V: Scalar>(x: V)
    requires
        exact::<V>(),
        !x.absent(),
        V::whole(0).below(x) || x.below(V::whole(0)),
        invertible(x.magnitude()),
        !x.over(x.magnitude()).absent(),
    ensures
        V::whole(0).below(x) ==> x.magnitude() == x && x.over(x.magnitude()) == V::whole(1),
        !V::whole(0).below(x) ==> x.magnitude() == x.negated() && x.over(x.magnitude()) == V::whole(
            1,
        ).negated(),
{
    let one = V::whole(1);
    reveal(measures);
    let m = x.magnitude();
    let i = one.over(m);
    lemma_reciprocal(m);
    lemma_quotient(x, m);
    if !V::whole(0).below(x) {
        lemma_absence(x, i);
        lemma_times(x, i, i);
        lemma_negated(x, i);
        lemma_units(x);
        assert(m.negated() == x);
        lemma_absence(m, i);
        lemma_times(m, i, i);
        lemma_negated(m, i);
        assert(m.times(i).negated() == m.negated().times(i));
    }
}

pub(crate) proof fn lemma_slope<V: Scalar>(t: Tree<V>, env: Seq<V>, var: int, h: V) -> (r: V)
    requires
        exact::<V>(),
        smooth(t, env, var, h),
        0 <= var < env.len(),
        !env[var].absent(),
        !h.absent(),
    ensures
        !r.absent(),
        !t.value(env).absent(),
        !t.derivative(var).value(env).absent(),
        t.value(shifted(env, var, h)) == stepped_by(
            h,
            t.value(env),
            t.derivative(var).value(env),
            r,
        ),
    decreases t,
{
    reveal_with_fuel(Tree::value, 5);
    let moved = shifted(env, var, h);
    match t {
        Tree::Const(c) => {
            lemma_still(h, c);
            V::whole(0)
        },
        Tree::Var(i) => {
            if i == var {
                lemma_moved(h, env[i]);
            } else {
                lemma_still(h, env[i]);
            }
            V::whole(0)
        },
        Tree::Add(l, r) => {
            let (a, b) = (lemma_slope(*l, env, var, h), lemma_slope(*r, env, var, h));
            let (x, y) = (l.value(env), r.value(env));
            let (d, e) = (l.derivative(var).value(env), r.derivative(var).value(env));
            lemma_stepped_sum(h, x, d, a, y, e, b);
            lemma_absence(x, y);
            lemma_absence(d, e);
            lemma_absence(a, b);
            a.plus(b)
        },
        Tree::Sub(l, r) => {
            let (a, b) = (lemma_slope(*l, env, var, h), lemma_slope(*r, env, var, h));
            let (x, y) = (l.value(env), r.value(env));
            let (d, e) = (l.derivative(var).value(env), r.derivative(var).value(env));
            lemma_stepped_negated(h, y, e, b);
            lemma_times(stepped_by(h, x, d, a), stepped_by(h, y, e, b), x);
            lemma_stepped_sum(h, x, d, a, y.negated(), e.negated(), b.negated());
            lemma_times(x, y, x);
            lemma_times(d, e, x);
            lemma_absence(x, y);
            lemma_absence(d, e);
            lemma_absence(b, b);
            lemma_absence(a, b.negated());
            a.plus(b.negated())
        },
        Tree::Mul(l, r) => {
            let (a, b) = (lemma_slope(*l, env, var, h), lemma_slope(*r, env, var, h));
            let (x, y) = (l.value(env), r.value(env));
            let (d, e) = (l.derivative(var).value(env), r.derivative(var).value(env));
            lemma_stepped_product(h, x, d, a, y, e, b);
            lemma_crossed_present(h, x, d, a, y, e, b);
            lemma_absence(x, y);
            lemma_absence(d, y);
            lemma_absence(x, e);
            lemma_absence(d.times(y), x.times(e));
            crossed(h, x, d, a, y, e, b)
        },
        Tree::Neg(e) => {
            let a = lemma_slope(*e, env, var, h);
            let (x, d) = (e.value(env), e.derivative(var).value(env));
            lemma_stepped_negated(h, x, d, a);
            lemma_absence(x, x);
            lemma_absence(d, d);
            lemma_absence(a, a);
            a.negated()
        },
        Tree::Square(e) => {
            let a = lemma_slope(*e, env, var, h);
            let (x, d) = (e.value(env), e.derivative(var).value(env));
            lemma_stepped_product(h, x, d, a, x, d, a);
            lemma_crossed_present(h, x, d, a, x, d, a);
            // the slope, said twice.
            lemma_counted::<V>(1);
            let xd = x.times(d);
            lemma_absence(x, x);
            lemma_absence(x, d);
            lemma_absence(xd, xd);
            lemma_units(xd);
            lemma_times(d, x, x);
            lemma_times(xd, V::whole(1), V::whole(1));
            lemma_times(V::whole(2), xd, xd);
            assert(V::whole(2).times(xd) == xd.plus(xd));
            crossed(h, x, d, a, x, d, a)
        },
        Tree::Powi(e, n) => {
            let a = lemma_slope(*e, env, var, h);
            let (x, d) = (e.value(env), e.derivative(var).value(env));
            assert(t.derivative(var).value(env) == V::whole(n).times(raised(x, n - 1)).times(d));
            if n <= 0 {
                lemma_stepped_inverse_power(h, x, d, a, n)
            } else {
                let s = lemma_stepped_power(h, x, d, a, n as nat);
                lemma_product_present(x, n as nat);
                lemma_product_present(x, (n - 1) as nat);
                lemma_counted::<V>(n);
                lemma_absence(V::whole(n), product(x, (n - 1) as nat));
                lemma_absence(V::whole(n).times(product(x, (n - 1) as nat)), d);
                assert(t.derivative(var).value(env) == power_slope(x, d, n as nat));
                s
            }
        },
        Tree::Div(l, r) => {
            let (a, b) = (lemma_slope(*l, env, var, h), lemma_slope(*r, env, var, h));
            let (x, y) = (l.value(env), r.value(env));
            let (d, e) = (l.derivative(var).value(env), r.derivative(var).value(env));
            assert(t.derivative(var).value(env) == d.times(y).minus(x.times(e)).over(y.times(y)));
            lemma_stepped_quotient(h, x, d, a, y, e, b)
        },
        Tree::Sqrt(e) => {
            let a = lemma_slope(*e, env, var, h);
            let (x, d) = (e.value(env), e.derivative(var).value(env));
            assert(t.derivative(var).value(env) == d.over(V::whole(2).times(x.root())));
            lemma_stepped_root(h, x, d, a)
        },
        Tree::Abs(e) => {
            let a = lemma_slope(*e, env, var, h);
            let (x, d) = (e.value(env), e.derivative(var).value(env));
            let y = e.value(moved);
            lemma_stepped_present(h, x, d, a);
            lemma_side(x);
            assert(t.derivative(var).value(env) == x.over(x.magnitude()).times(d));
            lemma_units(d);
            if V::whole(0).below(x) {
                assert(y.magnitude() == y) by {
                    reveal(measures);
                }
                a
            } else {
                assert(y.magnitude() == y.negated()) by {
                    reveal(measures);
                }
                lemma_stepped_negated(h, x, d, a);
                lemma_absence(x, x);
                lemma_absence(d, d);
                lemma_absence(a, a);
                lemma_times(V::whole(1), d, d);
                lemma_units(d.negated());
                a.negated()
            }
        },
        Tree::Min(l, r) => {
            let (a, b) = (lemma_slope(*l, env, var, h), lemma_slope(*r, env, var, h));
            let (x, y) = (l.value(env), r.value(env));
            let (d, e) = (l.derivative(var).value(env), r.derivative(var).value(env));
            lemma_stepped_present(h, x, d, a);
            lemma_stepped_present(h, y, e, b);
            reveal(measures);
            if x.below(y) {
                a
            } else {
                b
            }
        },
        Tree::Max(l, r) => {
            let (a, b) = (lemma_slope(*l, env, var, h), lemma_slope(*r, env, var, h));
            let (x, y) = (l.value(env), r.value(env));
            let (d, e) = (l.derivative(var).value(env), r.derivative(var).value(env));
            lemma_stepped_present(h, x, d, a);
            lemma_stepped_present(h, y, e, b);
            reveal(measures);
            if y.below(x) {
                a
            } else {
                b
            }
        },
        Tree::Cmp(l, r) => {
            lemma_still(h, t.value(env));
            V::whole(0)
        },
        Tree::IsNan(e) => {
            lemma_still(h, t.value(env));
            V::whole(0)
        },
        Tree::Select(c, a, b) => if !c.value(env).equals(V::whole(0)) {
            lemma_slope(*a, env, var, h)
        } else {
            lemma_slope(*b, env, var, h)
        },
        Tree::Sum(xs) => lemma_total_slope(xs, env, var, h),
        Tree::Exp(_) => V::whole(0),
    }
}

proof fn lemma_total_slope<V: Scalar>(xs: Seq<Tree<V>>, env: Seq<V>, var: int, h: V) -> (r: V)
    requires
        exact::<V>(),
        all_smooth(xs, env, var, h),
        0 <= var < env.len(),
        !env[var].absent(),
        !h.absent(),
    ensures
        !r.absent(),
        !total(xs, env).absent(),
        !total(derivatives(xs, var), env).absent(),
        total(xs, shifted(env, var, h)) == stepped_by(
            h,
            total(xs, env),
            total(derivatives(xs, var), env),
            r,
        ),
    decreases xs,
{
    if xs.len() == 0 {
        lemma_still(h, V::whole(0));
        return V::whole(0);
    }
    let a = lemma_total_slope(xs.drop_last(), env, var, h);
    let b = lemma_slope(xs.last(), env, var, h);
    let (x, y) = (total(xs.drop_last(), env), xs.last().value(env));
    let (d, e) = (
        total(derivatives(xs.drop_last(), var), env),
        xs.last().derivative(var).value(env),
    );
    let ds = derivatives(xs, var);
    assert(ds.drop_last() =~= derivatives(xs.drop_last(), var));
    lemma_stepped_sum(h, x, d, a, y, e, b);
    lemma_absence(x, y);
    lemma_absence(d, e);
    lemma_absence(a, b);
    a.plus(b)
}

/// A symbolic derivative is the slope of the expression it was taken of, wherever that is smooth:
/// moving one variable by `h` moves the value by `h` times the derivative, and by no more beyond that
/// than `h` squared times a number. The difference over the step is the derivative to the first order,
/// so it is what the differences come to as the step closes. An exponential is no exact number's, so
/// an expression with one in it is left out.
pub proof fn a_derivative_is_the_slope<V: Scalar>(t: Tree<V>, env: Seq<V>, var: int, h: V)
    requires
        exact::<V>(),
        smooth(t, env, var, h),
        0 <= var < env.len(),
        !env[var].absent(),
        !h.absent(),
    ensures
        exists|r: V|
            !r.absent() && t.value(shifted(env, var, h)) == #[trigger] stepped_by(
                h,
                t.value(env),
                t.derivative(var).value(env),
                r,
            ),
{
    let r = lemma_slope(t, env, var, h);
    assert(!r.absent() && t.value(shifted(env, var, h)) == stepped_by(
        h,
        t.value(env),
        t.derivative(var).value(env),
        r,
    ));
}

/// The same of the derivative as it is documented, with its litter cleared.
pub proof fn a_simplified_derivative_is_the_slope<V: Scalar>(t: Tree<V>, env: Seq<V>, var: int, h: V)
    requires
        exact::<V>(),
        smooth(t, env, var, h),
        numbers(t.derivative(var), env),
        0 <= var < env.len(),
        !env[var].absent(),
        !h.absent(),
    ensures
        exists|r: V|
            !r.absent() && t.value(shifted(env, var, h)) == #[trigger] stepped_by(
                h,
                t.value(env),
                t.derivative(var).simplified().value(env),
                r,
            ),
{
    simplifying_keeps_the_value(t.derivative(var), env);
    a_derivative_is_the_slope(t, env, var, h);
}

} // verus!
