//! What a finite difference tells of the node it was taken of.

use vstd::prelude::*;

use crate::block::{bump_of, difference, lemma_place, Column};
use crate::flat::blank;
use crate::level::Refired;
use crate::order::{
    lemma_between, lemma_positive, lemma_positive_reciprocal, lemma_rank, lemma_scaled,
    ordered_field,
};
use crate::scalar::{lemma_absence, lemma_plus, lemma_times, lemma_units, Scalar};
use crate::slope_laws::{
    exact, invertible, lemma_opposite, lemma_quotient, lemma_reciprocal, lemma_slope,
    lemma_spread, lemma_stepped_present, measures, shifted, smooth,
};
use crate::sweep::Capture;
use crate::tree::Tree;

verus! {

/// Whether a step is the one a slot is perturbed by: positive, a millionth of the slot's size or a
/// billionth, and no smaller than either.
pub open spec fn small_step<V: Scalar>(x: V, h: V) -> bool {
    let (millions, billions) = (h.times(V::whole(1_000_000)), h.times(V::whole(1_000_000_000)));
    &&& V::whole(0).below(h)
    &&& millions == x.magnitude() || billions == V::whole(1)
    &&& !millions.below(x.magnitude())
    &&& !billions.below(V::whole(1))
}

/// The step asked of a slot is small against it: a millionth of its size, a billionth at the least.
pub proof fn a_step_is_small_against_its_slot<V: Scalar>(x: V)
    requires
        ordered_field::<V>(),
        invertible(V::whole(1_000_000)),
        invertible(V::whole(1_000_000_000)),
        !x.absent(),
    ensures
        small_step(x, bump_of(x)),
{
    let (m, g) = (V::whole(1_000_000), V::whole(1_000_000_000));
    let (i, b) = (V::whole(1).over(m), V::whole(1).over(g));
    let size = x.magnitude();
    let a = size.times(i);
    lemma_positive::<V>(1_000_000);
    lemma_positive::<V>(1_000_000_000);
    lemma_reciprocal(m);
    lemma_reciprocal(g);
    lemma_positive_reciprocal(g);
    assert(!size.absent()) by {
        reveal(crate::scalar::scales);
    }
    lemma_absence(size, i);
    lemma_times(size, i, m);
    lemma_times(i, m, m);
    lemma_units(size);
    lemma_times(b, g, g);
    assert(a.times(m) == size && b.times(g) == V::whole(1));
    assert(bump_of(x) == if b.below(a) {
        a
    } else {
        b
    }) by {
        reveal(measures);
    }
    lemma_rank(b, a);
    lemma_rank(a, a);
    lemma_rank(size, size);
    lemma_rank(V::whole(1), V::whole(1));
    lemma_scaled(b, a, g);
    lemma_scaled(b, a, m);
    lemma_between(V::whole(0), b, a);
    lemma_rank(b.times(g), a.times(g));
}

/// Where a node's out moves along a straight line, the difference over the step taken is the slope of
/// the line, whatever step was asked for and however far the dep went in the one it took.
pub proof fn a_straight_line_differs_by_its_slope<V: Scalar, D, C: Column<V, D>>(
    c: C,
    pulled: D,
    deps: Seq<V>,
    outs: Seq<V>,
    i: int,
    slope: V,
)
    requires
        exact::<V>(),
        0 <= i < outs.len() * deps.len(),
        !deps[i % deps.len() as int].absent(),
        !outs[i / deps.len() as int].absent(),
        !slope.absent(),
        forall|h: V|
            ({
                let (b, fired, dh) = #[trigger] c.bumped(pulled, i % deps.len() as int, h);
                &&& fired && invertible(dh) && !dh.equals(V::whole(0))
                &&& b[i / deps.len() as int] == outs[i / deps.len() as int].plus(slope.times(dh))
                &&& !b[i / deps.len() as int].minus(outs[i / deps.len() as int]).over(dh).absent()
            }),
    ensures
        Refired(Some(c)).slopes(pulled, deps, outs).0[i] == slope,
{
    let (row, slot) = (i / deps.len() as int, i % deps.len() as int);
    let h = bump_of(deps[slot]);
    let (b, fired, dh) = c.bumped(pulled, slot, h);
    let y = outs[row];
    let k = V::whole(1).over(dh);
    lemma_reciprocal(dh);
    let rise = slope.times(dh);
    lemma_absence(slope, dh);
    lemma_absence(y, rise);
    lemma_difference(y, rise);
    lemma_quotient(b[row].minus(y), dh);
    lemma_times(slope, dh, k);
    lemma_units(slope);
}

/// What a sum is over one of its parts.
proof fn lemma_difference<V: Scalar>(y: V, rise: V)
    requires
        exact::<V>(),
        !y.absent(),
        !rise.absent(),
    ensures
        y.plus(rise).minus(y) == rise,
{
    lemma_times(y.plus(rise), y, y);
    lemma_plus(y, rise, y.negated());
    lemma_plus(rise, y, y.negated());
    lemma_opposite(y);
    lemma_units(rise);
}

/// Where a node computes in code what an expression would say, the difference is the expression's
/// derivative but for the step times a number: the two readings of a slope, the one guessed and the
/// one differentiated, come to one as the step closes.
pub proof fn a_difference_is_the_derivative_but_for_the_step<V: Scalar, D, C: Column<V, D>>(
    c: C,
    pulled: D,
    deps: Seq<V>,
    outs: Seq<V>,
    i: int,
    t: Tree<V>,
    h: V,
)
    requires
        exact::<V>(),
        0 <= i < outs.len() * deps.len(),
        !deps[i % deps.len() as int].absent(),
        h == bump_of(deps[i % deps.len() as int]),
        !h.absent() && invertible(h) && !h.equals(V::whole(0)),
        smooth(t, deps, i % deps.len() as int, h),
        outs[i / deps.len() as int] == t.value(deps),
        ({
            let (b, fired, dh) = c.bumped(pulled, i % deps.len() as int, h);
            &&& fired && dh == h
            &&& b[i / deps.len() as int] == t.value(shifted(deps, i % deps.len() as int, h))
            &&& !b[i / deps.len() as int].minus(outs[i / deps.len() as int]).over(h).absent()
        }),
    ensures
        exists|r: V|
            !r.absent() && Refired(Some(c)).slopes(pulled, deps, outs).0[i] == t.derivative(
                i % deps.len() as int,
            ).value(deps).plus(#[trigger] h.times(r)),
{
    let (row, slot) = (i / deps.len() as int, i % deps.len() as int);
    assert(0 <= slot < deps.len()) by (nonlinear_arith)
        requires
            0 <= i < outs.len() * deps.len(),
            slot == i % deps.len() as int,
    ;
    let r = lemma_slope(t, deps, slot, h);
    let (y, d) = (t.value(deps), t.derivative(slot).value(deps));
    let u = d.plus(h.times(r));
    let k = V::whole(1).over(h);
    lemma_stepped_present(h, y, d, r);
    lemma_absence(h, u);
    lemma_difference(y, h.times(u));
    lemma_quotient(h.times(u), h);
    lemma_reciprocal(h);
    lemma_times(h, u, k);
    lemma_times(u, h, k);
    lemma_units(u);
    assert(!r.absent() && Refired(Some(c)).slopes(pulled, deps, outs).0[i] == d.plus(h.times(r)));
}

/// Whether stepping a node again squares its dep, moved by as much as was asked.
pub open spec fn squares<V: Scalar, D, C: Column<V, D>>(c: C, pulled: D, x: V) -> bool {
    forall|h: V| #[trigger]
        c.bumped(pulled, 0, h) == (seq![x.plus(h).times(x.plus(h))], true, h)
}

/// A node that squares its one dep in code is read as sloping at twice the dep, but for a millionth of
/// the dep's size or a billionth.
pub proof fn a_square_slopes_at_twice_its_dep<V: Scalar, D, C: Column<V, D>>(c: C, pulled: D, x: V)
    requires
        ordered_field::<V>(),
        invertible(V::whole(1_000_000)),
        invertible(V::whole(1_000_000_000)),
        forall|h: V| V::whole(0).below(h) ==> #[trigger] invertible(h),
        forall|a: V, b: V| invertible(b) && !a.absent() ==> !(#[trigger] a.over(b)).absent(),
        !x.absent(),
        squares(c, pulled, x),
    ensures
        ({
            let entry = Refired(Some(c)).slopes(pulled, seq![x], seq![x.times(x)]).0[0];
            small_step(x, entry.minus(x.plus(x)))
        }),
{
    let h = bump_of(x);
    a_step_is_small_against_its_slot(x);
    lemma_rank(V::whole(0), h);
    lemma_absence(x, h);
    lemma_absence(x, x);
    let (y, xh, hh) = (x.times(x), x.times(h), h.times(h));
    lemma_absence(x, h);
    lemma_absence(h, h);
    lemma_absence(xh, hh);
    // the square of the sum, taken apart.
    lemma_spread(x, h, x.plus(h));
    lemma_times(x, x, h);
    lemma_times(h, x, h);
    lemma_times(x, h, h);
    let rise = xh.plus(xh.plus(hh));
    lemma_plus(y, xh, xh.plus(hh));
    assert(x.plus(h).times(x.plus(h)) == y.plus(rise));
    lemma_absence(xh, xh.plus(hh));
    lemma_difference(y, rise);
    // over the step, it is twice the dep and the step.
    let sum = x.plus(x.plus(h));
    lemma_spread(x, x.plus(h), h);
    lemma_spread(x, h, h);
    assert(rise == sum.times(h));
    let k = V::whole(1).over(h);
    lemma_reciprocal(h);
    lemma_absence(x, x.plus(h));
    lemma_quotient(rise, h);
    lemma_times(sum, h, k);
    lemma_units(sum);
    lemma_plus(x, x, h);
    lemma_difference(x.plus(x), h);
    lemma_rank(h, V::whole(0));
    assert(!h.equals(V::whole(0))) by {
        assert(h.equals(V::whole(0)) ==> h == V::whole(0));
    }
    assert(c.bumped(pulled, 0, h) == (seq![x.plus(h).times(x.plus(h))], true, h));
    let none = blank::<V>(1);
    assert(seq![y].len() * seq![x].len() == 1) by (nonlinear_arith)
        requires
            seq![x].len() == 1,
            seq![y].len() == 1,
    ;
    assert(0int / 1 == 0 && 0int % 1 == 0);
    assert(Refired(Some(c)).slopes(pulled, seq![x], seq![y]).0[0] == difference(
        c,
        pulled,
        seq![x],
        seq![y],
        none,
        0,
        0,
    ));
}

/// A slot that carried no number, a bump that crossed a firing branch and a slot that moves in no
/// steps have no signal: their entries are absences, and so is every entry of a node that was not
/// captured.
pub proof fn what_cannot_move_has_no_slope<V: Scalar, D, C: Column<V, D>>(
    c: C,
    pulled: D,
    deps: Seq<V>,
    outs: Seq<V>,
    i: int,
)
    requires
        0 <= i < outs.len() * deps.len(),
        deps[i % deps.len() as int].absent() || forall|h: V|
            !(#[trigger] c.bumped(pulled, i % deps.len() as int, h)).1 || c.bumped(
                pulled,
                i % deps.len() as int,
                h,
            ).2.equals(V::whole(0)),
    ensures
        Refired(Some(c)).slopes(pulled, deps, outs).0[i].absent(),
        Refired(None::<C>).slopes(pulled, deps, outs).0[i].absent(),
        !Refired(Some(c)).slopes(pulled, deps, outs).1,
{
    V::none_is_absent();
    let (row, slot) = (i / deps.len() as int, i % deps.len() as int);
    lemma_place(i, outs.len() as int, deps.len() as int);
    let h = bump_of(deps[slot]);
    let moved = c.bumped(pulled, slot, h);
}

} // verus!
