//! What Wilder's averages and the index over them are of the changes they were taken of, in numbers
//! that are exact.

use vstd::prelude::*;

use crate::algebra::Slots;
use crate::bar::Bar;
use crate::expr::Expr;
use crate::flat::Number;
use crate::fold::{Fold, Folds};
use crate::kernel::zeros;
use crate::order::{
    lemma_between, lemma_ordered, lemma_positive, lemma_quotient_order, lemma_raised, lemma_rank,
    lemma_reflected, ordered_field,
};
use crate::rows::Hist;
use crate::rsi::{actual_of, change, index_of, pair_reading, sample_reading};
use crate::rsi::{AvgGain, AvgLoss, Rsi, RsiSpec, Sample};
use crate::rsi_laws::{
    an_average_gain_is_absent_for_exactly_its_cold_elements,
    an_average_loss_is_absent_for_exactly_its_cold_elements, as_sample, capped, carrying,
    carrying_both, counts, lemma_avggain_state, lemma_avgloss_state, lemma_rsi_state,
    the_body_computes_the_index,
};
use crate::scalar::{
    divides, lemma_absence, lemma_over, lemma_plus, lemma_times, lemma_units, Scalar,
};
use crate::slope_laws::{
    exact, invertible, lemma_counted, lemma_opposite, lemma_quotient, lemma_reciprocal, lemma_spread,
    lemma_without, measures,
};

verus! {

/// What of a number is above zero.
pub open spec fn above_zero<V: Scalar>(x: V) -> V {
    if V::whole(0).below(x) {
        x
    } else {
        V::whole(0)
    }
}

/// What the changes that rose came to, over the first `n`.
pub open spec fn risen<V: Scalar>(xs: Seq<Sample<V>>, n: nat) -> V
    decreases n,
{
    if n == 0 {
        V::whole(0)
    } else {
        match xs[n - 1] {
            Some(c) => risen(xs, (n - 1) as nat).plus(above_zero(c.0)),
            None => risen(xs, (n - 1) as nat),
        }
    }
}

/// What the changes that fell came to, as a magnitude, over the first `n`.
pub open spec fn fallen<V: Scalar>(xs: Seq<Sample<V>>, n: nat) -> V
    decreases n,
{
    if n == 0 {
        V::whole(0)
    } else {
        match xs[n - 1] {
            Some(c) => fallen(xs, (n - 1) as nat).plus(above_zero(c.0.negated())),
            None => fallen(xs, (n - 1) as nat),
        }
    }
}

/// Whether every change that came is a number.
pub open spec fn all_numbers<V: Scalar>(xs: Seq<Sample<V>>) -> bool {
    forall|i: int| 0 <= i < xs.len() ==> (#[trigger] xs[i] matches Some(c) ==> !c.0.absent())
}

/// Whether the lengths of an average can be counted to and divided by, and no further than a count
/// goes.
pub open spec fn countable<V: Scalar>(n: int) -> bool {
    &&& exact::<V>()
    &&& 1 <= n < 0x1_0000_0000
    &&& counts::<V>(n)
    &&& counts::<V>(n - 1)
}

/// One less than a count is the count before it.
proof fn lemma_one_less<V: Scalar>(n: int)
    requires
        countable::<V>(n),
    ensures
        V::whole(n).minus(V::whole(1)) == V::whole(n - 1),
{
    lemma_counted::<V>(n - 1);
    lemma_counted::<V>(1);
    lemma_counted::<V>(n);
    lemma_without(V::whole(n - 1), V::whole(1), V::whole(n));
    lemma_times(V::whole(n), V::whole(1), V::whole(1));
}

/// The larger of a number and zero.
proof fn lemma_above_zero<V: Scalar>(x: V)
    requires
        exact::<V>(),
        !x.absent(),
    ensures
        x.greater(V::whole(0)) == above_zero(x),
        V::whole(1).times(x) == x,
        V::whole(-1).times(x) == x.negated(),
        !x.negated().absent(),
{
    lemma_units(x);
    lemma_absence(x, x);
    lemma_counted::<V>(1);
    lemma_times(V::whole(1), x, x);
    lemma_units(x.negated());
    reveal(measures);
}

/// Where the average of the up moves stands after each change: the sum of them while it is cold,
/// their mean where the last of its length comes, and from there the mean so far, weighed all but one,
/// and the new move.
proof fn lemma_gain<'t, B, S: RsiSpec, V: Scalar>(
    e: AvgGain<B, S, V>,
    deps: (&'t [Sample<V>], ()),
    n: nat,
)
    requires
        e.avg@ == zeros::<V>(2),
        countable::<V>(S::base() as int),
        all_numbers(deps.0@),
        0 < n <= deps.0@.len(),
        deps.0@[n - 1] is Some,
    ensures
        ({
            let was = Fold::walk::<V, (&'t [Sample<V>], ()), AvgGain<B, S, V>>(e, deps, (n - 1) as nat);
            let w = Fold::walk::<V, (&'t [Sample<V>], ()), AvgGain<B, S, V>>(e, deps, n);
            let (k, base) = (carrying(deps.0@, (n - 1) as nat), S::base() as int);
            let moved = above_zero(deps.0@[n - 1]->Some_0.0);
            &&& k >= 0
            &&& k < base - 1 ==> w.state[0] == was.state[0].plus(moved)
            &&& k == base - 1 ==> w.state[0] == was.state[0].plus(moved).over(V::whole(base))
            &&& k >= base ==> w.state[0] == was.state[0].times(V::whole(base - 1)).plus(moved).over(
                V::whole(base),
            )
        }),
{
    let base = S::base() as int;
    V::zero_equals_zero();
    V::one_is_not_zero();
    lemma_avggain_state(e, deps, (n - 1) as nat);
    lemma_one_less::<V>(base);
    let was = Fold::walk::<V, (&'t [Sample<V>], ()), AvgGain<B, S, V>>(e, deps, (n - 1) as nat);
    let c = deps.0@[n - 1]->Some_0.0;
    lemma_above_zero(c);
    lemma_above_zero(c);
    let x = sample_reading(deps.0@, n - 1)->Some_0;
    let env = x.slots + was.state;
    let step = <AvgGain<B, S, V> as Folds<V, (&'t [Sample<V>], ())>>::step_spec(&e);
    let k = capped(carrying(deps.0@, (n - 1) as nat), base);
    assert(env[0] == c);
    assert(env[1] == was.state[0]);
    assert(env[2] == V::whole(k));
    assert(V::whole(k).plus(V::whole(1)) == V::whole(k + 1));
    assert(V::whole(k).below(V::whole(base)) == (k < base));
    if k < base {
        assert(V::whole(k).below(V::whole(base - 1)) == (k < base - 1));
    }
    let got = step.slot_values(env);
    assert(got[0] == step.0.0.value(env));
}

/// The sum is what a cold average holds.
proof fn lemma_gain_sum<'t, B, S: RsiSpec, V: Scalar>(
    e: AvgGain<B, S, V>,
    deps: (&'t [Sample<V>], ()),
    n: nat,
)
    requires
        e.avg@ == zeros::<V>(2),
        countable::<V>(S::base() as int),
        all_numbers(deps.0@),
        n <= deps.0@.len(),
        carrying(deps.0@, n) < S::base(),
    ensures
        Fold::walk::<V, (&'t [Sample<V>], ()), AvgGain<B, S, V>>(e, deps, n).state[0] == risen(deps.0@, n),
    decreases n,
{
    if n > 0 {
        lemma_gain_sum(e, deps, (n - 1) as nat);
        if deps.0@[n - 1] is Some {
            lemma_gain(e, deps, n);
        }
    } else {
        assert(zeros::<V>(2)[0] == V::whole(0));
    }
}

/// An average gain is nothing until its length of changes has come; then it is what those of them that
/// rose came to, over their count; and from there on it is the one before it, weighed all but one, and
/// what the new change rose, over the count.
pub proof fn an_average_gain_is_the_mean_of_the_rises<'t, B, S: RsiSpec, V: Scalar>(
    e: AvgGain<B, S, V>,
    deps: (&'t [Sample<V>], ()),
    n: nat,
)
    requires
        e.avg@ == zeros::<V>(2),
        countable::<V>(S::base() as int),
        all_numbers(deps.0@),
        0 < n <= deps.0@.len(),
        deps.0@[n - 1] is Some,
    ensures
        ({
            let walk = |m: nat| Fold::walk::<V, (&'t [Sample<V>], ()), AvgGain<B, S, V>>(e, deps, m);
            let run = walk(deps.0@.len()).run;
            let (k, base) = (carrying(deps.0@, n), S::base() as int);
            let moved = above_zero(deps.0@[n - 1]->Some_0.0);
            &&& k < base ==> run[n - 1] == None::<Number<V>>
            &&& k == base ==> run[n - 1] == as_sample(risen(deps.0@, n).over(V::whole(base)))
            &&& k > base ==> run[n - 1] == as_sample(
                walk((n - 1) as nat).state[0].times(V::whole(base - 1)).plus(moved).over(V::whole(base)),
            )
            &&& k >= base ==> run[n - 1] == as_sample(walk(n).state[0])
        }),
{
    an_average_gain_is_absent_for_exactly_its_cold_elements(e, deps, n - 1);
    lemma_gain(e, deps, n);
    if carrying(deps.0@, n) <= S::base() {
        lemma_gain_sum(e, deps, (n - 1) as nat);
    }
}

/// Where the average of the down moves stands after each change: the sum of them while it is cold,
/// their mean where the last of its length comes, and from there the mean so far, weighed all but one,
/// and the new move.
proof fn lemma_loss<'t, B, S: RsiSpec, V: Scalar>(
    e: AvgLoss<B, S, V>,
    deps: (&'t [Sample<V>], ()),
    n: nat,
)
    requires
        e.avg@ == zeros::<V>(2),
        countable::<V>(S::base() as int),
        all_numbers(deps.0@),
        0 < n <= deps.0@.len(),
        deps.0@[n - 1] is Some,
    ensures
        ({
            let was = Fold::walk::<V, (&'t [Sample<V>], ()), AvgLoss<B, S, V>>(e, deps, (n - 1) as nat);
            let w = Fold::walk::<V, (&'t [Sample<V>], ()), AvgLoss<B, S, V>>(e, deps, n);
            let (k, base) = (carrying(deps.0@, (n - 1) as nat), S::base() as int);
            let moved = above_zero(deps.0@[n - 1]->Some_0.0.negated());
            &&& k >= 0
            &&& k < base - 1 ==> w.state[0] == was.state[0].plus(moved)
            &&& k == base - 1 ==> w.state[0] == was.state[0].plus(moved).over(V::whole(base))
            &&& k >= base ==> w.state[0] == was.state[0].times(V::whole(base - 1)).plus(moved).over(
                V::whole(base),
            )
        }),
{
    let base = S::base() as int;
    V::zero_equals_zero();
    V::one_is_not_zero();
    lemma_avgloss_state(e, deps, (n - 1) as nat);
    lemma_one_less::<V>(base);
    let was = Fold::walk::<V, (&'t [Sample<V>], ()), AvgLoss<B, S, V>>(e, deps, (n - 1) as nat);
    let c = deps.0@[n - 1]->Some_0.0;
    lemma_above_zero(c);
    lemma_above_zero(c.negated());
    let x = sample_reading(deps.0@, n - 1)->Some_0;
    let env = x.slots + was.state;
    let step = <AvgLoss<B, S, V> as Folds<V, (&'t [Sample<V>], ())>>::step_spec(&e);
    let k = capped(carrying(deps.0@, (n - 1) as nat), base);
    assert(env[0] == c);
    assert(env[1] == was.state[0]);
    assert(env[2] == V::whole(k));
    assert(V::whole(k).plus(V::whole(1)) == V::whole(k + 1));
    assert(V::whole(k).below(V::whole(base)) == (k < base));
    if k < base {
        assert(V::whole(k).below(V::whole(base - 1)) == (k < base - 1));
    }
    let got = step.slot_values(env);
    assert(got[0] == step.0.0.value(env));
}

/// The sum is what a cold average holds.
proof fn lemma_loss_sum<'t, B, S: RsiSpec, V: Scalar>(
    e: AvgLoss<B, S, V>,
    deps: (&'t [Sample<V>], ()),
    n: nat,
)
    requires
        e.avg@ == zeros::<V>(2),
        countable::<V>(S::base() as int),
        all_numbers(deps.0@),
        n <= deps.0@.len(),
        carrying(deps.0@, n) < S::base(),
    ensures
        Fold::walk::<V, (&'t [Sample<V>], ()), AvgLoss<B, S, V>>(e, deps, n).state[0] == fallen(deps.0@, n),
    decreases n,
{
    if n > 0 {
        lemma_loss_sum(e, deps, (n - 1) as nat);
        if deps.0@[n - 1] is Some {
            lemma_loss(e, deps, n);
        }
    } else {
        assert(zeros::<V>(2)[0] == V::whole(0));
    }
}

/// An average loss is nothing until its length of changes has come; then it is what those of them that
/// fell came to, as a magnitude, over their count; and from there on it is the one before it, weighed
/// all but one, and what the new change fell, over the count.
pub proof fn an_average_loss_is_the_mean_of_the_falls<'t, B, S: RsiSpec, V: Scalar>(
    e: AvgLoss<B, S, V>,
    deps: (&'t [Sample<V>], ()),
    n: nat,
)
    requires
        e.avg@ == zeros::<V>(2),
        countable::<V>(S::base() as int),
        all_numbers(deps.0@),
        0 < n <= deps.0@.len(),
        deps.0@[n - 1] is Some,
    ensures
        ({
            let walk = |m: nat| Fold::walk::<V, (&'t [Sample<V>], ()), AvgLoss<B, S, V>>(e, deps, m);
            let run = walk(deps.0@.len()).run;
            let (k, base) = (carrying(deps.0@, n), S::base() as int);
            let moved = above_zero(deps.0@[n - 1]->Some_0.0.negated());
            &&& k < base ==> run[n - 1] == None::<Number<V>>
            &&& k == base ==> run[n - 1] == as_sample(fallen(deps.0@, n).over(V::whole(base)))
            &&& k > base ==> run[n - 1] == as_sample(
                walk((n - 1) as nat).state[0].times(V::whole(base - 1)).plus(moved).over(V::whole(base)),
            )
            &&& k >= base ==> run[n - 1] == as_sample(walk(n).state[0])
        }),
{
    an_average_loss_is_absent_for_exactly_its_cold_elements(e, deps, n - 1);
    lemma_loss(e, deps, n);
    if carrying(deps.0@, n) <= S::base() {
        lemma_loss_sum(e, deps, (n - 1) as nat);
    }
}

/// Whether every change that came is a rise.
pub open spec fn all_rise<V: Scalar>(xs: Seq<Sample<V>>) -> bool {
    forall|i: int| 0 <= i < xs.len() ==> (#[trigger] xs[i] matches Some(c) ==> V::whole(0).below(c.0))
}

/// Whether every change that came is a fall.
pub open spec fn all_fall<V: Scalar>(xs: Seq<Sample<V>>) -> bool {
    forall|i: int| 0 <= i < xs.len() ==> (#[trigger] xs[i] matches Some(c) ==> c.0.below(V::whole(0)))
}

/// A mean that is zero or more grows past zero with a move that is above it.
proof fn lemma_grows<V: Scalar>(was: V, x: V, base: int, k: int)
    requires
        countable::<V>(base),
        ordered_field::<V>(),
        divides::<V>(),
        invertible(V::whole(base)),
        V::whole(0).below(x),
        k >= 0,
        k == 0 ==> was == V::whole(0),
        k > 0 ==> V::whole(0).below(was),
    ensures
        V::whole(0).below(was.plus(x)),
        V::whole(0).below(was.plus(x).over(V::whole(base))),
        k > 0 ==> V::whole(0).below(was.times(V::whole(base - 1)).plus(x).over(V::whole(base))),
{
    let zero = V::whole(0);
    let n = V::whole(base);
    lemma_counted::<V>(0);
    lemma_rank(zero, x);
    lemma_rank(zero, was);
    lemma_positive::<V>(base);
    lemma_units(x);
    lemma_sum_above(was, x);
    lemma_divided_above(was.plus(x), n);
    if k > 0 {
        let kept = was.times(V::whole(base - 1));
        lemma_counted::<V>(base - 1);
        lemma_absence(was, V::whole(base - 1));
        lemma_units(was);
        lemma_units(V::whole(base - 1));
        if base > 1 {
            lemma_positive::<V>(base - 1);
            lemma_ordered(zero, was, V::whole(base - 1));
        }
        lemma_sum_above(kept, x);
        lemma_divided_above(kept.plus(x), n);
    }
}

proof fn lemma_sum_above<V: Scalar>(a: V, x: V)
    requires
        ordered_field::<V>(),
        a == V::whole(0) || V::whole(0).below(a),
        V::whole(0).below(x),
    ensures
        V::whole(0).below(a.plus(x)),
{
    let zero = V::whole(0);
    lemma_rank(zero, x);
    lemma_rank(zero, a);
    lemma_units(x);
    if a != zero {
        lemma_raised(a, x);
        lemma_between(zero, a, a.plus(x));
    }
}

proof fn lemma_divided_above<V: Scalar>(a: V, n: V)
    requires
        ordered_field::<V>(),
        divides::<V>(),
        V::whole(0).below(a),
        V::whole(0).below(n),
        invertible(n),
    ensures
        V::whole(0).below(a.over(n)),
        !a.over(n).absent(),
{
    let zero = V::whole(0);
    lemma_rank(zero, a);
    lemma_over(a, a, n, V::whole(1));
    lemma_quotient(a, n);
    lemma_quotient_order(zero, a, n);
    lemma_counted::<V>(0);
    lemma_units(V::whole(1).over(n));
}

proof fn lemma_gain_rising<'t, B, S: RsiSpec, V: Scalar>(
    e: AvgGain<B, S, V>,
    deps: (&'t [Sample<V>], ()),
    n: nat,
)
    requires
        e.avg@ == zeros::<V>(2),
        countable::<V>(S::base() as int),
        ordered_field::<V>(),
        divides::<V>(),
        invertible(V::whole(S::base() as int)),
        all_rise(deps.0@),
        n <= deps.0@.len(),
    ensures
        ({
            let mean = Fold::walk::<V, (&'t [Sample<V>], ()), AvgGain<B, S, V>>(e, deps, n).state[0];
            &&& carrying(deps.0@, n) == 0 ==> mean == V::whole(0)
            &&& carrying(deps.0@, n) > 0 ==> V::whole(0).below(mean)
        }),
    decreases n,
{
    let base = S::base() as int;
    let zero = V::whole(0);
    lemma_counted::<V>(0);
    if n == 0 {
        assert(zeros::<V>(2)[0] == zero);
    } else {
        lemma_gain_rising(e, deps, (n - 1) as nat);
        lemma_avggain_state(e, deps, (n - 1) as nat);
        if deps.0@[n - 1] is Some {
            let c = deps.0@[n - 1]->Some_0.0;
            lemma_rank(zero, c);
            lemma_absence(c, c);
            lemma_reflected(c);
            lemma_units(c);
            assert(all_numbers(deps.0@)) by {
                assert forall|i: int| 0 <= i < deps.0@.len() implies (#[trigger] deps.0@[i] matches Some(
                    d,
                ) ==> !d.0.absent()) by {
                    if let Some(d) = deps.0@[i] {
                        lemma_rank(zero, d.0);
                    }
                }
            }
            lemma_gain(e, deps, n);
            let was = Fold::walk::<V, (&'t [Sample<V>], ()), AvgGain<B, S, V>>(
                e,
                deps,
                (n - 1) as nat,
            ).state[0];
            lemma_grows(was, c, base, carrying(deps.0@, (n - 1) as nat));
        }
    }
}

proof fn lemma_loss_rising<'t, B, S: RsiSpec, V: Scalar>(
    e: AvgLoss<B, S, V>,
    deps: (&'t [Sample<V>], ()),
    n: nat,
)
    requires
        e.avg@ == zeros::<V>(2),
        countable::<V>(S::base() as int),
        ordered_field::<V>(),
        divides::<V>(),
        invertible(V::whole(S::base() as int)),
        all_rise(deps.0@),
        n <= deps.0@.len(),
    ensures
        ({
            let mean = Fold::walk::<V, (&'t [Sample<V>], ()), AvgLoss<B, S, V>>(e, deps, n).state[0];
            mean == V::whole(0)
        }),
    decreases n,
{
    let base = S::base() as int;
    let zero = V::whole(0);
    lemma_counted::<V>(0);
    if n == 0 {
        assert(zeros::<V>(2)[0] == zero);
    } else {
        lemma_loss_rising(e, deps, (n - 1) as nat);
        lemma_avgloss_state(e, deps, (n - 1) as nat);
        if deps.0@[n - 1] is Some {
            let c = deps.0@[n - 1]->Some_0.0;
            lemma_rank(zero, c);
            lemma_absence(c, c);
            lemma_reflected(c);
            lemma_units(c);
            assert(all_numbers(deps.0@)) by {
                assert forall|i: int| 0 <= i < deps.0@.len() implies (#[trigger] deps.0@[i] matches Some(
                    d,
                ) ==> !d.0.absent()) by {
                    if let Some(d) = deps.0@[i] {
                        lemma_rank(zero, d.0);
                    }
                }
            }
            lemma_loss(e, deps, n);
            let was = Fold::walk::<V, (&'t [Sample<V>], ()), AvgLoss<B, S, V>>(
                e,
                deps,
                (n - 1) as nat,
            ).state[0];
            lemma_rank(c.negated(), zero);
            lemma_counted::<V>(base - 1);
            lemma_units(zero);
            lemma_units(V::whole(base - 1));
            lemma_counted::<V>(base);
            lemma_units(V::whole(base));
            lemma_over(zero, zero, V::whole(base), V::whole(1));
        }
    }
}

proof fn lemma_gain_falling<'t, B, S: RsiSpec, V: Scalar>(
    e: AvgGain<B, S, V>,
    deps: (&'t [Sample<V>], ()),
    n: nat,
)
    requires
        e.avg@ == zeros::<V>(2),
        countable::<V>(S::base() as int),
        ordered_field::<V>(),
        divides::<V>(),
        invertible(V::whole(S::base() as int)),
        all_fall(deps.0@),
        n <= deps.0@.len(),
    ensures
        ({
            let mean = Fold::walk::<V, (&'t [Sample<V>], ()), AvgGain<B, S, V>>(e, deps, n).state[0];
            mean == V::whole(0)
        }),
    decreases n,
{
    let base = S::base() as int;
    let zero = V::whole(0);
    lemma_counted::<V>(0);
    if n == 0 {
        assert(zeros::<V>(2)[0] == zero);
    } else {
        lemma_gain_falling(e, deps, (n - 1) as nat);
        lemma_avggain_state(e, deps, (n - 1) as nat);
        if deps.0@[n - 1] is Some {
            let c = deps.0@[n - 1]->Some_0.0;
            lemma_rank(zero, c);
            lemma_absence(c, c);
            lemma_reflected(c);
            lemma_units(c);
            assert(all_numbers(deps.0@)) by {
                assert forall|i: int| 0 <= i < deps.0@.len() implies (#[trigger] deps.0@[i] matches Some(
                    d,
                ) ==> !d.0.absent()) by {
                    if let Some(d) = deps.0@[i] {
                        lemma_rank(zero, d.0);
                    }
                }
            }
            lemma_gain(e, deps, n);
            let was = Fold::walk::<V, (&'t [Sample<V>], ()), AvgGain<B, S, V>>(
                e,
                deps,
                (n - 1) as nat,
            ).state[0];
            lemma_rank(c, zero);
            lemma_counted::<V>(base - 1);
            lemma_units(zero);
            lemma_units(V::whole(base - 1));
            lemma_counted::<V>(base);
            lemma_units(V::whole(base));
            lemma_over(zero, zero, V::whole(base), V::whole(1));
        }
    }
}

proof fn lemma_loss_falling<'t, B, S: RsiSpec, V: Scalar>(
    e: AvgLoss<B, S, V>,
    deps: (&'t [Sample<V>], ()),
    n: nat,
)
    requires
        e.avg@ == zeros::<V>(2),
        countable::<V>(S::base() as int),
        ordered_field::<V>(),
        divides::<V>(),
        invertible(V::whole(S::base() as int)),
        all_fall(deps.0@),
        n <= deps.0@.len(),
    ensures
        ({
            let mean = Fold::walk::<V, (&'t [Sample<V>], ()), AvgLoss<B, S, V>>(e, deps, n).state[0];
            &&& carrying(deps.0@, n) == 0 ==> mean == V::whole(0)
            &&& carrying(deps.0@, n) > 0 ==> V::whole(0).below(mean)
        }),
    decreases n,
{
    let base = S::base() as int;
    let zero = V::whole(0);
    lemma_counted::<V>(0);
    if n == 0 {
        assert(zeros::<V>(2)[0] == zero);
    } else {
        lemma_loss_falling(e, deps, (n - 1) as nat);
        lemma_avgloss_state(e, deps, (n - 1) as nat);
        if deps.0@[n - 1] is Some {
            let c = deps.0@[n - 1]->Some_0.0;
            lemma_rank(zero, c);
            lemma_absence(c, c);
            lemma_reflected(c);
            lemma_units(c);
            assert(all_numbers(deps.0@)) by {
                assert forall|i: int| 0 <= i < deps.0@.len() implies (#[trigger] deps.0@[i] matches Some(
                    d,
                ) ==> !d.0.absent()) by {
                    if let Some(d) = deps.0@[i] {
                        lemma_rank(zero, d.0);
                    }
                }
            }
            lemma_loss(e, deps, n);
            let was = Fold::walk::<V, (&'t [Sample<V>], ()), AvgLoss<B, S, V>>(
                e,
                deps,
                (n - 1) as nat,
            ).state[0];
            lemma_grows(was, c.negated(), base, carrying(deps.0@, (n - 1) as nat));
        }
    }
}

/// Closes that only rise have an average gain above zero and no average loss; closes that only fall
/// have an average loss above zero and no average gain.
pub proof fn a_rise_is_a_gain_and_a_fall_a_loss<'t, B, S: RsiSpec, V: Scalar>(
    gain: AvgGain<B, S, V>,
    loss: AvgLoss<B, S, V>,
    deps: (&'t [Sample<V>], ()),
    n: nat,
)
    requires
        gain.avg@ == zeros::<V>(2),
        loss.avg@ == zeros::<V>(2),
        countable::<V>(S::base() as int),
        ordered_field::<V>(),
        divides::<V>(),
        invertible(V::whole(S::base() as int)),
        0 < n <= deps.0@.len(),
        deps.0@[n - 1] is Some,
        carrying(deps.0@, n) >= S::base(),
        all_rise(deps.0@) || all_fall(deps.0@),
    ensures
        ({
            let gains = Fold::walk::<V, (&'t [Sample<V>], ()), AvgGain<B, S, V>>(
                gain,
                deps,
                deps.0@.len(),
            ).run;
            let losses = Fold::walk::<V, (&'t [Sample<V>], ()), AvgLoss<B, S, V>>(
                loss,
                deps,
                deps.0@.len(),
            ).run;
            &&& gains[n - 1] is Some && losses[n - 1] is Some
            &&& all_rise(deps.0@) ==> V::whole(0).below(gains[n - 1]->Some_0.0)
                && losses[n - 1]->Some_0.0 == V::whole(0)
            &&& all_fall(deps.0@) ==> V::whole(0).below(losses[n - 1]->Some_0.0)
                && gains[n - 1]->Some_0.0 == V::whole(0)
        }),
{
    let zero = V::whole(0);
    lemma_counted::<V>(0);
    assert(all_numbers(deps.0@)) by {
        assert forall|i: int| 0 <= i < deps.0@.len() implies (#[trigger] deps.0@[i] matches Some(d)
            ==> !d.0.absent()) by {
            if let Some(d) = deps.0@[i] {
                lemma_rank(zero, d.0);
            }
        }
    }
    an_average_gain_is_the_mean_of_the_rises(gain, deps, n);
    an_average_loss_is_the_mean_of_the_falls(loss, deps, n);
    let up = Fold::walk::<V, (&'t [Sample<V>], ()), AvgGain<B, S, V>>(gain, deps, n).state[0];
    let down = Fold::walk::<V, (&'t [Sample<V>], ()), AvgLoss<B, S, V>>(loss, deps, n).state[0];
    if all_rise(deps.0@) {
        lemma_gain_rising(gain, deps, n);
        lemma_loss_rising(loss, deps, n);
    }
    if all_fall(deps.0@) {
        lemma_gain_falling(gain, deps, n);
        lemma_loss_falling(loss, deps, n);
    }
    lemma_rank(zero, up);
    lemma_rank(zero, down);
}

/// A change is a bar's close less the close of the bar before it, wherever both were retained: the
/// first bar of a run has none.
pub proof fn a_change_is_from_close_to_close<'t, V: Scalar>(bars: Hist<'t, Bar<V>>, i: int)
    requires
        0 <= i < bars.fresh <= bars.declared().len(),
    ensures
        ({
            let at = bars.declared().len() - bars.fresh + i;
            &&& at == 0 ==> change(bars, i) == None::<Number<V>>
            &&& at > 0 ==> change(bars, i) == as_sample(
                bars.declared()[at].close.minus(bars.declared()[at - 1].close),
            )
        }),
{
}

/// The index is the share of the moves that were gains, in hundredths: times gain and loss together it
/// is a hundred gains; and where nothing was lost it is a hundred.
pub proof fn the_index_is_the_share_that_was_gained<V: Scalar>(gain: V, loss: V)
    requires
        ordered_field::<V>(),
        divides::<V>(),
        gain == V::whole(0) || V::whole(0).below(gain),
        loss == V::whole(0) || V::whole(0).below(loss),
        loss != V::whole(0) ==> invertible(loss) && invertible(V::whole(1).plus(gain.over(loss))),
    ensures
        loss == V::whole(0) ==> index_of(gain, loss) == V::whole(100),
        loss != V::whole(0) ==> index_of(gain, loss).times(gain.plus(loss)) == V::whole(100).times(gain),
{
    let (zero, one, top) = (V::whole(0), V::whole(1), V::whole(100));
    V::zero_equals_zero();
    lemma_counted::<V>(0);
    lemma_counted::<V>(1);
    lemma_counted::<V>(100);
    lemma_rank(zero, gain);
    lemma_rank(zero, loss);
    if loss != zero {
        assert(!loss.equals(zero));
        let q = gain.over(loss);
        let s = one.plus(q);
        let r = one.over(s);
        lemma_over(gain, gain, loss, one);
        lemma_quotient(gain, loss);
        lemma_reciprocal(loss);
        lemma_reciprocal(s);
        // a quotient times what it was divided by is what was divided.
        let i = one.over(loss);
        lemma_times(gain, i, loss);
        lemma_times(i, loss, loss);
        lemma_units(gain);
        assert(q.times(loss) == gain);
        lemma_spread(one, q, loss);
        lemma_units(loss);
        assert(s.times(loss) == loss.plus(gain));
        lemma_over(top, top, s, one);
        lemma_quotient(top, s);
        let part = top.over(s);
        assert(part == top.times(r));
        lemma_absence(top, r);
        lemma_absence(s, loss);
        lemma_times(top, r, s);
        lemma_times(r, s, s);
        lemma_units(top);
        assert(part.times(s) == top);
        let all = gain.plus(loss);
        lemma_plus(gain, loss, loss);
        lemma_times(part, s, loss);
        assert(part.times(all) == top.times(loss));
        // and the rest of the hundred is the gain's.
        lemma_times(top, part, part);
        lemma_spread(top, part.negated(), all);
        lemma_times(part, all, all);
        lemma_times(top, gain, loss);
        lemma_absence(top, gain);
        lemma_absence(top, loss);
        lemma_absence(gain, loss);
        lemma_negated_product(part, all);
        let (g, l) = (top.times(gain), top.times(loss));
        lemma_opposite(l);
        lemma_plus(g, l, l.negated());
        lemma_units(g);
    }
}

proof fn lemma_negated_product<V: Scalar>(a: V, b: V)
    requires
        exact::<V>(),
        !a.absent(),
        !b.absent(),
    ensures
        a.negated().times(b) == a.times(b).negated(),
{
    crate::slope_laws::lemma_negated(a, b);
    lemma_times(a, b, b);
}

/// What an RSI publishes of a pair of averages, and how it is smoothed: the index of the pair, and an
/// exponential mean that the first index starts and each one after it enters by two parts of one more
/// than the smoothing's length.
pub proof fn an_rsi_is_the_index_and_its_exponential_mean<'t, B, S: RsiSpec, V: Scalar>(
    e: Rsi<B, S, V>,
    deps: (&'t [Sample<V>], (&'t [Sample<V>], ())),
    n: nat,
)
    requires
        e.smooth@ == zeros::<V>(2),
        counts::<V>(S::smoothing() as int),
        S::smoothing() >= 1,
        counts::<V>(1),
        forall|k: int| 0 <= k <= S::smoothing() ==> (#[trigger] V::whole(k)).below(V::whole(1)) == (k < 1),
        0 < n <= deps.0@.len() == deps.1.0@.len(),
        deps.0@[n - 1] is Some && deps.1.0@[n - 1] is Some,
        ({
            let loss = deps.1.0@[n - 1]->Some_0.0;
            loss.equals(V::whole(0)) == !V::whole(0).below(loss)
        }),
    ensures
        ({
            let walk = |m: nat|
                Fold::walk::<V, (&'t [Sample<V>], (&'t [Sample<V>], ())), Rsi<B, S, V>>(e, deps, m);
            let seen = carrying_both(deps.0@, deps.1.0@, (n - 1) as nat);
            let x = index_of(deps.0@[n - 1]->Some_0.0, deps.1.0@[n - 1]->Some_0.0);
            let share = V::whole(2).over(V::whole(S::smoothing() as int).plus(V::whole(1)));
            &&& walk(n).run.last().actual == x
            &&& seen == 0 ==> walk(n).state[0] == x
            &&& seen > 0 ==> walk(n).state[0] == share.times(x).plus(
                V::whole(1).minus(share).times(walk((n - 1) as nat).state[0]),
            )
            &&& seen + 1 >= S::smoothing() ==> walk(n).run.last().smooth == walk(n).state[0]
            &&& seen + 1 < S::smoothing() ==> walk(n).run.last().smooth.absent()
        }),
{
    V::none_is_absent();
    V::zero_equals_zero();
    V::one_is_not_zero();
    lemma_rsi_state(e, deps, (n - 1) as nat);
    lemma_rsi_state(e, deps, n);
    let len = S::smoothing() as int;
    let was = Fold::walk::<V, (&'t [Sample<V>], (&'t [Sample<V>], ())), Rsi<B, S, V>>(
        e,
        deps,
        (n - 1) as nat,
    );
    let w = Fold::walk::<V, (&'t [Sample<V>], (&'t [Sample<V>], ())), Rsi<B, S, V>>(e, deps, n);
    let x = pair_reading(deps.0@, deps.1.0@, n - 1)->Some_0;
    let before = x.slots + was.state;
    let after = x.slots + w.state;
    let step = <Rsi<B, S, V> as Folds<V, (&'t [Sample<V>], (&'t [Sample<V>], ()))>>::step_spec(&e);
    let value = <Rsi<B, S, V> as Folds<V, (&'t [Sample<V>], (&'t [Sample<V>], ()))>>::value_spec(&e);
    let k = capped(carrying_both(deps.0@, deps.1.0@, (n - 1) as nat), len);
    let m = capped(carrying_both(deps.0@, deps.1.0@, n), len);
    assert(before[0] == x.slots[0] && before[1] == x.slots[1]);
    assert(before[2] == was.state[0] && before[3] == V::whole(k));
    assert(after[0] == x.slots[0] && after[1] == x.slots[1]);
    assert(after[2] == w.state[0] && after[3] == V::whole(m));
    assert(V::whole(m).plus(V::whole(1)) == V::whole(m + 1));
    assert(V::whole(m).below(V::whole(len)) == (m < len));
    the_body_computes_the_index(before);
    the_body_computes_the_index(after);
    assert(step.slot_values(before)[0] == step.0.0.value(before));
    let slots = value.slot_values(after);
    assert(slots[0] == actual_of::<V>().value(after));
    assert(slots[1] == if m < len {
        V::none()
    } else {
        w.state[0]
    });
}

} // verus!
