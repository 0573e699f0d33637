//! What holds of an RSI chain over every run.

use vstd::prelude::*;

use crate::algebra::Slots;
use crate::expr::Expr;
use crate::flat::{Number, Unflat};
use crate::flat::blank;
use crate::fold::{Fold, Folds};
use crate::kernel::zeros;
use crate::rsi::{actual_of, index_of, pair_reading, sample_reading};
use crate::rsi::{AvgGain, AvgLoss, Rsi, RsiSpec, RsiValues, Sample};
use crate::scalar::Scalar;
use crate::whole::Whole;

verus! {

/// Whether counting to `n` is exact: what a count carried as a number needs.
pub open spec fn counts<V: Scalar>(n: int) -> bool {
    forall|k: int|
        0 <= k <= n ==> {
            &&& #[trigger] V::whole(k).plus(V::whole(1)) == V::whole(k + 1)
            &&& V::whole(k).below(V::whole(n)) == (k < n)
            &&& V::whole(k + 1).lesser(V::whole(n)) == V::whole(
                if k + 1 < n {
                    k + 1
                } else {
                    n
                },
            )
        }
}

/// How many of the first `n` elements carried a number.
pub open spec fn carrying<V>(xs: Seq<Sample<V>>, n: nat) -> int
    decreases n,
{
    if n == 0 {
        0
    } else {
        carrying(xs, (n - 1) as nat) + if xs[n - 1] is Some {
            1int
        } else {
            0
        }
    }
}

/// How many of the first `n` elements carried both averages.
pub open spec fn carrying_both<V>(gain: Seq<Sample<V>>, loss: Seq<Sample<V>>, n: nat) -> int
    decreases n,
{
    if n == 0 {
        0
    } else {
        carrying_both(gain, loss, (n - 1) as nat) + if gain[n - 1] is Some && loss[n - 1] is Some {
            1int
        } else {
            0
        }
    }
}

pub open spec fn capped(k: int, n: int) -> int {
    if k < n {
        k
    } else {
        n
    }
}

/// A reading as an element: nothing where it is no number.
pub open spec fn as_sample<V: Scalar>(v: V) -> Sample<V> {
    if v.absent() {
        None
    } else {
        Some(Number(v))
    }
}

pub(crate) proof fn lemma_avggain_state<'t, B, S: RsiSpec, V: Scalar>(
    e: AvgGain<B, S, V>,
    deps: (&'t [Sample<V>], ()),
    n: nat,
)
    requires
        e.avg@ == zeros::<V>(2),
        counts::<V>(S::base() as int),
        n <= deps.0@.len(),
    ensures
        ({
            let w = Fold::walk::<V, (&'t [Sample<V>], ()), AvgGain<B, S, V>>(e, deps, n);
            &&& w.state.len() == 2
            &&& w.run.len() == n
            &&& w.state[1] == V::whole(capped(carrying(deps.0@, n), S::base() as int))
            &&& carrying(deps.0@, n) >= 0
        }),
    decreases n,
{
    if n > 0 {
        lemma_avggain_state(e, deps, (n - 1) as nat);
        let w = Fold::walk::<V, (&'t [Sample<V>], ()), AvgGain<B, S, V>>(e, deps, (n - 1) as nat);
        if let Some(x) = sample_reading(deps.0@, n - 1) {
            let env = x.slots + w.state;
            let step = <AvgGain<B, S, V> as Folds<V, (&'t [Sample<V>], ())>>::step_spec(&e);
            let k = capped(carrying(deps.0@, (n - 1) as nat), S::base() as int);
            assert(env[2] == V::whole(k));
            assert(step.slot_values(env)[1] == V::whole(k).plus(V::whole(1)).lesser(
                V::whole(S::base() as int),
            ));
        }
    } else {
        assert(zeros::<V>(2)[1] == V::whole(0));
    }
}

/// A Wilder average publishes one element per change, is absent for exactly the cold ones (those no
/// change came with, and those before the base's count of changes has come), and is the running mean
/// from there on.
pub proof fn an_average_gain_is_absent_for_exactly_its_cold_elements<'t, B, S: RsiSpec, V: Scalar>(
    e: AvgGain<B, S, V>,
    deps: (&'t [Sample<V>], ()),
    j: int,
)
    requires
        e.avg@ == zeros::<V>(2),
        counts::<V>(S::base() as int),
        0 <= j < deps.0@.len(),
    ensures
        ({
            let all = Fold::walk::<V, (&'t [Sample<V>], ()), AvgGain<B, S, V>>(
                e,
                deps,
                deps.0@.len(),
            );
            let w = Fold::walk::<V, (&'t [Sample<V>], ()), AvgGain<B, S, V>>(e, deps, (j + 1) as nat);
            &&& all.run.len() == deps.0@.len()
            &&& all.run[j] == if deps.0@[j] is None || carrying(deps.0@, (j + 1) as nat) < S::base() {
                None
            } else {
                as_sample(w.state[0])
            }
        }),
{
    V::none_is_absent();
    V::zero_equals_zero();
    V::one_is_not_zero();
    lemma_avggain_state(e, deps, j as nat);
    lemma_avggain_state(e, deps, (j + 1) as nat);
    let was = Fold::walk::<V, (&'t [Sample<V>], ()), AvgGain<B, S, V>>(e, deps, j as nat);
    let w = Fold::walk::<V, (&'t [Sample<V>], ()), AvgGain<B, S, V>>(e, deps, (j + 1) as nat);
    let value = <AvgGain<B, S, V> as Folds<V, (&'t [Sample<V>], ())>>::value_spec(&e);
    match sample_reading(deps.0@, j) {
        Some(x) => {
            let after = x.slots + w.state;
            let k = capped(carrying(deps.0@, (j + 1) as nat), S::base() as int);
            assert(after[1] == w.state[0]);
            assert(after[2] == V::whole(k));
            assert(V::whole(k).plus(V::whole(1)) == V::whole(k + 1));
            let slots = value.slot_values(after);
            assert(slots.len() == 1);
            assert(slots[0] == if k < S::base() {
                V::none()
            } else {
                w.state[0]
            });
            assert(w.run[j] == <Sample<V> as Unflat<V>>::item(0, slots));
        },
        None => {
            assert(blank::<V>(1)[0] == V::none());
        },
    }
    lemma_avggain_kept(e, deps, (j + 1) as nat, deps.0@.len(), j);
}

proof fn lemma_avggain_kept<'t, B, S: RsiSpec, V: Scalar>(
    e: AvgGain<B, S, V>,
    deps: (&'t [Sample<V>], ()),
    n: nat,
    m: nat,
    j: int,
)
    requires
        e.avg@ == zeros::<V>(2),
        counts::<V>(S::base() as int),
        0 <= j < n <= m <= deps.0@.len(),
    ensures
        Fold::walk::<V, (&'t [Sample<V>], ()), AvgGain<B, S, V>>(e, deps, m).run[j] == Fold::walk::<
            V,
            (&'t [Sample<V>], ()),
            AvgGain<B, S, V>,
        >(e, deps, n).run[j],
        Fold::walk::<V, (&'t [Sample<V>], ()), AvgGain<B, S, V>>(e, deps, m).run.len() == m,
    decreases m - n,
{
    lemma_avggain_state(e, deps, m);
    if n < m {
        lemma_avggain_kept(e, deps, n, (m - 1) as nat, j);
        lemma_avggain_state(e, deps, (m - 1) as nat);
    }
}

pub(crate) proof fn lemma_avgloss_state<'t, B, S: RsiSpec, V: Scalar>(
    e: AvgLoss<B, S, V>,
    deps: (&'t [Sample<V>], ()),
    n: nat,
)
    requires
        e.avg@ == zeros::<V>(2),
        counts::<V>(S::base() as int),
        n <= deps.0@.len(),
    ensures
        ({
            let w = Fold::walk::<V, (&'t [Sample<V>], ()), AvgLoss<B, S, V>>(e, deps, n);
            &&& w.state.len() == 2
            &&& w.run.len() == n
            &&& w.state[1] == V::whole(capped(carrying(deps.0@, n), S::base() as int))
            &&& carrying(deps.0@, n) >= 0
        }),
    decreases n,
{
    if n > 0 {
        lemma_avgloss_state(e, deps, (n - 1) as nat);
        let w = Fold::walk::<V, (&'t [Sample<V>], ()), AvgLoss<B, S, V>>(e, deps, (n - 1) as nat);
        if let Some(x) = sample_reading(deps.0@, n - 1) {
            let env = x.slots + w.state;
            let step = <AvgLoss<B, S, V> as Folds<V, (&'t [Sample<V>], ())>>::step_spec(&e);
            let k = capped(carrying(deps.0@, (n - 1) as nat), S::base() as int);
            assert(env[2] == V::whole(k));
            assert(step.slot_values(env)[1] == V::whole(k).plus(V::whole(1)).lesser(
                V::whole(S::base() as int),
            ));
        }
    } else {
        assert(zeros::<V>(2)[1] == V::whole(0));
    }
}

/// A Wilder average publishes one element per change, is absent for exactly the cold ones (those no
/// change came with, and those before the base's count of changes has come), and is the running mean
/// from there on.
pub proof fn an_average_loss_is_absent_for_exactly_its_cold_elements<'t, B, S: RsiSpec, V: Scalar>(
    e: AvgLoss<B, S, V>,
    deps: (&'t [Sample<V>], ()),
    j: int,
)
    requires
        e.avg@ == zeros::<V>(2),
        counts::<V>(S::base() as int),
        0 <= j < deps.0@.len(),
    ensures
        ({
            let all = Fold::walk::<V, (&'t [Sample<V>], ()), AvgLoss<B, S, V>>(
                e,
                deps,
                deps.0@.len(),
            );
            let w = Fold::walk::<V, (&'t [Sample<V>], ()), AvgLoss<B, S, V>>(e, deps, (j + 1) as nat);
            &&& all.run.len() == deps.0@.len()
            &&& all.run[j] == if deps.0@[j] is None || carrying(deps.0@, (j + 1) as nat) < S::base() {
                None
            } else {
                as_sample(w.state[0])
            }
        }),
{
    V::none_is_absent();
    V::zero_equals_zero();
    V::one_is_not_zero();
    lemma_avgloss_state(e, deps, j as nat);
    lemma_avgloss_state(e, deps, (j + 1) as nat);
    let was = Fold::walk::<V, (&'t [Sample<V>], ()), AvgLoss<B, S, V>>(e, deps, j as nat);
    let w = Fold::walk::<V, (&'t [Sample<V>], ()), AvgLoss<B, S, V>>(e, deps, (j + 1) as nat);
    let value = <AvgLoss<B, S, V> as Folds<V, (&'t [Sample<V>], ())>>::value_spec(&e);
    match sample_reading(deps.0@, j) {
        Some(x) => {
            let after = x.slots + w.state;
            let k = capped(carrying(deps.0@, (j + 1) as nat), S::base() as int);
            assert(after[1] == w.state[0]);
            assert(after[2] == V::whole(k));
            assert(V::whole(k).plus(V::whole(1)) == V::whole(k + 1));
            let slots = value.slot_values(after);
            assert(slots.len() == 1);
            assert(slots[0] == if k < S::base() {
                V::none()
            } else {
                w.state[0]
            });
            assert(w.run[j] == <Sample<V> as Unflat<V>>::item(0, slots));
        },
        None => {
            assert(blank::<V>(1)[0] == V::none());
        },
    }
    lemma_avgloss_kept(e, deps, (j + 1) as nat, deps.0@.len(), j);
}

proof fn lemma_avgloss_kept<'t, B, S: RsiSpec, V: Scalar>(
    e: AvgLoss<B, S, V>,
    deps: (&'t [Sample<V>], ()),
    n: nat,
    m: nat,
    j: int,
)
    requires
        e.avg@ == zeros::<V>(2),
        counts::<V>(S::base() as int),
        0 <= j < n <= m <= deps.0@.len(),
    ensures
        Fold::walk::<V, (&'t [Sample<V>], ()), AvgLoss<B, S, V>>(e, deps, m).run[j] == Fold::walk::<
            V,
            (&'t [Sample<V>], ()),
            AvgLoss<B, S, V>,
        >(e, deps, n).run[j],
        Fold::walk::<V, (&'t [Sample<V>], ()), AvgLoss<B, S, V>>(e, deps, m).run.len() == m,
    decreases m - n,
{
    lemma_avgloss_state(e, deps, m);
    if n < m {
        lemma_avgloss_kept(e, deps, n, (m - 1) as nat, j);
        lemma_avgloss_state(e, deps, (m - 1) as nat);
    }
}

pub(crate) proof fn lemma_rsi_state<'t, B, S: RsiSpec, V: Scalar>(
    e: Rsi<B, S, V>,
    deps: (&'t [Sample<V>], (&'t [Sample<V>], ())),
    n: nat,
)
    requires
        e.smooth@ == zeros::<V>(2),
        counts::<V>(S::smoothing() as int),
        n <= deps.0@.len() == deps.1.0@.len(),
    ensures
        ({
            let w = Fold::walk::<V, (&'t [Sample<V>], (&'t [Sample<V>], ())), Rsi<B, S, V>>(
                e,
                deps,
                n,
            );
            let k = carrying_both(deps.0@, deps.1.0@, n);
            &&& w.state.len() == 2
            &&& w.run.len() == n
            &&& w.state[1] == V::whole(capped(k, S::smoothing() as int))
            &&& k >= 0
        }),
    decreases n,
{
    if n > 0 {
        lemma_rsi_state(e, deps, (n - 1) as nat);
        let w = Fold::walk::<V, (&'t [Sample<V>], (&'t [Sample<V>], ())), Rsi<B, S, V>>(
            e,
            deps,
            (n - 1) as nat,
        );
        if let Some(x) = pair_reading(deps.0@, deps.1.0@, n - 1) {
            let env = x.slots + w.state;
            let step = <Rsi<B, S, V> as Folds<
                V,
                (&'t [Sample<V>], (&'t [Sample<V>], ())),
            >>::step_spec(&e);
            let k = capped(
                carrying_both(deps.0@, deps.1.0@, (n - 1) as nat),
                S::smoothing() as int,
            );
            assert(env[3] == V::whole(k));
            assert(step.slot_values(env)[1] == V::whole(k).plus(V::whole(1)).lesser(
                V::whole(S::smoothing() as int),
            ));
        }
    } else {
        assert(zeros::<V>(2)[1] == V::whole(0));
    }
}

/// An RSI publishes one element per pair of averages, and a half-warm one is wholly absent: until the
/// smoothing's count of pairs has come, an element is no reading, even where its RSI proper is one.
pub proof fn a_half_warm_rsi_is_wholly_absent<'t, B, S: RsiSpec, V: Scalar>(
    e: Rsi<B, S, V>,
    deps: (&'t [Sample<V>], (&'t [Sample<V>], ())),
    n: nat,
)
    requires
        e.smooth@ == zeros::<V>(2),
        counts::<V>(S::smoothing() as int),
        0 < n <= deps.0@.len() == deps.1.0@.len(),
    ensures
        ({
            let w = Fold::walk::<V, (&'t [Sample<V>], (&'t [Sample<V>], ())), Rsi<B, S, V>>(
                e,
                deps,
                n,
            );
            let cold = !(deps.0@[n - 1] is Some && deps.1.0@[n - 1] is Some) || carrying_both(
                deps.0@,
                deps.1.0@,
                n,
            ) < S::smoothing();
            &&& w.run.len() == n
            &&& cold ==> !w.run.last().whole()
            &&& !cold ==> w.run.last().smooth == w.state[0]
        }),
{
    V::none_is_absent();
    V::zero_equals_zero();
    V::one_is_not_zero();
    lemma_rsi_state(e, deps, n);
    lemma_rsi_state(e, deps, (n - 1) as nat);
    let w = Fold::walk::<V, (&'t [Sample<V>], (&'t [Sample<V>], ())), Rsi<B, S, V>>(e, deps, n);
    let value = <Rsi<B, S, V> as Folds<V, (&'t [Sample<V>], (&'t [Sample<V>], ()))>>::value_spec(&e);
    match pair_reading(deps.0@, deps.1.0@, n - 1) {
        Some(x) => {
            let after = x.slots + w.state;
            let k = capped(carrying_both(deps.0@, deps.1.0@, n), S::smoothing() as int);
            assert(after[2] == w.state[0]);
            assert(after[3] == V::whole(k));
            assert(V::whole(k).plus(V::whole(1)) == V::whole(k + 1));
            let slots = value.slot_values(after);
            assert(slots[1] == if k < S::smoothing() {
                V::none()
            } else {
                w.state[0]
            });
            assert(w.run.last() == <RsiValues<V> as Unflat<V>>::item(0, slots));
        },
        None => {
            assert(blank::<V>(2)[1] == V::none());
        },
    }
}

/// The body an RSI's elements are computed by is the index itself, wherever the loss is a magnitude.
pub proof fn the_body_computes_the_index<V: Scalar>(env: Seq<V>)
    requires
        env.len() >= 2,
        env[1].equals(V::whole(0)) == !V::whole(0).below(env[1]),
    ensures
        actual_of::<V>().value(env) == index_of(env[0], env[1]),
{
    V::zero_equals_zero();
    V::one_is_not_zero();
}

/// Whole numbers count exactly.
pub proof fn wholes_count(n: int)
    requires
        0 <= n < i64::MAX,
    ensures
        counts::<Whole>(n),
{
}

} // verus!
