//! Where the slopes of a node stand: which row of a block is whose, which column, and what adds up in
//! it.

use vstd::prelude::*;

use crate::algebra::{Ex, Slots};
use crate::block::{
    column_of, gathered, lagged, lagged_part, lags_of, leading, lemma_inside, lemma_width_sum, owner_from,
    point_part, points, width_sum,
};
use crate::env::Source;
use crate::expr::Expr;
use crate::fold::{chained, through_state};
use crate::kernel::zeros;
use crate::scalar::{lawful, lemma_absence, lemma_units, Scalar};

verus! {

/// A row of zeros within a block of them.
proof fn lemma_zero_row<V: Scalar>(n: nat, k: int, w: int)
    requires
        0 <= k < n <= 5,
        0 <= w,
    ensures
        zeros::<V>(n * w as nat).subrange(k * w, (k + 1) * w) == zeros::<V>(w as nat),
{
    assert(0 <= k * w && (k + 1) * w == k * w + w && (k + 1) * w <= n * w) by (nonlinear_arith)
        requires
            0 <= k < n,
            0 <= w,
    ;
    assert(zeros::<V>(n * w as nat).subrange(k * w, (k + 1) * w) =~= zeros::<V>(w as nat));
}

/// Two slots have a value and a row of slopes each, in their own order, a column for every variable.
pub proof fn two_slots_have_a_row_each<V: Scalar, A: Expr<V>, B: Expr<V>>(
    s: (Ex<A>, Ex<B>),
    env: Seq<V>,
    i: int,
)
    requires
        0 <= i < env.len(),
    ensures
        ({
            let w = env.len() as int;
            let jac = s.slot_slopes(env, zeros(2 * env.len()));
            &&& jac.len() == 2 * w
            &&& s.slot_values(env)[0] == s.0.value(env)
            &&& jac[0 * w + i] == s.0.slopes(env, V::whole(1), zeros(w as nat))[i]
            &&& s.slot_values(env)[1] == s.1.value(env)
            &&& jac[1 * w + i] == s.1.slopes(env, V::whole(1), zeros(w as nat))[i]
        }),
{
    let w = env.len() as int;
    lemma_zero_row::<V>(2, 0, w);
    s.0.slopes_fill(env, V::whole(1), zeros(w as nat));
    lemma_zero_row::<V>(2, 1, w);
    s.1.slopes_fill(env, V::whole(1), zeros(w as nat));
}

/// Three slots have a value and a row of slopes each, in their own order, a column for every variable.
pub proof fn three_slots_have_a_row_each<V: Scalar, A: Expr<V>, B: Expr<V>, C: Expr<V>>(
    s: (Ex<A>, Ex<B>, Ex<C>),
    env: Seq<V>,
    i: int,
)
    requires
        0 <= i < env.len(),
    ensures
        ({
            let w = env.len() as int;
            let jac = s.slot_slopes(env, zeros(3 * env.len()));
            &&& jac.len() == 3 * w
            &&& s.slot_values(env)[0] == s.0.value(env)
            &&& jac[0 * w + i] == s.0.slopes(env, V::whole(1), zeros(w as nat))[i]
            &&& s.slot_values(env)[1] == s.1.value(env)
            &&& jac[1 * w + i] == s.1.slopes(env, V::whole(1), zeros(w as nat))[i]
            &&& s.slot_values(env)[2] == s.2.value(env)
            &&& jac[2 * w + i] == s.2.slopes(env, V::whole(1), zeros(w as nat))[i]
        }),
{
    let w = env.len() as int;
    lemma_zero_row::<V>(3, 0, w);
    s.0.slopes_fill(env, V::whole(1), zeros(w as nat));
    lemma_zero_row::<V>(3, 1, w);
    s.1.slopes_fill(env, V::whole(1), zeros(w as nat));
    lemma_zero_row::<V>(3, 2, w);
    s.2.slopes_fill(env, V::whole(1), zeros(w as nat));
}

/// Four slots have a value and a row of slopes each, in their own order, a column for every variable.
pub proof fn four_slots_have_a_row_each<V: Scalar, A: Expr<V>, B: Expr<V>, C: Expr<V>, D: Expr<V>>(
    s: (Ex<A>, Ex<B>, Ex<C>, Ex<D>),
    env: Seq<V>,
    i: int,
)
    requires
        0 <= i < env.len(),
    ensures
        ({
            let w = env.len() as int;
            let jac = s.slot_slopes(env, zeros(4 * env.len()));
            &&& jac.len() == 4 * w
            &&& s.slot_values(env)[0] == s.0.value(env)
            &&& jac[0 * w + i] == s.0.slopes(env, V::whole(1), zeros(w as nat))[i]
            &&& s.slot_values(env)[1] == s.1.value(env)
            &&& jac[1 * w + i] == s.1.slopes(env, V::whole(1), zeros(w as nat))[i]
            &&& s.slot_values(env)[2] == s.2.value(env)
            &&& jac[2 * w + i] == s.2.slopes(env, V::whole(1), zeros(w as nat))[i]
            &&& s.slot_values(env)[3] == s.3.value(env)
            &&& jac[3 * w + i] == s.3.slopes(env, V::whole(1), zeros(w as nat))[i]
        }),
{
    let w = env.len() as int;
    lemma_zero_row::<V>(4, 0, w);
    s.0.slopes_fill(env, V::whole(1), zeros(w as nat));
    lemma_zero_row::<V>(4, 1, w);
    s.1.slopes_fill(env, V::whole(1), zeros(w as nat));
    lemma_zero_row::<V>(4, 2, w);
    s.2.slopes_fill(env, V::whole(1), zeros(w as nat));
    lemma_zero_row::<V>(4, 3, w);
    s.3.slopes_fill(env, V::whole(1), zeros(w as nat));
}

/// Five slots have a value and a row of slopes each, in their own order, a column for every variable.
pub proof fn five_slots_have_a_row_each<V: Scalar, A: Expr<V>, B: Expr<V>, C: Expr<V>, D: Expr<V>, E: Expr<V>>(
    s: (Ex<A>, Ex<B>, Ex<C>, Ex<D>, Ex<E>),
    env: Seq<V>,
    i: int,
)
    requires
        0 <= i < env.len(),
    ensures
        ({
            let w = env.len() as int;
            let jac = s.slot_slopes(env, zeros(5 * env.len()));
            &&& jac.len() == 5 * w
            &&& s.slot_values(env)[0] == s.0.value(env)
            &&& jac[0 * w + i] == s.0.slopes(env, V::whole(1), zeros(w as nat))[i]
            &&& s.slot_values(env)[1] == s.1.value(env)
            &&& jac[1 * w + i] == s.1.slopes(env, V::whole(1), zeros(w as nat))[i]
            &&& s.slot_values(env)[2] == s.2.value(env)
            &&& jac[2 * w + i] == s.2.slopes(env, V::whole(1), zeros(w as nat))[i]
            &&& s.slot_values(env)[3] == s.3.value(env)
            &&& jac[3 * w + i] == s.3.slopes(env, V::whole(1), zeros(w as nat))[i]
            &&& s.slot_values(env)[4] == s.4.value(env)
            &&& jac[4 * w + i] == s.4.slopes(env, V::whole(1), zeros(w as nat))[i]
        }),
{
    let w = env.len() as int;
    lemma_zero_row::<V>(5, 0, w);
    s.0.slopes_fill(env, V::whole(1), zeros(w as nat));
    lemma_zero_row::<V>(5, 1, w);
    s.1.slopes_fill(env, V::whole(1), zeros(w as nat));
    lemma_zero_row::<V>(5, 2, w);
    s.2.slopes_fill(env, V::whole(1), zeros(w as nat));
    lemma_zero_row::<V>(5, 3, w);
    s.3.slopes_fill(env, V::whole(1), zeros(w as nat));
    lemma_zero_row::<V>(5, 4, w);
    s.4.slopes_fill(env, V::whole(1), zeros(w as nat));
}

/// The block of what a node read at its own point holds a part for each dep, one behind the other, and
/// in each a row for every slot of the node: the slopes along that dep's own variables.
pub proof fn a_point_block_is_parted_by_dep<V>(
    grad: Seq<V>,
    stride: int,
    rows: int,
    ws: Seq<usize>,
    d: int,
    row: int,
    col: int,
)
    requires
        rows >= 0,
        0 <= d < ws.len(),
        0 <= row < rows,
        0 <= col < ws[d],
    ensures
        points(grad, stride, rows, ws).len() == rows * width_sum(ws),
        points(grad, stride, rows, ws)[rows * width_sum(ws.take(d)) + row * ws[d] + col] == grad[row
            * stride + width_sum(ws.take(d)) + col],
    decreases ws.len(),
{
    let rest = ws.drop_last();
    let (w, n) = (ws.last() as int, width_sum(rest) as int);
    lemma_points_len(grad, stride, rows, ws);
    lemma_points_len(grad, stride, rows, rest);
    lemma_inside(row, rows, col, ws[d] as int);
    let part = point_part(grad, stride, rows, n, w);
    if d == ws.len() - 1 {
        assert(ws.take(d) =~= rest);
        assert(rows * n >= 0) by (nonlinear_arith)
            requires
                rows >= 0,
                n >= 0,
        ;
        assert(points(grad, stride, rows, ws)[rows * n + row * w + col] == part[row * w + col]);
    } else {
        a_point_block_is_parted_by_dep(grad, stride, rows, rest, d, row, col);
        assert(rest.take(d) =~= ws.take(d));
        lemma_width_sum(rest, d);
        let (a, b, x, y) = (width_sum(ws.take(d)) as int, ws[d] as int, row * ws[d] + col, rows * ws[d]);
        assert(rows * a + x < rows * n && 0 <= rows * a) by (nonlinear_arith)
            requires
                0 <= x < y,
                y == rows * b,
                a + b <= n,
                rows >= 0,
                a >= 0,
        ;
    }
}

proof fn lemma_points_len<V>(grad: Seq<V>, stride: int, rows: int, ws: Seq<usize>)
    requires
        rows >= 0,
    ensures
        points(grad, stride, rows, ws).len() == rows * width_sum(ws),
    decreases ws.len(),
{
    if ws.len() == 0 {
        assert(rows * 0 == 0);
    } else {
        let rest = ws.drop_last();
        lemma_points_len(grad, stride, rows, rest);
        let (n, w) = (width_sum(rest) as int, ws.last() as int);
        assert(rows * w >= 0 && rows * n + rows * w == rows * (n + w)) by (nonlinear_arith)
            requires
                rows >= 0,
                w >= 0,
        ;
    }
}

/// A Jacobian is the leading columns of every row of the gradient.
pub proof fn a_jacobian_is_the_leading_columns<V>(
    grad: Seq<V>,
    stride: int,
    rows: int,
    w: int,
    row: int,
    col: int,
)
    requires
        0 <= row < rows,
        0 <= col < w,
    ensures
        leading(grad, stride, rows, w).len() == rows * w,
        leading(grad, stride, rows, w)[row * w + col] == grad[row * stride + col],
{
    lemma_inside(row, rows, col, w);
}

/// The slot of a dep that a variable stands for: the dep's own slots lie behind those of the deps before
/// it, and no dep has what lies behind them all.
pub proof fn a_variable_belongs_to_the_dep_it_lies_in(ws: Seq<usize>, d: int, k: int)
    requires
        0 <= d < ws.len(),
        0 <= k < ws[d],
    ensures
        owner_from(ws, 0, 0, width_sum(ws.take(d)) + k) == Some((d, k)),
        owner_from(ws, 0, 0, width_sum(ws) as int) is None,
{
    lemma_owner(ws, 0, d, k);
    lemma_unowned(ws, 0);
    assert(ws.take(0) =~= Seq::empty());
}

proof fn lemma_owner(ws: Seq<usize>, at: nat, d: int, k: int)
    requires
        0 <= at <= d < ws.len(),
        0 <= k < ws[d],
    ensures
        owner_from(ws, at, width_sum(ws.take(at as int)) as int, width_sum(ws.take(d)) + k) == Some((d, k)),
    decreases d - at,
{
    lemma_width_sum(ws, at as int);
    if at < d {
        lemma_owner(ws, at + 1, d, k);
        lemma_sum_grows(ws, at + 1, d);
    }
}

proof fn lemma_unowned(ws: Seq<usize>, at: nat)
    requires
        at <= ws.len(),
    ensures
        owner_from(ws, at, width_sum(ws.take(at as int)) as int, width_sum(ws) as int) is None,
    decreases ws.len() - at,
{
    if at < ws.len() {
        lemma_width_sum(ws, at as int);
        lemma_unowned(ws, at + 1);
    }
}

proof fn lemma_sum_grows(ws: Seq<usize>, a: nat, d: int)
    requires
        a <= d <= ws.len(),
    ensures
        width_sum(ws.take(a as int)) <= width_sum(ws.take(d)),
    decreases d - a,
{
    if a < d {
        lemma_width_sum(ws, a as int);
        lemma_sum_grows(ws, a + 1, d);
    }
}

/// What the first `n` variables read off slot `slot` of the element `lag` back of dep `d` slope at,
/// added up.
pub open spec fn read_off<V: Scalar>(
    grad: Seq<V>,
    stride: int,
    prov: Seq<Source>,
    n: nat,
    row: int,
    d: usize,
    lag: usize,
    slot: usize,
) -> V
    decreases n,
{
    if n == 0 {
        V::whole(0)
    } else if prov[n - 1] == (Source::Dep { dep: d, lag, slot }) {
        read_off(grad, stride, prov, (n - 1) as nat, row, d, lag, slot).plus(grad[row * stride + n - 1])
    } else {
        read_off(grad, stride, prov, (n - 1) as nat, row, d, lag, slot)
    }
}

/// A dep has as many elements in a block as the furthest back that was read off it, and the newest
/// always.
pub proof fn a_block_reaches_as_far_back_as_was_read(prov: Seq<Source>, n: nat, d: usize, k: int)
    requires
        0 <= k < n <= prov.len(),
    ensures
        lags_of(prov, n, d as int) >= 1,
        prov[k] matches Source::Dep { dep, lag, .. } ==> dep == d ==> lag < lags_of(prov, n, d as int),
        (forall|j: int|
            0 <= j < n ==> (#[trigger] prov[j] matches Source::Dep { dep, lag, .. } ==> dep == d ==> lag
                == 0)) ==> lags_of(prov, n, d as int) == 1,
    decreases n,
{
    lemma_lags(prov, n, d);
    let before = (n - 1) as nat;
    if k < n - 1 {
        a_block_reaches_as_far_back_as_was_read(prov, before, d, k);
    }
    if forall|j: int|
        0 <= j < n ==> (#[trigger] prov[j] matches Source::Dep { dep, lag, .. } ==> dep == d ==> lag == 0) {
        lemma_no_lag(prov, n, d);
    }
}

proof fn lemma_lags(prov: Seq<Source>, n: nat, d: usize)
    ensures
        lags_of(prov, n, d as int) >= 1,
    decreases n,
{
    if n > 0 {
        lemma_lags(prov, (n - 1) as nat, d);
    }
}

proof fn lemma_no_lag(prov: Seq<Source>, n: nat, d: usize)
    requires
        n <= prov.len(),
        forall|j: int|
            0 <= j < n ==> (#[trigger] prov[j] matches Source::Dep { dep, lag, .. } ==> dep == d ==> lag
                == 0),
    ensures
        lags_of(prov, n, d as int) == 1,
    decreases n,
{
    if n > 0 {
        lemma_no_lag(prov, (n - 1) as nat, d);
        assert(prov[n - 1] == prov[n - 1]);
    }
}

/// The part of a block that a dep's elements have runs from the furthest back to the newest, the slots
/// of each side by side; in each column stand the slopes of all that was read off that slot of that
/// element, and of nothing else.
pub proof fn a_lagged_column_is_what_was_read_off_it<V: Scalar>(
    grad: Seq<V>,
    stride: int,
    prov: Seq<Source>,
    rows: int,
    d: usize,
    per: usize,
    row: int,
    lag: usize,
    slot: usize,
)
    requires
        0 <= stride <= prov.len(),
        0 <= row < rows,
        slot < per,
        lag < lags_of(prov, stride as nat, d as int),
        forall|k: int|
            0 <= k < stride ==> (#[trigger] prov[k] matches Source::Dep { dep, slot, .. } ==> dep == d ==> slot < per),
    ensures
        ({
            let lags = lags_of(prov, stride as nat, d as int) as int;
            let w = lags * per;
            let col = (lags - 1 - lag) * per + slot;
            let part = lagged_part(grad, stride, prov, rows, d as int, per as int);
            &&& part.len() == rows * w
            &&& 0 <= col < w
            &&& part[row * w + col] == read_off(grad, stride, prov, stride as nat, row, d, lag, slot)
        }),
{
    let lags = lags_of(prov, stride as nat, d as int) as int;
    let w = lags * per;
    let col = (lags - 1 - lag) * per + slot;
    lemma_inside(lags - 1 - lag, lags, slot as int, per as int);
    lemma_inside(row, rows, col, w);
    lemma_gathered(grad, stride, prov, stride as nat, row, d, lags, per, lag, slot);
}

proof fn lemma_gathered<V: Scalar>(
    grad: Seq<V>,
    stride: int,
    prov: Seq<Source>,
    n: nat,
    row: int,
    d: usize,
    lags: int,
    per: usize,
    lag: usize,
    slot: usize,
)
    requires
        n <= stride <= prov.len(),
        slot < per,
        lag < lags,
        lags >= lags_of(prov, n, d as int),
        forall|k: int|
            0 <= k < n ==> (#[trigger] prov[k] matches Source::Dep { dep, slot, .. } ==> dep == d ==> slot
                < per),
    ensures
        gathered(
            grad,
            stride,
            prov,
            n,
            row,
            d as int,
            lags,
            per as int,
            (lags - 1 - lag) * per + slot,
        ) == read_off(grad, stride, prov, n, row, d, lag, slot),
    decreases n,
{
    if n > 0 {
        let before = (n - 1) as nat;
        lemma_gathered(grad, stride, prov, before, row, d, lags, per, lag, slot);
        if let Source::Dep { dep, lag: l, slot: s } = prov[n - 1] {
            if dep == d {
                lemma_inside(lags - 1 - lag, lags, slot as int, per as int);
                lemma_inside(lags - 1 - l, lags, s as int, per as int);
                assert(column_of(lags, per as int, l as int, s as int) == (lags - 1 - l) * per + s);
            }
        }
    }
}

/// The parts of the deps stand one behind the other.
pub proof fn a_lagged_block_is_parted_by_dep<V: Scalar>(
    grad: Seq<V>,
    stride: int,
    prov: Seq<Source>,
    rows: int,
    slots: Seq<usize>,
    n: nat,
)
    ensures
        n == 0 ==> lagged(grad, stride, prov, rows, slots, n).len() == 0,
        lagged(grad, stride, prov, rows, slots, n + 1).take(
            lagged(grad, stride, prov, rows, slots, n).len() as int,
        ) == lagged(grad, stride, prov, rows, slots, n),
        lagged(grad, stride, prov, rows, slots, n + 1).skip(
            lagged(grad, stride, prov, rows, slots, n).len() as int,
        ) == lagged_part(grad, stride, prov, rows, n as int, slots[n as int] as int),
{
    let (a, b) = (
        lagged(grad, stride, prov, rows, slots, n),
        lagged_part(grad, stride, prov, rows, n as int, slots[n as int] as int),
    );
    assert((a + b).take(a.len() as int) =~= a);
    assert((a + b).skip(a.len() as int) =~= b);
}

/// A state slot a value does not slope along carries none of the step's slopes.
proof fn lemma_through<V: Scalar>(
    dv: Seq<V>,
    ds: Seq<V>,
    env_w: int,
    base: int,
    row: int,
    col: int,
    n: nat,
    k: int,
)
    requires
        lawful::<V>(),
        0 <= k,
        forall|j: int|
            0 <= j < n && j != k ==> #[trigger] dv[row * env_w + base + j] == V::whole(0),
        forall|j: int| 0 <= j < n ==> !(#[trigger] ds[j * env_w + col]).absent(),
        !dv[row * env_w + base + k].absent(),
    ensures
        k < n ==> through_state(dv, ds, env_w, base, row, col, n) == dv[row * env_w + base + k].times(
            ds[k * env_w + col],
        ),
        k >= n ==> through_state(dv, ds, env_w, base, row, col, n) == V::whole(0),
    decreases n,
{
    if n > 0 {
        lemma_through(dv, ds, env_w, base, row, col, (n - 1) as nat, k);
        let j = n - 1;
        let x = ds[j * env_w + col];
        lemma_units(x);
        lemma_units(V::whole(0));
        lemma_absence(dv[row * env_w + base + k], ds[k * env_w + col]);
        if j == k {
            let t = dv[row * env_w + base + k].times(x);
            assert(!ds[j * env_w + col].absent());
            lemma_units(t);
            assert(row * env_w + base + n - 1 == row * env_w + base + j);
        } else {
            assert(dv[row * env_w + base + j] == V::whole(0));
            if k < n - 1 {
                assert(!ds[k * env_w + col].absent());
                lemma_units(dv[row * env_w + base + k].times(ds[k * env_w + col]));
            }
        }
    }
}

/// The slope of a fold goes by the chain rule: what its value slopes along a dep's variable, and, for
/// the state slot that the value slopes along, that slope times the one the step moves the slot by; the
/// columns of the state itself hold nothing, for no dep stands for them.
pub proof fn a_fold_slopes_by_the_chain_rule<V: Scalar>(
    dv: Seq<V>,
    ds: Seq<V>,
    env_w: int,
    base: int,
    dep_w: int,
    rows: int,
    carry: nat,
    row: int,
    col: int,
    k: int,
)
    requires
        lawful::<V>(),
        0 <= row < rows,
        0 <= col < env_w,
        0 <= k < carry,
        forall|j: int|
            0 <= j < carry && j != k ==> #[trigger] dv[row * env_w + base + j] == V::whole(0),
        forall|j: int| 0 <= j < carry ==> !(#[trigger] ds[j * env_w + col]).absent(),
        !dv[row * env_w + base + k].absent(),
    ensures
        ({
            let grad = chained(dv, ds, env_w, base, dep_w, rows, carry);
            &&& grad.len() == rows * env_w
            &&& col < dep_w ==> grad[row * env_w + col] == dv[row * env_w + col].plus(
                dv[row * env_w + base + k].times(ds[k * env_w + col]),
            )
            &&& col >= dep_w ==> grad[row * env_w + col] == V::whole(0)
        }),
{
    lemma_inside(row, rows, col, env_w);
    lemma_through(dv, ds, env_w, base, row, col, carry, k);
}

/// A fold whose value is one slot of its state slopes as the step moves that slot.
pub proof fn a_fold_that_shows_its_state_slopes_as_it_moves<V: Scalar>(
    dv: Seq<V>,
    ds: Seq<V>,
    env_w: int,
    base: int,
    dep_w: int,
    rows: int,
    carry: nat,
    row: int,
    col: int,
    k: int,
)
    requires
        lawful::<V>(),
        0 <= row < rows,
        0 <= col < dep_w <= base,
        base + carry == env_w,
        0 <= k < carry,
        forall|j: int|
            0 <= j < env_w && j != base + k ==> #[trigger] dv[row * env_w + j] == V::whole(0),
        dv[row * env_w + (base + k)] == V::whole(1),
        forall|j: int| 0 <= j < carry ==> !(#[trigger] ds[j * env_w + col]).absent(),
    ensures
        chained(dv, ds, env_w, base, dep_w, rows, carry)[row * env_w + col] == ds[k * env_w + col],
{
    assert forall|j: int| 0 <= j < carry && j != k implies #[trigger] dv[row * env_w + base + j]
        == V::whole(0) by {
        assert(dv[row * env_w + (base + j)] == V::whole(0));
    }
    assert(row * env_w + base + k == row * env_w + (base + k));
    lemma_units(V::whole(1));
    a_fold_slopes_by_the_chain_rule(dv, ds, env_w, base, dep_w, rows, carry, row, col, k);
    let x = ds[k * env_w + col];
    lemma_units(x);
    assert(dv[row * env_w + col] == V::whole(0));
}

} // verus!
