//! How a body's gradient is laid out: the Jacobian's rows, the exact block's column groups, and the
//! finite-difference columns of a node that has no gradient.

use vstd::arithmetic::div_mod::lemma_fundamental_div_mod_converse;
use vstd::prelude::*;

use crate::env::Source;
use crate::scalar::Scalar;

verus! {

/// The sum of some widths.
pub open spec fn width_sum(ws: Seq<usize>) -> nat
    decreases ws.len(),
{
    if ws.len() == 0 {
        0
    } else {
        width_sum(ws.drop_last()) + ws.last() as nat
    }
}

pub proof fn lemma_width_sum(ws: Seq<usize>, d: int)
    requires
        0 <= d < ws.len(),
    ensures
        width_sum(ws.take(d)) + ws[d] == width_sum(ws.take(d + 1)),
        width_sum(ws.take(d + 1)) <= width_sum(ws),
    decreases ws.len(),
{
    assert(ws.take(d + 1).drop_last() =~= ws.take(d));
    if d + 1 < ws.len() {
        lemma_width_sum(ws.drop_last(), d);
        assert(ws.drop_last().take(d) =~= ws.take(d));
        assert(ws.drop_last().take(d + 1) =~= ws.take(d + 1));
    } else {
        assert(ws.take(d + 1) =~= ws);
    }
}

pub proof fn lemma_width_sum_first(w: usize, ws: Seq<usize>)
    ensures
        width_sum(seq![w] + ws) == w + width_sum(ws),
    decreases ws.len(),
{
    let all = seq![w] + ws;
    if ws.len() > 0 {
        assert(all.drop_last() =~= seq![w] + ws.drop_last());
        lemma_width_sum_first(w, ws.drop_last());
    } else {
        assert(all.drop_last() =~= Seq::empty());
        reveal_with_fuel(width_sum, 2);
    }
}

/// A position inside a row-major block is inside the block.
pub proof fn lemma_inside(row: int, rows: int, col: int, w: int)
    requires
        0 <= row < rows,
        0 <= col < w,
    ensures
        0 <= row * w + col < rows * w,
        (row * w + col) / w == row,
        (row * w + col) % w == col,
{
    assert(row * w + w <= rows * w) by (nonlinear_arith)
        requires
            row < rows,
            0 < w,
    ;
    assert(0 <= row * w) by (nonlinear_arith)
        requires
            0 <= row,
            0 < w,
    ;
    lemma_fundamental_div_mod_converse(row * w + col, w, row, col);
}

/// A place of a row-major block has a row and a column of it.
pub proof fn lemma_place(i: int, rows: int, w: int)
    requires
        0 <= i < rows * w,
        0 < w,
    ensures
        0 <= i / w < rows,
        0 <= i % w < w,
        i == (i / w) * w + i % w,
{
    vstd::arithmetic::div_mod::lemma_fundamental_div_mod(i, w);
    assert(0 <= i / w) by (nonlinear_arith)
        requires
            0 <= i,
            0 < w,
    ;
    assert(i / w < rows) by (nonlinear_arith)
        requires
            i < rows * w,
            0 < w,
            i == w * (i / w) + i % w,
            0 <= i % w,
    ;
    assert((i / w) * w == w * (i / w)) by (nonlinear_arith);
}

/// One dep's part of a block that read it at one point: its columns of every row of the gradient.
pub open spec fn point_part<V>(grad: Seq<V>, stride: int, rows: int, off: int, w: int) -> Seq<V> {
    Seq::new((rows * w) as nat, |i: int| grad[(i / w) * stride + off + i % w])
}

/// The block of a kernel that read every dep at one point, per dep.
pub open spec fn points<V>(grad: Seq<V>, stride: int, rows: int, ws: Seq<usize>) -> Seq<V>
    decreases ws.len(),
{
    if ws.len() == 0 {
        Seq::empty()
    } else {
        let rest = ws.drop_last();
        points(grad, stride, rows, rest) + point_part(
            grad,
            stride,
            rows,
            width_sum(rest) as int,
            ws.last() as int,
        )
    }
}

/// The block of a kernel that read every dep at one lag: its Jacobian, re-laid per dep, since a block
/// groups by dep where a Jacobian row spans all of them. `grad` is row-major, `stride` wide, with the
/// deps' own slots leading each row.
pub fn point_block<V: Scalar>(
    grad: &[V],
    stride: usize,
    rows: usize,
    slots: &[usize],
    out: &mut Vec<V>,
    widths: &mut Vec<usize>,
)
    requires
        width_sum(slots@) <= stride,
        rows * stride <= grad@.len(),
    ensures
        final(widths)@ == slots@,
        final(out)@ == points(grad@, stride as int, rows as int, slots@),
{
    let size: usize = grad.len();
    *widths = Vec::new();
    *out = Vec::new();
    let mut off: usize = 0;
    let mut d: usize = 0;
    while d < slots.len()
        invariant
            d <= slots@.len(),
            width_sum(slots@) <= stride,
            rows * stride <= size == grad@.len(),
            off == width_sum(slots@.take(d as int)),
            widths@ == slots@.take(d as int),
            out@ == points(grad@, stride as int, rows as int, slots@.take(d as int)),
        decreases slots@.len() - d,
    {
        let w: usize = slots[d];
        proof {
            lemma_width_sum(slots@, d as int);
            assert(rows * w <= rows * stride) by (nonlinear_arith)
                requires
                    w <= stride,
            ;
        }
        let ghost before = out@;
        let ghost part = point_part(grad@, stride as int, rows as int, off as int, w as int);
        let n: usize = rows * w;
        let mut i: usize = 0;
        while i < n
            invariant
                i <= n == rows * w,
                off + w <= stride,
                rows * stride <= size == grad@.len(),
                part == point_part(grad@, stride as int, rows as int, off as int, w as int),
                out@ == before + part.take(i as int),
            decreases n - i,
        {
            assert(w > 0) by (nonlinear_arith)
                requires
                    0 <= i < rows * w,
                    w >= 0,
            ;
            proof {
                lemma_place(i as int, rows as int, w as int);
                let (row, col) = (i as int / w as int, i as int % w as int);
                lemma_inside(row, rows as int, off + col, stride as int);
                assert(0 <= row * stride) by (nonlinear_arith)
                    requires
                        0 <= row,
                        0 <= stride,
                ;
            }
            out.push(grad[(i / w) * stride + off + i % w]);
            assert(part.take(i + 1) =~= part.take(i as int).push(part[i as int]));
            i += 1;
        }
        proof {
            assert(part.take(n as int) =~= part);
            assert(slots@.take(d + 1).drop_last() =~= slots@.take(d as int));
        }
        widths.push(w);
        assert(widths@ =~= slots@.take(d + 1));
        off += w;
        d += 1;
    }
    assert(slots@.take(d as int) =~= slots@);
}

/// How many lags of a dep the first `n` slots of a reading touch: one at the least, since a dep
/// nothing named still owns the column its Jacobian entry stands in.
pub open spec fn lags_of(prov: Seq<Source>, n: nat, d: int) -> nat
    decreases n,
{
    if n == 0 {
        1
    } else {
        let before = lags_of(prov, (n - 1) as nat, d);
        match prov[n - 1] {
            Source::Dep { dep, lag, .. } => if dep == d && lag + 1 > before {
                (lag + 1) as nat
            } else {
                before
            },
            Source::Opaque => before,
        }
    }
}

/// Which column of a dep's part a source stands in, oldest lag first.
pub open spec fn column_of(lags: int, per: int, lag: int, slot: int) -> int {
    (lags - 1 - lag) * per + slot
}

/// The gradient of the first `n` slots that were copied from one column of one dep.
pub open spec fn gathered<V: Scalar>(
    grad: Seq<V>,
    stride: int,
    prov: Seq<Source>,
    n: nat,
    row: int,
    d: int,
    lags: int,
    per: int,
    col: int,
) -> V
    decreases n,
{
    if n == 0 {
        V::whole(0)
    } else {
        let before = gathered(grad, stride, prov, (n - 1) as nat, row, d, lags, per, col);
        match prov[n - 1] {
            Source::Dep { dep, lag, slot } => if dep == d && column_of(
                lags,
                per,
                lag as int,
                slot as int,
            ) == col {
                before.plus(grad[row * stride + n - 1])
            } else {
                before
            },
            Source::Opaque => before,
        }
    }
}

/// One dep's part of a block over its whole reach: zero at a lag the body did not read, which is the
/// whole of what the block adds over the one-step column.
pub open spec fn lagged_part<V: Scalar>(
    grad: Seq<V>,
    stride: int,
    prov: Seq<Source>,
    rows: int,
    d: int,
    per: int,
) -> Seq<V> {
    let lags = lags_of(prov, stride as nat, d) as int;
    let w = lags * per;
    Seq::new(
        (rows * w) as nat,
        |i: int| gathered(grad, stride, prov, stride as nat, i / w, d, lags, per, i % w),
    )
}

/// The block of a kernel whose reading reaches past the point, per dep.
pub open spec fn lagged<V: Scalar>(
    grad: Seq<V>,
    stride: int,
    prov: Seq<Source>,
    rows: int,
    slots: Seq<usize>,
    n: nat,
) -> Seq<V>
    decreases n,
{
    if n == 0 {
        Seq::empty()
    } else {
        lagged(grad, stride, prov, rows, slots, (n - 1) as nat) + lagged_part(
            grad,
            stride,
            prov,
            rows,
            n - 1,
            slots[n - 1] as int,
        )
    }
}

/// How wide each dep's part of a block over its whole reach is.
pub open spec fn lagged_widths(prov: Seq<Source>, stride: nat, slots: Seq<usize>) -> Seq<usize> {
    Seq::new(slots.len(), |d: int| (lags_of(prov, stride, d) * slots[d]) as usize)
}

/// Whether one dep's part of a block over its whole reach can be counted.
pub open spec fn part_fits(lags: nat, per: usize, rows: nat) -> bool {
    lags <= usize::MAX && lags * per <= usize::MAX && rows * (lags * per) <= usize::MAX
}

/// Whether every part of a block over the whole reach can be counted.
pub open spec fn countable(prov: Seq<Source>, stride: nat, slots: Seq<usize>, rows: nat) -> bool {
    forall|d: int|
        0 <= d < slots.len() ==> part_fits(lags_of(prov, stride, d), #[trigger] slots[d], rows)
}

fn count_lags(prov: &[Source], stride: usize, d: usize) -> (r: usize)
    requires
        stride <= prov@.len(),
        lags_of(prov@, stride as nat, d as int) <= usize::MAX,
    ensures
        r == lags_of(prov@, stride as nat, d as int),
{
    let mut r: usize = 1;
    let mut k: usize = 0;
    while k < stride
        invariant
            k <= stride <= prov@.len(),
            lags_of(prov@, stride as nat, d as int) <= usize::MAX,
            r == lags_of(prov@, k as nat, d as int),
        decreases stride - k,
    {
        proof {
            lemma_lags_grow(prov@, (k + 1) as nat, stride as nat, d as int);
        }
        if let Source::Dep { dep, lag, .. } = prov[k] {
            if dep == d && lag >= r {
                r = lag + 1;
            }
        }
        k += 1;
    }
    r
}

proof fn lemma_lags_grow(prov: Seq<Source>, m: nat, n: nat, d: int)
    requires
        m <= n,
    ensures
        lags_of(prov, m, d) <= lags_of(prov, n, d),
    decreases n,
{
    if m < n {
        lemma_lags_grow(prov, m, (n - 1) as nat, d);
    }
}

/// One entry of a dep's part: every slot copied from that column, added up.
fn gather<V: Scalar>(
    grad: &[V],
    stride: usize,
    prov: &[Source],
    row: usize,
    rows: usize,
    d: usize,
    lags: usize,
    per: usize,
    col: usize,
) -> (r: V)
    requires
        stride <= prov@.len(),
        row < rows,
        rows * stride <= grad@.len(),
        lags == lags_of(prov@, stride as nat, d as int),
        lags * per <= usize::MAX,
        col < lags * per,
    ensures
        r == gathered(
            grad@,
            stride as int,
            prov@,
            stride as nat,
            row as int,
            d as int,
            lags as int,
            per as int,
            col as int,
        ),
{
    let size: usize = grad.len();
    let mut r: V = V::of(0);
    let mut k: usize = 0;
    while k < stride
        invariant
            k <= stride <= prov@.len(),
            row < rows,
            rows * stride <= size == grad@.len(),
            lags == lags_of(prov@, stride as nat, d as int),
            lags * per <= usize::MAX,
            col < lags * per,
            r == gathered(
                grad@,
                stride as int,
                prov@,
                k as nat,
                row as int,
                d as int,
                lags as int,
                per as int,
                col as int,
            ),
        decreases stride - k,
    {
        proof {
            lemma_inside(row as int, rows as int, k as int, stride as int);
            assert(0 <= row * stride) by (nonlinear_arith)
                requires
                    0 <= row,
                    0 <= stride,
            ;
        }
        if let Source::Dep { dep, lag, slot } = prov[k] {
            if dep == d {
                proof {
                    lemma_lags_grow(prov@, (k + 1) as nat, stride as nat, d as int);
                    assert((lags - 1 - lag) * per <= lags * per) by (nonlinear_arith)
                        requires
                            lags - 1 - lag <= lags,
                            0 <= per,
                    ;
                    assert(0 <= (lags - 1 - lag) * per) by (nonlinear_arith)
                        requires
                            lags - 1 - lag >= 0,
                            0 <= per,
                    ;
                }
                let start: usize = (lags - 1 - lag) * per;
                if col >= start && col - start == slot {
                    r = r.add(grad[row * stride + k]);
                }
            }
        }
        k += 1;
    }
    r
}

/// The block of a kernel whose reading reaches past the point: the body's gradient scattered through
/// the provenance of the env it was taken over.
pub fn lagged_block<V: Scalar>(
    grad: &[V],
    stride: usize,
    rows: usize,
    slots: &[usize],
    prov: &[Source],
    out: &mut Vec<V>,
    widths: &mut Vec<usize>,
)
    requires
        stride <= prov@.len(),
        rows * stride <= grad@.len(),
        countable(prov@, stride as nat, slots@, rows as nat),
    ensures
        final(widths)@ == lagged_widths(prov@, stride as nat, slots@),
        final(out)@ == lagged(
            grad@,
            stride as int,
            prov@,
            rows as int,
            slots@,
            slots@.len(),
        ),
{
    *widths = Vec::new();
    *out = Vec::new();
    let mut d: usize = 0;
    while d < slots.len()
        invariant
            d <= slots@.len(),
            stride <= prov@.len(),
            rows * stride <= grad@.len(),
            countable(prov@, stride as nat, slots@, rows as nat),
            widths@ == lagged_widths(prov@, stride as nat, slots@).take(d as int),
            out@ == lagged(grad@, stride as int, prov@, rows as int, slots@, d as nat),
        decreases slots@.len() - d,
    {
        let per: usize = slots[d];
        assert(part_fits(lags_of(prov@, stride as nat, d as int), slots@[d as int], rows as nat));
        let lags: usize = count_lags(prov, stride, d);
        let w: usize = lags * per;
        let ghost before = out@;
        let ghost part = lagged_part(
            grad@,
            stride as int,
            prov@,
            rows as int,
            d as int,
            per as int,
        );
        assert(rows * w == rows * (lags * per));
        let n: usize = rows * w;
        let mut i: usize = 0;
        while i < n
            invariant
                i <= n == rows * w,
                w == lags * per,
                lags == lags_of(prov@, stride as nat, d as int),
                stride <= prov@.len(),
                rows * stride <= grad@.len(),
                part == lagged_part(
                    grad@,
                    stride as int,
                    prov@,
                    rows as int,
                    d as int,
                    per as int,
                ),
                out@ == before + part.take(i as int),
            decreases n - i,
        {
            assert(w > 0) by (nonlinear_arith)
                requires
                    0 <= i < rows * w,
                    w >= 0,
            ;
            proof {
                lemma_place(i as int, rows as int, w as int);
            }
            let v: V = gather(grad, stride, prov, i / w, rows, d, lags, per, i % w);
            out.push(v);
            assert(part.len() == n);
            assert(part[i as int] == v);
            assert(part.take(i + 1) =~= part.take(i as int).push(part[i as int]));
            i += 1;
        }
        assert(part.take(n as int) =~= part);
        widths.push(w);
        assert(widths@ =~= lagged_widths(prov@, stride as nat, slots@).take(d + 1));
        d += 1;
    }
    assert(widths@ =~= lagged_widths(prov@, stride as nat, slots@));
}

/// The leading `w` columns of every row of a gradient.
pub open spec fn leading<V>(grad: Seq<V>, stride: int, rows: int, w: int) -> Seq<V> {
    point_part(grad, stride, rows, 0, w)
}

/// The body's rows are `stride` wide and the Jacobian's are `w`; the prefix a reading filled from the
/// deps' own elements is what makes the copy a truncation rather than a remap.
pub fn copy_rows<V: Scalar>(grad: &[V], stride: usize, rows: usize, w: usize, out: &mut [V])
    requires
        w <= stride,
        rows * stride <= grad@.len(),
        old(out)@.len() == rows * w,
    ensures
        final(out)@ == leading(grad@, stride as int, rows as int, w as int),
{
    let ghost part = leading(grad@, stride as int, rows as int, w as int);
    let size: usize = grad.len();
    let n: usize = out.len();
    let mut i: usize = 0;
    while i < n
        invariant
            i <= n == rows * w == out@.len(),
            w <= stride,
            rows * stride <= size == grad@.len(),
            part == leading(grad@, stride as int, rows as int, w as int),
            forall|j: int| 0 <= j < i ==> #[trigger] out@[j] == part[j],
        decreases n - i,
    {
        assert(w > 0) by (nonlinear_arith)
            requires
                0 <= i < rows * w,
                w >= 0,
        ;
        proof {
            lemma_place(i as int, rows as int, w as int);
            let (row, col) = (i as int / w as int, i as int % w as int);
            lemma_inside(row, rows as int, col, stride as int);
            assert(0 <= row * stride) by (nonlinear_arith)
                requires
                    0 <= row,
                    0 <= stride,
            ;
        }
        let v: V = grad[(i / w) * stride + i % w];
        out[i] = v;
        i += 1;
    }
    assert(out@ =~= part);
}

/// Where a dep slot lies: in which dep, and at which slot of it. Walks from dep `d` on, whose slots
/// start at `off`.
pub open spec fn owner_from(ws: Seq<usize>, d: nat, off: int, slot: int) -> Option<(int, int)>
    decreases ws.len() - d,
{
    if d >= ws.len() {
        None
    } else if off <= slot < off + ws[d as int] {
        Some((d as int, slot - off))
    } else {
        owner_from(ws, d + 1, off + ws[d as int], slot)
    }
}

/// The dep that owns a slot of the flattening, and which of its slots that is.
pub fn owner(ws: &[usize], slot: usize) -> (r: Option<(usize, usize)>)
    requires
        width_sum(ws@) <= usize::MAX,
    ensures
        owner_from(ws@, 0, 0, slot as int) == match r {
            Some((d, s)) => Some((d as int, s as int)),
            None => None,
        },
{
    let mut off: usize = 0;
    let mut d: usize = 0;
    while d < ws.len()
        invariant
            d <= ws@.len(),
            width_sum(ws@) <= usize::MAX,
            off == width_sum(ws@.take(d as int)),
            owner_from(ws@, 0, 0, slot as int) == owner_from(
                ws@,
                d as nat,
                off as int,
                slot as int,
            ),
        decreases ws@.len() - d,
    {
        proof {
            lemma_width_sum(ws@, d as int);
        }
        if off <= slot && slot - off < ws[d] {
            return Some((d, slot - off));
        }
        off += ws[d];
        d += 1;
    }
    None
}

/// One finite-difference column: the node stepped again over the deps with one slot bumped by about
/// `h`. `D` is what a tick pulls of the node's deps.
pub trait Column<V: Scalar, D> {
    /// Whether the node can be stepped again over the deps so bumped.
    open spec fn ready(&self, deps: D, slot: int, h: V) -> bool {
        arbitrary()
    }

    /// What the bumped out flattens to, whether it fired, and the perturbation the dep actually
    /// applied: a quantized dep moves in whole ticks.
    open spec fn bumped(&self, deps: D, slot: int, h: V) -> (Seq<V>, bool, V) {
        arbitrary()
    }

    fn col(&self, deps: &D, slot: usize, h: V, bumped: &mut Vec<V>) -> (r: (bool, V))
        requires
            self.ready(*deps, slot as int, h),
        ensures
            final(bumped)@ == self.bumped(*deps, slot as int, h).0,
            r == (
                self.bumped(*deps, slot as int, h).1,
                self.bumped(*deps, slot as int, h).2,
            ),
    ;
}

/// How far a slot is bumped: a millionth of its size, a billionth at the least.
pub open spec fn bump_of<V: Scalar>(x: V) -> V {
    x.magnitude().times(V::whole(1).over(V::whole(1_000_000))).greater(
        V::whole(1).over(V::whole(1_000_000_000)),
    )
}

/// One entry of a finite-difference Jacobian: left as it stood where the dep slot carried no number,
/// the bump crossed a firing branch, or the slot moves in no steps at all.
pub open spec fn difference<V: Scalar, D, C: Column<V, D>>(
    c: C,
    pulled: D,
    deps: Seq<V>,
    outs: Seq<V>,
    old_jac: Seq<V>,
    row: int,
    slot: int,
) -> V {
    let (b, fired, dh) = c.bumped(pulled, slot, bump_of(deps[slot]));
    if deps[slot].absent() || !fired || dh.equals(V::whole(0)) {
        old_jac[row * deps.len() + slot]
    } else {
        b[row].minus(outs[row]).over(dh)
    }
}

/// The finite-difference Jacobian, one column per dep slot.
pub open spec fn differences<V: Scalar, D, C: Column<V, D>>(
    c: C,
    pulled: D,
    deps: Seq<V>,
    outs: Seq<V>,
    old_jac: Seq<V>,
) -> Seq<V> {
    Seq::new(
        old_jac.len(),
        |i: int|
            difference(
                c,
                pulled,
                deps,
                outs,
                old_jac,
                i / deps.len() as int,
                i % deps.len() as int,
            ),
    )
}

/// Whether every dep slot that carries a number can be bumped, and shows an out as wide as the out.
pub open spec fn bumpable<V: Scalar, D, C: Column<V, D>>(c: C, pulled: D, deps: Seq<V>, n: nat) -> bool {
    forall|s: int|
        0 <= s < deps.len() && !(#[trigger] deps[s]).absent() ==> {
            &&& c.ready(pulled, s, bump_of(deps[s]))
            &&& c.bumped(pulled, s, bump_of(deps[s])).0.len() == n
        }
}

pub fn fd_cols<V: Scalar, D, C: Column<V, D>>(
    c: &C,
    pulled: &D,
    deps: &[V],
    outs: &[V],
    jac: &mut [V],
    bumped: &mut Vec<V>,
)
    requires
        old(jac)@.len() == outs@.len() * deps@.len(),
        bumpable::<V, D, C>(*c, *pulled, deps@, outs@.len()),
    ensures
        final(jac)@ == differences(*c, *pulled, deps@, outs@, old(jac)@),
        forall|i: int|
            0 <= i < old(jac)@.len() ==> #[trigger] final(jac)@[i] == {
                let (row, slot) = (i / deps@.len() as int, i % deps@.len() as int);
                let x = deps@[slot];
                let (b, fired, dh) = c.bumped(
                    *pulled,
                    slot,
                    x.magnitude().times(V::whole(1).over(V::whole(1_000_000))).greater(
                        V::whole(1).over(V::whole(1_000_000_000)),
                    ),
                );
                if x.absent() || !fired || dh.equals(V::whole(0)) {
                    old(jac)@[i]
                } else {
                    b[row].minus(outs@[row]).over(dh)
                }
            },
{
    let (rows, w): (usize, usize) = (outs.len(), deps.len());
    let ghost before = jac@;
    let ghost whole = differences(*c, *pulled, deps@, outs@, before);
    let mut slot: usize = 0;
    while slot < w
        invariant
            slot <= w == deps@.len(),
            rows == outs@.len(),
            jac@.len() == before.len() == rows * w,
            bumpable::<V, D, C>(*c, *pulled, deps@, outs@.len()),
            whole == differences(*c, *pulled, deps@, outs@, before),
            forall|i: int|
                0 <= i < jac@.len() ==> #[trigger] jac@[i] == if i % w as int >= slot {
                    before[i]
                } else {
                    whole[i]
                },
        decreases w - slot,
    {
        let x: V = deps[slot];
        let h: V = x.abs().mul(V::of(1).div(V::of(1_000_000))).max(
            V::of(1).div(V::of(1_000_000_000)),
        );
        let ghost past = jac@;
        let mut moved: bool = false;
        let mut dh: V = V::of(0);
        if !x.is_nan() {
            // the step taken, not the one asked for: dividing by a step never taken is a fabricated
            // slope.
            let (fired, step) = c.col(pulled, slot, h, bumped);
            assert(c.bumped(*pulled, slot as int, h).0.len() == outs@.len());
            dh = step;
            moved = fired && !step.same(V::of(0));
        }
        if moved {
            fill_column(bumped.as_slice(), outs, jac, slot, w, dh);
        }
        proof {
            assert forall|i: int| 0 <= i < jac@.len() implies #[trigger] jac@[i] == (if i % w as int
                >= slot + 1 {
                before[i]
            } else {
                whole[i]
            }) by {
                lemma_place(i, rows as int, w as int);
                assert(past[i] == if i % w as int >= slot {
                    before[i]
                } else {
                    whole[i]
                });
                if i % w as int == slot {
                    assert(whole[i] == difference(
                        *c,
                        *pulled,
                        deps@,
                        outs@,
                        before,
                        i / w as int,
                        slot as int,
                    ));
                }
            }
        }
        slot += 1;
    }
    proof {
        assert forall|i: int| 0 <= i < jac@.len() implies jac@[i] == whole[i] by {
            lemma_place(i, rows as int, w as int);
        }
        assert(jac@ =~= whole);
        assert forall|i: int| 0 <= i < jac@.len() implies before[(i / w as int) * w + i % w as int]
            == #[trigger] before[i] by {
            lemma_place(i, rows as int, w as int);
        }
    }
}

/// Writes one column of a finite-difference Jacobian, leaving the others alone.
fn fill_column<V: Scalar>(bumped: &[V], outs: &[V], jac: &mut [V], slot: usize, w: usize, dh: V)
    requires
        slot < w,
        bumped@.len() == outs@.len(),
        old(jac)@.len() == outs@.len() * w,
    ensures
        final(jac)@.len() == old(jac)@.len(),
        forall|i: int|
            0 <= i < old(jac)@.len() ==> #[trigger] final(jac)@[i] == if i % w as int == slot {
                bumped@[i / w as int].minus(outs@[i / w as int]).over(dh)
            } else {
                old(jac)@[i]
            },
{
    let ghost before = jac@;
    let rows: usize = outs.len();
    let size: usize = jac.len();
    let mut row: usize = 0;
    while row < rows
        invariant
            row <= rows == outs@.len() == bumped@.len(),
            slot < w,
            jac@.len() == before.len() == size == rows * w,
            forall|i: int|
                0 <= i < before.len() ==> #[trigger] jac@[i] == if i % w as int == slot && row
                    > i / w as int {
                    bumped@[i / w as int].minus(outs@[i / w as int]).over(dh)
                } else {
                    before[i]
                },
        decreases rows - row,
    {
        proof {
            lemma_inside(row as int, rows as int, slot as int, w as int);
            assert(0 <= row * w) by (nonlinear_arith)
                requires
                    0 <= row,
                    0 <= w,
            ;
        }
        let v: V = bumped[row].sub(outs[row]).div(dh);
        let ghost past = jac@;
        let at: usize = row * w + slot;
        jac[at] = v;
        proof {
            assert forall|i: int| 0 <= i < before.len() implies #[trigger] jac@[i] == (if i
                % w as int == slot && row + 1 > i / w as int {
                bumped@[i / w as int].minus(outs@[i / w as int]).over(dh)
            } else {
                before[i]
            }) by {
                lemma_place(i, rows as int, w as int);
                if i == at {
                } else {
                    assert(jac@[i] == past[i]);
                    if i % w as int == slot && i / w as int == row {
                        assert(i == at);
                    }
                }
            }
        }
        row += 1;
    }
    proof {
        assert forall|i: int| 0 <= i < before.len() implies #[trigger] jac@[i] == (if i % w as int
            == slot {
            bumped@[i / w as int].minus(outs@[i / w as int]).over(dh)
        } else {
            before[i]
        }) by {
            lemma_place(i, rows as int, w as int);
        }
    }
}

} // verus!
