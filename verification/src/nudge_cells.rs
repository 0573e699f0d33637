//! The finite-difference witnesses of the library's own cells.

use vstd::prelude::*;

use crate::bar::{Bar, Bars, Ohlc, Ohlcs, Volume, Volumes};
use crate::cell::Cell;
use crate::cells::{BookDeltas, Trades};
use crate::cols::{RelayCols, TradeBuf, TradeCols};
use crate::cols::{all_received, recv_window, TradeColumns};
use crate::delta::BookDelta;
use crate::flat::{lemma_slice_of, slice_of};
use crate::nudge::{run_applied, run_nudged, within_item};
use crate::nudge::{stage_run, Nudge};
use crate::precision::PrecisionPriceQty;
use crate::rsi::{AvgGain, AvgLoss, Rsi, RsiDelta, RsiSpec, RsiValues, Sample};
use crate::scalar::Scalar;
use crate::series::Series;
use crate::ts::Span;

verus! {

impl<V: Scalar> Nudge<V> for BookDeltas {
    type Scratch = Vec<BookDelta>;

    open spec fn can_stage<'t>(out: &'t [BookDelta], bump: Option<int>, h: V) -> bool {
        within_item::<V, BookDelta>(bump)
    }

    open spec fn nudged<'t>(out: &'t [BookDelta], bump: Option<int>, h: V) -> &'t [BookDelta] where 't: 't {
        slice_of(run_nudged(out@, bump, h))
    }

    open spec fn applied<'t>(out: &'t [BookDelta], bump: Option<int>, h: V) -> V {
        run_applied(out@, bump, h)
    }

    open spec fn shown<'l>(scratch: &'l Vec<BookDelta>) -> &'l [BookDelta] {
        slice_of(scratch@)
    }

    open spec fn holds(scratch: &Vec<BookDelta>) -> bool {
        true
    }

    open spec fn unstaged(scratch: &Vec<BookDelta>) -> bool {
        scratch@.len() == 0
    }

    fn fresh() -> (r: Vec<BookDelta>) {
        Vec::new()
    }

    fn stage<'t>(out: &'t [BookDelta], scratch: &mut Vec<BookDelta>, bump: Option<usize>, h: V) -> (dh: V) {
        stage_run(out, scratch, bump, h)
    }

    fn view<'l>(scratch: &'l Vec<BookDelta>) -> (r: &'l [BookDelta]) {
        let r: &'l [BookDelta] = scratch.as_slice();
        proof {
            lemma_slice_of(r);
        }
        r
    }
}

impl<const MS: u64, V: Scalar + 'static> Nudge<V> for Ohlcs<MS, V> {
    type Scratch = Vec<Ohlc<V>>;

    open spec fn can_stage<'t>(out: &'t [Ohlc<V>], bump: Option<int>, h: V) -> bool {
        within_item::<V, Ohlc<V>>(bump)
    }

    open spec fn nudged<'t>(out: &'t [Ohlc<V>], bump: Option<int>, h: V) -> &'t [Ohlc<V>] where 't: 't {
        slice_of(run_nudged(out@, bump, h))
    }

    open spec fn applied<'t>(out: &'t [Ohlc<V>], bump: Option<int>, h: V) -> V {
        run_applied(out@, bump, h)
    }

    open spec fn shown<'l>(scratch: &'l Vec<Ohlc<V>>) -> &'l [Ohlc<V>] {
        slice_of(scratch@)
    }

    open spec fn holds(scratch: &Vec<Ohlc<V>>) -> bool {
        true
    }

    open spec fn unstaged(scratch: &Vec<Ohlc<V>>) -> bool {
        scratch@.len() == 0
    }

    fn fresh() -> (r: Vec<Ohlc<V>>) {
        Vec::new()
    }

    fn stage<'t>(out: &'t [Ohlc<V>], scratch: &mut Vec<Ohlc<V>>, bump: Option<usize>, h: V) -> (dh: V) {
        stage_run(out, scratch, bump, h)
    }

    fn view<'l>(scratch: &'l Vec<Ohlc<V>>) -> (r: &'l [Ohlc<V>]) {
        let r: &'l [Ohlc<V>] = scratch.as_slice();
        proof {
            lemma_slice_of(r);
        }
        r
    }
}

impl<const MS: u64, V: Scalar + 'static> Nudge<V> for Volumes<MS, V> {
    type Scratch = Vec<Volume<V>>;

    open spec fn can_stage<'t>(out: &'t [Volume<V>], bump: Option<int>, h: V) -> bool {
        within_item::<V, Volume<V>>(bump)
    }

    open spec fn nudged<'t>(out: &'t [Volume<V>], bump: Option<int>, h: V) -> &'t [Volume<V>] where 't: 't {
        slice_of(run_nudged(out@, bump, h))
    }

    open spec fn applied<'t>(out: &'t [Volume<V>], bump: Option<int>, h: V) -> V {
        run_applied(out@, bump, h)
    }

    open spec fn shown<'l>(scratch: &'l Vec<Volume<V>>) -> &'l [Volume<V>] {
        slice_of(scratch@)
    }

    open spec fn holds(scratch: &Vec<Volume<V>>) -> bool {
        true
    }

    open spec fn unstaged(scratch: &Vec<Volume<V>>) -> bool {
        scratch@.len() == 0
    }

    fn fresh() -> (r: Vec<Volume<V>>) {
        Vec::new()
    }

    fn stage<'t>(out: &'t [Volume<V>], scratch: &mut Vec<Volume<V>>, bump: Option<usize>, h: V) -> (dh: V) {
        stage_run(out, scratch, bump, h)
    }

    fn view<'l>(scratch: &'l Vec<Volume<V>>) -> (r: &'l [Volume<V>]) {
        let r: &'l [Volume<V>] = scratch.as_slice();
        proof {
            lemma_slice_of(r);
        }
        r
    }
}

impl<const MS: u64, V: Scalar + 'static> Nudge<V> for Bars<MS, V> {
    type Scratch = Vec<Bar<V>>;

    open spec fn can_stage<'t>(out: &'t [Bar<V>], bump: Option<int>, h: V) -> bool {
        within_item::<V, Bar<V>>(bump)
    }

    open spec fn nudged<'t>(out: &'t [Bar<V>], bump: Option<int>, h: V) -> &'t [Bar<V>] where 't: 't {
        slice_of(run_nudged(out@, bump, h))
    }

    open spec fn applied<'t>(out: &'t [Bar<V>], bump: Option<int>, h: V) -> V {
        run_applied(out@, bump, h)
    }

    open spec fn shown<'l>(scratch: &'l Vec<Bar<V>>) -> &'l [Bar<V>] {
        slice_of(scratch@)
    }

    open spec fn holds(scratch: &Vec<Bar<V>>) -> bool {
        true
    }

    open spec fn unstaged(scratch: &Vec<Bar<V>>) -> bool {
        scratch@.len() == 0
    }

    fn fresh() -> (r: Vec<Bar<V>>) {
        Vec::new()
    }

    fn stage<'t>(out: &'t [Bar<V>], scratch: &mut Vec<Bar<V>>, bump: Option<usize>, h: V) -> (dh: V) {
        stage_run(out, scratch, bump, h)
    }

    fn view<'l>(scratch: &'l Vec<Bar<V>>) -> (r: &'l [Bar<V>]) {
        let r: &'l [Bar<V>] = scratch.as_slice();
        proof {
            lemma_slice_of(r);
        }
        r
    }
}

impl<B: Series<Item = Bar<V>> + 'static, V: Scalar + 'static> Nudge<V> for RsiDelta<B, V> where
    for <'x>B: Cell<Out<'x> = &'x [<B as Series>::Item]>,
 {
    type Scratch = Vec<Sample<V>>;

    open spec fn can_stage<'t>(out: &'t [Sample<V>], bump: Option<int>, h: V) -> bool {
        within_item::<V, Sample<V>>(bump)
    }

    open spec fn nudged<'t>(out: &'t [Sample<V>], bump: Option<int>, h: V) -> &'t [Sample<V>] where 't: 't {
        slice_of(run_nudged(out@, bump, h))
    }

    open spec fn applied<'t>(out: &'t [Sample<V>], bump: Option<int>, h: V) -> V {
        run_applied(out@, bump, h)
    }

    open spec fn shown<'l>(scratch: &'l Vec<Sample<V>>) -> &'l [Sample<V>] {
        slice_of(scratch@)
    }

    open spec fn holds(scratch: &Vec<Sample<V>>) -> bool {
        true
    }

    open spec fn unstaged(scratch: &Vec<Sample<V>>) -> bool {
        scratch@.len() == 0
    }

    fn fresh() -> (r: Vec<Sample<V>>) {
        Vec::new()
    }

    fn stage<'t>(out: &'t [Sample<V>], scratch: &mut Vec<Sample<V>>, bump: Option<usize>, h: V) -> (dh: V) {
        stage_run(out, scratch, bump, h)
    }

    fn view<'l>(scratch: &'l Vec<Sample<V>>) -> (r: &'l [Sample<V>]) {
        let r: &'l [Sample<V>] = scratch.as_slice();
        proof {
            lemma_slice_of(r);
        }
        r
    }
}

impl<B: Series<Item = Bar<V>> + 'static, S: RsiSpec, V: Scalar + 'static> Nudge<V> for AvgGain<B, S, V> where
    for <'x>B: Cell<Out<'x> = &'x [<B as Series>::Item]>,
 {
    type Scratch = Vec<Sample<V>>;

    open spec fn can_stage<'t>(out: &'t [Sample<V>], bump: Option<int>, h: V) -> bool {
        within_item::<V, Sample<V>>(bump)
    }

    open spec fn nudged<'t>(out: &'t [Sample<V>], bump: Option<int>, h: V) -> &'t [Sample<V>] where 't: 't {
        slice_of(run_nudged(out@, bump, h))
    }

    open spec fn applied<'t>(out: &'t [Sample<V>], bump: Option<int>, h: V) -> V {
        run_applied(out@, bump, h)
    }

    open spec fn shown<'l>(scratch: &'l Vec<Sample<V>>) -> &'l [Sample<V>] {
        slice_of(scratch@)
    }

    open spec fn holds(scratch: &Vec<Sample<V>>) -> bool {
        true
    }

    open spec fn unstaged(scratch: &Vec<Sample<V>>) -> bool {
        scratch@.len() == 0
    }

    fn fresh() -> (r: Vec<Sample<V>>) {
        Vec::new()
    }

    fn stage<'t>(out: &'t [Sample<V>], scratch: &mut Vec<Sample<V>>, bump: Option<usize>, h: V) -> (dh: V) {
        stage_run(out, scratch, bump, h)
    }

    fn view<'l>(scratch: &'l Vec<Sample<V>>) -> (r: &'l [Sample<V>]) {
        let r: &'l [Sample<V>] = scratch.as_slice();
        proof {
            lemma_slice_of(r);
        }
        r
    }
}

impl<B: Series<Item = Bar<V>> + 'static, S: RsiSpec, V: Scalar + 'static> Nudge<V> for AvgLoss<B, S, V> where
    for <'x>B: Cell<Out<'x> = &'x [<B as Series>::Item]>,
 {
    type Scratch = Vec<Sample<V>>;

    open spec fn can_stage<'t>(out: &'t [Sample<V>], bump: Option<int>, h: V) -> bool {
        within_item::<V, Sample<V>>(bump)
    }

    open spec fn nudged<'t>(out: &'t [Sample<V>], bump: Option<int>, h: V) -> &'t [Sample<V>] where 't: 't {
        slice_of(run_nudged(out@, bump, h))
    }

    open spec fn applied<'t>(out: &'t [Sample<V>], bump: Option<int>, h: V) -> V {
        run_applied(out@, bump, h)
    }

    open spec fn shown<'l>(scratch: &'l Vec<Sample<V>>) -> &'l [Sample<V>] {
        slice_of(scratch@)
    }

    open spec fn holds(scratch: &Vec<Sample<V>>) -> bool {
        true
    }

    open spec fn unstaged(scratch: &Vec<Sample<V>>) -> bool {
        scratch@.len() == 0
    }

    fn fresh() -> (r: Vec<Sample<V>>) {
        Vec::new()
    }

    fn stage<'t>(out: &'t [Sample<V>], scratch: &mut Vec<Sample<V>>, bump: Option<usize>, h: V) -> (dh: V) {
        stage_run(out, scratch, bump, h)
    }

    fn view<'l>(scratch: &'l Vec<Sample<V>>) -> (r: &'l [Sample<V>]) {
        let r: &'l [Sample<V>] = scratch.as_slice();
        proof {
            lemma_slice_of(r);
        }
        r
    }
}

impl<B: Series<Item = Bar<V>> + 'static, S: RsiSpec, V: Scalar + 'static> Nudge<V> for Rsi<B, S, V> where
    for <'x>B: Cell<Out<'x> = &'x [<B as Series>::Item]>,
 {
    type Scratch = Vec<RsiValues<V>>;

    open spec fn can_stage<'t>(out: &'t [RsiValues<V>], bump: Option<int>, h: V) -> bool {
        within_item::<V, RsiValues<V>>(bump)
    }

    open spec fn nudged<'t>(out: &'t [RsiValues<V>], bump: Option<int>, h: V) -> &'t [RsiValues<V>] where 't: 't {
        slice_of(run_nudged(out@, bump, h))
    }

    open spec fn applied<'t>(out: &'t [RsiValues<V>], bump: Option<int>, h: V) -> V {
        run_applied(out@, bump, h)
    }

    open spec fn shown<'l>(scratch: &'l Vec<RsiValues<V>>) -> &'l [RsiValues<V>] {
        slice_of(scratch@)
    }

    open spec fn holds(scratch: &Vec<RsiValues<V>>) -> bool {
        true
    }

    open spec fn unstaged(scratch: &Vec<RsiValues<V>>) -> bool {
        scratch@.len() == 0
    }

    fn fresh() -> (r: Vec<RsiValues<V>>) {
        Vec::new()
    }

    fn stage<'t>(out: &'t [RsiValues<V>], scratch: &mut Vec<RsiValues<V>>, bump: Option<usize>, h: V) -> (dh: V) {
        stage_run(out, scratch, bump, h)
    }

    fn view<'l>(scratch: &'l Vec<RsiValues<V>>) -> (r: &'l [RsiValues<V>]) {
        let r: &'l [RsiValues<V>] = scratch.as_slice();
        proof {
            lemma_slice_of(r);
        }
        r
    }
}

/// What a buffer that took a run holds.
pub open spec fn owned<'t>(out: TradeCols<'t>) -> TradeColumns {
    TradeColumns::none(out.prec).extend(out, out.monotonic_seq@.len())
}

/// The columns of a buffer, as a run.
pub open spec fn as_cols(b: TradeColumns) -> TradeCols<'static> {
    TradeCols {
        prec: b.prec,
        ts: RelayCols {
            execs: Some(slice_of(b.execs)),
            send: match b.send {
                Some(s) => Some(slice_of(s)),
                None => None,
            },
            recv: if b.recv.len() > 0 && all_received(b.recv, 0, b.recv.len() as int) {
                Some(Span { first: b.recv[0]->Some_0, last: b.recv.last()->Some_0 })
            } else {
                None
            },
        },
        monotonic_seq: slice_of(b.seq),
        side: slice_of(b.side),
        price: slice_of(b.price),
        qty: slice_of(b.qty),
    }
}

/// Whether the window a buffer's elements arrived in runs forwards.
pub open spec fn received_forwards(b: TradeColumns) -> bool {
    recv_window(b.recv, 0, b.recv.len() as int) matches Some((f, l)) ==> f <= l
}

/// A buffer that took a run received every element of it when the run's window closed.
proof fn lemma_received<'t>(out: TradeCols<'t>, n: nat)
    requires
        out.wf(),
        n <= out.monotonic_seq@.len(),
    ensures
        ({
            let b = TradeColumns::none(out.prec).extend(out, n);
            &&& b.recv.len() == n
            &&& b.seq.len() == n
            &&& b.wf()
            &&& b.prec == out.prec
            &&& forall|i: int|
                0 <= i < n ==> #[trigger] b.recv[i] == match out.ts.recv {
                    Some(r) => Some(r.last),
                    None => None,
                }
        }),
    decreases n,
{
    if n > 0 {
        lemma_received(out, (n - 1) as nat);
        lemma_sends(out, (n - 1) as nat);
    }
}

/// It tells of wire times where the run does.
proof fn lemma_sends<'t>(out: TradeCols<'t>, n: nat)
    requires
        out.wf(),
        n <= out.monotonic_seq@.len(),
    ensures
        ({
            let b = TradeColumns::none(out.prec).extend(out, n);
            &&& n > 0 ==> (b.send is Some) == (out.ts.send is Some)
            &&& n == 0 ==> b.send is None
            &&& b.send matches Some(s) ==> s.len() == n
        }),
    decreases n,
{
    if n > 0 {
        lemma_sends(out, (n - 1) as nat);
    }
}

impl<V: Scalar> Nudge<V> for Trades {
    type Scratch = TradeBuf;

    open spec fn can_stage<'t>(out: TradeCols<'t>, bump: Option<int>, h: V) -> bool {
        &&& out.wf()
        &&& bump matches Some(s) ==> 0 <= s < 2 && owned(out).movable(s, h)
    }

    /// The run owned, its arrival collapsed onto when the run's window closed, and one slot of its
    /// last element moved by whole ticks.
    open spec fn nudged<'t>(out: TradeCols<'t>, bump: Option<int>, h: V) -> TradeCols<'t> where 't: 't {
        as_cols(
            match bump {
                Some(s) => owned(out).bumped(s, h),
                None => owned(out),
            },
        )
    }

    open spec fn applied<'t>(out: TradeCols<'t>, bump: Option<int>, h: V) -> V {
        match bump {
            Some(s) => owned(out).applied(s, h),
            None => V::whole(0),
        }
    }

    open spec fn shown<'l>(scratch: &'l TradeBuf) -> TradeCols<'l> {
        as_cols(scratch@)
    }

    open spec fn holds(scratch: &TradeBuf) -> bool {
        scratch@.wf() && received_forwards(scratch@)
    }

    open spec fn unstaged(scratch: &TradeBuf) -> bool {
        scratch@ == TradeColumns::none(scratch@.prec)
    }

    fn fresh() -> (r: TradeBuf) {
        TradeBuf::new(PrecisionPriceQty::default())
    }

    fn stage<'t>(out: TradeCols<'t>, scratch: &mut TradeBuf, bump: Option<usize>, h: V) -> (dh: V) {
        let mut buf: TradeBuf = TradeBuf::new(out.prec);
        buf.extend(out);
        proof {
            lemma_received(out, out.monotonic_seq@.len());
        }
        let dh: V = match bump {
            Some(slot) => buf.bump_last(slot, h),
            None => V::of(0),
        };
        *scratch = buf;
        dh
    }

    fn view<'l>(scratch: &'l TradeBuf) -> (r: TradeCols<'l>) {
        let n: usize = scratch.len();
        let r: TradeCols<'l> = scratch.cols(0..n);
        proof {
            let b = scratch@;
            assert(b.execs.subrange(0, n as int) =~= b.execs);
            assert(b.seq.subrange(0, n as int) =~= b.seq);
            assert(b.side.subrange(0, n as int) =~= b.side);
            assert(b.price.subrange(0, n as int) =~= b.price);
            assert(b.qty.subrange(0, n as int) =~= b.qty);
            lemma_slice_of(r.ts.execs->Some_0);
            lemma_slice_of(r.monotonic_seq);
            lemma_slice_of(r.side);
            lemma_slice_of(r.price);
            lemma_slice_of(r.qty);
            if let Some(s) = b.send {
                assert(s.subrange(0, n as int) =~= s);
                lemma_slice_of(r.ts.send->Some_0);
            }
            assert(r.ts.recv == as_cols(b).ts.recv);
        }
        r
    }
}

} // verus!
