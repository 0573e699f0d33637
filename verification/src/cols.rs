//! Raw columnar lane holders. Precision lives on the holder, hoisted once per run, so the columns
//! stay exactly what the venue sent and what the disk holds.

use core::ops::Range;
use vstd::prelude::*;
use vstd::slice::slice_subrange;

use crate::flat::{lemma_one_dim, one_dim};
use crate::flat::blank;
use crate::flat::{erase, Flat};
use crate::precision::{Precision, PrecisionPriceQty};
use crate::scalar::{powi, Scalar};
use crate::scalar::raised;
use crate::side::Side;
use crate::ts::{Accumulator, Local, Span, Timestamped, Timestamps, Ts, Venue};
use crate::scalar::{lemma_absence, lemma_times, lemma_units, product};
use crate::slope_laws::{exact, invertible, lemma_quotient, lemma_reciprocal};

verus! {

/// The readings of a run that crossed a wire, a column per reading.
#[derive(Clone, Copy, Debug)]
pub struct RelayCols<'a, From, To> {
    /// When each element happened at its origin, where the run attests it.
    pub execs: Option<&'a [Ts<From>]>,
    /// When each element was put on the wire, where the origin reports that separately.
    pub send: Option<&'a [Ts<From>]>,
    /// The window within which the whole run arrived.
    pub recv: Option<Span<To>>,
}

/// A run of trades, a column per field.
#[derive(Clone, Copy, Debug)]
pub struct TradeCols<'a> {
    pub prec: PrecisionPriceQty,
    pub ts: RelayCols<'a, Venue, Local>,
    pub monotonic_seq: &'a [u64],
    pub side: &'a [Side],
    pub price: &'a [i32],
    pub qty: &'a [u32],
}

impl<'a> TradeCols<'a> {
    /// A value in every column for every element; a trade lane always attests its execution times.
    pub open spec fn wf(&self) -> bool {
        let n = self.monotonic_seq@.len();
        &&& self.ts.execs matches Some(e) && e@.len() == n
        &&& self.ts.send matches Some(s) ==> s@.len() == n
        &&& self.side@.len() == n
        &&& self.price@.len() == n
        &&& self.qty@.len() == n
    }

    pub open spec fn exec_times(&self) -> Seq<Ts<Venue>> {
        self.ts.execs->Some_0@
    }

    pub fn len(&self) -> (r: usize)
        ensures
            r == self.monotonic_seq@.len(),
    {
        self.monotonic_seq.len()
    }

    pub fn is_empty(&self) -> (r: bool)
        ensures
            r == (self.monotonic_seq@.len() == 0),
    {
        self.len() == 0
    }

    /// The per-element venue readings. A trade lane always attests them; the `Option` on
    /// [`RelayCols`] is there for runs whose origin does not.
    pub fn execs(&self) -> (r: &'a [Ts<Venue>])
        requires
            self.ts.execs is Some,
        ensures
            r@ == self.exec_times(),
    {
        self.ts.execs.unwrap()
    }
}

/// The window some ordered readings span.
pub open spec fn window<A>(ts: Seq<Ts<A>>) -> (int, int) {
    if ts.len() == 0 {
        (0, 0)
    } else {
        (ts[0]@, ts.last()@)
    }
}

/// Whether readings run forwards from end to end.
pub open spec fn forwards<A>(ts: Seq<Ts<A>>) -> bool {
    ts.len() > 0 ==> ts[0]@ <= ts.last()@
}

/// The window a run's execution times span: nothing's is the epoch's instant.
pub fn span(execs: &[Ts<Venue>]) -> (r: Span<Venue>)
    requires
        forwards(execs@),
    ensures
        r@ == window(execs@),
{
    let n: usize = execs.len();
    if n == 0 {
        Span::at(Ts::from_nanos(0))
    } else {
        Span::new(execs[0], execs[n - 1])
    }
}

impl<'a> Timestamped for TradeCols<'a> {
    open spec fn stamped(&self) -> bool {
        self.ts.execs is Some && forwards(self.exec_times())
    }

    open spec fn stamps(&self, r: Timestamps) -> bool {
        r matches Timestamps::Accumulator(a) && a.venue@ == window(self.exec_times()) && a.local
            == self.ts.recv
    }

    fn timestamps(&self) -> (r: Timestamps) {
        Timestamps::Accumulator(Accumulator { venue: span(self.execs()), local: self.ts.recv })
    }
}

/// Owned twin of [`TradeCols`]: lane buffer and ingest accumulator in one.
#[derive(Debug)]
pub struct TradeBuf {
    pub prec: PrecisionPriceQty,
    exec_at: Vec<Ts<Venue>>,
    /// All-or-nothing across the buffer: a venue either reports a wire time distinct from the
    /// execution time or it does not.
    send: Option<Vec<Ts<Venue>>>,
    recv: Vec<Option<Ts<Local>>>,
    monotonic_seq: Vec<u64>,
    side: Vec<Side>,
    price: Vec<i32>,
    qty: Vec<u32>,
}

/// The columns of a buffer.
#[verifier::ext_equal]
pub struct TradeColumns {
    pub prec: PrecisionPriceQty,
    pub execs: Seq<Ts<Venue>>,
    pub send: Option<Seq<Ts<Venue>>>,
    pub recv: Seq<Option<Ts<Local>>>,
    pub seq: Seq<u64>,
    pub side: Seq<Side>,
    pub price: Seq<i32>,
    pub qty: Seq<u32>,
}

pub open spec fn sends(s: Option<Vec<Ts<Venue>>>) -> Option<Seq<Ts<Venue>>> {
    match s {
        Some(v) => Some(v@),
        None => None,
    }
}

impl TradeColumns {
    pub open spec fn none(prec: PrecisionPriceQty) -> Self {
        TradeColumns {
            prec,
            execs: Seq::empty(),
            send: None,
            recv: Seq::empty(),
            seq: Seq::empty(),
            side: Seq::empty(),
            price: Seq::empty(),
            qty: Seq::empty(),
        }
    }

    /// A value in every column for every element.
    pub open spec fn wf(self) -> bool {
        let n = self.seq.len();
        &&& self.execs.len() == n
        &&& self.send matches Some(s) ==> s.len() == n
        &&& self.recv.len() == n
        &&& self.side.len() == n
        &&& self.price.len() == n
        &&& self.qty.len() == n
    }

    /// Whether an element that does or does not report a wire time can be appended.
    pub open spec fn takes(self, send: Option<Ts<Venue>>) -> bool {
        match send {
            Some(_) => self.send is Some || self.seq.len() == 0,
            None => self.send is None,
        }
    }

    pub open spec fn push(
        self,
        exec_at: Ts<Venue>,
        send: Option<Ts<Venue>>,
        recv: Option<Ts<Local>>,
        seq: u64,
        side: Side,
        price: i32,
        qty: u32,
    ) -> Self {
        TradeColumns {
            prec: self.prec,
            execs: self.execs.push(exec_at),
            send: match (send, self.send) {
                (Some(s), Some(col)) => Some(col.push(s)),
                (Some(s), None) => Some(seq![s]),
                (None, _) => self.send,
            },
            recv: self.recv.push(recv),
            seq: self.seq.push(seq),
            side: self.side.push(side),
            price: self.price.push(price),
            qty: self.qty.push(qty),
        }
    }

    /// The columns with the first `n` elements of a run appended. A run's reception window collapses
    /// onto each element: the whole run arrived within it.
    pub open spec fn extend<'a>(self, cols: TradeCols<'a>, n: nat) -> Self
        decreases n,
    {
        if n == 0 {
            self
        } else {
            let i = n - 1;
            self.extend(cols, i as nat).push(
                cols.exec_times()[i],
                match cols.ts.send {
                    Some(s) => Some(s@[i]),
                    None => None,
                },
                match cols.ts.recv {
                    Some(r) => Some(r.last),
                    None => None,
                },
                cols.monotonic_seq@[i],
                cols.side@[i],
                cols.price@[i],
                cols.qty@[i],
            )
        }
    }

    /// The columns without their first `n` elements.
    pub open spec fn skip(self, n: int) -> Self {
        TradeColumns {
            prec: self.prec,
            execs: self.execs.skip(n),
            send: match self.send {
                Some(s) => Some(s.skip(n)),
                None => None,
            },
            recv: self.recv.skip(n),
            seq: self.seq.skip(n),
            side: self.side.skip(n),
            price: self.price.skip(n),
            qty: self.qty.skip(n),
        }
    }
}

impl View for TradeBuf {
    type V = TradeColumns;

    closed spec fn view(&self) -> TradeColumns {
        TradeColumns {
            prec: self.prec,
            execs: self.exec_at@,
            send: sends(self.send),
            recv: self.recv@,
            seq: self.monotonic_seq@,
            side: self.side@,
            price: self.price@,
            qty: self.qty@,
        }
    }
}

/// A column again.
fn again<T: Copy>(col: &Vec<T>) -> (r: Vec<T>)
    ensures
        r@ == col@,
{
    let mut r: Vec<T> = Vec::new();
    let mut i: usize = 0;
    while i < col.len()
        invariant
            i <= col@.len(),
            r@ == col@.take(i as int),
        decreases col@.len() - i,
    {
        r.push(col[i]);
        i += 1;
        assert(r@ =~= col@.take(i as int));
    }
    assert(col@.take(i as int) =~= col@);
    r
}

impl Clone for TradeBuf {
    fn clone(&self) -> (r: Self)
        ensures
            r@ == self@,
    {
        TradeBuf {
            prec: self.prec,
            exec_at: again(&self.exec_at),
            send: match &self.send {
                Some(s) => Some(again(s)),
                None => None,
            },
            recv: again(&self.recv),
            monotonic_seq: again(&self.monotonic_seq),
            side: again(&self.side),
            price: again(&self.price),
            qty: again(&self.qty),
        }
    }
}

impl Default for TradeBuf {
    fn default() -> (r: Self)
        ensures
            r@ == TradeColumns::none(
                PrecisionPriceQty { price: Precision(0), qty: Precision(0) },
            ),
            r@.wf(),
    {
        TradeBuf::new(PrecisionPriceQty::default())
    }
}

/// Whether every element of `from..to` was recorded live.
pub open spec fn all_received(recv: Seq<Option<Ts<Local>>>, from: int, to: int) -> bool {
    forall|i: int| from <= i < to ==> (#[trigger] recv[i]) is Some
}

/// The reception window of the elements `from..to`, present only when every one of them was recorded
/// live.
pub open spec fn recv_window(recv: Seq<Option<Ts<Local>>>, from: int, to: int) -> Option<(int, int)> {
    if 0 <= from < to <= recv.len() && all_received(recv, from, to) {
        Some((recv[from]->Some_0@, recv[to - 1]->Some_0@))
    } else {
        None
    }
}

/// A run's reception window, present only when every element of it was recorded live.
fn recv_span(recv: &[Option<Ts<Local>>], from: usize, to: usize) -> (r: Option<Span<Local>>)
    requires
        recv_window(recv@, from as int, to as int) matches Some((f, l)) ==> f <= l,
    ensures
        recv_window(recv@, from as int, to as int) == match r {
            Some(s) => Some(s@),
            None => None,
        },
{
    if from >= to || to > recv.len() {
        return None;
    }
    let mut i: usize = from;
    while i < to
        invariant
            from <= i <= to <= recv@.len(),
            all_received(recv@, from as int, i as int),
        decreases to - i,
    {
        if recv[i].is_none() {
            assert(recv@[i as int] is None);
            return None;
        }
        i += 1;
    }
    match (recv[from], recv[to - 1]) {
        (Some(first), Some(last)) => Some(Span::new(first, last)),
        _ => None,
    }
}

impl TradeBuf {
    pub fn new(prec: PrecisionPriceQty) -> (r: Self)
        ensures
            r@ == TradeColumns::none(prec),
            r@.wf(),
    {
        TradeBuf {
            prec,
            exec_at: Vec::new(),
            send: None,
            recv: Vec::new(),
            monotonic_seq: Vec::new(),
            side: Vec::new(),
            price: Vec::new(),
            qty: Vec::new(),
        }
    }

    pub fn len(&self) -> (r: usize)
        ensures
            r == self@.seq.len(),
    {
        self.monotonic_seq.len()
    }

    pub(crate) fn precision(&self) -> (r: PrecisionPriceQty)
        ensures
            r == self@.prec,
    {
        self.prec
    }

    pub fn is_empty(&self) -> (r: bool)
        ensures
            r == (self@.seq.len() == 0),
    {
        self.len() == 0
    }

    pub fn clear(&mut self)
        ensures
            final(self)@ == TradeColumns::none(old(self)@.prec),
            final(self)@.wf(),
    {
        self.exec_at = Vec::new();
        self.send = None;
        self.recv = Vec::new();
        self.monotonic_seq = Vec::new();
        self.side = Vec::new();
        self.price = Vec::new();
        self.qty = Vec::new();
    }

    /// One value per column, which is the whole point of a columnar buffer. A venue's wire time is a
    /// per-venue property: it neither appears nor vanishes mid-run.
    pub fn push(
        &mut self,
        exec_at: Ts<Venue>,
        send: Option<Ts<Venue>>,
        recv: Option<Ts<Local>>,
        seq: u64,
        side: Side,
        price: i32,
        qty: u32,
    )
        requires
            old(self)@.wf(),
            old(self)@.takes(send),
        ensures
            final(self)@ == old(self)@.push(exec_at, send, recv, seq, side, price, qty),
            final(self)@.wf(),
    {
        let ghost before = self@;
        if let Some(s) = send {
            let mut col: Vec<Ts<Venue>> = match self.send.take() {
                Some(col) => col,
                None => Vec::new(),
            };
            col.push(s);
            self.send = Some(col);
        }
        self.exec_at.push(exec_at);
        self.recv.push(recv);
        self.monotonic_seq.push(seq);
        self.side.push(side);
        self.price.push(price);
        self.qty.push(qty);
        assert(self@ =~= before.push(exec_at, send, recv, seq, side, price, qty));
    }

    /// Appends a run of the same precision.
    pub fn extend(&mut self, cols: TradeCols<'_>)
        requires
            old(self)@.wf(),
            cols.wf(),
            old(self)@.prec == cols.prec,
            cols.monotonic_seq@.len() > 0 ==> (cols.ts.send is Some ==> old(self)@.send is Some
                || old(self)@.seq.len() == 0) && (cols.ts.send is None ==> old(self)@.send is None),
        ensures
            final(self)@ == old(self)@.extend(cols, cols.monotonic_seq@.len()),
            final(self)@.wf(),
    {
        let ghost before = self@;
        let execs: &[Ts<Venue>] = cols.execs();
        let recv: Option<Ts<Local>> = match cols.ts.recv {
            Some(r) => Some(r.last),
            None => None,
        };
        let n: usize = cols.len();
        let mut i: usize = 0;
        while i < n
            invariant
                i <= n == cols.monotonic_seq@.len(),
                cols.wf(),
                execs@ == cols.exec_times(),
                recv == match cols.ts.recv {
                    Some(r) => Some(r.last),
                    None => None,
                },
                before.wf(),
                n > 0 ==> (cols.ts.send is Some ==> before.send is Some || before.seq.len() == 0)
                    && (cols.ts.send is None ==> before.send is None),
                self@ == before.extend(cols, i as nat),
                self@.wf(),
                i > 0 ==> (self@.send is Some) == (cols.ts.send is Some),
            decreases n - i,
        {
            let send: Option<Ts<Venue>> = match cols.ts.send {
                Some(s) => Some(s[i]),
                None => None,
            };
            self.push(
                execs[i],
                send,
                recv,
                cols.monotonic_seq[i],
                cols.side[i],
                cols.price[i],
                cols.qty[i],
            );
            i += 1;
        }
    }

    pub fn exec_at(&self, i: usize) -> (r: Ts<Venue>)
        requires
            i < self@.execs.len(),
        ensures
            r == self@.execs[i as int],
    {
        self.exec_at[i]
    }

    /// The elements of a range, borrowed.
    pub fn cols(&self, r: Range<usize>) -> (c: TradeCols<'_>)
        requires
            self@.wf(),
            r.start <= r.end <= self@.seq.len(),
            recv_window(self@.recv, r.start as int, r.end as int) matches Some((f, l)) ==> f <= l,
        ensures
            c.wf(),
            c.prec == self@.prec,
            c.exec_times() == self@.execs.subrange(r.start as int, r.end as int),
            match self@.send {
                Some(s) => c.ts.send matches Some(t) && t@ == s.subrange(
                    r.start as int,
                    r.end as int,
                ),
                None => c.ts.send is None,
            },
            recv_window(self@.recv, r.start as int, r.end as int) == match c.ts.recv {
                Some(s) => Some(s@),
                None => None,
            },
            c.monotonic_seq@ == self@.seq.subrange(r.start as int, r.end as int),
            c.side@ == self@.side.subrange(r.start as int, r.end as int),
            c.price@ == self@.price.subrange(r.start as int, r.end as int),
            c.qty@ == self@.qty.subrange(r.start as int, r.end as int),
    {
        let (from, to): (usize, usize) = (r.start, r.end);
        TradeCols {
            prec: self.prec,
            ts: RelayCols {
                execs: Some(slice_subrange(self.exec_at.as_slice(), from, to)),
                send: match &self.send {
                    Some(s) => Some(slice_subrange(s.as_slice(), from, to)),
                    None => None,
                },
                recv: recv_span(self.recv.as_slice(), from, to),
            },
            monotonic_seq: slice_subrange(self.monotonic_seq.as_slice(), from, to),
            side: slice_subrange(self.side.as_slice(), from, to),
            price: slice_subrange(self.price.as_slice(), from, to),
            qty: slice_subrange(self.qty.as_slice(), from, to),
        }
    }

    pub(crate) fn move_price(&mut self, i: usize, ticks: i32)
        requires
            old(self)@.wf(),
            i < old(self)@.seq.len(),
            i32::MIN <= old(self)@.price[i as int] + ticks <= i32::MAX,
        ensures
            final(self)@ == (TradeColumns {
                price: old(self)@.price.update(
                    i as int,
                    (old(self)@.price[i as int] + ticks) as i32,
                ),
                ..old(self)@
            }),
    {
        let p: i32 = self.price[i] + ticks;
        self.price.set(i, p);
    }

    pub(crate) fn move_qty(&mut self, i: usize, ticks: u32)
        requires
            old(self)@.wf(),
            i < old(self)@.seq.len(),
            old(self)@.qty[i as int] + ticks <= u32::MAX,
        ensures
            final(self)@ == (TradeColumns {
                qty: old(self)@.qty.update(i as int, (old(self)@.qty[i as int] + ticks) as u32),
                ..old(self)@
            }),
    {
        let q: u32 = self.qty[i] + ticks;
        self.qty.set(i, q);
    }

    /// Reclaim an emitted prefix, keeping the lane bounded to its un-emitted window.
    pub fn drain_prefix(&mut self, n: usize)
        requires
            old(self)@.wf(),
            n <= old(self)@.seq.len(),
        ensures
            final(self)@ == old(self)@.skip(n as int),
            final(self)@.wf(),
    {
        let ghost before = self@;
        self.exec_at = self.exec_at.split_off(n);
        if let Some(mut s) = self.send.take() {
            self.send = Some(s.split_off(n));
        }
        self.recv = self.recv.split_off(n);
        self.monotonic_seq = self.monotonic_seq.split_off(n);
        self.side = self.side.split_off(n);
        self.price = self.price.split_off(n);
        self.qty = self.qty.split_off(n);
        assert(self@ =~= before.skip(n as int));
    }
}

/// A raw integer at a precision, as a number.
pub open spec fn unscaled<V: Scalar>(raw: int, prec: int) -> V {
    V::whole(raw).over(raised(V::whole(10), prec))
}

pub fn scaled_down<V: Scalar>(raw: i64, prec: i8) -> (r: V)
    ensures
        r == unscaled::<V>(raw as int, prec as int),
{
    V::of(raw).div(powi(V::of(10), prec as i32))
}

/// The last of a run's levels as numbers.
impl<'a, V: Scalar> Flat<V> for TradeCols<'a> {
    open spec fn len_spec() -> nat {
        2
    }

    open spec fn dims_spec() -> Seq<usize> {
        seq![2usize]
    }

    open spec fn sound(&self) -> bool {
        self.wf()
    }

    open spec fn slots(&self) -> Seq<V> {
        if self.price@.len() == 0 {
            blank(2)
        } else {
            seq![
                unscaled::<V>(self.price@.last() as int, self.prec.price.0 as int),
                unscaled::<V>(self.qty@.last() as int, self.prec.qty.0 as int),
            ]
        }
    }

    open spec fn fired(&self) -> bool {
        self.price@.len() > 0
    }

    open spec fn count(&self) -> nat {
        self.monotonic_seq@.len()
    }

    proof fn fills(&self) {
        V::none_is_absent();
    }

    proof fn shaped() {
        lemma_one_dim(2usize);
    }

    fn dims() -> (r: Vec<usize>) {
        one_dim(2usize)
    }

    fn len() -> (r: usize) {
        2
    }

    fn flat(&self, out: &mut [V]) -> (fired: bool) {
        let n: usize = self.price.len();
        if n == 0 {
            erase(out);
            return false;
        }
        let price: V = scaled_down(self.price[n - 1] as i64, self.prec.price.0);
        let qty: V = scaled_down(self.qty[n - 1] as i64, self.prec.qty.0);
        out[0] = price;
        out[1] = qty;
        assert(out@ =~= <Self as Flat<V>>::slots(self));
        true
    }

    fn fires(&self) -> (r: usize) {
        self.monotonic_seq.len()
    }
}

/// The wire times of a buffer with the first `n` elements of a run appended.
pub open spec fn sent_after<'a>(buf: TradeColumns, cols: TradeCols<'a>, n: nat) -> Option<Seq<Ts<Venue>>> {
    match (buf.send, cols.ts.send) {
        (Some(held), Some(s)) => Some(held + s@.take(n as int)),
        (None, Some(s)) if n > 0 => Some(s@.take(n as int)),
        _ => buf.send,
    }
}

/// When each element of a run was received, as far as the run says: the end of its window.
pub open spec fn received<'a>(cols: TradeCols<'a>) -> Option<Ts<Local>> {
    match cols.ts.recv {
        Some(r) => Some(r.last),
        None => None,
    }
}

/// A run appended is the run read back: the columns of what was appended are the run's own, and its
/// reception window has collapsed onto each of its elements.
pub proof fn what_was_appended_reads_back<'a>(buf: TradeColumns, cols: TradeCols<'a>, n: nat)
    requires
        buf.wf(),
        cols.wf(),
        n <= cols.monotonic_seq@.len(),
    ensures
        buf.extend(cols, n).prec == buf.prec,
        buf.extend(cols, n).seq == buf.seq + cols.monotonic_seq@.take(n as int),
        buf.extend(cols, n).execs == buf.execs + cols.exec_times().take(n as int),
        buf.extend(cols, n).send == sent_after(buf, cols, n),
        buf.extend(cols, n).recv == buf.recv + Seq::new(n, |i: int| received(cols)),
        buf.extend(cols, n).side == buf.side + cols.side@.take(n as int),
        buf.extend(cols, n).price == buf.price + cols.price@.take(n as int),
        buf.extend(cols, n).qty == buf.qty + cols.qty@.take(n as int),
    decreases n,
{
    let all = buf.extend(cols, n);
    if n > 0 {
        what_was_appended_reads_back(buf, cols, (n - 1) as nat);
    }
    if let Some(s) = cols.ts.send {
        if let Some(held) = buf.send {
            assert(all.send->Some_0 =~= held + s@.take(n as int));
        } else if n > 0 {
            assert(all.send->Some_0 =~= s@.take(n as int));
        }
    }
    assert(all.recv =~= buf.recv + Seq::new(n, |i: int| received(cols)));
    assert(all.seq =~= buf.seq + cols.monotonic_seq@.take(n as int));
    assert(all.execs =~= buf.execs + cols.exec_times().take(n as int));
    assert(all.side =~= buf.side + cols.side@.take(n as int));
    assert(all.price =~= buf.price + cols.price@.take(n as int));
    assert(all.qty =~= buf.qty + cols.qty@.take(n as int));
}

/// What is drained of a buffer is its first rows: each column goes on with the row behind them.
pub proof fn draining_leaves_the_rows_behind(buf: TradeColumns, n: int, i: int)
    requires
        buf.wf(),
        0 <= n <= buf.seq.len(),
        0 <= i < buf.seq.len() - n,
    ensures
        buf.skip(n).wf(),
        buf.skip(n).seq.len() == buf.seq.len() - n,
        buf.skip(n).prec == buf.prec,
        buf.skip(n).seq[i] == buf.seq[n + i],
        buf.skip(n).execs[i] == buf.execs[n + i],
        buf.skip(n).recv[i] == buf.recv[n + i],
        buf.skip(n).side[i] == buf.side[n + i],
        buf.skip(n).price[i] == buf.price[n + i],
        buf.skip(n).qty[i] == buf.qty[n + i],
        buf.send matches Some(s) ==> (buf.skip(n).send matches Some(t) && t[i] == s[n + i]),
        buf.send is None ==> buf.skip(n).send is None,
{
}

/// A row appended is the last of every column, and what stood before it stands.
pub proof fn a_row_appended_is_the_last(
    buf: TradeColumns,
    exec_at: Ts<Venue>,
    send: Option<Ts<Venue>>,
    recv: Option<Ts<Local>>,
    seq: u64,
    side: Side,
    price: i32,
    qty: u32,
)
    requires
        buf.wf(),
        buf.takes(send),
    ensures
        ({
            let after = buf.push(exec_at, send, recv, seq, side, price, qty);
            &&& after.wf()
            &&& after.seq.last() == seq && after.seq.drop_last() == buf.seq
            &&& after.execs.last() == exec_at && after.execs.drop_last() == buf.execs
            &&& after.recv.last() == recv && after.recv.drop_last() == buf.recv
            &&& after.side.last() == side && after.side.drop_last() == buf.side
            &&& after.price.last() == price && after.price.drop_last() == buf.price
            &&& after.qty.last() == qty && after.qty.drop_last() == buf.qty
            &&& send matches Some(s) ==> (after.send matches Some(t) && t.last() == s)
            &&& send is None ==> after.send is None
        }),
{
    let after = buf.push(exec_at, send, recv, seq, side, price, qty);
    assert(after.seq.drop_last() =~= buf.seq);
    assert(after.execs.drop_last() =~= buf.execs);
    assert(after.recv.drop_last() =~= buf.recv);
    assert(after.side.drop_last() =~= buf.side);
    assert(after.price.drop_last() =~= buf.price);
    assert(after.qty.drop_last() =~= buf.qty);
}

/// A raw is worth as many units as it counts ticks of ten to the minus its precision.
pub proof fn a_raw_is_worth_its_ticks<V: Scalar>(raw: int, prec: int)
    requires
        exact::<V>(),
        prec >= 0,
        invertible(raised(V::whole(10), prec)),
        !unscaled::<V>(raw, prec).absent(),
    ensures
        unscaled::<V>(raw, prec).times(product(V::whole(10), prec as nat)) == V::whole(raw),
        unscaled::<V>(raw, 0) == V::whole(raw),
{
    let (n, t) = (V::whole(raw), raised(V::whole(10), prec));
    let i = V::whole(1).over(t);
    lemma_quotient(n, t);
    lemma_reciprocal(t);
    lemma_absence(n, t);
    lemma_times(n, i, t);
    lemma_times(i, t, t);
    lemma_units(n);
}

} // verus!
