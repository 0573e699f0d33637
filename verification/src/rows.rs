//! A retained run of rows, and the ways a consumer reads back over it.

use vstd::prelude::*;

use crate::horizon::{Horizon, Timeframe};
use crate::retain::Batch;
use crate::stamped::Stamped;

verus! {

/// How many elements lead a run with an event time of `cut` or before: over a run sorted by time,
/// all of them.
pub open spec fn leading<T: Stamped>(s: Seq<T>, cut: int) -> nat
    decreases s.len(),
{
    if s.len() == 0 || s[0].stamp() > cut {
        0
    } else {
        1 + leading(s.drop_first(), cut)
    }
}

/// A period in nanoseconds.
pub open spec fn ns(tf: Timeframe) -> int {
    tf.0 * 1_000_000
}

/// Whether a reach is one a buffer can retain: a count, or a period whose length fits.
pub open spec fn bounded(h: Horizon) -> bool {
    match h {
        Horizon::Elems(_) => true,
        Horizon::Over(tf) => ns(tf) <= i64::MAX,
        _ => false,
    }
}

/// Whether a period back from the newest of some elements is a time there is.
pub open spec fn reachable<T: Stamped>(s: Seq<T>, h: Horizon) -> bool {
    h matches Horizon::Over(tf) ==> (s.len() > 0 ==> s.last().stamp() - ns(tf) >= i64::MIN)
}

/// How many of some elements lie behind a reach that ends at the newest of them.
pub open spec fn behind<T: Stamped>(s: Seq<T>, h: Horizon) -> nat {
    match h {
        Horizon::Elems(k) => if s.len() > k {
            (s.len() - k) as nat
        } else {
            0
        },
        Horizon::Over(tf) => if s.len() > 0 {
            leading(s, s.last().stamp() - ns(tf))
        } else {
            0
        },
        _ => 0,
    }
}

/// What of some elements lies within a reach that ends at the newest of them.
pub open spec fn within<T: Stamped>(s: Seq<T>, h: Horizon) -> Seq<T> {
    s.skip(behind(s, h) as int)
}

/// What [`Rows`] holds.
#[verifier::ext_equal]
pub struct RowsView<T> {
    /// What stood behind this tick's batch, and the batch.
    pub all: Seq<T>,
    /// How many of them are the batch.
    pub fresh: nat,
    /// The highest event time the rows cannot speak for.
    pub watermark: int,
}

impl<T: Stamped> RowsView<T> {
    /// Rows with nothing retained.
    pub open spec fn none() -> Self {
        RowsView { all: Seq::empty(), fresh: 0, watermark: i64::MIN as int }
    }

    /// The watermark once everything behind the reach is dropped.
    pub open spec fn drained(self, h: Horizon) -> int {
        let n = behind(self.all, h) as int;
        if n > 0 && self.all[n - 1].stamp() > self.watermark {
            self.all[n - 1].stamp()
        } else {
            self.watermark
        }
    }

    /// The rows after a tick: trimmed to the reach, and then the batch.
    pub open spec fn advance(self, fresh: Seq<T>, h: Horizon) -> Self {
        let mark = self.drained(h);
        RowsView {
            all: within(self.all, h) + fresh,
            fresh: fresh.len(),
            watermark: if mark == i64::MIN && fresh.len() > 0 {
                fresh[0].stamp()
            } else {
                mark
            },
        }
    }
}

/// The default retention: every row, trimmed on timestamps, handed out as a [`Hist`].
pub struct Rows<T> {
    buf: Vec<T>,
    /// Where the retained window starts. Trimming by draining would move the whole window every
    /// tick, where a cursor moves nothing and the window stays the one contiguous slice [`Hist`]
    /// hands out.
    cur: usize,
    /// The highest event time this batch cannot speak for: the last one dropped, or, before the
    /// first drop, the first one ever seen, since nothing proves the run reached back past it. A
    /// [`Horizon::Over`] window is complete iff it begins strictly after this.
    watermark: i64,
    fresh: usize,
}

impl<T> View for Rows<T> {
    type V = RowsView<T>;

    closed spec fn view(&self) -> RowsView<T> {
        RowsView {
            all: self.buf@.skip(self.cur as int),
            fresh: self.fresh as nat,
            watermark: self.watermark as int,
        }
    }
}

impl<T: Stamped> Default for Rows<T> {
    fn default() -> (r: Self)
        ensures
            r.wf(),
            r@ == RowsView::<T>::none(),
    {
        let r: Rows<T> = Rows { buf: Vec::new(), cur: 0, watermark: i64::MIN, fresh: 0 };
        assert(r@ =~= RowsView::<T>::none());
        r
    }
}

impl<T> Rows<T> {
    /// Rows that hold a run, so many of them this tick's.
    pub fn of(all: Vec<T>, fresh: usize, watermark: i64) -> (r: Self)
        requires
            fresh <= all@.len(),
        ensures
            r.wf(),
            r@ == (RowsView { all: all@, fresh: fresh as nat, watermark: watermark as int }),
    {
        let r = Rows { buf: all, cur: 0, watermark, fresh };
        assert(r.buf@.skip(0) =~= all@);
        r
    }

    /// Whether the cursor and the batch lie within the buffer.
    pub closed spec fn wf(&self) -> bool {
        &&& self.cur <= self.buf@.len()
        &&& self.fresh <= self.buf@.len() - self.cur
    }
}

/// How many elements lead a run with an event time of `cut` or before.
fn count_leading<T: Stamped>(s: &[T], cut: i64) -> (n: usize)
    ensures
        n == leading(s@, cut as int),
        n <= s@.len(),
{
    let mut n: usize = 0;
    assert(s@.skip(0) =~= s@);
    while n < s.len()
        invariant
            n <= s@.len(),
            leading(s@, cut as int) == n + leading(s@.skip(n as int), cut as int),
        decreases s@.len() - n,
    {
        proof {
            assert(s@.skip(n as int).drop_first() =~= s@.skip(n + 1));
            assert(s@.skip(n as int)[0] == s@[n as int]);
        }
        if s[n].ts_ns() > cut {
            return n;
        }
        n += 1;
    }
    n
}

/// How many of some elements lie behind a reach that ends at the newest of them.
fn count_behind<T: Stamped>(s: &[T], h: Horizon) -> (n: usize)
    requires
        bounded(h),
        reachable(s@, h),
    ensures
        n == behind(s@, h),
        n <= s@.len(),
{
    match h {
        Horizon::Elems(k) => if s.len() > k {
            s.len() - k
        } else {
            0
        },
        Horizon::Over(tf) => if s.len() > 0 {
            let cut: i64 = s[s.len() - 1].ts_ns() - Horizon::ns(tf);
            count_leading(s, cut)
        } else {
            0
        },
        _ => 0,
    }
}

/// Append a run of copies.
fn append<T: Copy>(v: &mut Vec<T>, tail: &[T])
    ensures
        final(v)@ == old(v)@ + tail@,
{
    let ghost before = v@;
    let mut i: usize = 0;
    assert(before + tail@.take(0) =~= before);
    while i < tail.len()
        invariant
            i <= tail@.len(),
            v@ == before + tail@.take(i as int),
        decreases tail@.len() - i,
    {
        v.push(tail[i]);
        i += 1;
        assert(v@ =~= before + tail@.take(i as int));
    }
    assert(tail@.take(tail@.len() as int) =~= tail@);
}

impl<T: Copy> Rows<T> {
    /// The same rows, owned apart.
    pub fn copied(&self) -> (r: Self)
        ensures
            r@ == self@,
            self.wf() ==> r.wf(),
    {
        let mut buf: Vec<T> = Vec::new();
        append(&mut buf, self.buf.as_slice());
        assert(buf@ =~= self.buf@);
        Rows { buf, cur: self.cur, watermark: self.watermark, fresh: self.fresh }
    }
}

impl<T: Copy + Stamped + 'static> Batch<T> for Rows<T> {
    type View<'t> = Hist<'t, T>;

    open spec fn sound(&self) -> bool {
        self.wf()
    }

    open spec fn can_advance(&self, fresh: Seq<T>, h: Horizon) -> bool {
        &&& self.wf()
        &&& bounded(h)
        &&& reachable(self@.all, h)
    }

    open spec fn advances(&self, fresh: Seq<T>, h: Horizon, after: &Self) -> bool {
        &&& after.wf()
        &&& after@ == self@.advance(fresh, h)
    }

    open spec fn views<'t>(&self, h: Horizon, view: Hist<'t, T>) -> bool {
        &&& view.wf()
        &&& view.all@ == self@.all
        &&& view.fresh == self@.fresh
        &&& view.horizon == h
        &&& view.watermark == self@.watermark
    }

    open spec fn narrows<'t>(view: Hist<'t, T>, h: Horizon, narrowed: Hist<'t, T>) -> bool {
        narrowed == (Hist { horizon: h, ..view })
    }

    proof fn narrows_to_one<'t>(view: Hist<'t, T>, h: Horizon, a: Hist<'t, T>, b: Hist<'t, T>) {
    }

    fn advance(&mut self, fresh: &[T], h: Horizon) {
        let ghost start = self@;
        let len: usize = self.buf.len();
        let drop: usize = {
            let win: &[T] = vstd::slice::slice_subrange(self.buf.as_slice(), self.cur, len);
            assert(win@ =~= start.all);
            count_behind(win, h)
        };
        if drop > 0 {
            let last: i64 = self.buf[self.cur + drop - 1].ts_ns();
            assert(self.buf@[self.cur + drop - 1] == start.all[drop - 1]);
            if last > self.watermark {
                self.watermark = last;
            }
            self.cur = self.cur + drop;
            // Reclaim only once the dropped prefix dominates: amortized O(1) an element, against a
            // move of the whole window on every tick.
            if self.cur >= len - self.cur {
                let kept: Vec<T> = self.buf.split_off(self.cur);
                self.buf = kept;
                self.cur = 0;
            }
        }
        assert(self.buf@.skip(self.cur as int) =~= within(start.all, h));
        if self.watermark == i64::MIN && fresh.len() > 0 {
            self.watermark = fresh[0].ts_ns();
        }
        let ghost kept = self.buf@;
        append(&mut self.buf, fresh);
        self.fresh = fresh.len();
        assert(self@.all =~= kept.skip(self.cur as int) + fresh@);
        assert(self@ =~= start.advance(fresh@, h));
    }

    fn read<'t>(&'t self, h: Horizon) -> (r: Hist<'t, T>)
        where T: 't,
    {
        let all: &'t [T] = vstd::slice::slice_subrange(
            self.buf.as_slice(),
            self.cur,
            self.buf.len(),
        );
        assert(all@ =~= self@.all);
        Hist { all, fresh: self.fresh, horizon: h, watermark: self.watermark }
    }

    fn narrow<'t>(view: Hist<'t, T>, h: Horizon) -> (r: Hist<'t, T>)
        where Self: 't, T: 't,
    {
        Hist { all: view.all, fresh: view.fresh, horizon: h, watermark: view.watermark }
    }
}

/// What a consumer of a retained series reads: `all = past ++ fresh`, where `fresh` is identical to
/// the unbuffered series out and `past` is what stood behind this tick's batch. `horizon` is the
/// *consumer's* declared one.
#[derive(Debug)]
pub struct Hist<'t, T> {
    pub all: &'t [T],
    pub fresh: usize,
    pub horizon: Horizon,
    /// The retaining buffer's highest dropped event time.
    pub watermark: i64,
}

impl<'t, T> Clone for Hist<'t, T> {
    fn clone(&self) -> (r: Self)
        ensures
            r == *self,
    {
        *self
    }
}

impl<'t, T> Copy for Hist<'t, T> {

}

impl<'t, T> Hist<'t, T> {
    /// Whether the batch lies within what is retained.
    pub open spec fn wf(&self) -> bool {
        self.fresh <= self.all@.len()
    }

    /// What stood behind this tick's batch, as far as the buffer retains.
    pub open spec fn retained_past(&self) -> Seq<T> {
        self.all@.take(self.all@.len() - self.fresh)
    }

    /// This tick's batch.
    pub open spec fn batch(&self) -> Seq<T> {
        self.all@.skip(self.all@.len() - self.fresh)
    }

    /// This tick's emissions, identical to the unbuffered series out.
    pub fn fresh(self) -> (r: &'t [T])
        requires
            self.wf(),
        ensures
            r@ == self.batch(),
    {
        let len: usize = self.all.len();
        let r: &'t [T] = vstd::slice::slice_subrange(self.all, len - self.fresh, len);
        assert(r@ =~= self.batch());
        r
    }
}

impl<'t, T: Stamped> Hist<'t, T> {
    /// Whether the view can be cut to its reach.
    pub open spec fn cuttable(&self) -> bool {
        self.wf() && (self.all@.len() > self.fresh ==> bounded(self.horizon) && reachable(
            self.retained_past(),
            self.horizon,
        ))
    }

    /// What stood behind this tick's batch at the declared reach, and the batch.
    pub open spec fn declared(&self) -> Seq<T> {
        within(self.retained_past(), self.horizon) + self.batch()
    }

    /// What stood behind this tick's batch, at the declared reach.
    pub fn past(self) -> (r: &'t [T])
        requires
            self.cuttable(),
        ensures
            r@ == within(self.retained_past(), self.horizon),
    {
        let all: &'t [T] = self.all();
        let r: &'t [T] = vstd::slice::slice_subrange(all, 0, all.len() - self.fresh);
        assert(r@ =~= within(self.retained_past(), self.horizon));
        r
    }

    /// `past ++ fresh`: the cross-rate view, for a consumer clocked by some faster series that must
    /// find the run standing at its own deadline.
    ///
    /// Cut to the *declared* reach by the same predicate the buffer trims on, so a node reads what a
    /// frame buffering at exactly its own reach would hold. Without the cut, a run is only as long as
    /// the deepest unrelated consumer of the same series happens to ask for, and shortening that one
    /// silently changes this one's results.
    pub fn all(self) -> (r: &'t [T])
        requires
            self.cuttable(),
        ensures
            r@ == self.declared(),
    {
        let len: usize = self.all.len();
        let past: usize = len - self.fresh;
        // `fresh` is wholly in reach however shallow the declaration, so nothing behind the batch is
        // nothing to cut.
        if past == 0 {
            assert(self.declared() =~= self.all@);
            return self.all;
        }
        // keyed on the pre-batch newest rather than the batch's own tail: the reference the buffer
        // itself trims against.
        let behind_batch: &'t [T] = vstd::slice::slice_subrange(self.all, 0, past);
        assert(behind_batch@ =~= self.retained_past());
        let drop: usize = count_behind(behind_batch, self.horizon);
        let r: &'t [T] = vstd::slice::slice_subrange(self.all, drop, len);
        assert(r@ =~= self.declared());
        r
    }

    /// Everything up to and with the `i`-th element of the batch.
    pub open spec fn upto(&self, i: int) -> Seq<T> {
        self.all@.take(self.all@.len() - self.fresh + i + 1)
    }

    /// Whether a window can end at the `i`-th element of the batch: it is one, a count takes in at
    /// least itself, and a period has a length and a start.
    pub open spec fn can_trail(&self, i: int) -> bool {
        &&& self.wf()
        &&& 0 <= i < self.fresh
        &&& match self.horizon {
            Horizon::Elems(n) => n >= 1,
            Horizon::Over(tf) => 0 < ns(tf) <= i64::MAX && self.upto(i).last().stamp() - ns(tf)
                >= i64::MIN,
            _ => false,
        }
    }

    /// The window ending at the `i`-th element of the batch, if it is complete.
    pub open spec fn window(&self, i: int) -> Option<Seq<T>> {
        let s = self.upto(i);
        match self.horizon {
            Horizon::Elems(n) => if s.len() >= n {
                Some(s.skip(s.len() - n))
            } else {
                None
            },
            Horizon::Over(tf) => {
                let cut = s.last().stamp() - ns(tf);
                if cut >= self.watermark {
                    Some(s.skip(leading(s, cut) as int))
                } else {
                    None
                }
            },
            _ => None,
        }
    }

    /// The window ending at `fresh()[i]`, and the lag of its *first* element; `None` when the window
    /// is incomplete: fewer than `Elems(n)` retained, or an `Over` reaching past what the buffer has
    /// dropped.
    pub fn trailing_at(self, i: usize) -> (r: Option<(&'t [T], usize)>)
        requires
            self.can_trail(i as int),
        ensures
            match r {
                Some((w, lag)) => {
                    &&& self.window(i as int) == Some(w@)
                    &&& w@.len() > 0
                    &&& lag == self.fresh - 1 - i + w@.len() - 1
                },
                None => self.window(i as int) is None,
            },
    {
        let len: usize = self.all.len();
        let end: usize = len - self.fresh + i + 1;
        let upto: &'t [T] = vstd::slice::slice_subrange(self.all, 0, end);
        assert(upto@ =~= self.upto(i as int));
        let win: &'t [T] = match self.horizon {
            Horizon::Elems(n) => {
                if end < n {
                    return None;
                }
                let w: &'t [T] = vstd::slice::slice_subrange(upto, end - n, end);
                assert(w@ =~= upto@.skip(end - n));
                w
            },
            // exclusive: the window is the last `tf` of wall clock, the same predicate the buffer
            // trims on, so what it retains and what a consumer reads are one statement.
            Horizon::Over(tf) => {
                let cut: i64 = upto[end - 1].ts_ns() - Horizon::ns(tf);
                if cut < self.watermark {
                    return None;
                }
                let n: usize = count_leading(upto, cut);
                proof {
                    lemma_leading_stops(upto@, cut as int, end - 1);
                }
                let w: &'t [T] = vstd::slice::slice_subrange(upto, n, end);
                assert(w@ =~= upto@.skip(n as int));
                w
            },
            _ => return None,
        };
        let lag: usize = self.fresh - 1 - i + (win.len() - 1);
        Some((win, lag))
    }

    /// Where the element `n` back from the `i`-th of the batch stands at the declared reach.
    pub open spec fn place(&self, i: int, n: int) -> int {
        self.declared().len() - self.fresh + i - n
    }

    /// The element `n` back from `fresh()[i]`, over [`all`](Hist::all), and its lag; `None` where the
    /// retained run does not reach that far. `n == 0` is the fresh element itself.
    ///
    /// The lag is from `fresh()`'s newest, and so is `n` plus however far element `i` itself stands
    /// behind the batch's end.
    pub fn lagged_at(self, i: usize, n: usize) -> (r: Option<(&'t T, usize)>)
        requires
            self.cuttable(),
            i < self.fresh,
        ensures
            match r {
                Some((x, lag)) => {
                    &&& self.place(i as int, n as int) >= 0
                    &&& *x == self.declared()[self.place(i as int, n as int)]
                    &&& lag == self.fresh - 1 - i + n
                },
                None => self.place(i as int, n as int) < 0,
            },
    {
        let all: &'t [T] = self.all();
        let at: usize = all.len() - self.fresh + i;
        if at < n {
            return None;
        }
        let x: &'t T = &all[at - n];
        Some((x, self.fresh - 1 - i + n))
    }

    /// One window per fresh element: rate preservation for free.
    pub fn trailing(self) -> (r: Vec<Option<&'t [T]>>)
        requires
            forall|i: int| 0 <= i < self.fresh ==> #[trigger] self.can_trail(i),
            self.wf(),
        ensures
            r@.len() == self.fresh,
            forall|i: int|
                0 <= i < self.fresh ==> match #[trigger] r@[i] {
                    Some(w) => self.window(i) == Some(w@),
                    None => self.window(i) is None,
                },
    {
        let mut out: Vec<Option<&'t [T]>> = Vec::new();
        let mut i: usize = 0;
        while i < self.fresh
            invariant
                i <= self.fresh,
                self.wf(),
                forall|k: int| 0 <= k < self.fresh ==> #[trigger] self.can_trail(k),
                out@.len() == i,
                forall|k: int|
                    0 <= k < i ==> match #[trigger] out@[k] {
                        Some(w) => self.window(k) == Some(w@),
                        None => self.window(k) is None,
                    },
            decreases self.fresh - i,
        {
            assert(self.can_trail(i as int));
            match self.trailing_at(i) {
                Some((w, _)) => out.push(Some(w)),
                None => out.push(None),
            }
            i += 1;
        }
        out
    }

    /// A view at a shallower horizon, for a window whose size is a runtime knob.
    pub fn narrowed(self, h: Horizon) -> (r: Self)
        requires
            self.horizon.spec_serves(h),
        ensures
            r == (Hist { horizon: h, ..self }),
    {
        Hist { all: self.all, fresh: self.fresh, horizon: h, watermark: self.watermark }
    }
}

/// The leading run stops before an element past the cut.
pub proof fn lemma_leading_stops<T: Stamped>(s: Seq<T>, cut: int, i: int)
    requires
        0 <= i < s.len(),
        s[i].stamp() > cut,
    ensures
        leading(s, cut) <= i,
    decreases s.len(),
{
    if s[0].stamp() <= cut {
        lemma_leading_stops(s.drop_first(), cut, i - 1);
    }
}

/// A series item read as "did this element carry anything": what a level must ask before it keeps
/// one. An item that is a rate-preserving decline, retained as the standing value, would hold an
/// absence forever.
pub trait Present: Copy {
    type Val: Copy;

    open spec fn value(self) -> Option<Self::Val> {
        arbitrary()
    }

    fn present(self) -> (r: Option<Self::Val>)
        ensures
            r == self.value(),
    ;
}

impl<T: Copy> Present for Option<T> {
    type Val = T;

    open spec fn value(self) -> Option<T> {
        self
    }

    fn present(self) -> (r: Option<T>) {
        self
    }
}

/// A run read for one of its elements, lag and all, so no per-element kernel counts `len - 1 - i` on
/// its own. The lag is from the run's newest.
pub trait Lagged<T> {
    /// The elements.
    open spec fn elems(&self) -> Seq<T> {
        arbitrary()
    }

    /// How far the newest of them stands behind the run's newest.
    open spec fn back(&self) -> int {
        arbitrary()
    }

    fn at(&self, i: usize) -> (r: Option<(&T, usize)>)
        requires
            self.elems().len() + self.back() <= usize::MAX,
        ensures
            match r {
                Some((x, lag)) => {
                    &&& i < self.elems().len()
                    &&& *x == self.elems()[i as int]
                    &&& lag == self.elems().len() - 1 - i + self.back()
                },
                None => i >= self.elems().len(),
            },
    ;

    fn newest(&self) -> (r: Option<(&T, usize)>)
        requires
            self.elems().len() + self.back() <= usize::MAX,
        ensures
            match r {
                Some((x, lag)) => {
                    &&& self.elems().len() > 0
                    &&& *x == self.elems().last()
                    &&& lag == self.back()
                },
                None => self.elems().len() == 0,
            },
    ;
}

impl<T> Lagged<T> for [T] {
    open spec fn elems(&self) -> Seq<T> {
        self@
    }

    open spec fn back(&self) -> int {
        0
    }

    fn at(&self, i: usize) -> (r: Option<(&T, usize)>) {
        let n: usize = self.len();
        if i < n {
            let x: &T = &self[i];
            assert(*x == self.elems()[i as int]);
            assert(self.elems().len() == n);
            assert(self.back() == 0);
            Some((x, n - 1 - i))
        } else {
            None
        }
    }

    fn newest(&self) -> (r: Option<(&T, usize)>) {
        if self.len() > 0 {
            Some((&self[self.len() - 1], 0))
        } else {
            None
        }
    }
}

/// A *prefix* of a run, carrying how far its own end stands behind the run's newest. A cross-rate
/// reader cuts a series at its own deadline and then picks inside the cut; without this the pick
/// would report a lag against the cut instead of against the column it lands in.
#[derive(Debug)]
pub struct Tail<'t, T> {
    pub xs: &'t [T],
    pub behind: usize,
}

impl<'t, T> Clone for Tail<'t, T> {
    fn clone(&self) -> (r: Self)
        ensures
            r == *self,
    {
        *self
    }
}

impl<'t, T> Copy for Tail<'t, T> {

}

impl<'t, T> Tail<'t, T> {
    /// A run, whole.
    pub fn of(xs: &'t [T]) -> (r: Self)
        ensures
            r.xs@ == xs@,
            r.behind == 0,
    {
        Tail { xs, behind: 0 }
    }

    /// The elements themselves, for a search that reads more than one of them.
    pub fn as_slice(self) -> (r: &'t [T])
        ensures
            r@ == self.xs@,
    {
        self.xs
    }

    /// The longest prefix `f` holds over: `f` monotone, as a deadline over a sorted run is.
    pub fn upto<F: Fn(&T) -> bool>(self, f: F) -> (r: Self)
        requires
            forall|i: int| 0 <= i < self.xs@.len() ==> call_requires(f, (&#[trigger] self.xs@[i],)),
            self.behind + self.xs@.len() <= usize::MAX,
        ensures
            r.xs@.len() <= self.xs@.len(),
            r.xs@ == self.xs@.take(r.xs@.len() as int),
            r.behind == self.behind + self.xs@.len() - r.xs@.len(),
            forall|i: int| 0 <= i < r.xs@.len() ==> call_ensures(f, (&#[trigger] r.xs@[i],), true),
            r.xs@.len() < self.xs@.len() ==> call_ensures(
                f,
                (&self.xs@[r.xs@.len() as int],),
                false,
            ),
    {
        let mut n: usize = 0;
        while n < self.xs.len()
            invariant
                n <= self.xs@.len(),
                self.behind + self.xs@.len() <= usize::MAX,
                forall|i: int|
                    0 <= i < self.xs@.len() ==> call_requires(f, (&#[trigger] self.xs@[i],)),
                forall|i: int| 0 <= i < n ==> call_ensures(f, (&#[trigger] self.xs@[i],), true),
            decreases self.xs@.len() - n,
        {
            let x: &'t T = &self.xs[n];
            assert(call_requires(f, (&self.xs@[n as int],)));
            if !f(x) {
                return self.prefix(n);
            }
            n += 1;
        }
        self.prefix(n)
    }

    /// The first `n` elements.
    fn prefix(self, n: usize) -> (r: Self)
        requires
            n <= self.xs@.len(),
            self.behind + self.xs@.len() <= usize::MAX,
        ensures
            r.xs@ == self.xs@.take(n as int),
            r.behind == self.behind + self.xs@.len() - n,
    {
        let xs: &'t [T] = vstd::slice::slice_subrange(self.xs, 0, n);
        assert(xs@ =~= self.xs@.take(n as int));
        Tail { xs, behind: self.behind + (self.xs.len() - n) }
    }
}

impl<'t, T> Lagged<T> for Tail<'t, T> {
    open spec fn elems(&self) -> Seq<T> {
        self.xs@
    }

    open spec fn back(&self) -> int {
        self.behind as int
    }

    fn at(&self, i: usize) -> (r: Option<(&T, usize)>) {
        if i < self.xs.len() {
            Some((&self.xs[i], self.xs.len() - 1 - i + self.behind))
        } else {
            None
        }
    }

    fn newest(&self) -> (r: Option<(&T, usize)>) {
        if self.xs.len() > 0 {
            Some((&self.xs[self.xs.len() - 1], self.behind))
        } else {
            None
        }
    }
}

} // verus!
