//! What holds of a retained run over every sequence of ticks.

use vstd::prelude::*;

use crate::horizon::{Horizon, Timeframe};
use crate::rows::{behind, leading, ns, within, Hist, Present, RowsView};
use crate::series::{newest, standing};
use crate::stamped::Stamped;

verus! {

/// Whether event times never run backwards.
pub open spec fn sorted<T: Stamped>(s: Seq<T>) -> bool {
    forall|i: int, j: int|
        0 <= i <= j < s.len() ==> (#[trigger] s[i]).stamp() <= (#[trigger] s[j]).stamp()
}

/// Everything some ticks brought.
pub open spec fn history<T>(ticks: Seq<Seq<T>>) -> Seq<T>
    decreases ticks.len(),
{
    if ticks.len() == 0 {
        Seq::empty()
    } else {
        history(ticks.drop_last()) + ticks.last()
    }
}

/// What is retained at a reach after some ticks.
pub open spec fn retained<T: Stamped>(h: Horizon, ticks: Seq<Seq<T>>) -> RowsView<T>
    decreases ticks.len(),
{
    if ticks.len() == 0 {
        RowsView::none()
    } else {
        retained(h, ticks.drop_last()).advance(ticks.last(), h)
    }
}

/// Elements that all lie at or before a cut lead, however many they are.
pub proof fn lemma_leading_skips<T: Stamped>(s: Seq<T>, cut: int, d: int)
    requires
        0 <= d <= s.len(),
        forall|i: int| 0 <= i < d ==> (#[trigger] s[i]).stamp() <= cut,
    ensures
        leading(s, cut) == d + leading(s.skip(d), cut),
    decreases d,
{
    if d == 0 {
        assert(s.skip(0) =~= s);
    } else {
        assert(s[0].stamp() <= cut);
        let t = s.drop_first();
        assert forall|i: int| 0 <= i < d - 1 implies (#[trigger] t[i]).stamp() <= cut by {
            assert(t[i] == s[i + 1]);
        }
        lemma_leading_skips(t, cut, d - 1);
        assert(t.skip(d - 1) =~= s.skip(d));
    }
}

/// What leads lies at or before the cut, and is no more than there is.
pub proof fn lemma_leading_before<T: Stamped>(s: Seq<T>, cut: int)
    ensures
        leading(s, cut) <= s.len(),
        forall|i: int| 0 <= i < leading(s, cut) ==> (#[trigger] s[i]).stamp() <= cut,
        leading(s, cut) < s.len() ==> s[leading(s, cut) as int].stamp() > cut,
    decreases s.len(),
{
    if s.len() > 0 && s[0].stamp() <= cut {
        let t = s.drop_first();
        lemma_leading_before(t, cut);
        assert forall|i: int| 0 <= i < leading(s, cut) implies (#[trigger] s[i]).stamp() <= cut by {
            if i > 0 {
                assert(t[i - 1] == s[i]);
            }
        }
    }
}

/// Trimming before an append loses nothing that trimming after it would keep.
proof fn lemma_within_appends<T: Stamped>(a: Seq<T>, b: Seq<T>, h: Horizon)
    requires
        h is Over ==> sorted(a + b),
    ensures
        within(within(a, h) + b, h) == within(a + b, h),
{
    match h {
        Horizon::Elems(k) => {
            assert(within(within(a, h) + b, h) =~= within(a + b, h));
        },
        Horizon::Over(tf) => {
            if a.len() == 0 {
                assert(within(a, h) =~= a);
            } else {
                let cut = a.last().stamp() - ns(tf);
                lemma_leading_before(a, cut);
                let d = leading(a, cut) as int;
                let s = a + b;
                let t = within(a, h) + b;
                assert(s.skip(d) =~= t);
                let newest = s.last();
                assert(s[a.len() - 1] == a.last());
                assert(a.last().stamp() <= newest.stamp());
                if t.len() > 0 {
                    assert(t.last() == newest);
                    let cut2 = newest.stamp() - ns(tf);
                    assert forall|i: int| 0 <= i < d implies (#[trigger] s[i]).stamp() <= cut2 by {
                        assert(s[i] == a[i]);
                    }
                    lemma_leading_skips(s, cut2, d);
                    lemma_leading_before(t, cut2);
                    assert(t.skip(leading(t, cut2) as int) =~= s.skip(d + leading(t, cut2)));
                } else {
                    assert(b.len() == 0);
                    assert(s =~= a);
                    lemma_leading_skips(s, cut, d);
                    assert(within(t, h) =~= within(s, h));
                }
            }
        },
        _ => {
            assert(within(a, h) =~= a);
        },
    }
}

/// A prefix of times that never run backwards is one.
proof fn lemma_sorted_prefix<T: Stamped>(a: Seq<T>, b: Seq<T>)
    requires
        sorted(a + b),
    ensures
        sorted(a),
{
    assert forall|i: int, j: int| 0 <= i <= j < a.len() implies (#[trigger] a[i]).stamp() <= (
    #[trigger] a[j]).stamp() by {
        assert((a + b)[i] == a[i] && (a + b)[j] == a[j]);
    }
}

/// Retention is exact: after every tick, what is retained is the tick's batch and, behind it, just
/// that part of everything before it which lies within the reach, as if nothing had ever been
/// dropped. A window of wall clock asks for event times that never run backwards.
pub proof fn retention_is_exact<T: Stamped>(h: Horizon, ticks: Seq<Seq<T>>)
    requires
        ticks.len() > 0,
        h is Over ==> sorted(history(ticks)),
    ensures
        retained(h, ticks).all == within(history(ticks.drop_last()), h) + ticks.last(),
        retained(h, ticks).fresh == ticks.last().len(),
    decreases ticks.len(),
{
    let before = ticks.drop_last();
    if before.len() == 0 {
        assert(within(Seq::<T>::empty(), h) =~= Seq::empty());
        assert(retained(h, before).all =~= Seq::empty());
    } else {
        if h is Over {
            lemma_sorted_prefix(history(before), ticks.last());
        }
        retention_is_exact(h, before);
        lemma_within_appends(history(before.drop_last()), before.last(), h);
    }
}

/// A shorter reach within a longer one is the shorter reach.
proof fn lemma_within_narrows<T: Stamped>(s: Seq<T>, k: Horizon, h: Horizon)
    requires
        k.spec_serves(h),
        k is Over ==> sorted(s),
        k is Over && h is Elems ==> within(s, k).len() >= h->Elems_0 || within(s, k) == s,
    ensures
        within(within(s, k), h) == within(s, h),
{
    match (k, h) {
        (Horizon::Elems(a), Horizon::Elems(b)) => {
            assert(within(within(s, k), h) =~= within(s, h));
        },
        (Horizon::Over(a), Horizon::Over(b)) => {
            if s.len() > 0 {
                let far = s.last().stamp() - ns(a);
                let near = s.last().stamp() - ns(b);
                lemma_leading_before(s, far);
                let d = leading(s, far) as int;
                let t = within(s, k);
                assert(t =~= s.skip(d));
                lemma_leading_skips(s, near, d);
                if t.len() > 0 {
                    assert(t.last() == s.last());
                    lemma_leading_before(t, near);
                    assert(t.skip(leading(t, near) as int) =~= s.skip(d + leading(t, near)));
                } else {
                    assert(within(t, h) =~= within(s, h));
                }
            } else {
                assert(within(s, k) =~= s);
            }
        },
        (Horizon::Over(a), Horizon::Elems(b)) => {
            if s.len() > 0 {
                lemma_leading_before(s, s.last().stamp() - ns(a));
            }
            assert(within(within(s, k), h) =~= within(s, h));
        },
        _ => {},
    }
}

/// A consumer reads at the reach it declared, not at the frame's: what it is handed off a buffer
/// retaining further is what a buffer retaining at exactly its own reach would hold.
///
/// A count read off a window of wall clock is there in full only where the window retains that many
/// elements, or has dropped none.
pub proof fn all_answers_at_the_declared_reach<T: Stamped>(
    k: Horizon,
    h: Horizon,
    ticks: Seq<Seq<T>>,
    view: Hist<'_, T>,
)
    requires
        ticks.len() > 0,
        k.spec_serves(h),
        k is Over ==> sorted(history(ticks)),
        k is Over && h is Elems ==> within(history(ticks.drop_last()), k).len() >= h->Elems_0
            || within(history(ticks.drop_last()), k) == history(ticks.drop_last()),
        view.all@ == retained(k, ticks).all,
        view.fresh == retained(k, ticks).fresh,
        view.horizon == h,
    ensures
        view.declared() == retained(h, ticks).all,
{
    let past = history(ticks.drop_last());
    if k is Over {
        lemma_sorted_prefix(past, ticks.last());
    }
    retention_is_exact(k, ticks);
    retention_is_exact(h, ticks);
    lemma_within_narrows(past, k, h);
    assert(view.retained_past() =~= within(past, k));
    assert(view.batch() =~= ticks.last());
}

/// What was dropped stands in front of what is retained, at or before the watermark.
proof fn lemma_dropped<T: Stamped>(h: Horizon, ticks: Seq<Seq<T>>)
    requires
        sorted(history(ticks)),
    ensures
        ({
            let v = retained(h, ticks);
            let all = history(ticks);
            &&& v.all.len() <= all.len()
            &&& v.all == all.skip(all.len() - v.all.len())
            &&& forall|i: int|
                0 <= i < all.len() - v.all.len() ==> (#[trigger] all[i]).stamp() <= v.watermark
        }),
    decreases ticks.len(),
{
    let v = retained(h, ticks);
    let all = history(ticks);
    if ticks.len() == 0 {
        assert(all.skip(0) =~= all);
        assert(v.all =~= all);
    } else {
        let before = ticks.drop_last();
        let u = retained(h, before);
        let old_all = history(before);
        lemma_sorted_prefix(old_all, ticks.last());
        lemma_dropped(h, before);
        let n = behind(u.all, h) as int;
        if h is Over && u.all.len() > 0 {
            lemma_leading_before(u.all, u.all.last().stamp() - ns(h->Over_0));
        }
        assert(0 <= n <= u.all.len());
        let d = old_all.len() - u.all.len();
        assert(u.all.skip(n) =~= old_all.skip(d + n));
        assert(v.all =~= all.skip(d + n));
        assert forall|i: int| 0 <= i < d + n implies (#[trigger] all[i]).stamp() <= v.watermark by {
            assert(all[i] == old_all[i]);
            if i >= d {
                assert(u.all[i - d] == old_all[i]);
                assert(u.all[n - 1] == old_all[d + n - 1]);
                assert(old_all[i].stamp() <= old_all[d + n - 1].stamp());
            } else {
                assert(old_all[i].stamp() <= u.watermark);
            }
            assert(u.drained(h) <= v.watermark || v.watermark == ticks.last()[0].stamp());
            if u.drained(h) == i64::MIN && ticks.last().len() > 0 {
                assert(all[old_all.len() as int] == ticks.last()[0]);
                assert(all[i].stamp() <= all[old_all.len() as int].stamp());
            }
        }
    }
}

/// The watermark is exact: a window that begins at or after it holds every element of everything
/// ever seen that the window takes in, however much has been dropped.
pub proof fn a_window_past_the_watermark_is_complete<T: Stamped>(
    h: Horizon,
    ticks: Seq<Seq<T>>,
    cut: int,
)
    requires
        sorted(history(ticks)),
        cut >= retained(h, ticks).watermark,
    ensures
        ({
            let v = retained(h, ticks).all;
            let all = history(ticks);
            all.skip(leading(all, cut) as int) == v.skip(leading(v, cut) as int)
        }),
{
    let v = retained(h, ticks).all;
    let all = history(ticks);
    lemma_dropped(h, ticks);
    let d = all.len() - v.len();
    lemma_leading_skips(all, cut, d);
    lemma_leading_before(v, cut);
    assert(all.skip(d).skip(leading(v, cut) as int) =~= all.skip(d + leading(v, cut)));
}

/// What is within a reach of so many elements is the last so many of them, or all there are.
pub proof fn a_reach_of_elements_keeps_the_last<T: Stamped>(s: Seq<T>, k: usize)
    ensures
        s.len() <= k ==> within(s, Horizon::Elems(k)) == s,
        s.len() > k ==> within(s, Horizon::Elems(k)).len() == k && forall|i: int|
            0 <= i < k ==> (#[trigger] within(s, Horizon::Elems(k))[i]) == s[s.len() - k + i],
{
    if s.len() <= k {
        assert(within(s, Horizon::Elems(k)) =~= s);
    }
}

/// What is within a window of time is what happened after it began, which is its length before the last
/// of it: every element kept is later than that, and every one dropped is not.
pub proof fn a_reach_of_time_keeps_what_is_later<T: Stamped>(s: Seq<T>, tf: Timeframe)
    requires
        s.len() > 0,
        sorted(s),
    ensures
        ({
            let kept = within(s, Horizon::Over(tf));
            let began = s.last().stamp() - tf.0 * 1_000_000;
            let dropped = s.len() - kept.len();
            &&& 0 <= dropped <= s.len()
            &&& kept == s.skip(dropped)
            &&& forall|i: int| 0 <= i < dropped ==> (#[trigger] s[i]).stamp() <= began
            &&& forall|i: int| dropped <= i < s.len() ==> (#[trigger] s[i]).stamp() > began
        }),
{
    let cut = s.last().stamp() - tf.0 * 1_000_000;
    let n = leading(s, cut) as int;
    lemma_leading_before(s, cut);
    assert forall|i: int| n <= i < s.len() implies (#[trigger] s[i]).stamp() > cut by {
        assert(s[n].stamp() <= s[i].stamp());
    }
}

/// The window that trails an element is what its reach says, counted from that element: so many
/// elements up to it, where so many have been; or all that happened since its length before it, where
/// nothing that late has been dropped.
pub proof fn a_window_trails_its_element<T: Stamped>(view: Hist<'_, T>, i: int)
    requires
        view.wf(),
        0 <= i < view.fresh,
        sorted(view.all@),
    ensures
        ({
            let at = view.all@.len() - view.fresh + i;
            let here = view.all@[at].stamp();
            match (view.horizon, view.window(i)) {
                (Horizon::Elems(n), None) => at + 1 < n,
                (Horizon::Elems(n), Some(w)) => n <= at + 1 && w == view.all@.subrange(
                    at + 1 - n,
                    at + 1,
                ),
                (Horizon::Over(tf), None) => here - tf.0 * 1_000_000 < view.watermark,
                (Horizon::Over(tf), Some(w)) => {
                    let (began, from) = (here - tf.0 * 1_000_000, at + 1 - w.len());
                    &&& began >= view.watermark
                    &&& 0 <= from <= at + 1
                    &&& w == view.all@.subrange(from, at + 1)
                    &&& forall|k: int| 0 <= k < from ==> (#[trigger] view.all@[k]).stamp() <= began
                    &&& forall|k: int| from <= k <= at ==> (#[trigger] view.all@[k]).stamp() > began
                },
                (_, w) => w is None,
            }
        }),
{
    let at = view.all@.len() - view.fresh + i;
    let s = view.upto(i);
    assert(s.last() == view.all@[at]);
    match view.horizon {
        Horizon::Elems(n) => {
            if n <= s.len() {
                assert(s.skip(s.len() - n) =~= view.all@.subrange(at + 1 - n, at + 1));
            }
        },
        Horizon::Over(tf) => {
            let cut = s.last().stamp() - tf.0 * 1_000_000;
            let n = leading(s, cut) as int;
            lemma_leading_before(s, cut);
            assert(s.skip(n) =~= view.all@.subrange(n, at + 1));
            assert forall|k: int| 0 <= k < n implies (#[trigger] view.all@[k]).stamp() <= cut by {
                assert(s[k] == view.all@[k]);
            }
            assert forall|k: int| n <= k <= at implies (#[trigger] view.all@[k]).stamp() > cut by {
                assert(s[n] == view.all@[n]);
                assert(view.all@[n].stamp() <= view.all@[k].stamp());
            }
        },
        _ => {},
    }
}

/// The watermark is the time of the last that was dropped, once anything was; until then it is when the
/// run began, and of nothing at all it is the beginning of time.
pub proof fn the_watermark_is_what_was_dropped_last<T: Stamped>(v: RowsView<T>, fresh: Seq<T>, h: Horizon)
    requires
        sorted(v.all),
        v.watermark >= i64::MIN,
        fresh.len() > 0 ==> fresh[0].stamp() >= i64::MIN,
    ensures
        ({
            let after = v.advance(fresh, h);
            let dropped = v.all.len() - within(v.all, h).len();
            &&& after.watermark >= v.watermark
            &&& 0 < dropped <= v.all.len() && v.all[dropped - 1].stamp() > v.watermark ==> after.watermark
                == v.all[dropped - 1].stamp()
            &&& dropped == 0 && v.watermark > i64::MIN ==> after.watermark == v.watermark
            &&& dropped == 0 && v.watermark == i64::MIN && fresh.len() > 0 ==> after.watermark == fresh[0].stamp()
            &&& RowsView::<T>::none().watermark == i64::MIN
            &&& RowsView::<T>::none().all.len() == 0
            &&& after.fresh == fresh.len()
            &&& after.all.skip(after.all.len() - fresh.len()) == fresh
        }),
{
    lemma_behind_bounds(v.all, h);
    let after = v.advance(fresh, h);
    assert(after.all.skip(after.all.len() - fresh.len()) =~= fresh);
}

proof fn lemma_behind_bounds<T: Stamped>(s: Seq<T>, h: Horizon)
    ensures
        behind(s, h) <= s.len(),
{
    if let Horizon::Over(tf) = h {
        if s.len() > 0 {
            lemma_leading_before(s, s.last().stamp() - ns(tf));
        }
    }
}

/// The level a run leaves is the last of its elements that carried anything; a run that carried nothing
/// leaves the one that stood.
pub proof fn a_level_is_the_last_that_was_carried<T: Present>(held: Option<T::Val>, run: Seq<T>, i: int)
    requires
        0 <= i < run.len(),
        forall|k: int| i < k < run.len() ==> (#[trigger] run[k]).value() is None,
    ensures
        run[i].value() is Some ==> standing(held, run) == run[i].value(),
        i == 0 && run[0].value() is None ==> standing(held, run) == held,
        standing(held, Seq::<T>::empty()) == held,
    decreases run.len(),
{
    if i < run.len() - 1 {
        let rest = run.drop_last();
        assert(run.last().value() is None);
        assert forall|k: int| i < k < rest.len() implies (#[trigger] rest[k]).value() is None by {
            assert(rest[k] == run[k]);
        }
        a_level_is_the_last_that_was_carried(held, rest, i);
        assert(rest[i] == run[i]);
    } else if run.len() == 1 {
        assert(run.drop_last() =~= Seq::<T>::empty());
        assert(newest(run.drop_last()) is None);
    }
}

/// What a view retains is what stood behind its batch and then the batch, and what stands up to an
/// element of the batch ends in that element.
pub proof fn a_batch_is_the_newest_of_what_is_retained<T: Stamped>(view: Hist<'_, T>, i: int)
    requires
        0 <= i < view.fresh <= view.all@.len(),
    ensures
        view.retained_past() + view.batch() == view.all@,
        view.batch().len() == view.fresh,
        view.upto(i).len() == view.retained_past().len() + i + 1,
        view.upto(i).last() == view.batch()[i],
        view.upto(i) == view.all@.take(view.upto(i).len() as int),
{
    assert(view.retained_past() + view.batch() =~= view.all@);
}

} // verus!
