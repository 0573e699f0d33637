//! How a retention holds the reach of a series.

use vstd::prelude::*;

use crate::horizon::Horizon;

verus! {

/// How a buffer holds a series' retained reach. The default [`Rows`](crate::rows::Rows) keeps every
/// row; a series whose rows collapse (a book's levels keep only the last quantity per price)
/// implements its own and pays its own state rather than the row count.
///
/// **[`Horizon`] means whatever the impl makes it mean.** `Rows` slides: it trims on every tick, so
/// `Over(tf)` is the last `tf` of wall clock ending now. A batch that folds cannot un-fold, so it
/// has nothing to trim and can only *tumble*: reset on the absolute period boundary, floored from
/// the epoch. What contains it is that the views are different types, so no consumer can read one
/// as the other.
pub trait Batch<T>: Sized {
    type View<'t>: Copy
    where
        Self: 't,
        T: 't;

    /// Whether what is held hangs together.
    open spec fn sound(&self) -> bool {
        arbitrary()
    }

    /// Whether `fresh` can be taken in at `h`.
    open spec fn can_advance(&self, fresh: Seq<T>, h: Horizon) -> bool {
        arbitrary()
    }

    /// What taking `fresh` in at `h` makes of the retention.
    open spec fn advances(&self, fresh: Seq<T>, h: Horizon, after: &Self) -> bool {
        arbitrary()
    }

    /// What stands retained, read at `h`.
    open spec fn views<'t>(&self, h: Horizon, view: Self::View<'t>) -> bool {
        arbitrary()
    }

    /// What a view reads as at another reach.
    open spec fn narrows<'t>(view: Self::View<'t>, h: Horizon, narrowed: Self::View<'t>) -> bool {
        arbitrary()
    }

    /// A view reads one way at one reach.
    proof fn narrows_to_one<'t>(
        view: Self::View<'t>,
        h: Horizon,
        a: Self::View<'t>,
        b: Self::View<'t>,
    )
        requires
            Self::narrows(view, h, a),
            Self::narrows(view, h, b),
        ensures
            a == b,
    ;

    /// Trim to `h`, then append `fresh`. Trimming *before* the append is what makes `past` mean
    /// "what stood behind this tick's batch".
    fn advance(&mut self, fresh: &[T], h: Horizon)
        requires
            old(self).can_advance(fresh@, h),
        ensures
            old(self).advances(fresh@, h, final(self)),
    ;

    /// What stands retained, read at the reach `h` its consumer declared.
    fn read<'t>(&'t self, h: Horizon) -> (r: Self::View<'t>)
        where T: 't,
        requires
            self.sound(),
        ensures
            self.views(h, r),
    ;

    /// The same, for a consumer holding only a view.
    fn narrow<'t>(view: Self::View<'t>, h: Horizon) -> (r: Self::View<'t>)
        where Self: 't, T: 't,
        ensures
            Self::narrows(view, h, r),
    ;
}

} // verus!
