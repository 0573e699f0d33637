//! The drawing hints a node declares, and whether they hang together.

use vstd::prelude::*;

use crate::flat::{lemma_slice_of, slice_of, volume};

verus! {

/// Optional drawing hints a node declares about one group of its slots. Defaults always suffice.
///
/// A node declares a list of these because scale, not authorship, is what shares an axis: an out
/// carrying both a quantity and a price is two plots, and splitting it into two *nodes* to say so
/// would put a step in the topology that computes nothing.
#[derive(Clone, Copy, Debug)]
pub struct Plot {
    /// Which slots of the out this plot draws; none means all of them, which only reads unambiguously
    /// when the node declares a single plot.
    pub slots: &'static [usize],
    /// Names for `slots`, one list per axis of the plot's shape; none means indices. The axis lengths
    /// multiply out to the plot's slot count, in the same row-major order the out flattens in.
    pub labels: &'static [&'static [&'static str]],
    /// Draw on the price pane instead of an own indicator pane; price-denominated.
    pub overlay: bool,
    /// Claim a whole pane. For plots whose shape is the point and that neighbours bury.
    pub solo: bool,
    /// Draw as bars instead of lines. For discrete, sparse acts.
    pub bars: bool,
    /// The plot's four slots are o, h, l and c, drawn as candle outlines rather than four lines.
    /// Price-denominated by construction, so `overlay`.
    pub candles: bool,
}

/// How many slots the axes of some labels name.
pub open spec fn named(labels: Seq<&'static [&'static str]>) -> nat
    decreases labels.len(),
{
    if labels.len() == 0 {
        1
    } else {
        named(labels.drop_last()) * labels.last()@.len()
    }
}

/// Whether the plots of an out of a given shape hang together.
pub open spec fn hang_together(plots: Seq<Plot>, dims: Seq<usize>) -> bool {
    forall|i: int| 0 <= i < plots.len() ==> (#[trigger] plots[i]).fits(plots.len(), dims)
}

impl Plot {
    /// How many slots the plot draws of an out of a given shape.
    pub open spec fn drawn(self, dims: Seq<usize>) -> nat {
        if self.slots@.len() == 0 {
            volume(dims)
        } else {
            self.slots@.len()
        }
    }

    /// Whether one plot of `n` hangs together.
    pub open spec fn fits(self, n: nat, dims: Seq<usize>) -> bool {
        &&& self.slots@.len() == 0 ==> n <= 1
        &&& self.candles ==> self.overlay && self.slots@.len() == 4
        &&& self.labels@.len() > 0 ==> named(self.labels@) == self.drawn(dims)
    }

    /// Whether every axis product of a plot can be counted.
    pub open spec fn countable(self, dims: Seq<usize>) -> bool {
        &&& forall|k: int|
            0 <= k <= self.labels@.len() ==> #[trigger] named(self.labels@.take(k)) <= usize::MAX
        &&& forall|k: int| 0 <= k <= dims.len() ==> #[trigger] volume(dims.take(k)) <= usize::MAX
    }

    /// Every slot on one pane of its own, unnamed.
    pub fn default() -> (r: Plot)
        ensures
            r.slots@.len() == 0,
            r.labels@.len() == 0,
            !r.overlay && !r.solo && !r.bars && !r.candles,
    {
        Plot {
            slots: &[],
            labels: &[],
            overlay: false,
            solo: false,
            bars: false,
            candles: false,
        }
    }

    /// No slots means "every slot", which two plots cannot both claim. A candle plot is four
    /// price-denominated slots, so it names them and rides the price pane. `dims` is the out's own
    /// shape, which a plot claiming all of it is named against.
    pub fn coherent(plots: &[Plot], dims: &[usize]) -> (r: bool)
        requires
            forall|i: int| 0 <= i < plots@.len() ==> (#[trigger] plots@[i]).countable(dims@),
        ensures
            r == hang_together(plots@, dims@),
    {
        let mut i: usize = 0;
        while i < plots.len()
            invariant
                i <= plots@.len(),
                forall|j: int| 0 <= j < plots@.len() ==> (#[trigger] plots@[j]).countable(dims@),
                forall|j: int|
                    0 <= j < i ==> (#[trigger] plots@[j]).fits(plots@.len(), dims@),
            decreases plots@.len() - i,
        {
            let p: &Plot = &plots[i];
            assert(plots@[i as int].countable(dims@));
            if p.slots.len() == 0 && plots.len() > 1 {
                assert(!plots@[i as int].fits(plots@.len(), dims@));
                return false;
            }
            if p.candles && (!p.overlay || p.slots.len() != 4) {
                assert(!plots@[i as int].fits(plots@.len(), dims@));
                return false;
            }
            if p.labels.len() > 0 {
                let drawn: usize = if p.slots.len() == 0 {
                    volume_of(dims)
                } else {
                    p.slots.len()
                };
                if count_named(p) != drawn {
                    assert(!plots@[i as int].fits(plots@.len(), dims@));
                    return false;
                }
            }
            i += 1;
        }
        true
    }
}

fn count_named(p: &Plot) -> (r: usize)
    requires
        forall|k: int|
            0 <= k <= p.labels@.len() ==> #[trigger] named(p.labels@.take(k)) <= usize::MAX,
    ensures
        r == named(p.labels@),
{
    let mut r: usize = 1;
    let mut a: usize = 0;
    while a < p.labels.len()
        invariant
            a <= p.labels@.len(),
            forall|k: int|
                0 <= k <= p.labels@.len() ==> #[trigger] named(p.labels@.take(k)) <= usize::MAX,
            r == named(p.labels@.take(a as int)),
        decreases p.labels@.len() - a,
    {
        assert(named(p.labels@.take(a + 1)) <= usize::MAX);
        assert(p.labels@.take(a + 1).drop_last() =~= p.labels@.take(a as int));
        r = r * p.labels[a].len();
        a += 1;
    }
    assert(p.labels@.take(a as int) =~= p.labels@);
    r
}

/// The product of some lengths.
pub fn volume_of(dims: &[usize]) -> (r: usize)
    requires
        forall|k: int| 0 <= k <= dims@.len() ==> #[trigger] volume(dims@.take(k)) <= usize::MAX,
    ensures
        r == volume(dims@),
{
    let mut r: usize = 1;
    let mut d: usize = 0;
    while d < dims.len()
        invariant
            d <= dims@.len(),
            forall|k: int| 0 <= k <= dims@.len() ==> #[trigger] volume(dims@.take(k)) <= usize::MAX,
            r == volume(dims@.take(d as int)),
        decreases dims@.len() - d,
    {
        assert(volume(dims@.take(d + 1)) <= usize::MAX);
        assert(dims@.take(d + 1).drop_last() =~= dims@.take(d as int));
        r = r * dims[d];
        d += 1;
    }
    assert(dims@.take(d as int) =~= dims@);
    r
}

/// The default plot stands alone over any out.
pub proof fn the_default_plot_stands_alone(p: Plot, dims: Seq<usize>)
    requires
        p.slots@.len() == 0,
        p.labels@.len() == 0,
        !p.candles,
    ensures
        p.fits(1, dims),
{
}

/// How a stage drawn on a pane of its own is drawn.
pub open spec fn plain_plot(labels: Seq<&'static [&'static str]>) -> Plot {
    Plot {
        slots: slice_of(Seq::empty()),
        labels: slice_of(labels),
        overlay: false,
        solo: false,
        bars: false,
        candles: false,
    }
}

/// What a node that says nothing of it is drawn as: all of its slots, alone on a pane.
pub fn default_plots() -> (r: &'static [Plot])
    ensures
        r@ == seq![plain_plot(Seq::empty())],
        forall|dims: Seq<usize>| #[trigger] hang_together(r@, dims),
{
    let r: &'static [Plot] = &[Plot {
        slots: &[],
        labels: &[],
        overlay: false,
        solo: false,
        bars: false,
        candles: false,
    }];
    proof {
        assert(r[0].slots@ =~= Seq::empty());
        assert(r[0].labels@ =~= Seq::empty());
        lemma_slice_of(r[0].slots);
        lemma_slice_of(r[0].labels);
        assert(r@ =~= seq![plain_plot(Seq::empty())]);
    }
    r
}

/// What hangs together on one pane: a plot that draws every slot stands alone, candles are drawn over
/// the prices of four slots, and the names of a plot are as many as the slots it draws.
pub proof fn a_plot_that_fits_can_be_drawn(p: Plot, n: nat, dims: Seq<usize>)
    ensures
        p.fits(n, dims) && n > 1 ==> p.slots@.len() > 0,
        p.fits(n, dims) && p.candles ==> p.overlay && p.slots@.len() == 4,
        p.fits(n, dims) && p.labels@.len() > 0 && p.slots@.len() > 0 ==> named(p.labels@) == p.slots@.len(),
        p.fits(n, dims) && p.labels@.len() > 0 && p.slots@.len() == 0 ==> named(p.labels@) == volume(dims),
        p.slots@.len() > 0 && !p.candles && p.labels@.len() == 0 ==> p.fits(n, dims),
        p.slots@.len() == 4 && p.candles && p.overlay && p.labels@.len() == 0 ==> p.fits(n, dims),
{
}

/// The slots a shape names are the product of what it names along each of its axes.
pub proof fn names_multiply_along_the_axes(
    labels: Seq<&'static [&'static str]>,
    axis: &'static [&'static str],
)
    ensures
        named(Seq::<&'static [&'static str]>::empty()) == 1,
        named(labels.push(axis)) == named(labels) * axis@.len(),
{
    assert(labels.push(axis).drop_last() =~= labels);
}

} // verus!
