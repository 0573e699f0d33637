//! What a sweep shows of itself: the flattening of each node as it fires, and who reads it.

use vstd::prelude::*;

use crate::dep_flat::shapes;
use crate::glance::Glance;
use crate::horizon::Timeframe;
use crate::plot::Plot;
use crate::scalar::Scalar;
use crate::shape::Fidelity;
use crate::want::Want;

verus! {

/// One node firing, flattened: its values and its local Jacobian over its deps.
#[derive(Clone, Copy)]
pub struct Fire<'a, V> {
    /// What the node looks like.
    pub glance: &'a str,
    /// The shape of the out.
    pub dims: &'a [usize],
    pub plots: &'static [Plot],
    /// The period one of the node's elements *covers*, which is what a view needs to draw a slower
    /// series at its own width.
    pub clock: Option<Timeframe>,
    /// Elements the node fired this tick.
    pub fires: usize,
    /// The flattened *last* element; `None` where the node did not fire.
    pub vals: Option<&'a [V]>,
    /// The shape of each dep, whose axes multiply out to the slots it flattens to.
    pub dep_dims: &'a [Vec<usize>],
    /// Row-major, a row per slot of the out, the deps concatenated in order. Absent where there is no
    /// signal; `None` where the node did not fire.
    ///
    /// The *one-step* reading: each dep's last element perturbed, prior state held fixed.
    pub jac: Option<&'a [V]>,
    /// The reading `jac` is silent about, where the kernel has one: per dep, a column group per lag,
    /// oldest first, and how wide each dep's part is.
    pub exact_block: Option<(&'a [V], &'a [usize])>,
    /// Whether `jac` was differentiated or guessed.
    pub exact: bool,
    /// How much of what the body read the Jacobian covers: the kernel's own claim.
    pub fidelity: Fidelity,
    /// The node's equation.
    pub formula: Option<&'a str>,
    /// The simplified derivatives of the node's equation, one per dep slot.
    pub deriv: Option<&'a str>,
    /// The intermediate-value tree of the node's equation over this tick's deps.
    pub trace: Option<&'a str>,
}

/// A fire as a value.
#[verifier::ext_equal]
pub struct Fired<V> {
    pub glance: Seq<char>,
    pub dims: Seq<usize>,
    pub plots: Seq<Plot>,
    pub clock: Option<Timeframe>,
    pub fires: nat,
    pub vals: Option<Seq<V>>,
    pub dep_dims: Seq<Seq<usize>>,
    pub jac: Option<Seq<V>>,
    pub exact_block: Option<(Seq<V>, Seq<usize>)>,
    pub exact: bool,
    pub fidelity: Fidelity,
    pub formula: Option<Seq<char>>,
    pub deriv: Option<Seq<char>>,
    pub trace: Option<Seq<char>>,
}

/// What a slice that may not be there holds.
pub open spec fn slice_of<V>(x: Option<&[V]>) -> Option<Seq<V>> {
    match x {
        Some(s) => Some(s@),
        None => None,
    }
}

pub open spec fn text_of(x: Option<&str>) -> Option<Seq<char>> {
    match x {
        Some(s) => Some(s@),
        None => None,
    }
}

impl<'a, V> View for Fire<'a, V> {
    type V = Fired<V>;

    open spec fn view(&self) -> Fired<V> {
        Fired {
            glance: self.glance@,
            dims: self.dims@,
            plots: self.plots@,
            clock: self.clock,
            fires: self.fires as nat,
            vals: slice_of(self.vals),
            dep_dims: shapes(self.dep_dims@),
            jac: slice_of(self.jac),
            exact_block: match self.exact_block {
                Some((b, w)) => Some((b@, w@)),
                None => None,
            },
            exact: self.exact,
            fidelity: self.fidelity,
            formula: text_of(self.formula),
            deriv: text_of(self.deriv),
            trace: text_of(self.trace),
        }
    }
}

/// Sees every step as it happens: one interpretation choke point, many interpretations. Step order is
/// topological order, so the observed sequence doubles as the graph's static topology.
pub trait Observer<V: Scalar>: Sized {
    open spec fn wants(&self, node: Seq<char>) -> Want {
        arbitrary()
    }

    /// What seeing a fire makes of the observer.
    open spec fn saw(
        &self,
        node: Seq<char>,
        deps: Seq<Seq<char>>,
        gates: Seq<bool>,
        fire: Fired<V>,
        after: &Self,
    ) -> bool {
        arbitrary()
    }

    /// Asked once per step, of the node about to run: only the node actually being inspected pays.
    fn want(&self, node: &str) -> (r: Want)
        ensures
            r == self.wants(node@),
    ;

    /// `gates` is positional with `deps`, marking the ones that are control edges rather than data.
    fn on(&mut self, node: &str, deps: &[String], gates: &[bool], fire: Fire<'_, V>)
        ensures
            old(self).saw(
                node@,
                deps@.map_values(|s: String| s@),
                gates@,
                fire@,
                final(self),
            ),
    ;
}

/// Nobody: reads nothing and sees nothing.
impl<V: Scalar> Observer<V> for () {
    open spec fn wants(&self, node: Seq<char>) -> Want {
        Want::Nothing
    }

    open spec fn saw(
        &self,
        node: Seq<char>,
        deps: Seq<Seq<char>>,
        gates: Seq<bool>,
        fire: Fired<V>,
        after: &Self,
    ) -> bool {
        true
    }

    fn want(&self, node: &str) -> (r: Want) {
        Want::Nothing
    }

    fn on(&mut self, node: &str, deps: &[String], gates: &[bool], fire: Fire<'_, V>) {
    }
}

/// Two interpretations of the same sweep.
impl<V: Scalar, A: Observer<V>, B: Observer<V>> Observer<V> for (A, B) {
    open spec fn wants(&self, node: Seq<char>) -> Want {
        self.0.wants(node).deeper(self.1.wants(node))
    }

    open spec fn saw(
        &self,
        node: Seq<char>,
        deps: Seq<Seq<char>>,
        gates: Seq<bool>,
        fire: Fired<V>,
        after: &Self,
    ) -> bool {
        self.0.saw(node, deps, gates, fire, &after.0) && self.1.saw(
            node,
            deps,
            gates,
            fire,
            &after.1,
        )
    }

    fn want(&self, node: &str) -> (r: Want) {
        self.0.want(node).or_deeper(self.1.want(node))
    }

    fn on(&mut self, node: &str, deps: &[String], gates: &[bool], fire: Fire<'_, V>) {
        self.0.on(node, deps, gates, fire);
        self.1.on(node, deps, gates, fire);
    }
}

/// The buffers the observed sweep writes each node's flattenings into, reused across nodes and ticks.
pub struct Sweep<V> {
    pub vals: Vec<V>,
    pub deps: Vec<V>,
    pub jac: Vec<V>,
    pub bumped: Vec<V>,
    /// The exact block and its per-dep widths.
    pub block: Vec<V>,
    pub widths: Vec<usize>,
}

impl<V> Sweep<V> {
    pub fn new() -> (r: Self)
        ensures
            r.vals@.len() == 0,
            r.deps@.len() == 0,
            r.jac@.len() == 0,
            r.bumped@.len() == 0,
            r.block@.len() == 0,
            r.widths@.len() == 0,
    {
        Sweep {
            vals: Vec::new(),
            deps: Vec::new(),
            jac: Vec::new(),
            bumped: Vec::new(),
            block: Vec::new(),
            widths: Vec::new(),
        }
    }
}

} // verus!
