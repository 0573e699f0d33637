//! The kernels: what each computes, and what it is captured as for the derivative readings.

use vstd::prelude::*;

use crate::ast::lowerable;
use crate::ast::Ast;
use crate::block::{bumpable, differences, leading, points, width_sum};
use crate::block::{fd_cols, point_block, Column};
use crate::block::{lagged, lagged_widths};
use crate::dep_flat::DepFlat;
use crate::deps::DepSet;
use crate::expr::Expr;
use crate::flat::blank;
use crate::flat::Number;
use crate::kernel::{blanked, zeroed, PerElem, Scan, Scans};
use crate::kernel::zeros;
use crate::scalar::Scalar;
use crate::shape::Fidelity;
use crate::sweep::Capture;
use crate::tree::Tree;
use crate::want::Want;

verus! {

/// A scalar-out node whose per-tick value is a pure expression of its deps, each read at its
/// flattened slots, a batch dep as its last element. There is no second way to state the value, so
/// the algebra is load-bearing.
pub trait Symbolic<V: Scalar> {
    type Deps: DepFlat<V>;

    type Body: Expr<V>;

    open spec fn body_spec(&self) -> Self::Body {
        arbitrary()
    }

    fn body(&self) -> (r: Self::Body)
        ensures
            r == self.body_spec(),
    ;
}

/// The kernel of a [`Symbolic`] node: the value is the body's, the Jacobian its gradient, exact and
/// one pass rather than a clone and a re-advance per dep slot.
pub struct Pure;

/// A symbolic node's capture: the equation, and its gradient at this tick's deps.
pub struct Algebra<V> {
    pub formula: Ast<V>,
    pub grad: Vec<V>,
}

/// What an algebra capture holds: the equation and the slopes.
pub open spec fn algebra_view<V>(a: Option<Algebra<V>>) -> Option<(Tree<V>, Seq<V>)> {
    match a {
        Some(a) => Some((a.formula@, a.grad@)),
        None => None,
    }
}

impl Pure {
    /// A body over one slot per dep has a point for a reach, and a gradient at a point covers all of it.
    pub open spec fn claim() -> Fidelity {
        Fidelity::Exact
    }

    pub fn fidelity() -> (r: Fidelity)
        ensures
            r == Self::claim(),
    {
        Fidelity::Exact
    }

    /// Whether the body reads no further than the deps reach.
    pub open spec fn sound<V: Scalar, N: Symbolic<V>>(n: N) -> bool {
        &&& <N::Deps as DepFlat<V>>::dep_len() <= usize::MAX
        &&& n.body_spec().fits(<N::Deps as DepFlat<V>>::dep_len())
        &&& lowerable(n.body_spec().lowered())
    }

    pub fn advance<'t, V: Scalar, N: Symbolic<V>>(
        n: &N,
        deps: &<N::Deps as DepSet>::Outs<'t>,
    ) -> (r: Number<V>)
        requires
            Pure::sound::<V, N>(*n),
            <N::Deps as DepFlat<V>>::sound(*deps),
        ensures
            r == Number(n.body_spec().value(<N::Deps as DepFlat<V>>::dep_values(*deps))),
    {
        let mut env: Vec<V> = zeroed(<N::Deps as DepFlat<V>>::len());
        proof {
            <N::Deps as DepFlat<V>>::fills(*deps);
        }
        <N::Deps as DepFlat<V>>::flat(deps, env.as_mut_slice());
        Number(n.body().eval(env.as_slice()))
    }

    /// Zeroed, since the gradient accumulates and a var the body never reads has a partial of zero
    /// rather than no partial.
    pub fn pre<'t, V: Scalar, N: Symbolic<V>>(
        n: &N,
        want: Want,
        deps: &<N::Deps as DepSet>::Outs<'t>,
    ) -> (r: Differentiated<V>)
        requires
            Pure::sound::<V, N>(*n),
            <N::Deps as DepFlat<V>>::sound(*deps),
        ensures
            algebra_view(r.0) == if want.rank() < Want::Jac.rank() {
                None
            } else {
                let len = <N::Deps as DepFlat<V>>::dep_len();
                Some(
                    (
                        n.body_spec().lowered(),
                        n.body_spec().slopes(
                            <N::Deps as DepFlat<V>>::dep_values(*deps),
                            V::whole(1),
                            zeros(len),
                        ),
                    ),
                )
            },
            r.0 matches Some(a) ==> a.grad@.len() == <N::Deps as DepFlat<V>>::dep_len(),
    {
        if !want.at_least(Want::Jac) {
            return Differentiated(None);
        }
        let len: usize = <N::Deps as DepFlat<V>>::len();
        let mut env: Vec<V> = zeroed(len);
        proof {
            <N::Deps as DepFlat<V>>::fills(*deps);
        }
        <N::Deps as DepFlat<V>>::flat(deps, env.as_mut_slice());
        let mut grad: Vec<V> = zeroed(len);
        let body: N::Body = n.body();
        proof {
            body.slopes_fill(env@, V::whole(1), grad@);
        }
        body.grad(env.as_slice(), V::of(1), grad.as_mut_slice());
        Differentiated(Some(Algebra { formula: body.lower(), grad }))
    }
}

/// What a pure node is captured as.
pub struct Differentiated<V>(pub Option<Algebra<V>>);

impl<V: Scalar, D> Capture<V, D> for Differentiated<V> {
    /// A scalar out: the whole Jacobian is the one gradient row.
    open spec fn covers(&self, dep_len: nat, out_len: nat) -> bool {
        out_len == 1 && (self.0 matches Some(a) ==> a.grad@.len() == dep_len)
    }

    open spec fn differs(&self, deps: D, dep_vals: Seq<V>, out_len: nat) -> bool {
        true
    }

    open spec fn scatters(&self, deps: D, dep_widths: Seq<usize>, out_len: nat) -> bool {
        true
    }

    open spec fn equation(&self) -> Option<Tree<V>> {
        match self.0 {
            Some(a) => Some(a.formula@),
            None => None,
        }
    }

    open spec fn guarded(&self) -> bool {
        false
    }

    open spec fn slopes(&self, deps: D, dep_vals: Seq<V>, out_vals: Seq<V>) -> (Seq<V>, bool) {
        match self.0 {
            Some(a) => (a.grad@, true),
            None => (blank(out_vals.len() * dep_vals.len()), false),
        }
    }

    open spec fn reach_block(&self, deps: D, dep_widths: Seq<usize>, out_len: nat) -> Option<
        (Seq<V>, Seq<usize>),
    > {
        match self.0 {
            Some(a) => Some(
                (points(a.grad@, a.grad@.len() as int, 1, dep_widths), dep_widths),
            ),
            None => None,
        }
    }

    fn formula(&self) -> (r: Option<&Ast<V>>) {
        match &self.0 {
            Some(a) => Some(&a.formula),
            None => None,
        }
    }

    fn guards(&self) -> (r: bool) {
        false
    }

    fn jac(&self, deps: &D, dep_vals: &[V], out_vals: &[V], out: &mut [V], bumped: &mut Vec<V>) -> (r:
        bool) {
        match &self.0 {
            None => false,
            Some(a) => {
                let n: usize = out.len();
                assert(1 * dep_vals@.len() == dep_vals@.len());
                let mut i: usize = 0;
                while i < n
                    invariant
                        i <= n == out@.len() == a.grad@.len(),
                        forall|j: int| 0 <= j < i ==> #[trigger] out@[j] == a.grad@[j],
                    decreases n - i,
                {
                    let v: V = a.grad[i];
                    out[i] = v;
                    i += 1;
                }
                assert(out@ =~= a.grad@);
                true
            },
        }
    }

    /// One lag per dep, which is the point the body read.
    fn exact(
        &self,
        deps: &D,
        dep_widths: &[usize],
        out_len: usize,
        out: &mut Vec<V>,
        widths: &mut Vec<usize>,
    ) -> (r: bool) {
        match &self.0 {
            None => false,
            Some(a) => {
                point_block(a.grad.as_slice(), a.grad.len(), 1, dep_widths, out, widths);
                true
            },
        }
    }
}

/// A scalar `bool` node: a *driving* dep that clocks it, the leading one, whose having fired at all
/// is half the verdict, and whatever it reads at their last elements, compared by an expression.
///
/// A screen over a series that closed nothing this tick has screened nothing, and saying so through
/// the driver's rate rather than through an emptiness test inside the body is what keeps it a
/// pulse instead of a level.
pub trait Decides<V: Scalar> {
    type Deps: DepFlat<V>;

    type Body: Expr<V>;

    open spec fn body_spec(&self) -> Self::Body {
        arbitrary()
    }

    /// True is any non-zero.
    fn body(&self) -> (r: Self::Body)
        ensures
            r == self.body_spec(),
    ;
}

/// The kernel of a [`Decides`] node.
pub struct Predicate;

impl Predicate {
    /// A predicate's slope is zero off the boundary, and at the boundary it is a step no reading may
    /// call a slope.
    pub open spec fn claim() -> Fidelity {
        Fidelity::Exact
    }

    pub fn fidelity() -> (r: Fidelity)
        ensures
            r == Self::claim(),
    {
        Fidelity::Exact
    }

    pub open spec fn sound<V: Scalar, N: Decides<V>>(n: N) -> bool {
        &&& <N::Deps as DepFlat<V>>::dep_len() <= usize::MAX
        &&& n.body_spec().fits(<N::Deps as DepFlat<V>>::dep_len())
        &&& lowerable(n.body_spec().lowered())
    }

    pub fn advance<'t, V: Scalar, N: Decides<V>>(
        n: &N,
        deps: &<N::Deps as DepSet>::Outs<'t>,
    ) -> (r: bool)
        requires
            Predicate::sound::<V, N>(*n),
            <N::Deps as DepFlat<V>>::sound(*deps),
        ensures
            r == (<N::Deps as DepFlat<V>>::lead_count(*deps) > 0 && !n.body_spec().value(
                <N::Deps as DepFlat<V>>::dep_values(*deps),
            ).equals(V::whole(0))),
    {
        let fires: usize = <N::Deps as DepFlat<V>>::lead_fires(deps);
        let mut env: Vec<V> = blanked(<N::Deps as DepFlat<V>>::len());
        proof {
            <N::Deps as DepFlat<V>>::fills(*deps);
        }
        <N::Deps as DepFlat<V>>::flat(deps, env.as_mut_slice());
        fires > 0 && !n.body().eval(env.as_slice()).same(V::of(0))
    }

    pub fn pre<V: Scalar, N: Decides<V>>(n: &N, want: Want) -> (r: Verdict<V>)
        ensures
            verdict_view(r.0) == if want.rank() < Want::Jac.rank() {
                None
            } else {
                Some(n.body_spec().lowered())
            },
    {
        if want.at_least(Want::Jac) {
            Verdict(Some(n.body().lower()))
        } else {
            Verdict(None)
        }
    }
}

pub open spec fn verdict_view<V>(a: Option<Ast<V>>) -> Option<Tree<V>> {
    match a {
        Some(a) => Some(a@),
        None => None,
    }
}

/// What a deciding node is captured as.
pub struct Verdict<V>(pub Option<Ast<V>>);

/// A predicate's slope is zero off the boundary, and at the boundary it is a step no reading may call
/// a slope, so an all-zero Jacobian is the whole truth about it, not an omission.
impl<V: Scalar, D> Capture<V, D> for Verdict<V> {
    open spec fn covers(&self, dep_len: nat, out_len: nat) -> bool {
        out_len == 1 && dep_len <= usize::MAX
    }

    open spec fn differs(&self, deps: D, dep_vals: Seq<V>, out_len: nat) -> bool {
        true
    }

    open spec fn scatters(&self, deps: D, dep_widths: Seq<usize>, out_len: nat) -> bool {
        true
    }

    open spec fn equation(&self) -> Option<Tree<V>> {
        verdict_view(self.0)
    }

    open spec fn guarded(&self) -> bool {
        true
    }

    open spec fn slopes(&self, deps: D, dep_vals: Seq<V>, out_vals: Seq<V>) -> (Seq<V>, bool) {
        match self.0 {
            Some(_) => (zeros(out_vals.len() * dep_vals.len()), true),
            None => (blank(out_vals.len() * dep_vals.len()), false),
        }
    }

    /// A slope of zero at every lag as much as at the point.
    open spec fn reach_block(&self, deps: D, dep_widths: Seq<usize>, out_len: nat) -> Option<
        (Seq<V>, Seq<usize>),
    > {
        match self.0 {
            Some(_) => Some(
                (
                    points(
                        zeros(width_sum(dep_widths)),
                        width_sum(dep_widths) as int,
                        1,
                        dep_widths,
                    ),
                    dep_widths,
                ),
            ),
            None => None,
        }
    }

    fn formula(&self) -> (r: Option<&Ast<V>>) {
        match &self.0 {
            Some(a) => Some(a),
            None => None,
        }
    }

    fn guards(&self) -> (r: bool) {
        true
    }

    fn jac(&self, deps: &D, dep_vals: &[V], out_vals: &[V], out: &mut [V], bumped: &mut Vec<V>) -> (r:
        bool) {
        if self.0.is_none() {
            return false;
        }
        let n: usize = out.len();
        let mut i: usize = 0;
        while i < n
            invariant
                i <= n == out@.len(),
                forall|j: int| 0 <= j < i ==> #[trigger] out@[j] == V::whole(0),
            decreases n - i,
        {
            let v: V = V::of(0);
            out[i] = v;
            i += 1;
        }
        assert(out@ =~= zeros::<V>(out_vals@.len() * dep_vals@.len()));
        true
    }

    fn exact(
        &self,
        deps: &D,
        dep_widths: &[usize],
        out_len: usize,
        out: &mut Vec<V>,
        widths: &mut Vec<usize>,
    ) -> (r: bool) {
        if self.0.is_none() {
            return false;
        }
        let w: usize = total_width(dep_widths);
        let none: Vec<V> = zeroed(w);
        point_block(none.as_slice(), w, 1, dep_widths, out, widths);
        true
    }
}

fn total_width(ws: &[usize]) -> (r: usize)
    requires
        width_sum(ws@) <= usize::MAX,
    ensures
        r == width_sum(ws@),
{
    let mut r: usize = 0;
    let mut d: usize = 0;
    while d < ws.len()
        invariant
            d <= ws@.len(),
            width_sum(ws@) <= usize::MAX,
            r == width_sum(ws@.take(d as int)),
        decreases ws@.len() - d,
    {
        proof {
            crate::block::lemma_width_sum(ws@, d as int);
        }
        r += ws[d];
        d += 1;
    }
    assert(ws@.take(d as int) =~= ws@);
    r
}

/// What a per-element node whose columns stop at the point is captured as: a closing or a folding
/// one.
pub struct Pointwise<V>(pub Option<PerElem<V>>);

pub open spec fn per_elem_covers<V: Scalar>(p: Option<PerElem<V>>, dep_len: nat, out_len: nat) -> bool {
    p matches Some(a) ==> a.holds(out_len, dep_len)
}

pub open spec fn per_elem_equation<V: Scalar>(p: Option<PerElem<V>>) -> Option<Tree<V>> {
    match p {
        Some(a) if a.formulas@.len() > 0 => Some(a.formulas@[0]@),
        _ => None,
    }
}

pub open spec fn per_elem_slopes<V: Scalar>(
    p: Option<PerElem<V>>,
    dep_len: nat,
    out_len: nat,
) -> (Seq<V>, bool) {
    match p {
        Some(a) => (leading(a.grad@, a.stride as int, out_len as int, dep_len as int), true),
        None => (blank(out_len * dep_len), false),
    }
}

impl<V: Scalar, D> Capture<V, D> for Pointwise<V> {
    open spec fn covers(&self, dep_len: nat, out_len: nat) -> bool {
        per_elem_covers(self.0, dep_len, out_len)
    }

    open spec fn differs(&self, deps: D, dep_vals: Seq<V>, out_len: nat) -> bool {
        true
    }

    open spec fn scatters(&self, deps: D, dep_widths: Seq<usize>, out_len: nat) -> bool {
        true
    }

    open spec fn equation(&self) -> Option<Tree<V>> {
        per_elem_equation(self.0)
    }

    open spec fn guarded(&self) -> bool {
        false
    }

    open spec fn slopes(&self, deps: D, dep_vals: Seq<V>, out_vals: Seq<V>) -> (Seq<V>, bool) {
        per_elem_slopes(self.0, dep_vals.len(), out_vals.len())
    }

    open spec fn reach_block(&self, deps: D, dep_widths: Seq<usize>, out_len: nat) -> Option<
        (Seq<V>, Seq<usize>),
    > {
        match self.0 {
            Some(a) => Some(
                (points(a.grad@, a.stride as int, out_len as int, dep_widths), dep_widths),
            ),
            None => None,
        }
    }

    fn formula(&self) -> (r: Option<&Ast<V>>) {
        match &self.0 {
            Some(a) => a.formula(),
            None => None,
        }
    }

    fn guards(&self) -> (r: bool) {
        false
    }

    fn jac(&self, deps: &D, dep_vals: &[V], out_vals: &[V], out: &mut [V], bumped: &mut Vec<V>) -> (r:
        bool) {
        match &self.0 {
            Some(a) => {
                a.jac(dep_vals.len(), out_vals.len(), out);
                true
            },
            None => false,
        }
    }

    fn exact(
        &self,
        deps: &D,
        dep_widths: &[usize],
        out_len: usize,
        out: &mut Vec<V>,
        widths: &mut Vec<usize>,
    ) -> (r: bool) {
        match &self.0 {
            Some(a) => {
                a.point(out_len, dep_widths, out, widths);
                true
            },
            None => false,
        }
    }
}

/// What a scanning node is captured as: whatever the body reached back over, its block covers.
pub struct Scanned<V, E>(pub Option<PerElem<V>>, pub core::marker::PhantomData<E>);

impl<V: Scalar, D, E: Scans<V, D>> Capture<V, D> for Scanned<V, E> {
    open spec fn covers(&self, dep_len: nat, out_len: nat) -> bool {
        per_elem_covers(self.0, dep_len, out_len)
    }

    open spec fn differs(&self, deps: D, dep_vals: Seq<V>, out_len: nat) -> bool {
        true
    }

    open spec fn scatters(&self, deps: D, dep_widths: Seq<usize>, out_len: nat) -> bool {
        &&& E::readable(deps)
        &&& Scan::scatters::<V, D, E>(self.0, deps, out_len, dep_widths)
    }

    open spec fn equation(&self) -> Option<Tree<V>> {
        per_elem_equation(self.0)
    }

    open spec fn guarded(&self) -> bool {
        false
    }

    open spec fn slopes(&self, deps: D, dep_vals: Seq<V>, out_vals: Seq<V>) -> (Seq<V>, bool) {
        per_elem_slopes(self.0, dep_vals.len(), out_vals.len())
    }

    open spec fn reach_block(&self, deps: D, dep_widths: Seq<usize>, out_len: nat) -> Option<
        (Seq<V>, Seq<usize>),
    > {
        match (self.0, Scan::last::<V, D, E>(deps)) {
            (Some(a), Some(x)) => Some(
                (
                    lagged(
                        a.grad@,
                        a.stride as int,
                        x.sources,
                        out_len as int,
                        dep_widths,
                        dep_widths.len(),
                    ),
                    lagged_widths(x.sources, a.stride as nat, dep_widths),
                ),
            ),
            _ => None,
        }
    }

    fn formula(&self) -> (r: Option<&Ast<V>>) {
        match &self.0 {
            Some(a) => a.formula(),
            None => None,
        }
    }

    fn guards(&self) -> (r: bool) {
        false
    }

    fn jac(&self, deps: &D, dep_vals: &[V], out_vals: &[V], out: &mut [V], bumped: &mut Vec<V>) -> (r:
        bool) {
        match &self.0 {
            Some(a) => {
                a.jac(dep_vals.len(), out_vals.len(), out);
                true
            },
            None => false,
        }
    }

    fn exact(
        &self,
        deps: &D,
        dep_widths: &[usize],
        out_len: usize,
        out: &mut Vec<V>,
        widths: &mut Vec<usize>,
    ) -> (r: bool) {
        Scan::exact::<V, D, E>(&self.0, deps, out_len, dep_widths, out, widths)
    }
}

/// The kernel of a node that computes in code and therefore has no algebra reading: the value is the
/// node's own advance, and the Jacobian is the finite-difference witness.
pub struct Opaque;

/// The run-shaped sibling of [`Opaque`].
pub struct Raw;

/// What a node with no algebra is captured as: how to step it again.
pub struct Refired<C>(pub Option<C>);

impl<V: Scalar, D, C: Column<V, D>> Capture<V, D> for Refired<C> {
    open spec fn covers(&self, dep_len: nat, out_len: nat) -> bool {
        true
    }

    open spec fn differs(&self, deps: D, dep_vals: Seq<V>, out_len: nat) -> bool {
        self.0 matches Some(c) ==> bumpable::<V, D, C>(c, deps, dep_vals, out_len)
    }

    open spec fn scatters(&self, deps: D, dep_widths: Seq<usize>, out_len: nat) -> bool {
        true
    }

    open spec fn equation(&self) -> Option<Tree<V>> {
        None
    }

    open spec fn guarded(&self) -> bool {
        false
    }

    open spec fn slopes(&self, deps: D, dep_vals: Seq<V>, out_vals: Seq<V>) -> (Seq<V>, bool) {
        let none = blank::<V>(out_vals.len() * dep_vals.len());
        match self.0 {
            Some(c) => (differences(c, deps, dep_vals, out_vals, none), false),
            None => (none, false),
        }
    }

    /// A node with no algebra cannot answer over a dep's whole reach.
    open spec fn reach_block(&self, deps: D, dep_widths: Seq<usize>, out_len: nat) -> Option<
        (Seq<V>, Seq<usize>),
    > {
        None
    }

    fn formula(&self) -> (r: Option<&Ast<V>>) {
        None
    }

    fn guards(&self) -> (r: bool) {
        false
    }

    fn jac(&self, deps: &D, dep_vals: &[V], out_vals: &[V], out: &mut [V], bumped: &mut Vec<V>) -> (r:
        bool) {
        if let Some(c) = &self.0 {
            fd_cols(c, deps, dep_vals, out_vals, out, bumped);
        }
        false
    }

    fn exact(
        &self,
        deps: &D,
        dep_widths: &[usize],
        out_len: usize,
        out: &mut Vec<V>,
        widths: &mut Vec<usize>,
    ) -> (r: bool) {
        false
    }
}

} // verus!
