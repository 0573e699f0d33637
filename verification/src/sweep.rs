//! The observed sweep: what is read off a node as it fires, and the steps that read it.

use vstd::prelude::*;

use crate::ast::lowerable;
use crate::ast::Ast;
use crate::block::width_sum;
use crate::cell::{Cell, Cons, Dark, Latent};
use crate::dep_flat::{shapes, DepFlat};
use crate::deps::{lemma_shut_is_gated, orderly};
use crate::deps::{DepSet, Pull};
use crate::emit::{emitted, runs, tells};
use crate::emit::{Emit, Emitter};
use crate::flat::{blank, whole_item};
use crate::flat::{is_whole, Flat};
use crate::glance::Glance;
use crate::kernel::blanked;
use crate::node::{stepped, Node};
use crate::observe::{Fire, Observer, Sweep};
use crate::observe::Fired;
use crate::plot::{hang_together, plain_plot};
use crate::plot::{default_plots, Plot};
use crate::scalar::Scalar;
use crate::series::Series;
use crate::shape::Fidelity;
use crate::text;
use crate::text::joined;
use crate::tree::Tree;
use crate::want::Want;

verus! {

/// What a node is captured as before it advances, for the derivative readings: they are of the state
/// the value was computed from. `D` is what a tick pulls of the node's deps.
pub trait Capture<V: Scalar, D> {
    /// Whether the capture is of an out and deps so wide.
    open spec fn covers(&self, dep_len: nat, out_len: nat) -> bool {
        arbitrary()
    }

    /// Whether the Jacobian over these deps can be taken.
    open spec fn differs(&self, deps: D, dep_vals: Seq<V>, out_len: nat) -> bool {
        arbitrary()
    }

    /// Whether an exact block over these deps can be counted.
    open spec fn scatters(&self, deps: D, dep_widths: Seq<usize>, out_len: nat) -> bool {
        arbitrary()
    }

    /// The equation, where there is one.
    open spec fn equation(&self) -> Option<Tree<V>> {
        arbitrary()
    }

    /// Whether the equation is a verdict's: one that is read over numbers and never over an absence.
    open spec fn guarded(&self) -> bool {
        arbitrary()
    }

    /// The Jacobian over a blank one, and whether it was differentiated.
    open spec fn slopes(&self, deps: D, dep_vals: Seq<V>, out_vals: Seq<V>) -> (Seq<V>, bool) {
        arbitrary()
    }

    /// The exact block and its widths, where the kernel can answer over a dep's whole reach.
    open spec fn reach_block(&self, deps: D, dep_widths: Seq<usize>, out_len: nat) -> Option<
        (Seq<V>, Seq<usize>),
    > {
        arbitrary()
    }

    fn formula(&self) -> (r: Option<&Ast<V>>)
        ensures
            match r {
                Some(f) => self.equation() == Some(f@),
                None => self.equation() is None,
            },
    ;

    fn guards(&self) -> (r: bool)
        ensures
            r == self.guarded(),
    ;

    /// Fills the Jacobian and reports whether it is exact: the *one-step* reading, each dep's last
    /// element perturbed and prior state held fixed.
    fn jac(&self, deps: &D, dep_vals: &[V], out_vals: &[V], out: &mut [V], bumped: &mut Vec<V>) -> (r:
        bool)
        requires
            self.covers(dep_vals@.len(), out_vals@.len()),
            self.differs(*deps, dep_vals@, out_vals@.len()),
            old(out)@ == blank::<V>(out_vals@.len() * dep_vals@.len()),
        ensures
            (final(out)@, r) == self.slopes(*deps, dep_vals@, out_vals@),
    ;

    /// Fills the exact block and reports whether it did: a kernel that cannot answer over a dep's
    /// whole reach has to be able to decline rather than fabricate a block.
    fn exact(
        &self,
        deps: &D,
        dep_widths: &[usize],
        out_len: usize,
        out: &mut Vec<V>,
        widths: &mut Vec<usize>,
    ) -> (r: bool)
        requires
            self.covers(width_sum(dep_widths@), out_len as nat),
            self.scatters(*deps, dep_widths@, out_len as nat),
        ensures
            match self.reach_block(*deps, dep_widths@, out_len as nat) {
                Some((b, w)) => r && final(out)@ == b && final(widths)@ == w,
                None => !r,
            },
    ;
}

/// The un-bumped flattenings of one node's out and deps, plus the derivative readings off them: a
/// view into the [`Sweep`] rather than an owner, since the next node overwrites all of it.
pub struct Flats<'s, V> {
    pub fired: bool,
    pub vals: &'s [V],
    pub deps: &'s [V],
    pub jac: Option<&'s [V]>,
    pub exact: bool,
    pub block: Option<(&'s [V], &'s [usize])>,
}

/// What is read off a node that fired, or did not.
#[verifier::ext_equal]
pub struct FlatsView<V> {
    pub fired: bool,
    pub vals: Seq<V>,
    pub deps: Seq<V>,
    pub jac: Option<Seq<V>>,
    pub exact: bool,
    pub block: Option<(Seq<V>, Seq<usize>)>,
}

impl<'s, V> View for Flats<'s, V> {
    type V = FlatsView<V>;

    open spec fn view(&self) -> FlatsView<V> {
        FlatsView {
            fired: self.fired,
            vals: self.vals@,
            deps: self.deps@,
            jac: crate::observe::slice_of(self.jac),
            exact: self.exact,
            block: match self.block {
                Some((b, w)) => Some((b@, w@)),
                None => None,
            },
        }
    }
}

/// What is read off a node: its flattenings, and its derivatives only where somebody reads that far
/// and there is an out to differentiate.
pub open spec fn flats_of<'d, V, O, D, C>(
    out: O,
    deps: D::Outs<'d>,
    pre: C,
    want: Want,
) -> FlatsView<V> where V: Scalar, O: Flat<V>, D: DepFlat<V>, C: Capture<V, D::Outs<'d>> {
    let (vals, dep_vals) = (out.slots(), D::dep_values(deps));
    let derives = out.fired() && want.rank() >= Want::Jac.rank();
    let (jac, exact) = pre.slopes(deps, dep_vals, vals);
    FlatsView {
        fired: out.fired(),
        vals,
        deps: dep_vals,
        jac: if derives {
            Some(jac)
        } else {
            None
        },
        exact: derives && exact,
        block: if derives && want.rank() >= Want::Exact.rank() {
            pre.reach_block(deps, D::dep_widths(), O::len_spec())
        } else {
            None
        },
    }
}

impl<'s, V: Scalar> Flats<'s, V> {
    pub fn of<'d, O: Flat<V>, D: DepFlat<V>, C: Capture<V, D::Outs<'d>>>(
        sweep: &'s mut Sweep<V>,
        out: &O,
        deps: &D::Outs<'d>,
        pre: &C,
        want: Want,
    ) -> (r: Flats<'s, V>)
        requires
            out.sound(),
            D::sound(*deps),
            D::dep_len() <= usize::MAX,
            O::len_spec() * D::dep_len() <= usize::MAX,
            pre.covers(D::dep_len(), O::len_spec()),
            pre.differs(*deps, D::dep_values(*deps), O::len_spec()),
            pre.scatters(*deps, D::dep_widths(), O::len_spec()),
        ensures
            r@ == flats_of::<V, O, D, C>(*out, *deps, *pre, want),
    {
        proof {
            out.fills();
            D::fills(*deps);
        }
        let (out_len, dep_len): (usize, usize) = (O::len(), D::len());
        sweep.vals = blanked(out_len);
        let fired: bool = out.flat(sweep.vals.as_mut_slice());
        sweep.deps = blanked(dep_len);
        D::flat(deps, sweep.deps.as_mut_slice());
        if !fired || !want.at_least(Want::Jac) {
            return Flats {
                fired,
                vals: sweep.vals.as_slice(),
                deps: sweep.deps.as_slice(),
                jac: None,
                exact: false,
                block: None,
            };
        }
        // absent, not zero: a column the kernel leaves alone is one it has no signal for, and the
        // absorbing element is what says so.
        sweep.jac = blanked(out_len * dep_len);
        let exact: bool = pre.jac(
            deps,
            sweep.deps.as_slice(),
            sweep.vals.as_slice(),
            sweep.jac.as_mut_slice(),
            &mut sweep.bumped,
        );
        // a kernel that fills no block must cost a Jacobian nothing at all.
        let mut filled: bool = false;
        if want.at_least(Want::Exact) {
            proof {
                D::widths_add_up();
            }
            let dep_widths: Vec<usize> = D::widths();
            filled = pre.exact(
                deps,
                dep_widths.as_slice(),
                out_len,
                &mut sweep.block,
                &mut sweep.widths,
            );
        }
        Flats {
            fired,
            vals: sweep.vals.as_slice(),
            deps: sweep.deps.as_slice(),
            jac: Some(sweep.jac.as_slice()),
            exact,
            block: if filled {
                Some((sweep.block.as_slice(), sweep.widths.as_slice()))
            } else {
                None
            },
        }
    }
}

/// The last segment of a path.
pub open spec fn segment(s: Seq<char>, n: nat) -> Seq<char>
    decreases n,
{
    if n < 2 || n > s.len() {
        s
    } else if s[n - 2] == ':' && s[n - 1] == ':' {
        s.skip(n as int)
    } else {
        segment(s, (n - 1) as nat)
    }
}

/// What a dep slot is called in a derivative.
pub open spec fn dep_word(names: Seq<Seq<char>>, i: int) -> Seq<char> {
    if i < names.len() {
        segment(names[i], names[i].len())
    } else {
        "?"@
    }
}

/// One derivative, spelled.
pub open spec fn deriv_line<V: Scalar>(t: Tree<V>, names: Seq<Seq<char>>, i: int) -> Seq<char> {
    "∂/∂"@ + dep_word(names, i) + " = "@ + t.derivative(i).simplified().infix()
}

/// The simplified derivatives of an equation, one per line.
pub open spec fn derivs<V: Scalar>(t: Tree<V>, names: Seq<Seq<char>>, n: nat) -> Seq<char> {
    joined(Seq::new(n, |i: int| deriv_line(t, names, i)), "\n"@)
}

fn last_segment(s: &str) -> (r: Vec<char>)
    ensures
        r@ == segment(s@, s@.len()),
{
    let cs: Vec<char> = text::chars_of(s);
    let mut n: usize = cs.len();
    while n >= 2
        invariant
            cs@ == s@,
            n <= cs@.len(),
            segment(s@, s@.len()) == segment(s@, n as nat),
        decreases n,
    {
        if cs[n - 2] == ':' && cs[n - 1] == ':' {
            let tail: &[char] = text::slice(cs.as_slice(), n, cs.len());
            let mut r: Vec<char> = Vec::new();
            text::push_all(&mut r, tail);
            assert(r@ =~= s@.skip(n as int));
            return r;
        }
        n -= 1;
    }
    cs
}

fn spell_derivs<V: Scalar>(f: &Ast<V>, names: &[String], n: usize) -> (r: String)
    requires
        lowerable(f@),
    ensures
        r@ == derivs(f@, names@.map_values(|s: String| s@), n as nat),
{
    let ghost ns = names@.map_values(|s: String| s@);
    let ghost lines = Seq::new(n as nat, |i: int| deriv_line(f@, ns, i));
    let mut out: Vec<char> = Vec::new();
    let mut i: usize = 0;
    while i < n
        invariant
            i <= n,
            lowerable(f@),
            ns == names@.map_values(|s: String| s@),
            lines == Seq::new(n as nat, |i: int| deriv_line(f@, ns, i)),
            out@ == joined(lines.take(i as int), "\n"@),
        decreases n - i,
    {
        let mut line: Vec<char> = Vec::new();
        text::push_str(&mut line, "∂/∂");
        if i < names.len() {
            let word: Vec<char> = last_segment(names[i].as_str());
            text::push_all(&mut line, word.as_slice());
            assert(ns[i as int] == names@[i as int]@);
        } else {
            text::push_str(&mut line, "?");
        }
        text::push_str(&mut line, " = ");
        let part: String = f.diff(i).simplify().infix();
        text::push_str(&mut line, part.as_str());
        proof {
            assert(line@ =~= deriv_line(f@, ns, i as int));
            assert(lines.take(i + 1) =~= lines.take(i as int).push(lines[i as int]));
        }
        text::push_part(&mut out, Ghost(lines.take(i as int)), i == 0, "\n", line.as_slice());
        i += 1;
    }
    assert(lines.take(n as int) =~= lines);
    text::string_of(out.as_slice())
}

/// A node whose fires can be read: how it is captured before it advances, and what it claims of its
/// derivative.
pub trait Observed<V: Scalar>: Node {
    type Pre;

    open spec fn fidelity_spec() -> Fidelity {
        arbitrary()
    }

    open spec fn plots_spec() -> Seq<Plot> {
        arbitrary()
    }

    /// What the node is captured as before an advance.
    open spec fn captures<'t>(
        &self,
        want: Want,
        deps: <Self::Deps as DepSet>::Outs<'t>,
        pre: Self::Pre,
    ) -> bool {
        arbitrary()
    }

    fn fidelity() -> (r: Fidelity)
        ensures
            r == Self::fidelity_spec(),
    ;

    fn plots() -> (r: &'static [Plot])
        ensures
            r@ == Self::plots_spec(),
    ;

    /// Whatever the derivative reading needs off the node *before* the advance consumes it for the
    /// tick. Below a Jacobian a kernel captures nothing, which is what makes an unobserved sweep the
    /// bare chain.
    fn pre<'t>(&self, want: Want, deps: &<Self::Deps as DepSet>::Outs<'t>) -> (r: Self::Pre)
        requires
            self.can_advance(*deps),
        ensures
            self.captures(want, *deps, r),
    ;
}

/// What a fire of a node shows.
pub open spec fn shown<V: Scalar>(
    headline: Seq<char>,
    dims: Seq<usize>,
    plots: Seq<Plot>,
    clock: Option<crate::horizon::Timeframe>,
    fidelity: Fidelity,
    fires: nat,
    dep_dims: Seq<Seq<usize>>,
    flat: Option<FlatsView<V>>,
    formula: Option<Tree<V>>,
    guarded: bool,
    names: Seq<Seq<char>>,
) -> Fired<V> {
    Fired {
        glance: headline,
        dims,
        plots,
        clock,
        fires,
        dep_dims,
        fidelity,
        vals: match flat {
            Some(f) if f.fired => Some(f.vals),
            _ => None,
        },
        jac: match flat {
            Some(f) => f.jac,
            None => None,
        },
        exact_block: match flat {
            Some(f) => f.block,
            None => None,
        },
        exact: flat matches Some(f) && f.exact,
        formula: match formula {
            Some(t) => Some(t.infix()),
            None => None,
        },
        deriv: match (formula, flat) {
            (Some(t), Some(f)) => Some(derivs(t, names, f.deps.len())),
            _ => None,
        },
        // an absence is nothing a verdict is read over, so there is no value to trace.
        trace: match (formula, flat) {
            (Some(t), Some(f)) if !guarded || whole_item(f.deps) => Some(t.traced(f.deps).drawn()),
            _ => None,
        },
    }
}

/// Whether an equation can be read off deps so wide.
pub open spec fn legible<V: Scalar>(t: Option<Tree<V>>, dep_len: nat) -> bool {
    t matches Some(t) ==> t.fits(dep_len) && lowerable(t)
}

/// Whether a node can be stepped and read.
pub open spec fn steppable<'t, V, N>(
    node: N,
    deps: <N::Deps as DepSet>::Outs<'t>,
    want: Want,
) -> bool where
    V: Scalar,
    N: Observed<V>,
    N::Deps: DepFlat<V>,
    N::Out<'t>: Flat<V> + Glance,
    N::Pre: Capture<V, <N::Deps as DepSet>::Outs<'t>>,
 {
    let (dep_len, out_len) = (
        <N::Deps as DepFlat<V>>::dep_len(),
        <N::Out<'t> as Flat<V>>::len_spec(),
    );
    &&& node.can_advance(deps)
    &&& <N::Deps as DepFlat<V>>::sound(deps)
    &&& dep_len <= usize::MAX
    &&& out_len * dep_len <= usize::MAX
    &&& forall|after: N, out: N::Out<'t>| #[trigger]
        node.advances(deps, &after, out) ==> out.sound() && out.readable()
    &&& forall|pre: N::Pre| #[trigger]
        node.captures(want, deps, pre) ==> {
            &&& pre.covers(dep_len, out_len)
            &&& pre.differs(deps, <N::Deps as DepFlat<V>>::dep_values(deps), out_len)
            &&& pre.scatters(deps, <N::Deps as DepFlat<V>>::dep_widths(), out_len)
            &&& legible(pre.equation(), dep_len)
        }
}

/// What a step of a node that ran shows an observer.
pub open spec fn showing<'t, V, N>(
    deps: <N::Deps as DepSet>::Outs<'t>,
    pre: N::Pre,
    want: Want,
    out: N::Out<'t>,
) -> Fired<V> where
    V: Scalar,
    N: Observed<V>,
    N::Deps: DepFlat<V>,
    N::Out<'t>: Flat<V> + Glance,
    N::Pre: Capture<V, <N::Deps as DepSet>::Outs<'t>>,
 {
    shown(
        out.headline(),
        <N::Out<'t> as Flat<V>>::dims_spec(),
        N::plots_spec(),
        N::facts_spec().clock,
        N::fidelity_spec(),
        out.count(),
        <N::Deps as DepFlat<V>>::dep_dims(),
        Some(flats_of::<V, N::Out<'t>, N::Deps, N::Pre>(out, deps, pre, want)),
        pre.equation(),
        pre.guarded(),
        <N::Deps as DepSet>::labels(),
    )
}

/// What a step of a node that did not run shows: the unfired view is the honest one.
pub open spec fn showing_dark<'t, V, N>(out: N::Out<'t>) -> Fired<V> where
    V: Scalar,
    N: Observed<V>,
    N::Deps: DepFlat<V>,
    N::Out<'t>: Flat<V> + Glance,
 {
    shown(
        out.headline(),
        <N::Out<'t> as Flat<V>>::dims_spec(),
        N::plots_spec(),
        N::facts_spec().clock,
        N::fidelity_spec(),
        out.count(),
        <N::Deps as DepFlat<V>>::dep_dims(),
        None,
        None,
        false,
        <N::Deps as DepSet>::labels(),
    )
}

/// What a step makes of a node and puts out, given whether it runs at all and what it reads if it does
/// not.
pub open spec fn seen<'t, N: Node>(
    was: N,
    run: bool,
    deps: <N::Deps as DepSet>::Outs<'t>,
    unrun: Option<N::Out<'t>>,
    after: N,
    out: N::Out<'t>,
) -> bool {
    if run {
        was.advances(deps, &after, out)
    } else {
        unrun == Some(out) && after == was
    }
}

/// The observed sweep of one level node, given whether it runs at all and what it reads if it does
/// not.
pub fn step_seen<'t, V, N, F, I, O>(
    frame: F,
    node: &'t mut N,
    run: bool,
    unrun: Option<N::Out<'t>>,
    sweep: &mut Sweep<V>,
    obs: &mut O,
) -> (r: Cons<'t, N, F>) where
    V: Scalar,
    N: Observed<V>,
    N::Deps: Pull<'t, F, I> + DepFlat<V>,
    N::Out<'t>: Flat<V> + Glance,
    N::Pre: Capture<V, <N::Deps as DepSet>::Outs<'t>>,
    O: Observer<V>,

    requires
        N::nameable(),
        <N::Deps as DepSet>::nameable(),
        hang_together(N::plots_spec(), <N::Out<'t> as Flat<V>>::dims_spec()),
        <N::Deps as Pull<'t, F, I>>::answers(&frame),
        run ==> steppable::<V, N>(
            *old(node),
            <N::Deps as Pull<'t, F, I>>::pulled(&frame),
            old(obs).wants(N::label()),
        ),
        !run ==> unrun is Some && unrun->Some_0.sound() && unrun->Some_0.readable(),
    ensures
        r.tail == frame,
        seen::<N>(
            *old(node),
            run,
            <N::Deps as Pull<'t, F, I>>::pulled(&frame),
            unrun,
            *final(node),
            r.out,
        ),
        old(obs).wants(N::label()) == Want::Nothing ==> *final(obs) == *old(obs),
        old(obs).wants(N::label()) != Want::Nothing && !run ==> old(obs).saw(
            N::label(),
            <N::Deps as DepSet>::labels(),
            <N::Deps as DepSet>::gate_flags(),
            showing_dark::<V, N>(r.out),
            final(obs),
        ),
        old(obs).wants(N::label()) != Want::Nothing && run ==> exists|pre: N::Pre| #[trigger]
            old(node).captures(
                old(obs).wants(N::label()),
                <N::Deps as Pull<'t, F, I>>::pulled(&frame),
                pre,
            ) && old(obs).saw(
                N::label(),
                <N::Deps as DepSet>::labels(),
                <N::Deps as DepSet>::gate_flags(),
                showing::<V, N>(
                    <N::Deps as Pull<'t, F, I>>::pulled(&frame),
                    pre,
                    old(obs).wants(N::label()),
                    r.out,
                ),
                final(obs),
            ),
{
    let name: String = N::name();
    let want: Want = obs.want(name.as_str());
    // gate closed or nobody reading: no advance, no dep flatten, no derivative.
    if !run {
        let out: N::Out<'t> = unrun.unwrap();
        if want != Want::Nothing {
            let glance: String = out.glance();
            let dims: Vec<usize> = <N::Out<'t> as Flat<V>>::dims();
            let dep_dims: Vec<Vec<usize>> = <N::Deps as DepFlat<V>>::dims();
            let fire: Fire<'_, V> = Fire {
                glance: glance.as_str(),
                dims: dims.as_slice(),
                plots: N::plots(),
                clock: N::facts().clock,
                fires: out.fires(),
                vals: None,
                dep_dims: dep_dims.as_slice(),
                jac: None,
                exact_block: None,
                exact: false,
                fidelity: N::fidelity(),
                formula: None,
                deriv: None,
                trace: None,
            };
            assert(fire@ =~= showing_dark::<V, N>(out));
            let names: Vec<String> = <N::Deps as DepSet>::names();
            let gates: Vec<bool> = <N::Deps as DepSet>::gates();
            obs.on(name.as_str(), names.as_slice(), gates.as_slice(), fire);
        }
        return Cons { out, tail: frame };
    }
    if want == Want::Nothing {
        let out: N::Out<'t> = node.advance(<N::Deps as Pull<'t, F, I>>::pull(&frame));
        return Cons { out, tail: frame };
    }
    let deps: <N::Deps as DepSet>::Outs<'t> = <N::Deps as Pull<'t, F, I>>::pull(&frame);
    // before the advance, which lends the node for the rest of the tick: the derivative reading is of
    // the state the value was computed from.
    let pre: N::Pre = node.pre(want, &deps);
    let out: N::Out<'t> = node.advance(<N::Deps as Pull<'t, F, I>>::pull(&frame));
    let names: Vec<String> = <N::Deps as DepSet>::names();
    let gates: Vec<bool> = <N::Deps as DepSet>::gates();
    let dims: Vec<usize> = <N::Out<'t> as Flat<V>>::dims();
    let dep_dims: Vec<Vec<usize>> = <N::Deps as DepFlat<V>>::dims();
    let glance: String = out.glance();
    let flat: Flats<'_, V> = Flats::of::<N::Out<'t>, N::Deps, N::Pre>(
        sweep,
        &out,
        &deps,
        &pre,
        want,
    );
    proof {
        <N::Deps as DepFlat<V>>::fills(deps);
    }
    let mut formula: Option<String> = None;
    let mut deriv: Option<String> = None;
    let mut trace: Option<String> = None;
    if let Some(f) = pre.formula() {
        formula = Some(f.infix());
        deriv = Some(spell_derivs(f, names.as_slice(), flat.deps.len()));
        if !pre.guards() || is_whole(flat.deps) {
            trace = Some(f.trace(flat.deps).text());
        }
    }
    let fire: Fire<'_, V> = Fire {
        glance: glance.as_str(),
        dims: dims.as_slice(),
        plots: N::plots(),
        clock: N::facts().clock,
        fires: out.fires(),
        vals: if flat.fired {
            Some(flat.vals)
        } else {
            None
        },
        dep_dims: dep_dims.as_slice(),
        jac: flat.jac,
        exact_block: flat.block,
        exact: flat.exact,
        fidelity: N::fidelity(),
        formula: borrowed(&formula),
        deriv: borrowed(&deriv),
        trace: borrowed(&trace),
    };
    assert(fire@ =~= showing::<V, N>(deps, pre, want, out));
    obs.on(name.as_str(), names.as_slice(), gates.as_slice(), fire);
    Cons { out, tail: frame }
}

fn borrowed<'a>(s: &'a Option<String>) -> (r: Option<&'a str>)
    ensures
        crate::observe::text_of(r) == match *s {
            Some(s) => Some(s@),
            None => None,
        },
{
    match s {
        Some(s) => Some(s.as_str()),
        None => None,
    }
}

/// The step of a node under an observer. Nobody observing erases to the bare step.
pub fn step_obs<'t, V, N, F, I, O>(
    frame: F,
    node: &'t mut N,
    sweep: &mut Sweep<V>,
    obs: &mut O,
) -> (r: Cons<'t, N, F>) where
    V: Scalar,
    N: Observed<V>,
    N::Deps: Pull<'t, F, I> + DepFlat<V>,
    N::Out<'t>: Flat<V> + Glance + Dark<<N::Deps as DepSet>::Lead>,
    N::Pre: Capture<V, <N::Deps as DepSet>::Outs<'t>>,
    O: Observer<V>,

    requires
        N::nameable(),
        <N::Deps as DepSet>::nameable(),
        hang_together(N::plots_spec(), <N::Out<'t> as Flat<V>>::dims_spec()),
        orderly::<N::Deps>(),
        <N::Deps as Pull<'t, F, I>>::answers(&frame),
        <N::Deps as Pull<'t, F, I>>::opened(&frame) ==> steppable::<V, N>(
            *old(node),
            <N::Deps as Pull<'t, F, I>>::pulled(&frame),
            old(obs).wants(N::label()),
        ),
        forall|out: N::Out<'t>| #[trigger] out.darkened() ==> out.sound() && out.readable(),
    ensures
        r.tail == frame,
        stepped::<N, F, I>(&frame, *old(node), *final(node), r.out),
        old(obs).wants(N::label()) == Want::Nothing ==> *final(obs) == *old(obs),
        old(obs).wants(N::label()) != Want::Nothing && !<N::Deps as Pull<'t, F, I>>::opened(
            &frame,
        ) ==> old(obs).saw(
            N::label(),
            <N::Deps as DepSet>::labels(),
            <N::Deps as DepSet>::gate_flags(),
            showing_dark::<V, N>(r.out),
            final(obs),
        ),
        old(obs).wants(N::label()) != Want::Nothing && <N::Deps as Pull<'t, F, I>>::opened(&frame)
            ==> exists|pre: N::Pre| #[trigger]
            old(node).captures(
                old(obs).wants(N::label()),
                <N::Deps as Pull<'t, F, I>>::pulled(&frame),
                pre,
            ) && old(obs).saw(
                N::label(),
                <N::Deps as DepSet>::labels(),
                <N::Deps as DepSet>::gate_flags(),
                showing::<V, N>(
                    <N::Deps as Pull<'t, F, I>>::pulled(&frame),
                    pre,
                    old(obs).wants(N::label()),
                    r.out,
                ),
                final(obs),
            ),
{
    let run: bool = <N::Deps as Pull<'t, F, I>>::open(&frame);
    let unrun: Option<N::Out<'t>> = if run {
        None
    } else {
        proof {
            lemma_shut_is_gated::<'t, F, I, N::Deps>(&frame);
        }
        Some(<N::Out<'t> as Dark<<N::Deps as DepSet>::Lead>>::dark())
    };
    step_seen(frame, node, run, unrun, sweep, obs)
}

/// The observed step of a node nobody's standing demand was derived for: it advances only while every
/// gate dominating its readers is open *and* its own gates are. Its out must be able to go unfired
/// because an undemanded node is dark whatever its own deps say.
pub fn step_when_obs<'t, V, N, F, I, O>(
    frame: F,
    node: &'t mut N,
    demanded: bool,
    sweep: &mut Sweep<V>,
    obs: &mut O,
) -> (r: Cons<'t, N, F>) where
    V: Scalar,
    N: Observed<V>,
    N::Deps: Pull<'t, F, I> + DepFlat<V>,
    N::Out<'t>: Flat<V> + Glance + Latent,
    N::Pre: Capture<V, <N::Deps as DepSet>::Outs<'t>>,
    O: Observer<V>,

    requires
        N::nameable(),
        <N::Deps as DepSet>::nameable(),
        hang_together(N::plots_spec(), <N::Out<'t> as Flat<V>>::dims_spec()),
        orderly::<N::Deps>(),
        <N::Deps as Pull<'t, F, I>>::answers(&frame),
        demanded && <N::Deps as Pull<'t, F, I>>::opened(&frame) ==> steppable::<V, N>(
            *old(node),
            <N::Deps as Pull<'t, F, I>>::pulled(&frame),
            old(obs).wants(N::label()),
        ),
        forall|out: N::Out<'t>| #[trigger] out.unfired() ==> out.sound() && out.readable(),
    ensures
        r.tail == frame,
        demanded && <N::Deps as Pull<'t, F, I>>::opened(&frame) ==> old(node).advances(
            <N::Deps as Pull<'t, F, I>>::pulled(&frame),
            final(node),
            r.out,
        ),
        !(demanded && <N::Deps as Pull<'t, F, I>>::opened(&frame)) ==> {
            &&& r.out.unfired()
            &&& *final(node) == *old(node)
        },
        old(obs).wants(N::label()) == Want::Nothing ==> *final(obs) == *old(obs),
        old(obs).wants(N::label()) != Want::Nothing && !(demanded && <N::Deps as Pull<
            't,
            F,
            I,
        >>::opened(&frame)) ==> old(obs).saw(
            N::label(),
            <N::Deps as DepSet>::labels(),
            <N::Deps as DepSet>::gate_flags(),
            showing_dark::<V, N>(r.out),
            final(obs),
        ),
        old(obs).wants(N::label()) != Want::Nothing && demanded && <N::Deps as Pull<
            't,
            F,
            I,
        >>::opened(&frame) ==> exists|pre: N::Pre| #[trigger]
            old(node).captures(
                old(obs).wants(N::label()),
                <N::Deps as Pull<'t, F, I>>::pulled(&frame),
                pre,
            ) && old(obs).saw(
                N::label(),
                <N::Deps as DepSet>::labels(),
                <N::Deps as DepSet>::gate_flags(),
                showing::<V, N>(
                    <N::Deps as Pull<'t, F, I>>::pulled(&frame),
                    pre,
                    old(obs).wants(N::label()),
                    r.out,
                ),
                final(obs),
            ),
{
    let run: bool = demanded && <N::Deps as Pull<'t, F, I>>::open(&frame);
    let unrun: Option<N::Out<'t>> = if run {
        None
    } else {
        Some(<N::Out<'t> as Latent>::latent())
    };
    step_seen(frame, node, run, unrun, sweep, obs)
}

/// A run-shaped node whose fires can be read.
pub trait ObservedRun<V: Scalar>: Emit where
    for <'x>Self: Cell<Out<'x> = &'x [<Self as Series>::Item]>,
 {
    type Pre;

    open spec fn fidelity_spec() -> Fidelity {
        arbitrary()
    }

    open spec fn plots_spec() -> Seq<Plot> {
        arbitrary()
    }

    /// What the node is captured as before it emits.
    open spec fn captures<'t>(
        &self,
        want: Want,
        deps: <Self::Deps as DepSet>::Outs<'t>,
        pre: Self::Pre,
    ) -> bool {
        arbitrary()
    }

    fn fidelity() -> (r: Fidelity)
        ensures
            r == Self::fidelity_spec(),
    ;

    fn plots() -> (r: &'static [Plot])
        ensures
            r@ == Self::plots_spec(),
    ;

    fn pre<'t>(&self, want: Want, deps: &<Self::Deps as DepSet>::Outs<'t>) -> (r: Self::Pre)
        requires
            self.can_emit(*deps),
        ensures
            self.captures(want, *deps, r),
    ;
}

/// Whether a run-shaped node can be stepped and read.
pub open spec fn emittable<'t, V, E>(
    node: E,
    deps: <E::Deps as DepSet>::Outs<'t>,
    want: Want,
) -> bool where
    V: Scalar,
    E: ObservedRun<V>,
    for <'x>E: Cell<Out<'x> = &'x [<E as Series>::Item]>,
    E::Item: Flat<V> + Glance,
    E::Deps: DepFlat<V>,
    E::Pre: Capture<V, <E::Deps as DepSet>::Outs<'t>>,
 {
    let (dep_len, out_len) = (<E::Deps as DepFlat<V>>::dep_len(), E::Item::len_spec());
    &&& node.can_emit(deps)
    &&& <E::Deps as DepFlat<V>>::sound(deps)
    &&& dep_len <= usize::MAX
    &&& out_len * dep_len <= usize::MAX
    &&& forall|after: E, run: Seq<E::Item>| #[trigger]
        node.emits(deps, &after, run) && run.len() > 0 ==> run.last().sound()
            && run.last().readable()
    &&& forall|pre: E::Pre| #[trigger]
        node.captures(want, deps, pre) ==> {
            &&& pre.covers(dep_len, out_len)
            &&& pre.differs(deps, <E::Deps as DepFlat<V>>::dep_values(deps), out_len)
            &&& pre.scatters(deps, <E::Deps as DepFlat<V>>::dep_widths(), out_len)
        }
}

/// What a fire of a run shows: its last element, and no equation, since a run has one per slot.
pub open spec fn showing_run<'t, V, E>(
    run: &'t [E::Item],
    flat: Option<FlatsView<V>>,
) -> Fired<V> where
    V: Scalar,
    E: ObservedRun<V>,
    for <'x>E: Cell<Out<'x> = &'x [<E as Series>::Item]>,
    E::Item: Flat<V> + Glance,
    E::Deps: DepFlat<V>,
 {
    shown(
        crate::glance::run_headline(run@),
        E::Item::dims_spec(),
        E::plots_spec(),
        E::facts_spec().clock,
        E::fidelity_spec(),
        run@.len(),
        <E::Deps as DepFlat<V>>::dep_dims(),
        flat,
        None,
        false,
        <E::Deps as DepSet>::labels(),
    )
}

/// The step of a run-shaped node under an observer, the engine's buffer standing in for the node's
/// out. A gate-closed, undemanded or off-clock one is simply the empty run.
pub fn step_emit_obs<'t, V, E, F, I, O>(
    frame: F,
    e: &'t mut Emitter<E>,
    demanded: bool,
    ts: i64,
    sweep: &mut Sweep<V>,
    obs: &mut O,
) -> (r: Cons<'t, E, F>) where
    V: Scalar,
    E: ObservedRun<V>,
    for <'x>E: Cell<Out<'x> = &'x [<E as Series>::Item]>,
    E::Item: Flat<V> + Glance,
    E::Deps: Pull<'t, F, I> + DepFlat<V>,
    E::Pre: Capture<V, <E::Deps as DepSet>::Outs<'t>>,
    O: Observer<V>,

    requires
        E::nameable(),
        <E::Deps as DepSet>::nameable(),
        hang_together(E::plots_spec(), E::Item::dims_spec()),
        orderly::<E::Deps>(),
        tells(E::facts_spec().clock),
        <E::Deps as Pull<'t, F, I>>::answers(&frame),
        runs::<E, F, I>(&frame, *old(e), demanded, ts as int) ==> emittable::<V, E>(
            old(e).held(),
            <E::Deps as Pull<'t, F, I>>::pulled(&frame),
            old(obs).wants(E::label()),
        ),
    ensures
        r.tail == frame,
        emitted::<E, F, I>(&frame, *old(e), demanded, ts as int, *final(e), r.out@),
        old(obs).wants(E::label()) == Want::Nothing ==> *final(obs) == *old(obs),
        old(obs).wants(E::label()) != Want::Nothing && !runs::<E, F, I>(
            &frame,
            *old(e),
            demanded,
            ts as int,
        ) ==> old(obs).saw(
            E::label(),
            <E::Deps as DepSet>::labels(),
            <E::Deps as DepSet>::gate_flags(),
            showing_run::<V, E>(r.out, None),
            final(obs),
        ),
        old(obs).wants(E::label()) != Want::Nothing && runs::<E, F, I>(
            &frame,
            *old(e),
            demanded,
            ts as int,
        ) ==> exists|pre: E::Pre| #[trigger]
            old(e).held().captures(
                old(obs).wants(E::label()),
                <E::Deps as Pull<'t, F, I>>::pulled(&frame),
                pre,
            ) && old(obs).saw(
                E::label(),
                <E::Deps as DepSet>::labels(),
                <E::Deps as DepSet>::gate_flags(),
                showing_run::<V, E>(
                    r.out,
                    Some(
                        flats_of::<V, &'t [E::Item], E::Deps, E::Pre>(
                            r.out,
                            <E::Deps as Pull<'t, F, I>>::pulled(&frame),
                            pre,
                            old(obs).wants(E::label()),
                        ),
                    ),
                ),
                final(obs),
            ),
{
    let name: String = E::name();
    let want: Want = obs.want(name.as_str());
    e.clear();
    let ghost cleared = *e;
    let mut run: bool = false;
    if demanded && <E::Deps as Pull<'t, F, I>>::open(&frame) {
        run = e.opens(ts);
    }
    // gate closed, nobody reading, or the period still running: no emit, no dep flatten, no
    // derivative. The empty run is the honest view.
    if !run {
        let out: &'t [E::Item] = e.filled();
        if want != Want::Nothing {
            see_run::<V, E, O>(out, name.as_str(), None, obs);
        }
        return Cons { out, tail: frame };
    }
    if want == Want::Nothing {
        e.fill(<E::Deps as Pull<'t, F, I>>::pull(&frame));
        return Cons { out: e.filled(), tail: frame };
    }
    let deps: <E::Deps as DepSet>::Outs<'t> = <E::Deps as Pull<'t, F, I>>::pull(&frame);
    // before the emit: the derivative belongs to the state the run was filled from.
    let pre: E::Pre = e.node().pre(want, &deps);
    e.fill(<E::Deps as Pull<'t, F, I>>::pull(&frame));
    let out: &'t [E::Item] = e.filled();
    let flat: Flats<'_, V> = Flats::of::<&'t [E::Item], E::Deps, E::Pre>(
        sweep,
        &out,
        &deps,
        &pre,
        want,
    );
    see_run::<V, E, O>(out, name.as_str(), Some(flat), obs);
    Cons { out, tail: frame }
}

/// A reading that may not have been taken.
pub open spec fn seen_flat<'s, V>(flat: Option<Flats<'s, V>>) -> Option<FlatsView<V>> {
    match flat {
        Some(f) => Some(f@),
        None => None,
    }
}

/// Shows an observer a run.
fn see_run<'t, 's, V, E, O>(
    out: &'t [E::Item],
    name: &str,
    flat: Option<Flats<'s, V>>,
    obs: &mut O,
) where
    V: Scalar,
    E: ObservedRun<V>,
    for <'x>E: Cell<Out<'x> = &'x [<E as Series>::Item]>,
    E::Item: Flat<V> + Glance,
    E::Deps: DepFlat<V>,
    O: Observer<V>,

    requires
        <E::Deps as DepSet>::nameable(),
        out@.len() > 0 ==> out@.last().readable(),
    ensures
        old(obs).saw(
            name@,
            <E::Deps as DepSet>::labels(),
            <E::Deps as DepSet>::gate_flags(),
            showing_run::<V, E>(out, seen_flat(flat)),
            final(obs),
        ),
{
    let names: Vec<String> = <E::Deps as DepSet>::names();
    let gates: Vec<bool> = <E::Deps as DepSet>::gates();
    let dims: Vec<usize> = E::Item::dims();
    let dep_dims: Vec<Vec<usize>> = <E::Deps as DepFlat<V>>::dims();
    let glance: String = out.glance();
    let ghost view = seen_flat(flat);
    let mut vals: Option<&[V]> = None;
    let mut jac: Option<&[V]> = None;
    let mut exact_block: Option<(&[V], &[usize])> = None;
    let mut exact: bool = false;
    if let Some(f) = flat {
        if f.fired {
            vals = Some(f.vals);
        }
        jac = f.jac;
        exact_block = f.block;
        exact = f.exact;
    }
    let fire: Fire<'_, V> = Fire {
        glance: glance.as_str(),
        dims: dims.as_slice(),
        plots: E::plots(),
        clock: E::facts().clock,
        fires: out.len(),
        vals,
        dep_dims: dep_dims.as_slice(),
        jac,
        exact_block,
        exact,
        fidelity: E::fidelity(),
        formula: None,
        deriv: None,
        trace: None,
    };
    assert(fire@ =~= showing_run::<V, E>(out, view));
    obs.on(name, names.as_slice(), gates.as_slice(), fire);
}

/// The root half of the observation: flatten a seeded root value and show its fire, which has no deps
/// and no slopes. Does nothing where nobody reads. An absence has a channel of its own, the out that
/// does not fire: one spelled as a slot without a number is refused, but of a type that says its slots
/// may be empty while it stands.
pub fn observe_root<'t, V, C, O>(out: C::Out<'t>, sweep: &mut Sweep<V>, obs: &mut O) where
    V: Scalar,
    C: Cell,
    C::Out<'t>: Flat<V> + Glance,
    O: Observer<V>,

    requires
        C::nameable(),
        out.sound(),
        out.readable(),
        out.fired() && !<C::Out<'t> as Flat<V>>::absentable() ==> whole_item(out.slots()),
    ensures
        old(obs).wants(C::label()) == Want::Nothing ==> *final(obs) == *old(obs),
        old(obs).wants(C::label()) != Want::Nothing ==> old(obs).saw(
            C::label(),
            Seq::empty(),
            Seq::empty(),
            shown(
                out.headline(),
                <C::Out<'t> as Flat<V>>::dims_spec(),
                seq![plain_plot(Seq::empty())],
                C::facts_spec().clock,
                Fidelity::Exact,
                out.count(),
                Seq::empty(),
                Some(
                    FlatsView {
                        fired: out.fired(),
                        vals: out.slots(),
                        deps: Seq::empty(),
                        jac: None,
                        exact: false,
                        block: None,
                    },
                ),
                None,
                false,
                Seq::empty(),
            ),
            final(obs),
        ),
{
    let name: String = C::name();
    if obs.want(name.as_str()) == Want::Nothing {
        return;
    }
    proof {
        <C::Out<'t> as Flat<V>>::fills(&out);
    }
    sweep.vals = blanked(<C::Out<'t> as Flat<V>>::len());
    // a root is pulled from nothing, so there are no deps to flatten and nothing to differentiate.
    let fired: bool = out.flat(sweep.vals.as_mut_slice());
    sweep.deps = Vec::new();
    let glance: String = out.glance();
    let dims: Vec<usize> = <C::Out<'t> as Flat<V>>::dims();
    let dep_dims: Vec<Vec<usize>> = Vec::new();
    let names: Vec<String> = Vec::new();
    let gates: Vec<bool> = Vec::new();
    let plots: &'static [Plot] = default_plots();
    let fire: Fire<'_, V> = Fire {
        glance: glance.as_str(),
        dims: dims.as_slice(),
        plots,
        clock: C::facts().clock,
        fires: out.fires(),
        vals: if fired {
            Some(sweep.vals.as_slice())
        } else {
            None
        },
        dep_dims: dep_dims.as_slice(),
        jac: None,
        exact_block: None,
        exact: false,
        // a root is not computed here at all: nothing read it, so nothing was omitted from a reading.
        fidelity: Fidelity::Exact,
        formula: None,
        deriv: None,
        trace: None,
    };
    proof {
        let view = FlatsView::<V> {
            fired: out.fired(),
            vals: out.slots(),
            deps: Seq::empty(),
            jac: None,
            exact: false,
            block: None,
        };
        assert(shapes(dep_dims@) =~= Seq::empty());
        assert(names@.map_values(|s: String| s@) =~= Seq::empty());
        assert(gates@ =~= Seq::empty());
        assert(fire@ =~= shown(
            out.headline(),
            dims@,
            plots@,
            C::facts_spec().clock,
            Fidelity::Exact,
            out.count(),
            Seq::empty(),
            Some(view),
            None,
            false,
            Seq::empty(),
        ));
    }
    obs.on(name.as_str(), names.as_slice(), gates.as_slice(), fire);
}

} // verus!
