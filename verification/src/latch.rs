//! Gates, and the latch that is armed from outside and cut from within.

use core::marker::PhantomData;
use vstd::prelude::*;
use vstd::utf8::encode_utf8;

use crate::cell::{Cell, Cons, Facts, Folding, Has, Here, No, Yes};
use crate::horizon::Unbounded;
use crate::node::Node;
use crate::series::spell_one;
use crate::series::tagged;
use crate::tag::TAG_CAP;

verus! {

/// A binary control signal. A node naming it through a [`Gating`] dep is not advanced while it is
/// false: deps not pulled, no work done, the out its unfired reading. Gates are scalar-out.
pub trait Gate: Node where for <'t>Self: Cell<Out<'t> = bool> {

}

/// Dep position only, never a frame field: the input that *dominates*. While it reads false its
/// consumer does not advance.
///
/// Being a dep is the point: what gates a node is also what it depends on, and stating it anywhere
/// else makes an edge no reader of the deps can see. Gating deps lead the list.
pub struct Gating<C>(PhantomData<C>);

impl<C: Gate> Cell for Gating<C> where for <'t>C: Cell<Out<'t> = bool> {
    type Out<'t> = bool;

    type Gates = Yes;

    open spec fn label() -> Seq<char> {
        C::label()
    }

    open spec fn nameable() -> bool {
        C::nameable()
    }

    open spec fn facts_spec() -> Facts {
        Facts { clock: C::facts_spec().clock, ..Facts::plain() }
    }

    open spec fn permits<'t>(out: bool) -> bool {
        out
    }

    fn name() -> (r: String) {
        C::name()
    }

    fn facts() -> (r: Facts) {
        Facts { clock: C::facts().clock, ..Facts::bare() }
    }

    fn opens<'t>(out: bool) -> (r: bool) {
        out
    }
}

impl<'t, C: Gate, T> Has<'t, Gating<C>, Here> for Cons<'t, C, T> where
    for <'x>C: Cell<Out<'x> = bool>,
 {
    open spec fn answers(&self) -> bool {
        true
    }

    open spec fn held(&self) -> bool {
        self.out
    }

    fn get(&self) -> (r: bool) {
        self.out
    }
}

/// Episode lifecycle on an out value.
pub trait Episode: Sized {
    open spec fn ended(&self) -> bool {
        arbitrary()
    }

    fn terminal(&self) -> (r: bool)
        ensures
            r == self.ended(),
    ;
}

/// `None`, latent or off cadence, is never terminal.
impl<T: Episode> Episode for Option<T> {
    open spec fn ended(&self) -> bool {
        match self {
            Some(t) => t.ended(),
            None => false,
        }
    }

    fn terminal(&self) -> (r: bool) {
        match self {
            Some(t) => t.terminal(),
            None => false,
        }
    }
}

/// A batch ends the episode if *any* element does. Deliberately not the last one: that would read the
/// value standing at end-of-batch, where this asks whether the boundary was crossed anywhere in the
/// run. Empty is not terminal, so a dark node never cuts itself.
impl<'a, T: Episode> Episode for &'a [T] {
    open spec fn ended(&self) -> bool {
        exists|i: int| 0 <= i < self@.len() && (#[trigger] self@[i]).ended()
    }

    fn terminal(&self) -> (r: bool) {
        let mut i: usize = 0;
        while i < self.len()
            invariant
                i <= self@.len(),
                forall|j: int| 0 <= j < i ==> !(#[trigger] self@[j]).ended(),
            decreases self@.len() - i,
        {
            if self[i].terminal() {
                assert(self@[i as int].ended());
                return true;
            }
            i += 1;
        }
        false
    }
}

/// A [`Gate`] armed from outside and cut from within: an external event sets it, conduction latches
/// in its own state, and it turns off by natural commutation when the episode it gates reaches a
/// terminal out. No second external signal ever closes it. The cut is read after the sweep;
/// commutation and the resets of what it gates are deferred to the next tick's start.
pub trait Latch: Gate where for <'t>Self: Cell<Out<'t> = bool> {
    /// The gated cell whose terminal out commutates this latch.
    type Cut: Cell;

    open spec fn closed_contact(&self) -> bool {
        arbitrary()
    }

    fn commutate(&mut self)
        ensures
            !final(self).closed_contact(),
    ;

    /// The contact as it stands *before* this tick's sweep: the one gate reading whose value does not
    /// depend on sweep order, which is what lets it suppress what feeds it.
    fn standing(&self) -> (r: bool)
        ensures
            r == self.closed_contact(),
    ;
}

/// A node that runs a self-terminating episode, latched from inside the graph. The trigger is the one
/// dep that stays live while the episode is dark, and the node's own terminal out drops the contact.
/// [`Armed`] of it is the only gate it can be behind.
pub trait Episodic: Cell {
    type Trigger: Cell;

    open spec fn arms_on<'t>(trigger: <Self::Trigger as Cell>::Out<'t>) -> bool {
        arbitrary()
    }

    fn arms<'t>(trigger: <Self::Trigger as Cell>::Out<'t>) -> (r: bool)
        ensures
            r == Self::arms_on(trigger),
    ;
}

/// An [`Episodic`] node's own contact: an ordinary node stepped before it, so it and any leg meant to
/// go dark with it name the contact in a [`Gating`] dep. It folds its trigger without bound by
/// construction, since a latched bit is exactly the state nothing reconstitutes, which is also why it
/// can never itself be gated.
pub struct Armed<N> {
    pub contact: bool,
    pub episode: PhantomData<N>,
}

impl<N> Default for Armed<N> {
    fn default() -> (r: Self)
        ensures
            !r.contact,
    {
        Armed { contact: false, episode: PhantomData }
    }
}

impl<N> Clone for Armed<N> {
    fn clone(&self) -> (r: Self)
        ensures
            r.contact == self.contact,
    {
        Armed { contact: self.contact, episode: PhantomData }
    }
}

impl<N: Episodic> Cell for Armed<N> {
    type Out<'t> = bool;

    type Gates = No;

    open spec fn label() -> Seq<char> {
        tagged("Armed"@, N::label(), None)
    }

    open spec fn nameable() -> bool {
        N::nameable() && encode_utf8(Self::label()).len() <= TAG_CAP
    }

    open spec fn facts_spec() -> Facts {
        Facts::plain()
    }

    open spec fn permits<'t>(out: bool) -> bool {
        true
    }

    fn name() -> (r: String) {
        spell_one("Armed", N::name().as_str())
    }

    fn facts() -> (r: Facts) {
        Facts::bare()
    }

    fn opens<'t>(out: bool) -> (r: bool) {
        true
    }
}

impl<N: Episodic> Node for Armed<N> {
    type Deps = (Folding<N::Trigger, Unbounded>, ());

    open spec fn can_advance<'t>(&self, deps: (<N::Trigger as Cell>::Out<'t>, ())) -> bool {
        true
    }

    /// A latch is a bit that stays set.
    open spec fn advances<'t>(
        &self,
        deps: (<N::Trigger as Cell>::Out<'t>, ()),
        after: &Self,
        out: bool,
    ) -> bool {
        &&& out == (self.contact || N::arms_on(deps.0))
        &&& after.contact == out
    }

    fn advance<'t>(&'t mut self, deps: (<N::Trigger as Cell>::Out<'t>, ())) -> (out: bool) {
        let armed: bool = N::arms(deps.0);
        self.contact = self.contact || armed;
        self.contact
    }
}

impl<N: Episodic> Gate for Armed<N> {

}

impl<N: Episodic> Latch for Armed<N> {
    type Cut = N;

    open spec fn closed_contact(&self) -> bool {
        self.contact
    }

    fn commutate(&mut self) {
        self.contact = false;
    }

    fn standing(&self) -> (r: bool) {
        self.contact
    }
}

/// A latched contact stays closed through every tick until it is cut, whatever its trigger does.
pub proof fn a_latched_contact_stays_closed<'t, N: Episodic>(
    before: Armed<N>,
    trigger: <N::Trigger as Cell>::Out<'t>,
    after: Armed<N>,
    out: bool,
)
    requires
        before.contact,
        before.advances((trigger, ()), &after, out),
    ensures
        out,
        after.contact,
{
}

/// An open contact closes exactly where its trigger arms it.
pub proof fn an_open_contact_closes_where_it_is_armed<'t, N: Episodic>(
    before: Armed<N>,
    trigger: <N::Trigger as Cell>::Out<'t>,
    after: Armed<N>,
    out: bool,
)
    requires
        !before.contact,
        before.advances((trigger, ()), &after, out),
    ensures
        out == N::arms_on(trigger),
        after.contact == out,
{
}

/// An episode is over with the first of its elements that ends it, wherever in the batch it stands, and
/// an absence ends nothing.
pub proof fn one_terminal_element_ends_an_episode<'a, T: Episode>(run: &'a [T], i: int)
    ensures
        0 <= i < run@.len() && run@[i].ended() ==> run.ended(),
        (forall|k: int| 0 <= k < run@.len() ==> !(#[trigger] run@[k]).ended()) ==> !run.ended(),
        !None::<T>.ended(),
        0 <= i < run@.len() ==> Some(run@[i]).ended() == run@[i].ended(),
{
}

/// What is not there ended nothing; what is there ended where it says so, and a run where any of its
/// elements did.
pub proof fn a_run_ends_where_one_of_it_does<'a, T: Episode>(x: T, run: &'a [T], i: int)
    requires
        0 <= i < run@.len(),
    ensures
        <Option<T> as Episode>::ended(&Some(x)) == x.ended(),
        !<Option<T> as Episode>::ended(&None::<T>),
        run@[i].ended() ==> <&'a [T] as Episode>::ended(&run),
        (forall|k: int| 0 <= k < run@.len() ==> !(#[trigger] run@[k]).ended()) ==> !<&'a [T] as Episode>::ended(
            &run,
        ),
{
}

} // verus!
