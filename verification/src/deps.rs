//! What a node reads, as a list of cells, and how a frame answers it.
//!
//! A dep list is nested pairs ending in `()`: `(A, (B, ()))` reads `A` and then `B`.

use vstd::prelude::*;

use crate::cell::{Bit, Cell, Facts, Has, No};
use crate::manifest::{set_lead, some_set};
use crate::manifest::{any, gating_leads};

verus! {

/// What a node reads.
pub trait DepSet {
    type Outs<'t>;

    /// The leading dep's [`Cell::Gates`], which, gating deps leading, is "is this node gated at all".
    type Lead: Bit;

    open spec fn labels() -> Seq<Seq<char>> {
        arbitrary()
    }

    open spec fn nameable() -> bool {
        arbitrary()
    }

    open spec fn all_facts() -> Seq<Facts> {
        arbitrary()
    }

    /// Per dep, positionally: which of these inputs are the node's gates.
    open spec fn gate_flags() -> Seq<bool> {
        arbitrary()
    }

    proof fn the_lead_leads()
        ensures
            Self::Lead::set() == (Self::gate_flags().len() > 0 && Self::gate_flags()[0]),
    ;

    fn names() -> (r: Vec<String>)
        requires
            Self::nameable(),
        ensures
            r@.map_values(|s: String| s@) == Self::labels(),
    ;

    /// Per dep, positionally: what each says of itself.
    fn facts() -> (r: Vec<Facts>)
        ensures
            r@ == Self::all_facts(),
    ;

    fn gates() -> (r: Vec<bool>)
        ensures
            r@ == Self::gate_flags(),
    ;
}

impl DepSet for () {
    type Outs<'t> = ();

    type Lead = No;

    open spec fn labels() -> Seq<Seq<char>> {
        Seq::empty()
    }

    open spec fn nameable() -> bool {
        true
    }

    open spec fn all_facts() -> Seq<Facts> {
        Seq::empty()
    }

    open spec fn gate_flags() -> Seq<bool> {
        Seq::empty()
    }

    proof fn the_lead_leads() {
    }

    fn names() -> (r: Vec<String>) {
        let r: Vec<String> = Vec::new();
        assert(r@.map_values(|s: String| s@) =~= Seq::empty());
        r
    }

    fn facts() -> (r: Vec<Facts>) {
        Vec::new()
    }

    fn gates() -> (r: Vec<bool>) {
        Vec::new()
    }
}

impl<H: Cell, T: DepSet> DepSet for (H, T) {
    type Outs<'t> = (H::Out<'t>, T::Outs<'t>);

    type Lead = H::Gates;

    open spec fn labels() -> Seq<Seq<char>> {
        seq![H::label()] + T::labels()
    }

    open spec fn nameable() -> bool {
        H::nameable() && T::nameable()
    }

    open spec fn all_facts() -> Seq<Facts> {
        seq![H::facts_spec()] + T::all_facts()
    }

    open spec fn gate_flags() -> Seq<bool> {
        seq![H::Gates::set()] + T::gate_flags()
    }

    proof fn the_lead_leads() {
    }

    fn names() -> (r: Vec<String>) {
        let tail: Vec<String> = T::names();
        let mut r: Vec<String> = Vec::new();
        r.push(H::name());
        let ghost head = r@;
        let mut i: usize = 0;
        while i < tail.len()
            invariant
                i <= tail@.len(),
                tail@.map_values(|s: String| s@) == T::labels(),
                r@.len() == 1 + i,
                r@[0]@ == H::label(),
                forall|j: int| 0 <= j < i ==> #[trigger] r@[j + 1]@ == tail@[j]@,
            decreases tail@.len() - i,
        {
            let s: String = tail[i].clone();
            r.push(s);
            i += 1;
        }
        proof {
            let ls = tail@.map_values(|s: String| s@);
            assert forall|j: int| 0 <= j < r@.len() implies r@[j]@ == Self::labels()[j] by {
                if j > 0 {
                    assert(r@[(j - 1) + 1]@ == tail@[j - 1]@);
                    assert(ls[j - 1] == tail@[j - 1]@);
                }
            }
            assert(r@.map_values(|s: String| s@) =~= Self::labels());
        }
        r
    }

    fn facts() -> (r: Vec<Facts>) {
        let tail: Vec<Facts> = T::facts();
        let mut r: Vec<Facts> = Vec::new();
        r.push(H::facts());
        let mut i: usize = 0;
        while i < tail.len()
            invariant
                i <= tail@.len(),
                tail@ == T::all_facts(),
                r@ == seq![H::facts_spec()] + tail@.take(i as int),
            decreases tail@.len() - i,
        {
            r.push(tail[i]);
            assert(tail@.take(i + 1) =~= tail@.take(i as int).push(tail@[i as int]));
            i += 1;
        }
        assert(tail@.take(i as int) =~= tail@);
        r
    }

    fn gates() -> (r: Vec<bool>) {
        let tail: Vec<bool> = T::gates();
        let mut r: Vec<bool> = Vec::new();
        r.push(H::Gates::value());
        let mut i: usize = 0;
        while i < tail.len()
            invariant
                i <= tail@.len(),
                tail@ == T::gate_flags(),
                r@ == seq![H::Gates::set()] + tail@.take(i as int),
            decreases tail@.len() - i,
        {
            r.push(tail[i]);
            assert(tail@.take(i + 1) =~= tail@.take(i as int).push(tail@[i as int]));
            i += 1;
        }
        assert(tail@.take(i as int) =~= tail@);
        r
    }
}

/// Which deps are the node's own to hold.
pub open spec fn folds(facts: Seq<Facts>) -> Seq<bool> {
    facts.map_values(|f: Facts| f.folded)
}

/// Which deps survive a tick the node is not run on.
pub open spec fn retains(facts: Seq<Facts>) -> Seq<bool> {
    facts.map_values(|f: Facts| f.retained)
}

/// Whether a dep list may be stepped: its gates lead, since a closed gate must pull nothing and the
/// list is read left to right; and a gated node holds no reach of its own, since a closed gate pulls
/// no deps and a folded one would never re-warm.
pub open spec fn orderly<D: DepSet>() -> bool {
    &&& set_lead(D::gate_flags())
    &&& !some_set(D::gate_flags()) || !some_set(folds(D::all_facts()))
}

pub fn in_order<D: DepSet>() -> (r: bool)
    ensures
        r == orderly::<D>(),
{
    let gates: Vec<bool> = D::gates();
    let facts: Vec<Facts> = D::facts();
    let mut folded: Vec<bool> = Vec::new();
    let mut i: usize = 0;
    while i < facts.len()
        invariant
            i <= facts@.len(),
            folded@ == folds(facts@).take(i as int),
        decreases facts@.len() - i,
    {
        folded.push(facts[i].folded);
        assert(folds(facts@).take(i + 1) =~= folds(facts@).take(i as int).push(
            folds(facts@)[i as int],
        ));
        i += 1;
    }
    assert(folds(facts@).take(i as int) =~= folds(facts@));
    gating_leads(gates.as_slice()) && (!any(gates.as_slice()) || !any(folded.as_slice()))
}

/// Extracts a [`DepSet`]'s outputs from frame `F`. `I` is the inferred index path, never named by
/// callers.
pub trait Pull<'t, F, I>: DepSet {
    /// Whether the frame can answer every dep.
    open spec fn answers(f: &F) -> bool {
        arbitrary()
    }

    open spec fn pulled(f: &F) -> Self::Outs<'t> {
        arbitrary()
    }

    /// Whether every gating dep reads true.
    open spec fn opened(f: &F) -> bool {
        arbitrary()
    }

    /// Only a gate shuts.
    proof fn a_gate_shuts(f: &F)
        ensures
            !Self::opened(f) ==> some_set(Self::gate_flags()),
    ;

    fn pull(f: &F) -> (r: Self::Outs<'t>)
        requires
            Self::answers(f),
        ensures
            r == Self::pulled(f),
    ;

    /// Whether every gating dep of this set reads true: the one question answerable without pulling
    /// anything else. The conjunction runs in dep order, so a closed gate short-circuits before a
    /// plain dep is so much as read.
    fn open(f: &F) -> (r: bool)
        requires
            Self::answers(f),
        ensures
            r == Self::opened(f),
    ;
}

impl<'t, F> Pull<'t, F, ()> for () {
    open spec fn answers(f: &F) -> bool {
        true
    }

    open spec fn pulled(f: &F) -> () {
        ()
    }

    open spec fn opened(f: &F) -> bool {
        true
    }

    proof fn a_gate_shuts(f: &F) {
    }

    fn pull(f: &F) -> (r: ()) {
    }

    fn open(f: &F) -> (r: bool) {
        true
    }
}

impl<'t, F, H: Cell, Ih, T: DepSet, It> Pull<'t, F, (Ih, It)> for (H, T) where
    F: Has<'t, H, Ih>,
    T: Pull<'t, F, It>,
 {
    open spec fn answers(f: &F) -> bool {
        <F as Has<'t, H, Ih>>::answers(f) && <T as Pull<'t, F, It>>::answers(f)
    }

    open spec fn pulled(f: &F) -> (H::Out<'t>, T::Outs<'t>) {
        (<F as Has<'t, H, Ih>>::held(f), <T as Pull<'t, F, It>>::pulled(f))
    }

    open spec fn opened(f: &F) -> bool {
        (!H::Gates::set() || H::permits(<F as Has<'t, H, Ih>>::held(f))) && <T as Pull<
            't,
            F,
            It,
        >>::opened(f)
    }

    proof fn a_gate_shuts(f: &F) {
        <T as Pull<'t, F, It>>::a_gate_shuts(f);
        let flags = Self::gate_flags();
        if H::Gates::set() {
            assert(flags[0]);
        }
        if some_set(T::gate_flags()) {
            let i = choose|i: int| 0 <= i < T::gate_flags().len() && #[trigger] T::gate_flags()[i];
            assert(flags[i + 1]);
        }
    }

    fn pull(f: &F) -> (r: (H::Out<'t>, T::Outs<'t>)) {
        (<F as Has<'t, H, Ih>>::get(f), <T as Pull<'t, F, It>>::pull(f))
    }

    fn open(f: &F) -> (r: bool) {
        (!H::Gates::value() || H::opens(<F as Has<'t, H, Ih>>::get(f))) && <T as Pull<
            't,
            F,
            It,
        >>::open(f)
    }
}

/// A gated node of an orderly list is gated by the dep that leads it.
pub proof fn lemma_shut_is_gated<'t, F, I, D: Pull<'t, F, I>>(f: &F)
    requires
        orderly::<D>(),
        !<D as Pull<'t, F, I>>::opened(f),
    ensures
        <D::Lead as Bit>::set(),
{
    <D as Pull<'t, F, I>>::a_gate_shuts(f);
    D::the_lead_leads();
    let flags = D::gate_flags();
    let i = choose|i: int| 0 <= i < flags.len() && #[trigger] flags[i];
    if i > 0 {
        assert(flags[0]);
    }
}

} // verus!
