//! The flattening of a whole dep list, and its finite-difference witness.

use vstd::prelude::*;

use crate::block::{lemma_width_sum_first, width_sum};
use crate::cell::Cell;
use crate::deps::DepSet;
use crate::flat::{volume, Flat};
use crate::scalar::Scalar;

verus! {

/// Some shapes.
pub open spec fn shapes(dims: Seq<Vec<usize>>) -> Seq<Seq<usize>> {
    dims.map_values(|d: Vec<usize>| d@)
}

/// The flattening of a whole dep list, slots concatenated in dep order, each batch dep as its last
/// element.
pub trait DepFlat<V: Scalar>: DepSet {
    /// Whether every dep can be read.
    open spec fn sound<'t>(outs: Self::Outs<'t>) -> bool {
        arbitrary()
    }

    /// How many slots the deps flatten to.
    open spec fn dep_len() -> nat {
        arbitrary()
    }

    /// How many slots each dep flattens to.
    open spec fn dep_widths() -> Seq<usize> {
        arbitrary()
    }

    /// The shape of each dep.
    open spec fn dep_dims() -> Seq<Seq<usize>> {
        arbitrary()
    }

    open spec fn dep_values<'t>(outs: Self::Outs<'t>) -> Seq<V> {
        arbitrary()
    }

    /// How many elements the *leading* dep fired. That dep is the one a per-element kernel walks: its
    /// rate is the node's.
    open spec fn lead_count<'t>(outs: Self::Outs<'t>) -> nat {
        arbitrary()
    }

    proof fn fills<'t>(outs: Self::Outs<'t>)
        requires
            Self::sound(outs),
        ensures
            Self::dep_values(outs).len() == Self::dep_len(),
    ;

    proof fn widths_add_up()
        requires
            Self::dep_len() <= usize::MAX,
        ensures
            width_sum(Self::dep_widths()) == Self::dep_len(),
    ;

    /// The axes of each dep multiply out to its slots, so a dep's columns are found from the shapes
    /// alone.
    proof fn shaped()
        requires
            Self::dep_len() <= usize::MAX,
        ensures
            Self::dep_dims().len() == Self::dep_widths().len(),
            forall|i: int|
                0 <= i < Self::dep_dims().len() ==> volume(#[trigger] Self::dep_dims()[i])
                    == Self::dep_widths()[i],
    ;

    fn len() -> (r: usize)
        requires
            Self::dep_len() <= usize::MAX,
        ensures
            r == Self::dep_len(),
    ;

    fn widths() -> (r: Vec<usize>)
        ensures
            r@ == Self::dep_widths(),
    ;

    fn dims() -> (r: Vec<Vec<usize>>)
        ensures
            shapes(r@) == Self::dep_dims(),
    ;

    fn flat<'t>(outs: &Self::Outs<'t>, dst: &mut [V])
        requires
            Self::sound(*outs),
            old(dst)@.len() == Self::dep_len(),
        ensures
            final(dst)@ == Self::dep_values(*outs),
    ;

    fn lead_fires<'t>(outs: &Self::Outs<'t>) -> (r: usize)
        requires
            Self::sound(*outs),
        ensures
            r == Self::lead_count(*outs),
    ;
}

impl<V: Scalar> DepFlat<V> for () {
    open spec fn sound<'t>(outs: ()) -> bool {
        true
    }

    open spec fn dep_len() -> nat {
        0
    }

    open spec fn dep_widths() -> Seq<usize> {
        Seq::empty()
    }

    open spec fn dep_dims() -> Seq<Seq<usize>> {
        Seq::empty()
    }

    open spec fn dep_values<'t>(outs: ()) -> Seq<V> {
        Seq::empty()
    }

    /// A node depending on nothing has nothing to walk.
    open spec fn lead_count<'t>(outs: ()) -> nat {
        0
    }

    proof fn fills<'t>(outs: ()) {
    }

    proof fn widths_add_up() {
    }

    proof fn shaped() {
    }

    fn len() -> (r: usize) {
        0
    }

    fn widths() -> (r: Vec<usize>) {
        Vec::new()
    }

    fn dims() -> (r: Vec<Vec<usize>>) {
        let r: Vec<Vec<usize>> = Vec::new();
        assert(shapes(r@) =~= Seq::empty());
        r
    }

    fn flat<'t>(outs: &(), dst: &mut [V]) {
        assert(dst@ =~= Seq::empty());
    }

    fn lead_fires<'t>(outs: &()) -> (r: usize) {
        0
    }
}

impl<V: Scalar, H: Cell, T: DepFlat<V>> DepFlat<V> for (H, T) where for <'x>H::Out<'x>: Flat<V> {
    open spec fn sound<'t>(outs: (H::Out<'t>, T::Outs<'t>)) -> bool {
        outs.0.sound() && T::sound(outs.1)
    }

    open spec fn dep_len() -> nat {
        <H::Out<'static> as Flat<V>>::len_spec() + T::dep_len()
    }

    open spec fn dep_widths() -> Seq<usize> {
        seq![<H::Out<'static> as Flat<V>>::len_spec() as usize] + T::dep_widths()
    }

    open spec fn dep_dims() -> Seq<Seq<usize>> {
        seq![<H::Out<'static> as Flat<V>>::dims_spec()] + T::dep_dims()
    }

    open spec fn dep_values<'t>(outs: (H::Out<'t>, T::Outs<'t>)) -> Seq<V> {
        outs.0.slots() + T::dep_values(outs.1)
    }

    open spec fn lead_count<'t>(outs: (H::Out<'t>, T::Outs<'t>)) -> nat {
        <H::Out<'t> as Flat<V>>::count(&outs.0)
    }

    proof fn fills<'t>(outs: (H::Out<'t>, T::Outs<'t>)) {
        <H::Out<'t> as Flat<V>>::fills(&outs.0);
        T::fills(outs.1);
    }

    proof fn widths_add_up() {
        T::widths_add_up();
        lemma_width_sum_first(
            <H::Out<'static> as Flat<V>>::len_spec() as usize,
            T::dep_widths(),
        );
    }

    proof fn shaped() {
        <H::Out<'static> as Flat<V>>::shaped();
        T::shaped();
        assert forall|i: int| 0 <= i < Self::dep_dims().len() implies volume(
            #[trigger] Self::dep_dims()[i],
        ) == Self::dep_widths()[i] by {
            if i > 0 {
                assert(Self::dep_dims()[i] == T::dep_dims()[i - 1]);
            }
        }
    }

    fn len() -> (r: usize) {
        <H::Out<'static> as Flat<V>>::len() + T::len()
    }

    fn widths() -> (r: Vec<usize>) {
        let tail: Vec<usize> = T::widths();
        let mut r: Vec<usize> = Vec::new();
        r.push(<H::Out<'static> as Flat<V>>::len());
        let mut i: usize = 0;
        while i < tail.len()
            invariant
                i <= tail@.len(),
                tail@ == T::dep_widths(),
                r@ == seq![<H::Out<'static> as Flat<V>>::len_spec() as usize] + tail@.take(
                    i as int,
                ),
            decreases tail@.len() - i,
        {
            r.push(tail[i]);
            assert(tail@.take(i + 1) =~= tail@.take(i as int).push(tail@[i as int]));
            i += 1;
        }
        assert(tail@.take(i as int) =~= tail@);
        r
    }

    fn dims() -> (r: Vec<Vec<usize>>) {
        let mut r: Vec<Vec<usize>> = T::dims();
        let head: Vec<usize> = <H::Out<'static> as Flat<V>>::dims();
        let ghost tail = r@;
        r.insert(0, head);
        assert(shapes(r@) =~= seq![head@] + shapes(tail));
        r
    }

    fn flat<'t>(outs: &(H::Out<'t>, T::Outs<'t>), dst: &mut [V]) {
        let n: usize = <H::Out<'t> as Flat<V>>::len();
        let (head, rest) = dst.split_at_mut(n);
        outs.0.flat(head);
        T::flat(&outs.1, rest);
    }

    fn lead_fires<'t>(outs: &(H::Out<'t>, T::Outs<'t>)) -> (r: usize) {
        <H::Out<'t> as Flat<V>>::fires(&outs.0)
    }
}

} // verus!
