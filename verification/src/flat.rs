//! A cell output as a fixed-shape element array: the unit of observation and differentiation.

use vstd::prelude::*;

use crate::rows::Hist;
use crate::scalar::{indicator, Scalar};
use crate::scalar::truth;

verus! {

/// The product of some lengths.
pub open spec fn volume(dims: Seq<usize>) -> nat
    decreases dims.len(),
{
    if dims.len() == 0 {
        1
    } else {
        volume(dims.drop_last()) * dims.last() as nat
    }
}

/// A cell output as a fixed-shape element array. A batch out flattens to its *last* element: the
/// observer sees end-of-batch.
pub trait Flat<V: Scalar>: Sized {
    /// How many slots the out flattens to.
    open spec fn len_spec() -> nat {
        arbitrary()
    }

    /// The shape of the out: no axis for a scalar, one for a vector, row-major beyond that.
    open spec fn dims_spec() -> Seq<usize> {
        arbitrary()
    }

    /// Whether an out that fired may hold an absence: a slot with nothing to say while the out stands.
    open spec fn absentable() -> bool {
        false
    }

    /// Whether the out can be read at all.
    open spec fn sound(&self) -> bool {
        arbitrary()
    }

    /// The slots: absent in every one where the out did not fire.
    open spec fn slots(&self) -> Seq<V> {
        arbitrary()
    }

    open spec fn fired(&self) -> bool {
        arbitrary()
    }

    /// How many elements the out fired.
    open spec fn count(&self) -> nat {
        arbitrary()
    }

    /// Every slot is filled, and none of them with a number where the out did not fire.
    proof fn fills(&self)
        requires
            self.sound(),
        ensures
            self.slots().len() == Self::len_spec(),
            !self.fired() ==> all_absent(self.slots()),
    ;

    /// The axes multiply out to the slots.
    proof fn shaped()
        ensures
            volume(Self::dims_spec()) == Self::len_spec(),
    ;

    fn dims() -> (r: Vec<usize>)
        ensures
            r@ == Self::dims_spec(),
    ;

    fn len() -> (r: usize)
        ensures
            r == Self::len_spec(),
    ;

    /// Writes every slot of `out`; returns whether the out fired.
    fn flat(&self, out: &mut [V]) -> (fired: bool)
        requires
            self.sound(),
            old(out)@.len() == Self::len_spec(),
        ensures
            final(out)@ == self.slots(),
            fired == self.fired(),
    ;

    /// How many elements this out fired: scalars and arrays one, an `Option` zero or one, a batch
    /// its length.
    fn fires(&self) -> (r: usize)
        requires
            self.sound(),
        ensures
            r == self.count(),
    ;
}

/// The shape of a vector.
pub(crate) fn one_dim(n: usize) -> (r: Vec<usize>)
    ensures
        r@ == seq![n],
{
    let mut r: Vec<usize> = Vec::new();
    r.push(n);
    assert(r@ =~= seq![n]);
    r
}

pub(crate) proof fn lemma_one_dim(n: usize)
    ensures
        volume(seq![n]) == n,
{
    assert(seq![n].drop_last() =~= Seq::empty());
    assert(volume(Seq::empty()) == 1);
    assert(volume(seq![n]) == volume(Seq::empty()) * n as nat);
}

/// Whether no slot holds a number.
pub open spec fn all_absent<V: Scalar>(slots: Seq<V>) -> bool {
    forall|i: int| 0 <= i < slots.len() ==> (#[trigger] slots[i]).absent()
}

/// So many slots with no number in them.
pub open spec fn blank<V: Scalar>(n: nat) -> Seq<V> {
    Seq::new(n, |i: int| V::none())
}

/// Leaves no number in any slot.
pub fn erase<V: Scalar>(out: &mut [V])
    ensures
        final(out)@ == blank::<V>(old(out)@.len()),
{
    let n: usize = out.len();
    let mut i: usize = 0;
    while i < n
        invariant
            i <= n == out@.len(),
            forall|j: int| 0 <= j < i ==> #[trigger] out@[j] == V::none(),
        decreases n - i,
    {
        let none: V = V::nan();
        out[i] = none;
        i += 1;
    }
    assert(out@ =~= blank::<V>(n as nat));
}

/// The slice that holds some elements.
pub open spec fn slice_of<T>(s: Seq<T>) -> &'static [T] {
    choose|x: &'static [T]| x@ == s
}

/// A slice is the one that holds its elements.
pub(crate) proof fn lemma_slice_of<'a, T>(x: &'a [T])
    ensures
        slice_of(x@) == x,
{
    assert(slice_of(x@)@ == x@);
    assert(slice_of(x@) =~= x);
}

/// A single number as an out.
#[derive(Clone, Copy)]
pub struct Number<V>(pub V);

impl<V: Scalar> Flat<V> for Number<V> {
    open spec fn len_spec() -> nat {
        1
    }

    open spec fn dims_spec() -> Seq<usize> {
        Seq::empty()
    }

    open spec fn sound(&self) -> bool {
        true
    }

    open spec fn slots(&self) -> Seq<V> {
        seq![self.0]
    }

    open spec fn fired(&self) -> bool {
        true
    }

    open spec fn count(&self) -> nat {
        1
    }

    proof fn fills(&self) {
    }

    proof fn shaped() {
    }

    fn dims() -> (r: Vec<usize>) {
        Vec::new()
    }

    fn len() -> (r: usize) {
        1
    }

    fn flat(&self, out: &mut [V]) -> (fired: bool) {
        let v: V = self.0;
        out[0] = v;
        true
    }

    fn fires(&self) -> (r: usize) {
        1
    }
}

impl<V: Scalar> Flat<V> for bool {
    open spec fn len_spec() -> nat {
        1
    }

    open spec fn dims_spec() -> Seq<usize> {
        Seq::empty()
    }

    open spec fn sound(&self) -> bool {
        true
    }

    open spec fn slots(&self) -> Seq<V> {
        seq![truth(*self)]
    }

    open spec fn fired(&self) -> bool {
        true
    }

    open spec fn count(&self) -> nat {
        1
    }

    proof fn fills(&self) {
    }

    proof fn shaped() {
    }

    fn dims() -> (r: Vec<usize>) {
        Vec::new()
    }

    fn len() -> (r: usize) {
        1
    }

    fn flat(&self, out: &mut [V]) -> (fired: bool) {
        let v: V = indicator(*self);
        out[0] = v;
        true
    }

    fn fires(&self) -> (r: usize) {
        1
    }
}

impl<V: Scalar, const N: usize> Flat<V> for [V; N] {
    open spec fn len_spec() -> nat {
        N as nat
    }

    open spec fn dims_spec() -> Seq<usize> {
        seq![N]
    }

    open spec fn sound(&self) -> bool {
        true
    }

    open spec fn slots(&self) -> Seq<V> {
        self@
    }

    open spec fn fired(&self) -> bool {
        true
    }

    open spec fn count(&self) -> nat {
        1
    }

    proof fn fills(&self) {
    }

    proof fn shaped() {
        lemma_one_dim(N);
    }

    fn dims() -> (r: Vec<usize>) {
        one_dim(N)
    }

    fn len() -> (r: usize) {
        N
    }

    fn flat(&self, out: &mut [V]) -> (fired: bool) {
        let mut i: usize = 0;
        while i < N
            invariant
                i <= N == out@.len(),
                forall|j: int| 0 <= j < i ==> #[trigger] out@[j] == self@[j],
            decreases N - i,
        {
            let v: V = self[i];
            out[i] = v;
            i += 1;
        }
        assert(out@ =~= self@);
        true
    }

    fn fires(&self) -> (r: usize) {
        1
    }
}

/// `Option` stays the multi-rate channel: `None` flattens to no numbers, unfired.
impl<V: Scalar, T: Flat<V>> Flat<V> for Option<T> {
    open spec fn len_spec() -> nat {
        T::len_spec()
    }

    open spec fn dims_spec() -> Seq<usize> {
        T::dims_spec()
    }

    open spec fn absentable() -> bool {
        T::absentable()
    }

    open spec fn sound(&self) -> bool {
        match self {
            Some(t) => t.sound(),
            None => true,
        }
    }

    open spec fn slots(&self) -> Seq<V> {
        match self {
            Some(t) => t.slots(),
            None => blank(T::len_spec()),
        }
    }

    open spec fn fired(&self) -> bool {
        match self {
            Some(t) => t.fired(),
            None => false,
        }
    }

    open spec fn count(&self) -> nat {
        if self is Some {
            1
        } else {
            0
        }
    }

    proof fn fills(&self) {
        V::none_is_absent();
        if let Some(t) = self {
            t.fills();
        }
    }

    proof fn shaped() {
        T::shaped();
    }

    fn dims() -> (r: Vec<usize>) {
        T::dims()
    }

    fn len() -> (r: usize) {
        T::len()
    }

    fn flat(&self, out: &mut [V]) -> (fired: bool) {
        match self {
            Some(t) => t.flat(out),
            None => {
                erase(out);
                false
            },
        }
    }

    fn fires(&self) -> (r: usize) {
        if self.is_some() {
            1
        } else {
            0
        }
    }
}

/// What the last of a run flattens to: no numbers where the run is empty.
pub open spec fn last_slots<V: Scalar, T: Flat<V>>(xs: Seq<T>) -> Seq<V> {
    if xs.len() == 0 {
        blank(T::len_spec())
    } else {
        xs.last().slots()
    }
}

pub open spec fn last_fired<V: Scalar, T: Flat<V>>(xs: Seq<T>) -> bool {
    xs.len() > 0 && xs.last().fired()
}

/// A batch out flattens to its *last* element; its rate is its length.
impl<'a, V: Scalar, T: Flat<V>> Flat<V> for &'a [T] {
    open spec fn len_spec() -> nat {
        T::len_spec()
    }

    open spec fn dims_spec() -> Seq<usize> {
        T::dims_spec()
    }

    open spec fn absentable() -> bool {
        T::absentable()
    }

    open spec fn sound(&self) -> bool {
        self@.len() > 0 ==> self@.last().sound()
    }

    open spec fn slots(&self) -> Seq<V> {
        last_slots(self@)
    }

    open spec fn fired(&self) -> bool {
        last_fired::<V, T>(self@)
    }

    open spec fn count(&self) -> nat {
        self@.len()
    }

    proof fn fills(&self) {
        V::none_is_absent();
        if self@.len() > 0 {
            self@.last().fills();
        }
    }

    proof fn shaped() {
        T::shaped();
    }

    fn dims() -> (r: Vec<usize>) {
        T::dims()
    }

    fn len() -> (r: usize) {
        T::len()
    }

    fn flat(&self, out: &mut [V]) -> (fired: bool) {
        let n: usize = (*self).len();
        if n == 0 {
            erase(out);
            false
        } else {
            self[n - 1].flat(out)
        }
    }

    fn fires(&self) -> (r: usize) {
        (*self).len()
    }
}

/// [`Flat`]'s inverse: an item rebuilt from the slots a per-element kernel computed, plus the event
/// time. The time is the kernel's to carry rather than a slot, because a slot is a differentiation
/// variable and an index may not be one.
pub trait Unflat<V: Scalar>: Flat<V> {
    open spec fn item(ts_ns: i64, slots: Seq<V>) -> Self {
        arbitrary()
    }

    fn unflat(ts_ns: i64, slots: &[V]) -> (r: Self)
        requires
            slots@.len() == Self::len_spec(),
        ensures
            r == Self::item(ts_ns, slots@),
    ;
}

impl<V: Scalar> Unflat<V> for Number<V> {
    open spec fn item(ts_ns: i64, slots: Seq<V>) -> Self {
        Number(slots[0])
    }

    fn unflat(ts_ns: i64, slots: &[V]) -> (r: Self) {
        Number(slots[0])
    }
}

impl<V: Scalar, const N: usize> Unflat<V> for [V; N] {
    open spec fn item(ts_ns: i64, slots: Seq<V>) -> Self {
        choose|a: [V; N]| a@ == slots
    }

    fn unflat(ts_ns: i64, slots: &[V]) -> (r: Self) {
        let mut a: [V; N] = [V::nan(); N];
        let mut i: usize = 0;
        while i < N
            invariant
                i <= N == slots@.len(),
                forall|j: int| 0 <= j < i ==> #[trigger] a@[j] == slots@[j],
            decreases N - i,
        {
            let v: V = slots[i];
            a[i] = v;
            i += 1;
        }
        assert(a@ =~= slots@);
        let ghost chosen = choose|b: [V; N]| b@ == slots@;
        assert(chosen@ == a@);
        assert(chosen =~= a);
        a
    }
}

/// Whether every slot is a number.
pub open spec fn whole_item<V: Scalar>(slots: Seq<V>) -> bool {
    forall|i: int| 0 <= i < slots.len() ==> !(#[trigger] slots[i]).absent()
}

pub(crate) fn is_whole<V: Scalar>(slots: &[V]) -> (r: bool)
    ensures
        r == whole_item(slots@),
{
    let mut i: usize = 0;
    while i < slots.len()
        invariant
            i <= slots@.len(),
            forall|j: int| 0 <= j < i ==> !(#[trigger] slots@[j]).absent(),
        decreases slots@.len() - i,
    {
        if slots[i].is_nan() {
            assert(slots@[i as int].absent());
            return false;
        }
        i += 1;
    }
    true
}

/// An absent slot is how a per-element body declines, which the out plane already reads as absence,
/// so the two spellings of "nothing here" are one.
impl<V: Scalar, T: Unflat<V>> Unflat<V> for Option<T> {
    open spec fn item(ts_ns: i64, slots: Seq<V>) -> Self {
        if whole_item(slots) {
            Some(T::item(ts_ns, slots))
        } else {
            None
        }
    }

    fn unflat(ts_ns: i64, slots: &[V]) -> (r: Self) {
        if is_whole(slots) {
            Some(T::unflat(ts_ns, slots))
        } else {
            None
        }
    }
}

/// Reads this tick's batch only: a buffer adds no signal, so what is seen of it is indistinguishable
/// from the series it retains.
impl<'t, V: Scalar, T: Flat<V>> Flat<V> for Hist<'t, T> {
    open spec fn len_spec() -> nat {
        T::len_spec()
    }

    open spec fn dims_spec() -> Seq<usize> {
        T::dims_spec()
    }

    open spec fn absentable() -> bool {
        T::absentable()
    }

    open spec fn sound(&self) -> bool {
        self.wf() && (self.batch().len() > 0 ==> self.batch().last().sound())
    }

    open spec fn slots(&self) -> Seq<V> {
        last_slots(self.batch())
    }

    open spec fn fired(&self) -> bool {
        last_fired::<V, T>(self.batch())
    }

    open spec fn count(&self) -> nat {
        self.fresh as nat
    }

    proof fn fills(&self) {
        V::none_is_absent();
        if self.batch().len() > 0 {
            self.batch().last().fills();
        }
    }

    proof fn shaped() {
        T::shaped();
    }

    fn dims() -> (r: Vec<usize>) {
        T::dims()
    }

    fn len() -> (r: usize) {
        T::len()
    }

    fn flat(&self, out: &mut [V]) -> (fired: bool) {
        (*self).fresh().flat(out)
    }

    fn fires(&self) -> (r: usize) {
        self.fresh
    }
}

} // verus!
