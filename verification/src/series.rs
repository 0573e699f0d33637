//! A cell whose out is a run of items, and what the engine retains of one.

use core::marker::PhantomData;
use vstd::prelude::*;
use vstd::utf8::encode_utf8;

use crate::cell::{Cell, Cons, Facts, Has, Here, No};
use crate::horizon::{Horizon, Reach};
use crate::retain::Batch;
use crate::rows::Present;
use crate::tag::{horizon_text, TAG_CAP};
use crate::tag::Tag;
use crate::text;

verus! {

/// A cell whose out is a run of `Item`s: the bufferable shape.
pub trait Series: Cell where
    for <'x>Self: Cell<Out<'x> = &'x [<Self as Series>::Item]>,
 {
    type Item: Copy + 'static;

    /// How a buffer over this series accumulates its reach.
    type Batch: 'static;
}

/// Engine-owned retention over a [`Series`], sitting *next to* its source in the frame, not over it.
/// It advances every tick regardless of what is dark downstream, because being warm is its whole job:
/// a consumer switched off and revived reads a full window on its first tick back.
///
/// The reach is *inclusive of the current element*, so a buffer of fourteen elements serves exactly a
/// fourteen-long indicator.
pub struct Buffer<C: Series, R: Reach> where for <'x>C: Cell<Out<'x> = &'x [<C as Series>::Item]> {
    pub batch: C::Batch,
    pub reach: PhantomData<R>,
}

/// A cell's name with its parameters after it.
pub open spec fn tagged(prefix: Seq<char>, a: Seq<char>, b: Option<Seq<char>>) -> Seq<char> {
    match b {
        Some(b) => prefix + "<"@ + (a + ", "@ + b) + ">"@,
        None => prefix + "<"@ + a + ">"@,
    }
}

pub(crate) fn spell_one(prefix: &str, a: &str) -> (r: String)
    requires
        encode_utf8(tagged(prefix@, a@, None)).len() <= TAG_CAP,
    ensures
        r@ == tagged(prefix@, a@, None),
{
    let params: [&str; 1] = [a];
    proof {
        let names = crate::tag::views(params@);
        assert(names =~= seq![a@]);
        assert(crate::tag::listed(names) == a@);
    }
    let tag: Tag = Tag::of(prefix, params.as_slice());
    text::string_of(text::chars_of(tag.as_str()).as_slice())
}

pub(crate) fn spell_two(prefix: &str, a: &str, b: &str) -> (r: String)
    requires
        encode_utf8(tagged(prefix@, a@, Some(b@))).len() <= TAG_CAP,
    ensures
        r@ == tagged(prefix@, a@, Some(b@)),
{
    let params: [&str; 2] = [a, b];
    proof {
        let names = crate::tag::views(params@);
        assert(names =~= seq![a@, b@]);
        assert(names.drop_last() =~= seq![a@]);
        reveal_with_fuel(crate::tag::listed, 2);
    }
    let tag: Tag = Tag::of(prefix, params.as_slice());
    text::string_of(text::chars_of(tag.as_str()).as_slice())
}

impl<C: Series, R: Reach> Cell for Buffer<C, R> where
    for <'x>C: Cell<Out<'x> = &'x [<C as Series>::Item]>,
    C::Batch: Batch<C::Item>,
 {
    type Out<'t> = <C::Batch as Batch<C::Item>>::View<'t>;

    type Gates = No;

    /// Unlike its dep-position siblings this is a frame cell of its own, so it takes a name of its
    /// own.
    open spec fn label() -> Seq<char> {
        tagged("Buffer"@, C::label(), Some(horizon_text(R::reach())))
    }

    open spec fn nameable() -> bool {
        &&& C::nameable()
        &&& R::reach() matches Horizon::Over(tf) ==> tf.0 != 0
        &&& encode_utf8(Self::label()).len() <= TAG_CAP
    }

    open spec fn facts_spec() -> Facts {
        Facts { reach: R::reach(), ..Facts::plain() }
    }

    open spec fn permits<'t>(out: Self::Out<'t>) -> bool {
        true
    }

    fn name() -> (r: String) {
        let tag: Tag = R::horizon().tag();
        spell_two("Buffer", C::name().as_str(), tag.as_str())
    }

    fn facts() -> (r: Facts) {
        Facts { reach: R::horizon(), ..Facts::bare() }
    }

    fn opens<'t>(out: Self::Out<'t>) -> (r: bool) {
        true
    }
}

/// Dep position only, never a frame field: "this series, retained at least so far back". Resolves
/// against the frame's [`Buffer`] of the series, whose reach must serve the one asked for.
pub struct Buffering<C, R>(PhantomData<(C, R)>);

impl<C: Series, R: Reach> Cell for Buffering<C, R> where
    for <'x>C: Cell<Out<'x> = &'x [<C as Series>::Item]>,
    C::Batch: Batch<C::Item>,
 {
    type Out<'t> = <C::Batch as Batch<C::Item>>::View<'t>;

    type Gates = No;

    open spec fn label() -> Seq<char> {
        C::label()
    }

    open spec fn nameable() -> bool {
        C::nameable()
    }

    open spec fn facts_spec() -> Facts {
        Facts {
            reach: R::reach(),
            retained: true,
            clock: C::facts_spec().clock,
            ..Facts::plain()
        }
    }

    open spec fn permits<'t>(out: Self::Out<'t>) -> bool {
        true
    }

    fn name() -> (r: String) {
        C::name()
    }

    fn facts() -> (r: Facts) {
        Facts { reach: R::horizon(), retained: true, clock: C::facts().clock, ..Facts::bare() }
    }

    fn opens<'t>(out: Self::Out<'t>) -> (r: bool) {
        true
    }
}

impl<'t, C: Series, K: Reach, R: Reach, T> Has<'t, Buffering<C, R>, Here> for Cons<
    't,
    Buffer<C, K>,
    T,
> where
    for <'x>C: Cell<Out<'x> = &'x [<C as Series>::Item]>,
    C::Batch: Batch<C::Item>,
 {
    /// A window is bounded, and the buffer reaches as far back as it is asked to.
    open spec fn answers(&self) -> bool {
        &&& R::reach() != Horizon::Unit
        &&& R::reach() != Horizon::Unbounded
        &&& K::reach().spec_serves(R::reach())
    }

    open spec fn held(&self) -> <C::Batch as Batch<C::Item>>::View<'t> {
        choose|v: <C::Batch as Batch<C::Item>>::View<'t>|
            C::Batch::narrows(self.out, R::reach(), v)
    }

    fn get(&self) -> (r: <C::Batch as Batch<C::Item>>::View<'t>) {
        let r = C::Batch::narrow(self.out, R::horizon());
        proof {
            let v = choose|v: <C::Batch as Batch<C::Item>>::View<'t>|
                C::Batch::narrows(self.out, R::reach(), v);
            C::Batch::narrows_to_one(self.out, R::reach(), r, v);
        }
        r
    }
}

/// Engine-owned point-level over a [`Series`], sitting *next to* its source in the frame. It retains
/// nothing but one item.
///
/// Once it holds a value it holds one forever. That is what a consumer clocked by *another* series
/// needs: on its own ticks this one has emitted nothing, and reading the empty run there would read
/// absence where a standing level is the truth.
pub struct Latest<C: Series> where
    for <'x>C: Cell<Out<'x> = &'x [<C as Series>::Item]>,
    C::Item: Present,
 {
    pub held: Option<<C::Item as Present>::Val>,
}

/// The newest value present in a run.
pub open spec fn newest<T: Present>(run: Seq<T>) -> Option<T::Val>
    decreases run.len(),
{
    if run.len() == 0 {
        None
    } else {
        match run.last().value() {
            Some(v) => Some(v),
            None => newest(run.drop_last()),
        }
    }
}

/// What stands after a run: its newest value, or what stood before it.
pub open spec fn standing<T: Present>(held: Option<T::Val>, run: Seq<T>) -> Option<T::Val> {
    match newest(run) {
        Some(v) => Some(v),
        None => held,
    }
}

pub fn newest_of<T: Present>(run: &[T]) -> (r: Option<T::Val>)
    ensures
        r == newest(run@),
{
    let mut n: usize = run.len();
    assert(run@.take(n as int) =~= run@);
    while n > 0
        invariant
            n <= run@.len(),
            newest(run@) == newest(run@.take(n as int)),
        decreases n,
    {
        assert(run@.take(n as int).drop_last() =~= run@.take(n - 1));
        if let Some(v) = run[n - 1].present() {
            return Some(v);
        }
        n -= 1;
    }
    None
}

impl<C: Series> Cell for Latest<C> where
    for <'x>C: Cell<Out<'x> = &'x [<C as Series>::Item]>,
    C::Item: Present,
 {
    type Out<'t> = Option<<C::Item as Present>::Val>;

    type Gates = No;

    open spec fn label() -> Seq<char> {
        tagged("Latest"@, C::label(), None)
    }

    open spec fn nameable() -> bool {
        C::nameable() && encode_utf8(Self::label()).len() <= TAG_CAP
    }

    open spec fn facts_spec() -> Facts {
        Facts::plain()
    }

    open spec fn permits<'t>(out: Self::Out<'t>) -> bool {
        true
    }

    fn name() -> (r: String) {
        spell_one("Latest", C::name().as_str())
    }

    fn facts() -> (r: Facts) {
        Facts::bare()
    }

    fn opens<'t>(out: Self::Out<'t>) -> (r: bool) {
        true
    }
}

/// Dep position only, never a frame field: "the last value this series produced, whenever that was".
/// Resolves against the frame's [`Latest`].
pub struct Sampling<C>(PhantomData<C>);

impl<C: Series> Cell for Sampling<C> where
    for <'x>C: Cell<Out<'x> = &'x [<C as Series>::Item]>,
    C::Item: Present,
 {
    type Out<'t> = Option<<C::Item as Present>::Val>;

    type Gates = No;

    open spec fn label() -> Seq<char> {
        C::label()
    }

    open spec fn nameable() -> bool {
        C::nameable()
    }

    open spec fn facts_spec() -> Facts {
        Facts { retained: true, clock: C::facts_spec().clock, ..Facts::plain() }
    }

    open spec fn permits<'t>(out: Self::Out<'t>) -> bool {
        true
    }

    fn name() -> (r: String) {
        C::name()
    }

    fn facts() -> (r: Facts) {
        Facts { retained: true, clock: C::facts().clock, ..Facts::bare() }
    }

    fn opens<'t>(out: Self::Out<'t>) -> (r: bool) {
        true
    }
}

impl<'t, C: Series, T> Has<'t, Sampling<C>, Here> for Cons<'t, Latest<C>, T> where
    for <'x>C: Cell<Out<'x> = &'x [<C as Series>::Item]>,
    C::Item: Present,
 {
    open spec fn answers(&self) -> bool {
        true
    }

    open spec fn held(&self) -> Option<<C::Item as Present>::Val> {
        self.out
    }

    fn get(&self) -> (r: Option<<C::Item as Present>::Val>) {
        self.out
    }
}

} // verus!
