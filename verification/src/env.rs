//! What a per-element kernel's reading fills: the body's env, and where each slot of it came from.

use vstd::prelude::*;

use crate::flat::Flat;
use crate::scalar::Scalar;

verus! {

/// Where one env slot came from. Every reading *copies* an element's slot into an env slot and never
/// computes one, so the slope of an env slot over an element is zero or one, which is what lets a
/// body's gradient scatter over a dep's whole reach in one pass.
#[derive(Clone, Copy, Debug, Eq, PartialEq, Structural)]
pub enum Source {
    /// A discrete attribute, a threshold, a kernel's own state: nothing a column stands for.
    Opaque,
    /// Slot `slot` of the element `lag` back of dep `dep`, `lag` zero being the element that dep's
    /// Jacobian column describes.
    Dep { dep: usize, lag: usize, slot: usize },
}

impl Default for Source {
    fn default() -> (r: Self)
        ensures
            r == Source::Opaque,
    {
        Source::Opaque
    }
}

/// Sources with the one of `slot` set, those before it that nobody saw standing for nothing.
pub open spec fn seen_at(s: Seq<Source>, slot: int, src: Source) -> Seq<Source> {
    if slot < s.len() {
        s.update(slot, src)
    } else {
        (s + Seq::new((slot - s.len()) as nat, |i: int| Source::Opaque)).push(src)
    }
}

/// Whether a reading is being watched. A type parameter rather than a flag, so the compute path
/// carries no recording at all.
pub trait Witness: Sized {
    /// What was seen, slot by slot; `None` of a witness that sees nothing.
    open spec fn sees(&self) -> Option<Seq<Source>> {
        arbitrary()
    }

    fn fresh() -> (r: Self)
        ensures
            r.sees() matches Some(s) ==> s.len() == 0,
    ;

    fn see(&mut self, slot: usize, src: Source)
        ensures
            final(self).sees() == match old(self).sees() {
                Some(s) => Some(seen_at(s, slot as int, src)),
                None => None,
            },
    ;
}

/// The compute path's witness: it sees nothing, and costs nothing.
pub struct Blindfold;

impl Witness for Blindfold {
    open spec fn sees(&self) -> Option<Seq<Source>> {
        None
    }

    fn fresh() -> (r: Self) {
        Blindfold
    }

    fn see(&mut self, slot: usize, src: Source) {
    }
}

/// What an exact Jacobian is scattered through: where each env slot of one reading came from.
pub struct Provenance {
    sources: Vec<Source>,
}

impl View for Provenance {
    type V = Seq<Source>;

    closed spec fn view(&self) -> Seq<Source> {
        self.sources@
    }
}

impl Witness for Provenance {
    open spec fn sees(&self) -> Option<Seq<Source>> {
        Some(self@)
    }

    fn fresh() -> (r: Self) {
        Provenance { sources: Vec::new() }
    }

    fn see(&mut self, slot: usize, src: Source) {
        let ghost before = self.sources@;
        if slot < self.sources.len() {
            self.sources.set(slot, src);
        } else {
            let ghost gap = (slot - before.len()) as nat;
            while self.sources.len() < slot
                invariant
                    before.len() <= self.sources@.len() <= slot,
                    self.sources@ =~= before + Seq::new(
                        (self.sources@.len() - before.len()) as nat,
                        |i: int| Source::Opaque,
                    ),
                decreases slot - self.sources@.len(),
            {
                self.sources.push(Source::Opaque);
            }
            self.sources.push(src);
        }
        assert(self.sources@ =~= seen_at(before, slot as int, src));
    }
}

impl Provenance {
    pub fn as_slice(&self) -> (r: &[Source])
        ensures
            r@ == self@,
    {
        self.sources.as_slice()
    }
}

/// What a per-element kernel's reading fills: the body's env, and, where one is watching, which
/// element of which dep each slot was copied from.
///
/// Slots are appended in the order they are put, so a site names the dep and the lag rather than
/// counting offsets by hand.
pub struct Env<V, W> {
    slots: Vec<V>,
    witness: W,
}

/// Where `n` slots put after the first `at` came from, the first being slot `slot` of its element.
pub open spec fn sourced(s: Seq<Source>, at: int, n: nat, src: Option<(usize, usize, usize)>) -> Seq<
    Source,
>
    decreases n,
{
    if n == 0 {
        s
    } else {
        let k = (n - 1) as nat;
        seen_at(sourced(s, at, k, src), at + k, source_of(src, k as int))
    }
}

pub open spec fn source_of(src: Option<(usize, usize, usize)>, k: int) -> Source {
    match src {
        Some((dep, lag, slot)) => Source::Dep { dep, lag, slot: (slot + k) as usize },
        None => Source::Opaque,
    }
}

impl<V: Scalar, W: Witness> Env<V, W> {
    /// What the reading filled so far.
    pub closed spec fn values(&self) -> Seq<V> {
        self.slots@
    }

    /// What its witness saw.
    pub closed spec fn sees(&self) -> Option<Seq<Source>> {
        self.witness.sees()
    }

    pub fn new() -> (r: Self)
        ensures
            r.values() == Seq::<V>::empty(),
            r.sees() matches Some(s) ==> s.len() == 0,
    {
        Env { slots: Vec::new(), witness: W::fresh() }
    }

    /// Back to the start, for the next element of the walk. The witness is left standing: only the
    /// slots the next reading fills are ever read off it.
    pub fn rewind(&mut self)
        ensures
            final(self).values() == Seq::<V>::empty(),
            final(self).sees() == old(self).sees(),
    {
        self.slots = Vec::new();
    }

    /// What the reading filled: the env the body is evaluated over, and its width.
    pub fn filled(&self) -> (r: &[V])
        ensures
            r@ == self.values(),
    {
        self.slots.as_slice()
    }

    pub fn seen(&self) -> (r: &W)
        ensures
            r.sees() == self.sees(),
    {
        &self.witness
    }

    /// The values written next come off dep `dep`, at [`lag`](Put::lag) zero until said otherwise.
    pub fn dep(&mut self, dep: usize) -> (r: Put<'_, V, W>)
        ensures
            *r.env == *old(self),
            *final(r.env) == *final(self),
            r.src == Some((dep, 0usize, 0usize)),
    {
        Put { env: self, src: Some((dep, 0, 0)) }
    }

    /// A reading no element stands behind: a side, a count, a threshold. Written like any other, and
    /// claimed by no column.
    pub fn opaque(&mut self) -> (r: Put<'_, V, W>)
        ensures
            *r.env == *old(self),
            *final(r.env) == *final(self),
            r.src == None::<(usize, usize, usize)>,
    {
        Put { env: self, src: None }
    }
}

/// One reading being written into an [`Env`], and where it came from.
pub struct Put<'e, V, W> {
    pub env: &'e mut Env<V, W>,
    /// `(dep, lag, slot)`, or nothing a derivative has a variable for.
    pub src: Option<(usize, usize, usize)>,
}

impl<'e, V: Scalar, W: Witness> Put<'e, V, W> {
    /// How far back the element read stands from the one this dep's Jacobian column describes.
    pub fn lag(self, lag: usize) -> (r: Self)
        ensures
            *r.env == *old(self.env),
            *final(r.env) == *final(self.env),
            r.src == match self.src {
                Some((d, l, s)) => Some((d, lag, s)),
                None => None,
            },
    {
        let Put { env, src } = self;
        let src: Option<(usize, usize, usize)> = match src {
            Some((d, _, s)) => Some((d, lag, s)),
            None => None,
        };
        Put { env, src }
    }

    /// Which slot of the dep's element the first value written is, for a reading that takes one field
    /// rather than the whole element.
    pub fn slot(self, slot: usize) -> (r: Self)
        ensures
            *r.env == *old(self.env),
            *final(r.env) == *final(self.env),
            r.src == match self.src {
                Some((d, l, s)) => Some((d, l, slot)),
                None => None,
            },
    {
        let Put { env, src } = self;
        let src: Option<(usize, usize, usize)> = match src {
            Some((d, l, _)) => Some((d, l, slot)),
            None => None,
        };
        Put { env, src }
    }

    /// Appends `v`'s slots, provenance and all.
    pub fn put<T: Flat<V>>(self, v: &T)
        requires
            v.sound(),
            self.src matches Some((d, l, s)) ==> s + T::len_spec() <= usize::MAX,
            old(self.env).values().len() + T::len_spec() <= usize::MAX,
        ensures
            final(self.env).values() == old(self.env).values() + v.slots(),
            final(self.env).sees() == match old(self.env).sees() {
                Some(s) => Some(
                    sourced(s, old(self.env).values().len() as int, T::len_spec(), self.src),
                ),
                None => None,
            },
    {
        let Put { env, src } = self;
        let at: usize = env.slots.len();
        let n: usize = T::len();
        let mut vals: Vec<V> = Vec::new();
        let mut i: usize = 0;
        while i < n
            invariant
                i <= n,
                vals@.len() == i,
            decreases n - i,
        {
            vals.push(V::nan());
            i += 1;
        }
        v.flat(vals.as_mut_slice());
        proof {
            v.fills();
        }
        let ghost before = env.slots@;
        let ghost saw = env.witness.sees();
        let mut k: usize = 0;
        while k < n
            invariant
                k <= n,
                n == T::len_spec(),
                at == before.len(),
                at + n <= usize::MAX,
                vals@ == v.slots(),
                vals@.len() == n,
                src matches Some((d, l, s)) ==> s + n <= usize::MAX,
                env.slots@ == before + vals@.take(k as int),
                env.witness.sees() == match saw {
                    Some(s) => Some(sourced(s, at as int, k as nat, src)),
                    None => None,
                },
            decreases n - k,
        {
            env.slots.push(vals[k]);
            let from: Source = match src {
                Some((dep, lag, slot)) => Source::Dep { dep, lag, slot: slot + k },
                None => Source::Opaque,
            };
            env.witness.see(at + k, from);
            assert(before + vals@.take(k as int).push(vals@[k as int]) =~= before + vals@.take(
                k + 1,
            ));
            k += 1;
        }
        assert(vals@.take(n as int) =~= v.slots());
    }
}

/// Putting slots leaves the sources before them alone, and names one for each of them.
pub proof fn lemma_sourced(s: Seq<Source>, at: int, n: nat, src: Option<(usize, usize, usize)>)
    requires
        0 <= at <= s.len(),
    ensures
        sourced(s, at, n, src).len() >= at + n,
        sourced(s, at, n, src).len() >= s.len(),
        forall|i: int| 0 <= i < at ==> #[trigger] sourced(s, at, n, src)[i] == s[i],
        forall|i: int|
            at <= i < at + n ==> #[trigger] sourced(s, at, n, src)[i] == source_of(src, i - at),
    decreases n,
{
    if n > 0 {
        lemma_sourced(s, at, (n - 1) as nat, src);
    }
}

} // verus!
