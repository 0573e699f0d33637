//! A level as the outputs read it: the out, and whether this tick moved it.

use vstd::prelude::*;

use crate::flat::Flat;
use crate::kernel::blanked;
use crate::flat::blank;
use crate::scalar::Scalar;

verus! {

/// An out plus one bit: whether this tick moved its flattening. An absence coming or going is a move;
/// a republished value is none.
#[derive(Clone, Copy, Debug)]
pub struct Moved<T> {
    pub out: T,
    pub moved: bool,
}

impl<T> core::ops::Deref for Moved<T> {
    type Target = T;

    fn deref(&self) -> (r: &T)
        ensures
            *r == self.out,
    {
        &self.out
    }
}

/// Whether two flattenings read the same, an absence being like another.
pub open spec fn reads_same<V: Scalar>(a: Seq<V>, b: Seq<V>) -> bool {
    &&& a.len() == b.len()
    &&& forall|i: int|
        0 <= i < a.len() ==> ((#[trigger] a[i]).absent() && b[i].absent()) || a[i].equals(b[i])
}

/// What an output last flattened to: no numbers, before it ever did.
pub struct Standing<V> {
    pub vals: Vec<V>,
}

impl<V: Scalar> Standing<V> {
    /// Nothing ever stood.
    pub fn none<T: Flat<V>>() -> (r: Self)
        ensures
            r.vals@ == blank::<V>(T::len_spec()),
    {
        Standing { vals: blanked(T::len()) }
    }

    /// Reads this tick's out against the one before.
    pub fn read<T: Flat<V>>(&mut self, out: T) -> (r: Moved<T>)
        requires
            out.sound(),
            old(self).vals@.len() == T::len_spec(),
        ensures
            r.out == out,
            r.moved == !reads_same(old(self).vals@, out.slots()),
            final(self).vals@ == out.slots(),
    {
        let mut vals: Vec<V> = blanked(T::len());
        out.flat(vals.as_mut_slice());
        proof {
            out.fills();
        }
        let mut moved: bool = false;
        let n: usize = vals.len();
        let mut i: usize = 0;
        while i < n && !moved
            invariant
                i <= n == vals@.len() == self.vals@.len(),
                vals@ == out.slots(),
                forall|j: int|
                    0 <= j < i - (if moved {
                        1int
                    } else {
                        0
                    }) ==> ((#[trigger] self.vals@[j]).absent() && vals@[j].absent())
                        || self.vals@[j].equals(vals@[j]),
                moved ==> i > 0 && !((self.vals@[i - 1].absent() && vals@[i - 1].absent())
                    || self.vals@[i - 1].equals(vals@[i - 1])),
            decreases n - i,
        {
            let (a, b): (V, V) = (self.vals[i], vals[i]);
            moved = !((a.is_nan() && b.is_nan()) || a.same(b));
            i += 1;
        }
        self.vals = vals;
        Moved { out, moved }
    }
}

/// A level's edge is the value's and not the tick's: reading a value that stands again moves nothing,
/// wherever a number equals itself.
pub proof fn a_republished_value_moves_nothing<V: Scalar>(vals: Seq<V>)
    requires
        forall|i: int| 0 <= i < vals.len() ==> (#[trigger] vals[i]).absent() || vals[i].equals(vals[i]),
    ensures
        reads_same(vals, vals),
{
}

/// Going absent moves a level that stood, as coming back does.
pub proof fn an_absence_coming_or_going_is_a_move<V: Scalar>(vals: Seq<V>, i: int)
    requires
        0 <= i < vals.len(),
        !vals[i].absent(),
        !vals[i].equals(V::none()),
        !V::none().equals(vals[i]),
    ensures
        !reads_same(vals, blank(vals.len())),
        !reads_same(blank(vals.len()), vals),
{
    assert(blank::<V>(vals.len())[i] == V::none());
}

} // verus!
