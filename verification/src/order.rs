//! Scalars that are ordered, and ordered the way numbers are.

use vstd::prelude::*;

use crate::scalar::{lemma_absence, lemma_plus, lemma_times, lemma_units, Scalar};
use crate::slope_laws::{exact, invertible, lemma_counted, lemma_opposite, lemma_reciprocal};
use crate::whole::Whole;

verus! {

/// Whether a scalar's numbers stand in one line: of two that differ one is below the other, and what
/// is below something is below all that is above it.
#[verifier::opaque]
pub open spec fn ranks<V: Scalar>() -> bool {
    &&& forall|a: V, b: V| #[trigger] a.below(b) ==> !a.absent() && !b.absent() && !b.below(a)
    &&& forall|a: V, b: V|
        !a.absent() && !b.absent() && !(#[trigger] a.below(b)) && !b.below(a) ==> a == b
    &&& forall|a: V, b: V, c: V|
        #[trigger] a.below(b) && #[trigger] b.below(c) ==> a.below(c)
}

/// Whether the order of a scalar goes along with its sums and its products.
#[verifier::opaque]
pub open spec fn orders<V: Scalar>() -> bool {
    &&& V::whole(0).below(V::whole(1))
    &&& forall|a: V, b: V, c: V|
        a.below(b) && !c.absent() ==> #[trigger] a.plus(c).below(b.plus(c))
    &&& forall|a: V, b: V, c: V|
        a.below(b) && V::whole(0).below(c) ==> #[trigger] a.times(c).below(b.times(c))
}

/// Whether a scalar is a field in order: its arithmetic is exact, and its numbers stand in a line that
/// goes along with it.
pub open spec fn ordered_field<V: Scalar>() -> bool {
    &&& exact::<V>()
    &&& ranks::<V>()
    &&& orders::<V>()
}

/// Whole numbers stand in one line.
pub proof fn wholes_rank()
    ensures
        ranks::<Whole>(),
{
    reveal(ranks);
}

/// Two numbers in line.
pub(crate) proof fn lemma_rank<V: Scalar>(a: V, b: V)
    requires
        ranks::<V>(),
    ensures
        a.below(b) ==> !a.absent() && !b.absent() && !b.below(a),
        b.below(a) ==> !a.absent() && !b.absent() && !a.below(b),
        !a.absent() && !b.absent() && !a.below(b) && !b.below(a) ==> a == b,
        !a.below(a),
{
    reveal(ranks);
}

/// Three numbers in line.
pub(crate) proof fn lemma_between<V: Scalar>(a: V, b: V, c: V)
    requires
        ranks::<V>(),
    ensures
        a.below(b) && b.below(c) ==> a.below(c),
        !a.absent() && !b.absent() && !b.below(a) && b.below(c) ==> a.below(c),
        !b.absent() && !c.absent() && a.below(b) && !c.below(b) ==> a.below(c),
        !a.absent() && !b.absent() && !c.absent() && !b.below(a) && !c.below(b) ==> !c.below(a),
{
    reveal(ranks);
    if !a.absent() && !b.absent() && !b.below(a) && !a.below(b) {
        assert(a == b);
    }
    if !c.absent() && !b.absent() && !b.below(c) && !c.below(b) {
        assert(c == b);
    }
}

/// The order of a sum and of a product.
pub(crate) proof fn lemma_ordered<V: Scalar>(a: V, b: V, c: V)
    requires
        orders::<V>(),
    ensures
        V::whole(0).below(V::whole(1)),
        a.below(b) && !c.absent() ==> a.plus(c).below(b.plus(c)),
        a.below(b) && V::whole(0).below(c) ==> a.times(c).below(b.times(c)),
{
    reveal(orders);
}

/// A product with a positive number tells nothing else of the order.
pub(crate) proof fn lemma_scaled<V: Scalar>(a: V, b: V, c: V)
    requires
        ranks::<V>(),
        orders::<V>(),
        !a.absent(),
        !b.absent(),
        V::whole(0).below(c),
    ensures
        a.below(b) <==> a.times(c).below(b.times(c)),
{
    lemma_ordered(a, b, c);
    lemma_ordered(b, a, c);
    lemma_rank(a, b);
    lemma_rank(a.times(c), b.times(c));
}

/// A count is positive.
pub(crate) proof fn lemma_positive<V: Scalar>(n: int)
    requires
        ordered_field::<V>(),
        0 < n < 0x1_0000_0000,
    ensures
        V::whole(0).below(V::whole(n)),
        !V::whole(n).absent(),
    decreases n,
{
    lemma_ordered(V::whole(0), V::whole(1), V::whole(0));
    lemma_counted::<V>(n);
    if n > 1 {
        lemma_positive::<V>(n - 1);
        lemma_counted::<V>(n - 1);
        lemma_counted::<V>(1);
        lemma_ordered(V::whole(0), V::whole(n - 1), V::whole(1));
        lemma_units(V::whole(1));
        lemma_between(V::whole(0), V::whole(1), V::whole(n));
    }
}

/// A positive number has a positive reciprocal.
pub(crate) proof fn lemma_positive_reciprocal<V: Scalar>(b: V)
    requires
        ordered_field::<V>(),
        V::whole(0).below(b),
        invertible(b),
    ensures
        V::whole(0).below(V::whole(1).over(b)),
{
    let (zero, i) = (V::whole(0), V::whole(1).over(b));
    lemma_reciprocal(b);
    lemma_rank(zero, b);
    lemma_rank(zero, i);
    lemma_ordered(zero, V::whole(1), zero);
    lemma_rank(zero, V::whole(1));
    lemma_units(b);
    lemma_units(i);
    lemma_times(b, i, b);
    if i.below(zero) {
        lemma_ordered(i, zero, b);
        lemma_rank(V::whole(1), zero);
    }
    if i == zero {
        assert(b.times(zero) == zero);
    }
}

/// A quotient by a positive number stands where what was divided does.
pub(crate) proof fn lemma_quotient_order<V: Scalar>(a: V, b: V, n: V)
    requires
        ordered_field::<V>(),
        !a.absent(),
        !b.absent(),
        V::whole(0).below(n),
        invertible(n),
    ensures
        a.times(V::whole(1).over(n)).times(n) == a,
        a.below(b) <==> a.times(V::whole(1).over(n)).below(b.times(V::whole(1).over(n))),
{
    let i = V::whole(1).over(n);
    lemma_positive_reciprocal(n);
    lemma_reciprocal(n);
    lemma_scaled(a, b, i);
    lemma_times(a, i, n);
    lemma_times(i, n, n);
    lemma_units(a);
}

/// What is moved up by something positive is above where it was.
pub(crate) proof fn lemma_raised<V: Scalar>(a: V, c: V)
    requires
        ordered_field::<V>(),
        !a.absent(),
        V::whole(0).below(c),
    ensures
        a.below(a.plus(c)),
{
    lemma_rank(V::whole(0), c);
    lemma_ordered(V::whole(0), c, a);
    lemma_units(a);
    lemma_plus(c, a, a);
}

/// A number and what is under its own negation.
pub(crate) proof fn lemma_reflected<V: Scalar>(a: V)
    requires
        ordered_field::<V>(),
        !a.absent(),
    ensures
        a.below(V::whole(0)) <==> V::whole(0).below(a.negated()),
        V::whole(0).below(a) <==> a.negated().below(V::whole(0)),
{
    let zero = V::whole(0);
    lemma_absence(a, a);
    lemma_opposite(a);
    lemma_units(a);
    lemma_units(a.negated());
    lemma_ordered(a, zero, a.negated());
    lemma_ordered(zero, a, a.negated());
    lemma_ordered(zero, a.negated(), a);
    lemma_ordered(a.negated(), zero, a);
}

} // verus!
