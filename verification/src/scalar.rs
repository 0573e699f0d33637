//! The numbers the algebra computes over.
//!
//! The expressions, the kernels and the sweep are written against [`Scalar`], which names the
//! operations and promises next to nothing of them: a machine float is a scalar, and none of its rounding is
//! assumed away. Where a law needs arithmetic to be exact it asks for [`lawful`], which [`Whole`]
//! meets.

use vstd::prelude::*;

verus! {

/// A number, or none. Each operation has a name in contracts, and all that is taken for granted is
/// that zero equals zero, one does not, and none is none.
pub trait Scalar: Copy {
    /// The scalar standing for a small integer.
    open spec fn whole(n: int) -> Self {
        arbitrary()
    }

    /// No number.
    open spec fn none() -> Self {
        arbitrary()
    }

    open spec fn absent(self) -> bool {
        arbitrary()
    }

    open spec fn plus(self, other: Self) -> Self {
        arbitrary()
    }

    open spec fn minus(self, other: Self) -> Self {
        arbitrary()
    }

    open spec fn times(self, other: Self) -> Self {
        arbitrary()
    }

    open spec fn over(self, other: Self) -> Self {
        arbitrary()
    }

    open spec fn negated(self) -> Self {
        arbitrary()
    }

    open spec fn magnitude(self) -> Self {
        arbitrary()
    }

    open spec fn root(self) -> Self {
        arbitrary()
    }

    open spec fn exponential(self) -> Self {
        arbitrary()
    }

    open spec fn lesser(self, other: Self) -> Self {
        arbitrary()
    }

    open spec fn greater(self, other: Self) -> Self {
        arbitrary()
    }

    open spec fn below(self, other: Self) -> bool {
        arbitrary()
    }

    open spec fn equals(self, other: Self) -> bool {
        arbitrary()
    }

    open spec fn spelled(self) -> Seq<char> {
        arbitrary()
    }

    /// The number spelled to so many decimal places, where it has any.
    open spec fn spelled_to(self, places: int) -> Seq<char> {
        arbitrary()
    }

    /// The whole number nearest, as far as a machine integer reaches; zero of no number.
    open spec fn nearest(self) -> i64 {
        arbitrary()
    }

    /// Whether the number has a fractional part.
    open spec fn broken(self) -> bool {
        arbitrary()
    }

    /// Zero is a number equal to itself, and one is not it: what is taken for granted of every
    /// scalar.
    proof fn zero_equals_zero()
        ensures
            Self::whole(0).equals(Self::whole(0)),
    ;

    /// No number is not one.
    proof fn none_is_absent()
        ensures
            Self::none().absent(),
    ;

    proof fn one_is_not_zero()
        ensures
            !Self::whole(1).equals(Self::whole(0)),
    ;

    fn of(n: i64) -> (r: Self)
        ensures
            r == Self::whole(n as int),
    ;

    fn nan() -> (r: Self)
        ensures
            r == Self::none(),
    ;

    fn is_nan(self) -> (r: bool)
        ensures
            r == self.absent(),
    ;

    fn add(self, other: Self) -> (r: Self)
        ensures
            r == self.plus(other),
    ;

    fn sub(self, other: Self) -> (r: Self)
        ensures
            r == self.minus(other),
    ;

    fn mul(self, other: Self) -> (r: Self)
        ensures
            r == self.times(other),
    ;

    fn div(self, other: Self) -> (r: Self)
        ensures
            r == self.over(other),
    ;

    fn neg(self) -> (r: Self)
        ensures
            r == self.negated(),
    ;

    fn abs(self) -> (r: Self)
        ensures
            r == self.magnitude(),
    ;

    fn sqrt(self) -> (r: Self)
        ensures
            r == self.root(),
    ;

    fn exp(self) -> (r: Self)
        ensures
            r == self.exponential(),
    ;

    /// The smaller of two, an absent one skipped.
    fn min(self, other: Self) -> (r: Self)
        ensures
            r == self.lesser(other),
    ;

    /// The larger of two, an absent one skipped.
    fn max(self, other: Self) -> (r: Self)
        ensures
            r == self.greater(other),
    ;

    fn lt(self, other: Self) -> (r: bool)
        ensures
            r == self.below(other),
    ;

    /// Equality of values: an absent one equals nothing.
    fn same(self, other: Self) -> (r: bool)
        ensures
            r == self.equals(other),
    ;

    fn round(self) -> (r: i64)
        ensures
            r == self.nearest(),
    ;

    fn is_broken(self) -> (r: bool)
        ensures
            r == self.broken(),
    ;

    fn text(self) -> (r: String)
        ensures
            r@ == self.spelled(),
    ;

    fn text_to(self, places: usize) -> (r: String)
        ensures
            r@ == self.spelled_to(places as int),
    ;
}

/// The scalar standing for a truth.
pub open spec fn truth<V: Scalar>(b: bool) -> V {
    if b {
        V::whole(1)
    } else {
        V::whole(0)
    }
}

pub fn indicator<V: Scalar>(b: bool) -> (r: V)
    ensures
        r == truth::<V>(b),
{
    if b {
        V::of(1)
    } else {
        V::of(0)
    }
}

/// The `n`-fold product of a scalar, from one, and its reciprocal where `n` is negative.
pub open spec fn product<V: Scalar>(x: V, n: nat) -> V
    decreases n,
{
    if n == 0 {
        V::whole(1)
    } else {
        product(x, (n - 1) as nat).times(x)
    }
}

pub open spec fn raised<V: Scalar>(x: V, n: int) -> V {
    if n < 0 {
        V::whole(1).over(product(x, (-n) as nat))
    } else {
        product(x, n as nat)
    }
}

/// Repeated multiplication: exact for the small exponents this serves.
pub fn powi<V: Scalar>(x: V, n: i32) -> (r: V)
    ensures
        r == raised(x, n as int),
{
    let times: u32 = if n < 0 {
        (-(n as i64)) as u32
    } else {
        n as u32
    };
    let mut acc: V = V::of(1);
    let mut i: u32 = 0;
    while i < times
        invariant
            i <= times,
            acc == product(x, i as nat),
        decreases times - i,
    {
        acc = acc.mul(x);
        i += 1;
    }
    if n < 0 {
        V::of(1).div(acc)
    } else {
        acc
    }
}

pub open spec fn sign_of<V: Scalar>(x: V) -> V {
    if V::whole(0).below(x) {
        V::whole(1)
    } else if x.below(V::whole(0)) {
        V::whole(-1)
    } else {
        V::whole(0)
    }
}

pub fn sign<V: Scalar>(x: V) -> (r: V)
    ensures
        r == sign_of(x),
{
    if V::of(0).lt(x) {
        V::of(1)
    } else if x.lt(V::of(0)) {
        V::of(-1)
    } else {
        V::of(0)
    }
}

/// Whether a `Min`/`Max` takes its **left** operand, given the strict comparison that decides it
/// where both are numbers. The tie goes right; an absent right is skipped, and an absent left is
/// skipped by the comparison already being false. One function, so the value, the gradient and the
/// derivative cannot drift apart at the branch.
pub open spec fn left_taken<V: Scalar>(strictly: bool, right: V) -> bool {
    strictly || right.absent()
}

pub fn takes_left<V: Scalar>(strictly: bool, right: V) -> (r: bool)
    ensures
        r == left_taken(strictly, right),
{
    strictly || right.is_nan()
}

/// Whether a scalar's arithmetic is exact where it answers at all: sums commute and associate, the
/// units are units, an absent operand leaves an absent result, and two numbers are equal only as one
/// number.
pub open spec fn lawful<V: Scalar>() -> bool {
    &&& adds::<V>()
    &&& scales::<V>()
    &&& V::none().absent()
    &&& !V::whole(0).absent() && !V::whole(1).absent()
    &&& !V::whole(1).equals(V::whole(0)) && V::whole(0).equals(V::whole(0))
    &&& forall|a: V, b: V| #[trigger] a.equals(b) ==> a == b
}

#[verifier::opaque]
pub open spec fn adds<V: Scalar>() -> bool {
    &&& forall|a: V, b: V| (#[trigger] a.plus(b)).absent() <==> a.absent() || b.absent()
    &&& forall|a: V, b: V| (#[trigger] a.minus(b)).absent() <==> a.absent() || b.absent()
    &&& forall|a: V| (#[trigger] a.negated()).absent() <==> a.absent()
    &&& forall|a: V, b: V| #[trigger] a.plus(b) == b.plus(a)
    &&& forall|a: V, b: V, c: V| #[trigger] a.plus(b).plus(c) == a.plus(b.plus(c))
    &&& forall|a: V| !a.absent() ==> #[trigger] a.plus(V::whole(0)) == a
    &&& forall|a: V| !a.absent() ==> #[trigger] a.minus(V::whole(0)) == a
    &&& forall|a: V| !a.absent() ==> #[trigger] V::whole(0).minus(a) == a.negated()
    &&& forall|a: V| !a.absent() ==> #[trigger] a.negated().negated() == a
}

#[verifier::opaque]
pub open spec fn scales<V: Scalar>() -> bool {
    &&& forall|a: V, b: V| (#[trigger] a.times(b)).absent() <==> a.absent() || b.absent()
    &&& forall|a: V, b: V| !(#[trigger] a.over(b)).absent() ==> !a.absent() && !b.absent()
    &&& forall|a: V| (#[trigger] a.magnitude()).absent() ==> a.absent()
    &&& forall|a: V| a.absent() ==> (#[trigger] a.magnitude()).absent()
    &&& forall|a: V| a.absent() ==> (#[trigger] a.root()).absent()
    &&& forall|a: V| a.absent() ==> (#[trigger] a.exponential()).absent()
    &&& forall|a: V, b: V| #[trigger] a.times(b) == b.times(a)
    &&& forall|a: V| !a.absent() ==> #[trigger] a.times(V::whole(0)) == V::whole(0)
    &&& forall|a: V| !a.absent() ==> #[trigger] a.times(V::whole(1)) == a
    &&& forall|a: V| !a.absent() ==> #[trigger] a.over(V::whole(1)) == a
    &&& forall|a: V|
        !(#[trigger] V::whole(0).over(a)).absent() ==> V::whole(0).over(a) == V::whole(0)
}

/// Whether a scalar's products associate and spread over sums, a difference is the sum with the
/// negation, and nothing is below or above an absence.
pub open spec fn rings<V: Scalar>() -> bool {
    &&& associates::<V>()
    &&& spreads::<V>()
    &&& turns::<V>()
}

#[verifier::opaque]
pub open spec fn associates<V: Scalar>() -> bool {
    forall|a: V, b: V, c: V| #[trigger] a.times(b).times(c) == a.times(b.times(c))
}

#[verifier::opaque]
pub open spec fn spreads<V: Scalar>() -> bool {
    forall|a: V, b: V, c: V| #[trigger] a.times(b.plus(c)) == a.times(b).plus(a.times(c))
}

#[verifier::opaque]
pub open spec fn turns<V: Scalar>() -> bool {
    &&& forall|a: V, b: V| #[trigger] a.minus(b) == a.plus(b.negated())
    &&& forall|a: V, b: V| #[trigger] a.negated().times(b) == a.times(b.negated())
    &&& forall|a: V, b: V| #[trigger] a.below(b) ==> !a.absent() && !b.absent()
}

/// Whether a scalar's quotients are those of a field: what divides one number divides every number, a
/// quotient goes into products and differences, and a number over its magnitude is its sign.
#[verifier::opaque]
pub open spec fn divides<V: Scalar>() -> bool {
    &&& forall|a: V, b: V, c: V|
        !(#[trigger] a.over(b)).absent() && !c.absent() ==> !(#[trigger] c.over(b)).absent()
    &&& forall|a: V, b: V, c: V|
        !b.over(c).absent() && !a.absent() ==> #[trigger] a.times(b).over(c) == a.times(b.over(c))
    &&& forall|a: V, b: V, c: V|
        !a.over(c).absent() && !b.over(c).absent() ==> #[trigger] a.minus(b).over(c) == a.over(
            c,
        ).minus(b.over(c))
    &&& forall|a: V, b: V|
        !a.over(b).absent() ==> #[trigger] a.times(b).over(b.times(b)) == a.over(b)
    &&& forall|a: V|
        !(#[trigger] a.over(a.magnitude())).absent() ==> a.over(a.magnitude()) == sign_of(a)
}

/// Products associate, commute and spread.
pub(crate) proof fn lemma_times<V: Scalar>(a: V, b: V, c: V)
    requires
        lawful::<V>(),
        rings::<V>(),
    ensures
        a.times(b) == b.times(a),
        a.times(b).times(c) == a.times(b.times(c)),
        a.times(b.plus(c)) == a.times(b).plus(a.times(c)),
        a.minus(b) == a.plus(b.negated()),
        a.negated().times(b) == a.times(b.negated()),
        a.below(b) ==> !a.absent() && !b.absent(),
{
    assert(a.times(b) == b.times(a)) by {
        reveal(scales);
    }
    assert(a.times(b).times(c) == a.times(b.times(c))) by {
        reveal(associates);
    }
    assert(a.times(b.plus(c)) == a.times(b).plus(a.times(c))) by {
        reveal(spreads);
    }
    reveal(turns);
}

/// What divides one number divides every number, and a quotient goes into a product.
pub(crate) proof fn lemma_over<V: Scalar>(a: V, b: V, c: V, d: V)
    requires
        divides::<V>(),
        !d.over(c).absent(),
        !a.absent(),
        !b.absent(),
    ensures
        !a.over(c).absent(),
        !b.over(c).absent(),
        a.times(b).over(c) == a.times(b.over(c)),
        a.minus(b).over(c) == a.over(c).minus(b.over(c)),
        a.times(c).over(c.times(c)) == a.over(c),
{
    reveal(divides);
    assert(!d.over(c).absent() && !a.absent() ==> !a.over(c).absent());
    assert(!d.over(c).absent() && !b.absent() ==> !b.over(c).absent());
}

/// A number over its magnitude is its sign.
pub(crate) proof fn lemma_sign<V: Scalar>(a: V)
    requires
        divides::<V>(),
        !a.over(a.magnitude()).absent(),
    ensures
        a.over(a.magnitude()) == sign_of(a),
{
    reveal(divides);
}

/// An absent operand leaves an absent result.
pub(crate) proof fn lemma_absence<V: Scalar>(a: V, b: V)
    requires
        lawful::<V>(),
    ensures
        a.plus(b).absent() <==> a.absent() || b.absent(),
        a.minus(b).absent() <==> a.absent() || b.absent(),
        a.times(b).absent() <==> a.absent() || b.absent(),
        !a.over(b).absent() ==> !a.absent() && !b.absent(),
        a.negated().absent() <==> a.absent(),
{
    reveal(adds);
    reveal(scales);
}

/// Sums commute and associate.
pub(crate) proof fn lemma_plus<V: Scalar>(a: V, b: V, c: V)
    requires
        lawful::<V>(),
    ensures
        a.plus(b) == b.plus(a),
        a.plus(b).plus(c) == a.plus(b.plus(c)),
{
    reveal(adds);
}

/// The units are units.
pub(crate) proof fn lemma_units<V: Scalar>(a: V)
    requires
        lawful::<V>(),
        !a.absent(),
    ensures
        a.plus(V::whole(0)) == a,
        V::whole(0).plus(a) == a,
        a.minus(V::whole(0)) == a,
        V::whole(0).minus(a) == a.negated(),
        a.negated().negated() == a,
        a.times(V::whole(0)) == V::whole(0),
        V::whole(0).times(a) == V::whole(0),
        a.times(V::whole(1)) == a,
        V::whole(1).times(a) == a,
        a.over(V::whole(1)) == a,
        !V::whole(0).over(a).absent() ==> V::whole(0).over(a) == V::whole(0),
{
    reveal(adds);
    reveal(scales);
    let (zero, one) = (V::whole(0), V::whole(1));
    assert(zero.plus(a) == a.plus(zero));
    assert(zero.times(a) == a.times(zero));
    assert(one.times(a) == a.times(one));
}

} // verus!
