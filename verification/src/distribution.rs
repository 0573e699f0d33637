//! Points in, probabilities out.

use vstd::prelude::*;

use crate::flat::Flat;
use crate::scalar::Scalar;

verus! {

/// One outcome of a space: the space owns one to be ignorant in.
pub trait Outcome: Copy {
    open spec fn unsure(self) -> bool {
        arbitrary()
    }

    /// Whether this is the outcome nothing argued for.
    fn is_default(self) -> (r: bool)
        ensures
            r == self.unsure(),
    ;
}

/// Points added up.
pub open spec fn total<V: Scalar>(points: Seq<V>) -> V
    decreases points.len(),
{
    if points.len() == 0 {
        V::whole(0)
    } else {
        total(points.drop_last()).plus(points.last())
    }
}

/// Where the space is ignorant: the first of its outcomes that nothing argued for.
pub open spec fn unsure_at<T: Outcome>(outcomes: Seq<T>) -> int
    decreases outcomes.len(),
{
    if outcomes.len() == 0 || outcomes[0].unsure() {
        0
    } else {
        1 + unsure_at(outcomes.drop_first())
    }
}

/// What points are divided by. Past the root the evidence is overwhelming and the space is fully
/// allocated, so the division is a plain normalisation from there on.
pub open spec fn divisor<V: Scalar>(points: Seq<V>, most: V) -> V {
    most.root().greater(total(points))
}

/// Points as probabilities: each its share, and the unallocated remainder to the outcome at `d`.
pub open spec fn probabilities<V: Scalar>(points: Seq<V>, most: V, d: int) -> Seq<V> {
    let by = divisor(points, most);
    let rest = V::whole(1).minus(total(points).over(by)).greater(V::whole(0));
    let shares = points.map_values(|p: V| p.over(by));
    shares.update(d, shares[d].plus(rest))
}

/// Whether points can be scored against a space: one for each outcome, none against one (evidence
/// against an outcome is the absence of a point, not a point), something to be argued over, and an
/// outcome to be ignorant in.
pub open spec fn scorable<V: Scalar, T: Outcome>(points: Seq<V>, space: Seq<T>, most: V) -> bool {
    &&& points.len() == space.len()
    &&& V::whole(0).below(most)
    &&& forall|i: int|
        0 <= i < points.len() ==> !(#[trigger] points[i]).absent() && !points[i].below(V::whole(0))
    &&& exists|i: int| 0 <= i < space.len() && (#[trigger] space[i]).unsure()
}

/// A flat out whose slots are probabilities over a named outcome space. Evidence reaches one as
/// points rather than shares: a read argues only for what it names, and what nothing argued for is
/// ignorance rather than a uniform guess, so the space has to own a slot to be ignorant in.
pub trait ProbabilisticDistribution<V: Scalar>: Flat<V> {
    type Outcome: Outcome;

    open spec fn space() -> Seq<Self::Outcome> {
        arbitrary()
    }

    open spec fn most() -> V {
        arbitrary()
    }

    /// The outcome space, in the order [`certainty`](Self::certainty) reads points in.
    fn outcomes() -> (r: Vec<Self::Outcome>)
        ensures
            r@ == Self::space(),
    ;

    /// Every point the evidence could ever have scored. Certainty is measured against its *root*
    /// rather than against itself: one read out of a hundred declared is a whisper, while a handful
    /// that agree is already most of what could be said at all.
    fn points() -> (r: V)
        ensures
            r == Self::most(),
    ;

    /// Points per outcome to probabilities, in place; the unallocated remainder to the default's slot.
    fn certainty(points: &mut [V])
        requires
            scorable(old(points)@, Self::space(), Self::most()),
        ensures
            final(points)@ == probabilities(old(points)@, Self::most(), unsure_at(Self::space())),
            0 <= unsure_at(Self::space()) < old(points)@.len(),
    {
        let ghost before = points@;
        let n: usize = points.len();
        let mut scored: V = V::of(0);
        let mut i: usize = 0;
        while i < n
            invariant
                i <= n == before.len(),
                points@ == before,
                scored == total(before.take(i as int)),
            decreases n - i,
        {
            let p: V = points[i];
            assert(before.take(i + 1).drop_last() =~= before.take(i as int));
            scored = scored.add(p);
            i += 1;
        }
        assert(before.take(n as int) =~= before);
        let by: V = Self::points().sqrt().max(scored);
        let ghost shares = before.map_values(|p: V| p.over(by));
        let mut i: usize = 0;
        while i < n
            invariant
                i <= n == before.len() == points@.len(),
                shares == before.map_values(|p: V| p.over(by)),
                forall|j: int| 0 <= j < i ==> #[trigger] points@[j] == shares[j],
                forall|j: int| i <= j < n ==> #[trigger] points@[j] == before[j],
            decreases n - i,
        {
            let p: V = points[i].div(by);
            points[i] = p;
            i += 1;
        }
        assert(points@ =~= shares);
        let outcomes: Vec<Self::Outcome> = Self::outcomes();
        let mut d: usize = 0;
        assert(outcomes@.skip(0) =~= outcomes@);
        proof {
            lemma_unsure(outcomes@);
        }
        while d < outcomes.len() && !outcomes[d].is_default()
            invariant
                d <= outcomes@.len(),
                unsure_at(outcomes@) == d + unsure_at(outcomes@.skip(d as int)),
                unsure_at(outcomes@) < outcomes@.len(),
            decreases outcomes@.len() - d,
        {
            assert(outcomes@.skip(d as int).drop_first() =~= outcomes@.skip(d + 1));
            d += 1;
        }
        let rest: V = V::of(1).sub(scored.div(by)).max(V::of(0));
        let p: V = points[d].add(rest);
        points[d] = p;
        assert(points@ =~= probabilities(before, Self::most(), d as int));
    }
}

/// A space with an outcome to be ignorant in is ignorant at one of its own.
proof fn lemma_unsure<T: Outcome>(outcomes: Seq<T>)
    requires
        exists|i: int| 0 <= i < outcomes.len() && (#[trigger] outcomes[i]).unsure(),
    ensures
        0 <= unsure_at(outcomes) < outcomes.len(),
    decreases outcomes.len(),
{
    if !outcomes[0].unsure() {
        let i = choose|i: int| 0 <= i < outcomes.len() && (#[trigger] outcomes[i]).unsure();
        assert(outcomes.drop_first()[i - 1].unsure());
        lemma_unsure(outcomes.drop_first());
    }
}

/// What exact arithmetic owes shares of a whole.
pub open spec fn divides_exactly<V: Scalar>(by: V) -> bool {
    &&& V::whole(0).over(by) == V::whole(0)
    &&& forall|a: V, b: V| (#[trigger] a.plus(b)).over(by) == a.over(by).plus(b.over(by))
    &&& forall|a: V, b: V, c: V| #[trigger] a.plus(b).plus(c) == a.plus(b.plus(c))
    &&& forall|a: V, b: V| #[trigger] a.plus(b) == b.plus(a)
    &&& forall|a: V| a.plus(#[trigger] V::whole(1).minus(a)) == V::whole(1)
}

proof fn lemma_shares<V: Scalar>(points: Seq<V>, by: V)
    requires
        divides_exactly(by),
    ensures
        total(points.map_values(|p: V| p.over(by))) == total(points).over(by),
    decreases points.len(),
{
    let shares = points.map_values(|p: V| p.over(by));
    if points.len() > 0 {
        lemma_shares(points.drop_last(), by);
        assert(shares.drop_last() =~= points.drop_last().map_values(|p: V| p.over(by)));
        assert(total(points) == total(points.drop_last()).plus(points.last()));
    }
}

proof fn lemma_raised<V: Scalar>(points: Seq<V>, d: int, x: V, by: V)
    requires
        divides_exactly(by),
        0 <= d < points.len(),
    ensures
        total(points.update(d, points[d].plus(x))) == total(points).plus(x),
    decreases points.len(),
{
    let all = points.update(d, points[d].plus(x));
    let (head, last) = (total(points.drop_last()), points.last());
    if d == points.len() - 1 {
        assert(all.drop_last() =~= points.drop_last());
        assert(head.plus(last).plus(x) == head.plus(last.plus(x)));
    } else {
        lemma_raised(points.drop_last(), d, x, by);
        assert(all.drop_last() =~= points.drop_last().update(d, points[d].plus(x)));
        assert(head.plus(x).plus(last) == head.plus(x.plus(last)));
        assert(x.plus(last) == last.plus(x));
        assert(head.plus(last).plus(x) == head.plus(last.plus(x)));
    }
}

/// The space is always fully allocated: where arithmetic is exact, probabilities add up to one,
/// whatever was scored.
pub proof fn the_space_is_fully_allocated<V: Scalar>(points: Seq<V>, most: V, d: int)
    requires
        0 <= d < points.len(),
        divides_exactly(divisor(points, most)),
        ({
            let unscored = V::whole(1).minus(total(points).over(divisor(points, most)));
            unscored.greater(V::whole(0)) == unscored
        }),
    ensures
        total(probabilities(points, most, d)) == V::whole(1),
{
    let by = divisor(points, most);
    let shares = points.map_values(|p: V| p.over(by));
    let rest = V::whole(1).minus(total(points).over(by));
    lemma_shares(points, by);
    lemma_raised(shares, d, rest, by);
}

/// Each outcome's probability is its points over the larger of the root of what could be scored and what
/// was scored; the first unsure outcome takes what that leaves of the whole, where it leaves anything.
pub proof fn the_first_unsure_outcome_takes_the_rest<V: Scalar, T: Outcome>(
    points: Seq<V>,
    space: Seq<T>,
    most: V,
    i: int,
)
    requires
        scorable(points, space, most),
        0 <= i < points.len(),
    ensures
        ({
            let d = unsure_at(space);
            let by = most.root().greater(total(points));
            let got = probabilities(points, most, d);
            &&& 0 <= d < points.len()
            &&& space[d].unsure()
            &&& i < d ==> !space[i].unsure()
            &&& got.len() == points.len()
            &&& i != d ==> got[i] == points[i].over(by)
            &&& i == d ==> got[i] == points[i].over(by).plus(
                V::whole(1).minus(total(points).over(by)).greater(V::whole(0)),
            )
        }),
{
    lemma_unsure(space);
    let d = unsure_at(space);
    if i < d {
        lemma_first_unsure(space, i);
    }
    lemma_at_unsure(space);
}

proof fn lemma_unsure_bounds<T: Outcome>(space: Seq<T>)
    ensures
        0 <= unsure_at(space),
    decreases space.len(),
{
    if space.len() > 0 && !space[0].unsure() {
        lemma_unsure_bounds(space.drop_first());
    }
}

proof fn lemma_at_unsure<T: Outcome>(space: Seq<T>)
    requires
        0 <= unsure_at(space) < space.len(),
    ensures
        space[unsure_at(space)].unsure(),
    decreases space.len(),
{
    if !space[0].unsure() {
        let rest = space.drop_first();
        lemma_unsure_bounds(rest);
        lemma_at_unsure(rest);
        assert(rest[unsure_at(rest)] == space[unsure_at(space)]);
    }
}

proof fn lemma_first_unsure<T: Outcome>(space: Seq<T>, i: int)
    requires
        0 <= i < space.len(),
        i < unsure_at(space),
    ensures
        !space[i].unsure(),
    decreases space.len(),
{
    if i > 0 {
        lemma_first_unsure(space.drop_first(), i - 1);
        assert(space.drop_first()[i - 1] == space[i]);
    }
}

/// What was scored in all is what the outcomes were scored, added up.
pub proof fn a_total_grows_by_what_is_added<V: Scalar>(points: Seq<V>, p: V)
    ensures
        total(Seq::<V>::empty()) == V::whole(0),
        total(points.push(p)) == total(points).plus(p),
{
    assert(points.push(p).drop_last() =~= points);
}

} // verus!
