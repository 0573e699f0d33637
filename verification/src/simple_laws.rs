//! What the simplest form of an expression is free of.

use vstd::prelude::*;

use crate::scalar::Scalar;
use crate::tree::{
    all_simplified, constants, is, lemma_simplified_size, lemma_size_positive, lemma_sizes, others,
    simple_sum, sizes, subtracts_from_nothing, terms, Tree,
};
use crate::whole::Whole;

verus! {

/// Whether an expression and every part of it is free of litter: nothing is left to fold, no zero is
/// added or subtracted, and nothing subtracted from one, no zero or one multiplies, no zero is divided
/// and nothing is divided by one, no negation stands on another, no power is the zeroth or the first,
/// no choice is between two of the same, and a sum is of two terms or more with one constant among
/// them at most, at the end and not zero.
pub open spec fn simple<V: Scalar>(t: Tree<V>) -> bool
    decreases t,
{
    match t {
        Tree::Const(_) => true,
        Tree::Var(_) => true,
        Tree::Powi(e, n) => simple(*e) && *e !is Const && n != 0 && n != 1,
        Tree::Select(c, a, b) => simple(*c) && simple(*a) && simple(*b) && *c !is Const && !a.alike(
            *b,
        ),
        Tree::Sum(xs) => all_simple(xs) && terms(xs) == xs && xs.len() != 1,
        Tree::Add(l, r) => simple(*l) && simple(*r) && varies(*l, *r) && other_than(*l, 0) && other_than(*r, 0),
        Tree::Sub(l, r) => simple(*l) && simple(*r) && varies(*l, *r) && other_than(*l, 0) && other_than(*r, 0),
        Tree::Mul(l, r) => simple(*l) && simple(*r) && varies(*l, *r) && other_than(*l, 0) && other_than(*r, 0)
            && other_than(*l, 1) && other_than(*r, 1),
        Tree::Div(l, r) => simple(*l) && simple(*r) && varies(*l, *r) && other_than(*l, 0) && other_than(*r, 1),
        Tree::Min(l, r) => simple(*l) && simple(*r) && varies(*l, *r),
        Tree::Max(l, r) => simple(*l) && simple(*r) && varies(*l, *r),
        Tree::Cmp(l, r) => simple(*l) && simple(*r) && varies(*l, *r),
        Tree::Neg(e) => simple(*e) && *e !is Const && *e !is Neg,
        Tree::Square(e) => simple(*e) && *e !is Const,
        Tree::Abs(e) => simple(*e) && *e !is Const,
        Tree::Sqrt(e) => simple(*e) && *e !is Const,
        Tree::Exp(e) => simple(*e) && *e !is Const,
        Tree::IsNan(e) => simple(*e) && *e !is Const,
    }
}

/// Whether an expression is not the constant `n`.
pub open spec fn other_than<V: Scalar>(e: Tree<V>, n: int) -> bool {
    let same = is(e, n);
    !same
}

/// Whether one of two operands is no constant.
pub open spec fn varies<V: Scalar>(l: Tree<V>, r: Tree<V>) -> bool {
    l !is Const || r !is Const
}

pub open spec fn all_simple<V: Scalar>(xs: Seq<Tree<V>>) -> bool
    decreases xs,
{
    xs.len() == 0 || (all_simple(xs.drop_last()) && simple(xs.last()))
}

/// Whether zero added to a scalar other than zero is that scalar.
pub open spec fn zero_adds_nothing<V: Scalar>() -> bool {
    forall|x: V| !x.equals(V::whole(0)) ==> #[trigger] V::whole(0).plus(x) == x
}

/// Zero adds nothing to a whole number.
pub proof fn zero_adds_nothing_to_wholes()
    ensures
        zero_adds_nothing::<Whole>(),
{
}

proof fn lemma_all_simple<V: Scalar>(xs: Seq<Tree<V>>, i: int)
    requires
        all_simple(xs),
        0 <= i < xs.len(),
    ensures
        simple(xs[i]),
    decreases xs.len(),
{
    if i < xs.len() - 1 {
        lemma_all_simple(xs.drop_last(), i);
    }
}

/// The varying terms vary, and are simple where all terms are.
proof fn lemma_others<V: Scalar>(xs: Seq<Tree<V>>)
    requires
        all_simple(xs),
    ensures
        all_simple(others(xs)),
        others(others(xs)) == others(xs),
        constants(others(xs)) == V::whole(0),
    decreases xs.len(),
{
    if xs.len() > 0 {
        let rest = xs.drop_last();
        lemma_others(rest);
        if xs.last() !is Const {
            assert(others(xs).drop_last() =~= others(rest));
        }
    }
}

proof fn lemma_sum_is_simple<V: Scalar>(xs: Seq<Tree<V>>)
    requires
        zero_adds_nothing::<V>(),
        all_simple(xs),
    ensures
        simple(simple_sum(xs)),
{
    lemma_others(xs);
    V::zero_equals_zero();
    let ts = terms(xs);
    let acc = constants(xs);
    if !acc.equals(V::whole(0)) || others(xs).len() == 0 {
        assert(ts.drop_last() =~= others(xs));
        assert(ts.last() == Tree::Const(acc));
        assert(simple(Tree::Const(acc)));
        assert(all_simple(ts));
        assert(others(ts) =~= others(xs));
        if ts.len() != 1 {
            assert(constants(ts) == V::whole(0).plus(acc));
        }
    }
    if ts.len() == 1 {
        lemma_all_simple(ts, 0);
    } else {
        assert(terms(ts) =~= ts);
    }
}

/// The simplest form of an expression is free of litter, all through it, whatever the numbers are as
/// long as zero adds nothing.
pub proof fn the_simplest_form_is_free_of_litter<V: Scalar>(t: Tree<V>)
    requires
        zero_adds_nothing::<V>(),
    ensures
        simple(t.simplified()),
    decreases t.size(), 0nat,
{
    lemma_sizes(t);
    match t {
        Tree::Const(_) => {},
        Tree::Var(_) => {},
        Tree::Powi(e, _) => {
            the_simplest_form_is_free_of_litter(*e);
        },
        Tree::Select(c, a, b) => {
            the_simplest_form_is_free_of_litter(*c);
            the_simplest_form_is_free_of_litter(*a);
            the_simplest_form_is_free_of_litter(*b);
        },
        Tree::Sum(xs) => {
            lemma_all_litter_free(xs);
            lemma_sum_is_simple(all_simplified(xs));
        },
        Tree::Sub(l, r) => {
            the_simplest_form_is_free_of_litter(*l);
            the_simplest_form_is_free_of_litter(*r);
            lemma_simplified_size(*r);
            a_simple_form_is_its_own_simplest(r.simplified());
        },
        Tree::Add(l, r) => {
            the_simplest_form_is_free_of_litter(*l);
            the_simplest_form_is_free_of_litter(*r);
        },
        Tree::Mul(l, r) => {
            the_simplest_form_is_free_of_litter(*l);
            the_simplest_form_is_free_of_litter(*r);
        },
        Tree::Div(l, r) => {
            the_simplest_form_is_free_of_litter(*l);
            the_simplest_form_is_free_of_litter(*r);
        },
        Tree::Min(l, r) => {
            the_simplest_form_is_free_of_litter(*l);
            the_simplest_form_is_free_of_litter(*r);
        },
        Tree::Max(l, r) => {
            the_simplest_form_is_free_of_litter(*l);
            the_simplest_form_is_free_of_litter(*r);
        },
        Tree::Cmp(l, r) => {
            the_simplest_form_is_free_of_litter(*l);
            the_simplest_form_is_free_of_litter(*r);
        },
        Tree::Neg(e) => {
            the_simplest_form_is_free_of_litter(*e);
        },
        Tree::Square(e) => {
            the_simplest_form_is_free_of_litter(*e);
        },
        Tree::Abs(e) => {
            the_simplest_form_is_free_of_litter(*e);
        },
        Tree::Sqrt(e) => {
            the_simplest_form_is_free_of_litter(*e);
        },
        Tree::Exp(e) => {
            the_simplest_form_is_free_of_litter(*e);
        },
        Tree::IsNan(e) => {
            the_simplest_form_is_free_of_litter(*e);
        },
    }
}

proof fn lemma_all_litter_free<V: Scalar>(xs: Seq<Tree<V>>)
    requires
        zero_adds_nothing::<V>(),
    ensures
        all_simple(all_simplified(xs)),
    decreases sizes(xs), xs.len(),
{
    if xs.len() > 0 {
        lemma_size_positive(xs.last());
        lemma_all_litter_free(xs.drop_last());
        the_simplest_form_is_free_of_litter(xs.last());
        assert(all_simplified(xs).drop_last() =~= all_simplified(xs.drop_last()));
    }
}

/// An expression that is free of litter is its own simplest form.
pub proof fn a_simple_form_is_its_own_simplest<V: Scalar>(t: Tree<V>)
    requires
        simple(t),
    ensures
        t.simplified() == t,
    decreases t,
{
    match t {
        Tree::Const(_) => {},
        Tree::Var(_) => {},
        Tree::Powi(e, _) => {
            a_simple_form_is_its_own_simplest(*e);
        },
        Tree::Select(c, a, b) => {
            a_simple_form_is_its_own_simplest(*c);
            a_simple_form_is_its_own_simplest(*a);
            a_simple_form_is_its_own_simplest(*b);
        },
        Tree::Sum(xs) => {
            lemma_all_their_own(xs);
        },
        Tree::Sub(l, r) => {
            a_simple_form_is_its_own_simplest(*l);
            a_simple_form_is_its_own_simplest(*r);
            assert(!subtracts_from_nothing(*l, *r));
        },
        Tree::Add(l, r) => {
            a_simple_form_is_its_own_simplest(*l);
            a_simple_form_is_its_own_simplest(*r);
        },
        Tree::Mul(l, r) => {
            a_simple_form_is_its_own_simplest(*l);
            a_simple_form_is_its_own_simplest(*r);
        },
        Tree::Div(l, r) => {
            a_simple_form_is_its_own_simplest(*l);
            a_simple_form_is_its_own_simplest(*r);
        },
        Tree::Min(l, r) => {
            a_simple_form_is_its_own_simplest(*l);
            a_simple_form_is_its_own_simplest(*r);
        },
        Tree::Max(l, r) => {
            a_simple_form_is_its_own_simplest(*l);
            a_simple_form_is_its_own_simplest(*r);
        },
        Tree::Cmp(l, r) => {
            a_simple_form_is_its_own_simplest(*l);
            a_simple_form_is_its_own_simplest(*r);
        },
        Tree::Neg(e) => {
            a_simple_form_is_its_own_simplest(*e);
        },
        Tree::Square(e) => {
            a_simple_form_is_its_own_simplest(*e);
        },
        Tree::Abs(e) => {
            a_simple_form_is_its_own_simplest(*e);
        },
        Tree::Sqrt(e) => {
            a_simple_form_is_its_own_simplest(*e);
        },
        Tree::Exp(e) => {
            a_simple_form_is_its_own_simplest(*e);
        },
        Tree::IsNan(e) => {
            a_simple_form_is_its_own_simplest(*e);
        },
    }
}

proof fn lemma_all_their_own<V: Scalar>(xs: Seq<Tree<V>>)
    requires
        all_simple(xs),
    ensures
        all_simplified(xs) == xs,
    decreases xs,
{
    if xs.len() > 0 {
        lemma_all_their_own(xs.drop_last());
        a_simple_form_is_its_own_simplest(xs.last());
        assert(all_simplified(xs) =~= xs);
    }
}

/// Simplifying twice is simplifying once.
pub proof fn simplifying_twice_is_simplifying_once<V: Scalar>(t: Tree<V>)
    requires
        zero_adds_nothing::<V>(),
    ensures
        t.simplified().simplified() == t.simplified(),
{
    the_simplest_form_is_free_of_litter(t);
    a_simple_form_is_its_own_simplest(t.simplified());
}

} // verus!
