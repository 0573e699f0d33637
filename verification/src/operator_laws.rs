//! What the operators on times, on decimals and on amounts come to.

use vstd::prelude::*;
use vstd::std_specs::cmp::PartialEqSpec;
use vstd::std_specs::cmp::PartialOrdSpec;
use vstd::std_specs::ops::AddSpec;
use vstd::std_specs::ops::DivSpec;
use vstd::std_specs::ops::MulSpec;
use vstd::std_specs::ops::NegSpec;
use vstd::std_specs::ops::SubSpec;

use crate::money::{at, pi32, pu32, Price, Qty};
use crate::precision::ten;
use crate::scalar::Scalar;
use crate::ts::{Exact, Ts};
use crate::usd::Usd;

verus! {

/// Times are the same where their nanoseconds are, and stand in the order of them.
pub proof fn times_stand_in_the_order_of_their_nanoseconds<A>(a: Ts<A>, b: Ts<A>)
    ensures
        a.eq_spec(&b) <==> a.0 == b.0,
        a.partial_cmp_spec(&b) == Some(core::cmp::Ordering::Less) <==> a.0 < b.0,
        a.partial_cmp_spec(&b) == Some(core::cmp::Ordering::Equal) <==> a.0 == b.0,
        a.partial_cmp_spec(&b) == Some(core::cmp::Ordering::Greater) <==> a.0 > b.0,
{
}

/// A time put off is that much later, and brought forward that much earlier; the time between two is what
/// puts the one off to the other.
pub proof fn a_time_put_off_is_that_much_later<A>(a: Ts<A>, b: Ts<A>, d: Exact)
    ensures
        i64::MIN <= a.0 + d.0 <= i64::MAX ==> a.add_spec(d).0 == a.0 + d.0,
        i64::MIN <= a.0 - d.0 <= i64::MAX ==> <Ts<A> as SubSpec<Exact>>::sub_spec(a, d).0 == a.0 - d.0,
        i64::MIN <= b.0 - a.0 <= i64::MAX ==> <Ts<A> as SubSpec<Ts<A>>>::sub_spec(b, a).0 == b.0 - a.0,
{
}

/// Decimals are the same where they are worth the same, whatever their ticks, and stand in the order of
/// what they are worth.
pub proof fn decimals_stand_in_the_order_of_their_worth(a: pi32, b: pi32, to: int)
    requires
        to == (if a.prec.0 >= b.prec.0 { a.prec.0 } else { b.prec.0 }),
    ensures
        ({
            let (x, y) = (a.raw * ten(to - a.prec.0), b.raw * ten(to - b.prec.0));
            &&& a.eq_spec(&b) <==> x == y
            &&& a.partial_cmp_spec(&b) == Some(core::cmp::Ordering::Less) <==> x < y
            &&& a.partial_cmp_spec(&b) == Some(core::cmp::Ordering::Equal) <==> x == y
            &&& a.partial_cmp_spec(&b) == Some(core::cmp::Ordering::Greater) <==> x > y
            &&& Price(a).eq_spec(&Price(b)) == a.eq_spec(&b)
            &&& Price(a).partial_cmp_spec(&Price(b)) == a.partial_cmp_spec(&b)
        }),
{
}

/// And so are quantities.
pub proof fn quantities_stand_in_the_order_of_their_worth(a: pu32, b: pu32, to: int)
    requires
        to == (if a.prec.0 >= b.prec.0 { a.prec.0 } else { b.prec.0 }),
    ensures
        ({
            let (x, y) = (a.raw * ten(to - a.prec.0), b.raw * ten(to - b.prec.0));
            &&& a.eq_spec(&b) <==> x == y
            &&& a.partial_cmp_spec(&b) == Some(core::cmp::Ordering::Less) <==> x < y
            &&& a.partial_cmp_spec(&b) == Some(core::cmp::Ordering::Equal) <==> x == y
            &&& a.partial_cmp_spec(&b) == Some(core::cmp::Ordering::Greater) <==> x > y
            &&& Qty(a).eq_spec(&Qty(b)) == a.eq_spec(&b)
            &&& Qty(a).partial_cmp_spec(&Qty(b)) == a.partial_cmp_spec(&b)
        }),
{
}

/// A decimal negated has its ticks below zero, as many of the same size.
pub proof fn a_decimal_negated_is_worth_as_much_below_zero(a: pi32, to: int)
    requires
        a.raw != i32::MIN,
    ensures
        a.neg_spec().raw == -a.raw,
        a.neg_spec().prec == a.prec,
        at(a.neg_spec().raw as int, a.prec.0 as int, to) == -at(a.raw as int, a.prec.0 as int, to),
{
    let t = ten(to - a.prec.0);
    assert((-a.raw) * t == -(a.raw * t)) by (nonlinear_arith);
}

/// Decimals at one precision add and subtract their ticks, and keep the precision.
pub proof fn decimals_at_one_precision_add_their_ticks(a: pi32, b: pi32, q: pu32, r: pu32)
    requires
        a.prec == b.prec,
        q.prec == r.prec,
        i32::MIN <= a.raw + b.raw <= i32::MAX,
        i32::MIN <= a.raw - b.raw <= i32::MAX,
        q.raw + r.raw <= u32::MAX,
        r.raw <= q.raw,
    ensures
        a.add_req(b) && a.add_spec(b).raw == a.raw + b.raw && a.add_spec(b).prec == a.prec,
        a.sub_req(b) && a.sub_spec(b).raw == a.raw - b.raw && a.sub_spec(b).prec == a.prec,
        q.add_req(r) && q.add_spec(r).raw == q.raw + r.raw && q.add_spec(r).prec == q.prec,
        q.sub_req(r) && q.sub_spec(r).raw == q.raw - r.raw && q.sub_spec(r).prec == q.prec,
        Qty(q).add_spec(Qty(r)) == Qty(q.add_spec(r)),
        Qty(q).sub_spec(Qty(r)) == Qty(q.sub_spec(r)),
        Price(a).sub_spec(Price(b)) == a.sub_spec(b),
{
    vstd::arithmetic::power::lemma_pow0(10);
    assert(ten(0) == 1);
    assert(b.raw * ten(0) == b.raw) by (nonlinear_arith)
        requires
            ten(0) == 1,
    ;
    assert(r.raw * ten(0) == r.raw) by (nonlinear_arith)
        requires
            ten(0) == 1,
    ;
}

/// Amounts are computed as the numbers they are of.
pub proof fn amounts_compute_as_their_numbers<V: Scalar>(a: Usd<V>, b: Usd<V>)
    ensures
        a.add_spec(b).0 == a.0.plus(b.0),
        a.sub_spec(b).0 == a.0.minus(b.0),
        a.mul_spec(b).0 == a.0.times(b.0),
        a.div_spec(b).0 == a.0.over(b.0),
        a.neg_spec().0 == a.0.negated(),
{
}

/// An amount is written with its dollar sign behind it: to the places asked for, or, where none are, to
/// two if it is broken and as it is if it is not.
pub proof fn an_amount_is_written_with_its_sign_behind<V: Scalar>(a: Usd<V>, places: usize)
    ensures
        a.written(Some(places)) == a.0.spelled_to(places as int).push('$'),
        a.0.broken() ==> a.written(None) == a.0.spelled_to(2).push('$'),
        !a.0.broken() ==> a.written(None) == a.0.spelled().push('$'),
{
    reveal_strlit("$");
    assert("$"@ =~= seq!['$']);
    assert(a.0.spelled_to(places as int) + "$"@ =~= a.0.spelled_to(places as int).push('$'));
    assert(a.0.spelled_to(2) + "$"@ =~= a.0.spelled_to(2).push('$'));
    assert(a.0.spelled() + "$"@ =~= a.0.spelled().push('$'));
}

} // verus!
