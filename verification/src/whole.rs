//! Whole numbers as scalars: exact, and none where there is no whole answer.

use vstd::prelude::*;

use crate::scalar::Scalar;
use crate::scalar::{adds, associates, lawful, rings, scales, spreads, turns};
use crate::text;
use crate::tree::signed;
use vstd::arithmetic::div_mod::lemma_mod_multiples_vanish;
use vstd::arithmetic::mul::{
    lemma_mul_is_associative, lemma_mul_is_commutative, lemma_mul_is_distributive_add,
    lemma_mul_is_distributive_add_other_way, lemma_mul_unary_negation,
};
use vstd::math::abs;
use vstd::wrapping::i64_specs::signed_crop;

verus! {

/// A whole number, or none. Sums and products are exact modulo the width of the word; a quotient or
/// a root that is no whole number is none.
#[derive(Clone, Copy)]
pub struct Whole(pub Option<i64>);

/// The non-negative whole number whose square is `n`.
pub open spec fn is_root(n: int, s: int) -> bool {
    0 <= s && s * s == n
}

proof fn lemma_one_root(s: int, t: int)
    requires
        0 <= s,
        0 <= t,
        s * s == t * t,
    ensures
        s == t,
{
    assert(s == t) by (nonlinear_arith)
        requires
            0 <= s,
            0 <= t,
            s * s == t * t,
    ;
}

fn root_of(n: i64) -> (r: Option<i64>)
    ensures
        r == if exists|s: int| is_root(n as int, s) {
            Some((choose|s: int| is_root(n as int, s)) as i64)
        } else {
            None
        },
{
    if n < 0 {
        assert forall|s: int| !is_root(n as int, s) by {
            assert(s * s >= 0) by (nonlinear_arith);
        }
        return None;
    }
    let mut lo: i64 = 0;
    let mut hi: i64 = 3_037_000_500;
    assert(forall|s: int| s >= 3_037_000_500 ==> !is_root(n as int, s)) by {
        assert forall|s: int| s >= 3_037_000_500 implies !is_root(n as int, s) by {
            assert(s * s >= 3_037_000_500 * 3_037_000_500) by (nonlinear_arith)
                requires
                    s >= 3_037_000_500,
            ;
        }
    }
    while lo < hi
        invariant
            0 <= lo <= hi <= 3_037_000_500,
            0 <= n,
            forall|s: int| s < lo ==> !is_root(n as int, s),
            forall|s: int| s >= hi ==> !is_root(n as int, s),
        decreases hi - lo,
    {
        let mid: i64 = lo + (hi - lo) / 2;
        assert(0 <= mid * mid <= 3_037_000_499 * 3_037_000_499) by (nonlinear_arith)
            requires
                0 <= mid <= 3_037_000_499,
        ;
        if mid * mid == n {
            proof {
                assert(is_root(n as int, mid as int));
                let s = choose|s: int| is_root(n as int, s);
                lemma_one_root(s, mid as int);
            }
            return Some(mid);
        } else if mid * mid < n {
            proof {
                assert forall|s: int| s < mid + 1 implies !is_root(n as int, s) by {
                    if is_root(n as int, s) {
                        assert(s * s <= mid * mid) by (nonlinear_arith)
                            requires
                                0 <= s <= mid,
                        ;
                    }
                }
            }
            lo = mid + 1;
        } else {
            proof {
                assert forall|s: int| s >= mid implies !is_root(n as int, s) by {
                    assert(s * s >= mid * mid) by (nonlinear_arith)
                        requires
                            0 <= mid <= s,
                    ;
                }
            }
            hi = mid;
        }
    }
    assert(forall|s: int| !is_root(n as int, s));
    None
}

impl Scalar for Whole {
    open spec fn whole(n: int) -> Self {
        Whole(Some(n as i64))
    }

    open spec fn none() -> Self {
        Whole(None)
    }

    open spec fn absent(self) -> bool {
        self.0 is None
    }

    open spec fn plus(self, other: Self) -> Self {
        match (self.0, other.0) {
            (Some(a), Some(b)) => Whole(Some(a.wrapping_add(b))),
            _ => Whole(None),
        }
    }

    open spec fn minus(self, other: Self) -> Self {
        match (self.0, other.0) {
            (Some(a), Some(b)) => Whole(Some(a.wrapping_sub(b))),
            _ => Whole(None),
        }
    }

    open spec fn times(self, other: Self) -> Self {
        match (self.0, other.0) {
            (Some(a), Some(b)) => Whole(Some(a.wrapping_mul(b))),
            _ => Whole(None),
        }
    }

    open spec fn over(self, other: Self) -> Self {
        match (self.0, other.0) {
            (Some(a), Some(b)) => if b != 0 && a as int % b as int == 0 && a as int / b as int
                <= i64::MAX {
                Whole(Some((a as int / b as int) as i64))
            } else {
                Whole(None)
            },
            _ => Whole(None),
        }
    }

    open spec fn negated(self) -> Self {
        match self.0 {
            Some(a) => Whole(Some(0i64.wrapping_sub(a))),
            None => Whole(None),
        }
    }

    open spec fn magnitude(self) -> Self {
        match self.0 {
            Some(a) => if a < 0 {
                self.negated()
            } else {
                self
            },
            None => Whole(None),
        }
    }

    open spec fn root(self) -> Self {
        match self.0 {
            Some(n) => if exists|s: int| is_root(n as int, s) {
                Whole(Some((choose|s: int| is_root(n as int, s)) as i64))
            } else {
                Whole(None)
            },
            None => Whole(None),
        }
    }

    open spec fn exponential(self) -> Self {
        if self.0 == Some(0i64) {
            Whole(Some(1))
        } else {
            Whole(None)
        }
    }

    open spec fn lesser(self, other: Self) -> Self {
        match (self.0, other.0) {
            (Some(a), Some(b)) => if b < a {
                other
            } else {
                self
            },
            (None, _) => other,
            _ => self,
        }
    }

    open spec fn greater(self, other: Self) -> Self {
        match (self.0, other.0) {
            (Some(a), Some(b)) => if a < b {
                other
            } else {
                self
            },
            (None, _) => other,
            _ => self,
        }
    }

    open spec fn below(self, other: Self) -> bool {
        match (self.0, other.0) {
            (Some(a), Some(b)) => a < b,
            _ => false,
        }
    }

    open spec fn equals(self, other: Self) -> bool {
        match (self.0, other.0) {
            (Some(a), Some(b)) => a == b,
            _ => false,
        }
    }

    open spec fn spelled(self) -> Seq<char> {
        match self.0 {
            Some(a) => signed(a as int),
            None => "NaN"@,
        }
    }

    open spec fn broken(self) -> bool {
        false
    }

    open spec fn nearest(self) -> i64 {
        match self.0 {
            Some(n) => n,
            None => 0,
        }
    }

    /// A whole number has no places to cut.
    open spec fn spelled_to(self, places: int) -> Seq<char> {
        self.spelled()
    }

    proof fn zero_equals_zero() {
    }

    proof fn none_is_absent() {
    }

    proof fn one_is_not_zero() {
    }

    fn of(n: i64) -> (r: Self) {
        Whole(Some(n))
    }

    fn nan() -> (r: Self) {
        Whole(None)
    }

    fn is_nan(self) -> (r: bool) {
        self.0.is_none()
    }

    fn add(self, other: Self) -> (r: Self) {
        match (self.0, other.0) {
            (Some(a), Some(b)) => Whole(Some(a.wrapping_add(b))),
            _ => Whole(None),
        }
    }

    fn sub(self, other: Self) -> (r: Self) {
        match (self.0, other.0) {
            (Some(a), Some(b)) => Whole(Some(a.wrapping_sub(b))),
            _ => Whole(None),
        }
    }

    fn mul(self, other: Self) -> (r: Self) {
        match (self.0, other.0) {
            (Some(a), Some(b)) => Whole(Some(a.wrapping_mul(b))),
            _ => Whole(None),
        }
    }

    fn div(self, other: Self) -> (r: Self) {
        match (self.0, other.0) {
            (Some(a), Some(b)) => {
                if b == 0 {
                    return Whole(None);
                }
                proof {
                    lemma_quotient(a as int, b as int);
                }
                match (a.checked_div_euclid(b), a.checked_rem_euclid(b)) {
                    (Some(q), Some(0)) => Whole(Some(q)),
                    _ => Whole(None),
                }
            },
            _ => Whole(None),
        }
    }

    fn neg(self) -> (r: Self) {
        match self.0 {
            Some(a) => Whole(Some(0i64.wrapping_sub(a))),
            None => Whole(None),
        }
    }

    fn abs(self) -> (r: Self) {
        match self.0 {
            Some(a) => if a < 0 {
                self.neg()
            } else {
                self
            },
            None => Whole(None),
        }
    }

    fn sqrt(self) -> (r: Self) {
        match self.0 {
            Some(n) => Whole(root_of(n)),
            None => Whole(None),
        }
    }

    fn exp(self) -> (r: Self) {
        match self.0 {
            Some(0) => Whole(Some(1)),
            _ => Whole(None),
        }
    }

    fn min(self, other: Self) -> (r: Self) {
        match (self.0, other.0) {
            (Some(a), Some(b)) => if b < a {
                other
            } else {
                self
            },
            (None, _) => other,
            _ => self,
        }
    }

    fn max(self, other: Self) -> (r: Self) {
        match (self.0, other.0) {
            (Some(a), Some(b)) => if a < b {
                other
            } else {
                self
            },
            (None, _) => other,
            _ => self,
        }
    }

    fn lt(self, other: Self) -> (r: bool) {
        match (self.0, other.0) {
            (Some(a), Some(b)) => a < b,
            _ => false,
        }
    }

    fn same(self, other: Self) -> (r: bool) {
        match (self.0, other.0) {
            (Some(a), Some(b)) => a == b,
            _ => false,
        }
    }

    fn is_broken(self) -> (r: bool) {
        false
    }

    fn text(self) -> (r: String) {
        let mut out: Vec<char> = Vec::new();
        match self.0 {
            Some(a) => {
                if a < 0 {
                    text::push_str(&mut out, "-");
                    text::push_decimal(&mut out, (-(a as i128)) as u64);
                } else {
                    text::push_decimal(&mut out, a as u64);
                }
            },
            None => text::push_str(&mut out, "NaN"),
        }
        assert(out@ =~= self.spelled());
        text::string_of(out.as_slice())
    }

    fn round(self) -> (r: i64) {
        match self.0 {
            Some(n) => n,
            None => 0,
        }
    }

    fn text_to(self, places: usize) -> (r: String) {
        self.text()
    }
}

/// A quotient is no further from zero than what is divided.
proof fn lemma_quotient(a: int, b: int)
    requires
        b != 0,
    ensures
        a % b == 0 ==> -abs(a) <= a / b <= abs(a),
{
    if a % b == 0 {
        let q = a / b;
        assert(a == b * q) by (nonlinear_arith)
            requires
                b != 0,
                a % b == 0,
                q == a / b,
        ;
        assert(-abs(a) <= q <= abs(a)) by (nonlinear_arith)
            requires
                b != 0,
                a == b * q,
                abs(a) == (if a < 0 { -a } else { a }),
        ;
    }
}

/// The whole numbers' arithmetic is exact.
pub proof fn wholes_are_lawful()
    ensures
        lawful::<Whole>(),
{
    assert(adds::<Whole>()) by {
        reveal(adds);
    }
    assert(scales::<Whole>()) by {
        reveal(scales);
        assert forall|a: Whole, b: Whole| #[trigger] a.times(b) == b.times(a) by {
            if let (Some(x), Some(y)) = (a.0, b.0) {
                assert(x * y == y * x) by (nonlinear_arith);
            }
        }
        assert(forall|a: Whole|
            !a.absent() ==> #[trigger] a.times(Whole::whole(0)) == Whole::whole(0));
        assert(forall|a: Whole| !a.absent() ==> #[trigger] a.times(Whole::whole(1)) == a);
        assert forall|a: Whole| !a.absent() implies #[trigger] a.over(Whole::whole(1)) == a by {
            let n = a.0->Some_0 as int;
            assert(n % 1 == 0 && n / 1 == n);
        }
        assert forall|a: Whole| !(#[trigger] Whole::whole(0).over(a)).absent() implies
            Whole::whole(0).over(a) == Whole::whole(0) by {
            let n = a.0->Some_0 as int;
            assert(0int / n == 0) by (nonlinear_arith)
                requires
                    n != 0,
            ;
        }
    }
}

/// A word holds a number up to whole turns of it.
proof fn lemma_turns(x: int, k: int)
    ensures
        signed_crop(x) == signed_crop(x + 0x1_0000_0000_0000_0000 * k),
{
    lemma_mod_multiples_vanish(k, x, 0x1_0000_0000_0000_0000);
}

/// A word's own number is a whole number of turns away.
proof fn lemma_turned(x: int) -> (k: int)
    ensures
        signed_crop(x) == x + 0x1_0000_0000_0000_0000 * k,
{
    let q = x / 0x1_0000_0000_0000_0000;
    if signed_crop(x) < 0 {
        -q - 1
    } else {
        -q
    }
}

/// A product's number is the same whether its operands were cut to a word or not.
proof fn lemma_word_times(x: int, y: int)
    ensures
        signed_crop(signed_crop(x) * y) == signed_crop(x * y),
        signed_crop(y * signed_crop(x)) == signed_crop(x * y),
{
    let k = lemma_turned(x);
    let w = 0x1_0000_0000_0000_0000int;
    lemma_mul_is_distributive_add_other_way(y, x, w * k);
    lemma_mul_is_associative(w, k, y);
    lemma_turns(x * y, k * y);
    lemma_mul_is_commutative(y, signed_crop(x) as int);
}

/// A sum's number is the same whether its operands were cut to a word or not.
proof fn lemma_word_plus(x: int, y: int)
    ensures
        signed_crop(x).wrapping_add(signed_crop(y)) == signed_crop(x + y),
{
    let (k, j) = (lemma_turned(x), lemma_turned(y));
    lemma_turns(x + y, k + j);
    lemma_word_sum(signed_crop(x), signed_crop(y));
}

proof fn lemma_word_sum(x: i64, y: i64)
    ensures
        x.wrapping_add(y) == signed_crop(x + y),
        0i64.wrapping_sub(y) == signed_crop(-y),
{
}

proof fn lemma_associates(x: i64, y: i64, z: i64)
    ensures
        x.wrapping_mul(y).wrapping_mul(z) == x.wrapping_mul(y.wrapping_mul(z)),
{
    let (a, b, c) = (x as int, y as int, z as int);
    lemma_word_times(a * b, c);
    lemma_word_times(b * c, a);
    lemma_mul_is_associative(a, b, c);
    lemma_mul_is_commutative(b * c, a);
}

proof fn lemma_spreads(x: i64, y: i64, z: i64)
    ensures
        x.wrapping_mul(y.wrapping_add(z)) == x.wrapping_mul(y).wrapping_add(x.wrapping_mul(z)),
{
    let (a, b, c) = (x as int, y as int, z as int);
    lemma_word_sum(y, z);
    lemma_word_times(b + c, a);
    lemma_mul_is_commutative(b + c, a);
    lemma_mul_is_distributive_add(a, b, c);
    lemma_word_plus(a * b, a * c);
}

proof fn lemma_turns_sign(x: i64, y: i64)
    ensures
        0i64.wrapping_sub(x).wrapping_mul(y) == x.wrapping_mul(0i64.wrapping_sub(y)),
{
    let (a, b) = (x as int, y as int);
    lemma_word_sum(y, x);
    lemma_word_sum(x, y);
    lemma_word_times(-a, b);
    lemma_word_times(-b, a);
    lemma_mul_unary_negation(a, b);
    lemma_mul_unary_negation(b, a);
    lemma_mul_is_commutative(a, b);
}

proof fn lemma_wholes_associate()
    ensures
        associates::<Whole>(),
{
    reveal(associates);
    assert forall|a: Whole, b: Whole, c: Whole| #[trigger]
        a.times(b).times(c) == a.times(b.times(c)) by {
        if a.0 is Some && b.0 is Some && c.0 is Some {
            lemma_associates(a.0->Some_0, b.0->Some_0, c.0->Some_0);
        }
    }
}

proof fn lemma_wholes_spread()
    ensures
        spreads::<Whole>(),
{
    reveal(spreads);
    assert forall|a: Whole, b: Whole, c: Whole| #[trigger]
        a.times(b.plus(c)) == a.times(b).plus(a.times(c)) by {
        if a.0 is Some && b.0 is Some && c.0 is Some {
            lemma_spreads(a.0->Some_0, b.0->Some_0, c.0->Some_0);
        }
    }
}

/// The whole numbers' products associate and spread over sums.
pub proof fn wholes_ring()
    ensures
        rings::<Whole>(),
{
    lemma_wholes_associate();
    lemma_wholes_spread();
    assert(turns::<Whole>()) by {
        reveal(turns);
        assert forall|a: Whole, b: Whole| #[trigger]
            a.negated().times(b) == a.times(b.negated()) by {
            if a.0 is Some && b.0 is Some {
                lemma_turns_sign(a.0->Some_0, b.0->Some_0);
            }
        }
    }
}

} // verus!
