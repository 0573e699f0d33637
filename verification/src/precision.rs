//! Fixed-point money. A raw integer is meaningless without the [`Precision`] it was scaled by, so
//! the two travel together everywhere except the columnar buffers, where the run's precision is
//! hoisted out of the loop.

use vstd::arithmetic::power::pow;
use vstd::prelude::*;
use vstd::std_specs::convert::FromSpecImpl;

use crate::text;

verus! {

/// Decimal exponent: `raw = value * 10^precision`. Signed, so a million-dollar index tick and a
/// satoshi tick both fit the same 32-bit raw column.
#[derive(Clone, Copy, Debug, Eq, Hash, Ord, PartialEq, PartialOrd, Structural)]
pub struct Precision(pub i8);

impl Default for Precision {
    fn default() -> (r: Self)
        ensures
            r == Precision(0),
    {
        Precision(0)
    }
}

impl FromSpecImpl<i8> for Precision {
    open spec fn obeys_from_spec() -> bool {
        true
    }

    open spec fn from_spec(v: i8) -> Self {
        Precision(v)
    }
}

impl From<i8> for Precision {
    fn from(v: i8) -> (r: Self) {
        Precision(v)
    }
}

/// The widest gap between two ticks that an `i64` raw can bridge.
pub const MAX_GAP: u32 = 18;

/// `10^e`.
pub open spec fn ten(e: int) -> int {
    pow(10, e as nat)
}

/// `n * 10^gap`, where that is a whole number.
pub open spec fn shifted(n: int, gap: int) -> Option<int> {
    if gap >= 0 {
        Some(n * ten(gap))
    } else if n % ten(-gap) == 0 {
        Some(n / ten(-gap))
    } else {
        None
    }
}

/// `raw` counted in the ticks of `to` instead of those of `from`: nothing where the two ticks are
/// too far apart, where the count would carry a fraction, or where it would not fit.
pub open spec fn aligned(raw: int, from: int, to: int) -> Option<int> {
    if -MAX_GAP <= to - from <= MAX_GAP {
        match shifted(raw, to - from) {
            Some(n) => if i64::MIN <= n <= i64::MAX {
                Some(n)
            } else {
                None
            },
            None => None,
        }
    } else {
        None
    }
}

/// A decimal literal past its sign.
pub open spec fn unsigned(s: Seq<char>) -> Seq<char> {
    if s.len() > 0 && (s[0] == '-' || s[0] == '+') {
        s.drop_first()
    } else {
        s
    }
}

/// The digits after the point that matter: trailing zeros do not.
pub open spec fn decimals(s: Seq<char>) -> Seq<char> {
    text::trim_end(text::after(unsigned(s), '.'), '0')
}

/// Every digit that matters.
pub open spec fn significant(s: Seq<char>) -> Seq<char> {
    text::before(unsigned(s), '.') + decimals(s)
}

/// The raw a decimal literal comes to at a precision: nothing where it is no literal of one to
/// eighteen digits that matter, or where the tick cannot hold it.
pub open spec fn raw_of(s: Seq<char>, precision: int) -> Option<int> {
    let digits = significant(s);
    if 1 <= digits.len() <= MAX_GAP && text::all_digits(digits) {
        match aligned(text::number(digits), decimals(s).len() as int, precision) {
            Some(n) => Some(
                if s[0] == '-' {
                    -n
                } else {
                    n
                },
            ),
            None => None,
        }
    } else {
        None
    }
}

/// The first powers of ten.
pub(crate) proof fn lemma_ten()
    ensures
        ten(0) == 1,
        ten(1) == 10,
        ten(2) == 100,
        ten(3) == 1_000,
        ten(4) == 10_000,
        ten(5) == 100_000,
        ten(6) == 1_000_000,
        ten(7) == 10_000_000,
        ten(8) == 100_000_000,
        ten(9) == 1_000_000_000,
        ten(10) == 10_000_000_000,
        ten(11) == 100_000_000_000,
        ten(12) == 1_000_000_000_000,
        ten(13) == 10_000_000_000_000,
        ten(14) == 100_000_000_000_000,
        ten(15) == 1_000_000_000_000_000,
        ten(16) == 10_000_000_000_000_000,
        ten(17) == 100_000_000_000_000_000,
        ten(18) == 1_000_000_000_000_000_000,
{
    reveal_with_fuel(pow, 20);
}

/// `10^exp`, for the exponents an `i64` holds.
pub fn pow10(exp: u32) -> (r: i64)
    requires
        exp <= MAX_GAP,
    ensures
        r == ten(exp as int),
{
    proof {
        lemma_ten();
    }
    match exp {
        0 => 1,
        1 => 10,
        2 => 100,
        3 => 1_000,
        4 => 10_000,
        5 => 100_000,
        6 => 1_000_000,
        7 => 10_000_000,
        8 => 100_000_000,
        9 => 1_000_000_000,
        10 => 10_000_000_000,
        11 => 100_000_000_000,
        12 => 1_000_000_000_000,
        13 => 10_000_000_000_000,
        14 => 100_000_000_000_000,
        15 => 1_000_000_000_000_000,
        16 => 10_000_000_000_000_000,
        17 => 100_000_000_000_000_000,
        _ => 1_000_000_000_000_000_000,
    }
}

/// Re-scale `raw` from one tick onto another, where the other can hold it.
pub fn checked_realign(raw: i64, from: Precision, to: Precision) -> (r: Option<i64>)
    ensures
        match aligned(raw as int, from.0 as int, to.0 as int) {
            Some(n) => r == Some(n as i64),
            None => r is None,
        },
{
    let gap: i32 = to.0 as i32 - from.0 as i32;
    shift(raw, gap)
}

/// `raw * 10^gap`, where that is whole and fits.
fn shift(raw: i64, gap: i32) -> (r: Option<i64>)
    requires
        -1000 <= gap <= 1000,
    ensures
        match aligned(raw as int, 0, gap as int) {
            Some(n) => r == Some(n as i64),
            None => r is None,
        },
{
    if gap > 18 || gap < -18 {
        return None;
    }
    if gap >= 0 {
        raw.checked_mul(pow10(gap as u32))
    } else {
        let p: i64 = pow10((-gap) as u32);
        proof {
            lemma_ten();
            vstd::arithmetic::power::lemma_pow_positive(10, (-gap) as nat);
        }
        if raw.checked_rem_euclid(p).unwrap() == 0 {
            proof {
                lemma_quotient_shrinks(raw as int, p as int);
            }
            raw.checked_div_euclid(p)
        } else {
            None
        }
    }
}

/// A whole quotient lies between zero and what was divided.
proof fn lemma_quotient_shrinks(n: int, p: int)
    requires
        p >= 1,
    ensures
        n >= 0 ==> 0 <= n / p <= n,
        n < 0 ==> n <= n / p < 0,
{
    assert(n >= 0 ==> 0 <= n / p <= n) by (nonlinear_arith)
        requires
            p >= 1,
    ;
    assert(n < 0 ==> n <= n / p < 0) by (nonlinear_arith)
        requires
            p >= 1,
    ;
}

/// Re-scale `raw` from one tick onto another. Upscaling is exact or does not fit; downscaling is
/// only defined when the digits it drops are zero.
pub fn realign(raw: i64, from: Precision, to: Precision) -> (r: i64)
    requires
        aligned(raw as int, from.0 as int, to.0 as int) is Some,
    ensures
        Some(r as int) == aligned(raw as int, from.0 as int, to.0 as int),
{
    checked_realign(raw, from, to).unwrap()
}

/// The number two runs of digits spell together.
fn accumulate(whole: &[char], decimals: &[char]) -> (r: Option<i64>)
    requires
        whole@.len() + decimals@.len() <= MAX_GAP,
    ensures
        r is Some <==> text::all_digits(whole@ + decimals@),
        r is Some ==> r->0 == text::number(whole@ + decimals@) && 0 <= r->0 < ten(18),
{
    let ghost digits = whole@ + decimals@;
    let mut acc: i64 = 0;
    let mut i: usize = 0;
    proof {
        reveal(pow);
        assert(digits.take(0) =~= Seq::empty());
    }
    while i < whole.len() + decimals.len()
        invariant
            digits == whole@ + decimals@,
            i <= digits.len() <= MAX_GAP,
            text::all_digits(digits.take(i as int)),
            acc == text::number(digits.take(i as int)),
            0 <= acc < ten(i as int),
        decreases digits.len() - i,
    {
        let c: char = if i < whole.len() { whole[i] } else { decimals[i - whole.len()] };
        assert(c == digits[i as int]);
        assert(digits.take(i + 1).drop_last() =~= digits.take(i as int));
        if c < '0' || c > '9' {
            assert(!text::is_digit(digits[i as int]));
            return None;
        }
        proof {
            lemma_ten();
            vstd::arithmetic::power::lemma_pow_increases(10, i as nat, 17);
            reveal(pow);
            assert(ten(i + 1) == 10 * ten(i as int));
        }
        let d: i64 = (c as u32 - '0' as u32) as i64;
        acc = acc * 10 + d;
        assert forall|j: int| 0 <= j < i + 1 implies text::is_digit(
            #[trigger] digits.take(i + 1)[j],
        ) by {
            if j < i {
                assert(digits.take(i as int)[j] == digits.take(i + 1)[j]);
            }
        }
        i += 1;
    }
    proof {
        assert(digits.take(digits.len() as int) =~= digits);
        vstd::arithmetic::power::lemma_pow_increases(10, digits.len(), 18);
    }
    Some(acc)
}

/// Re-align a decimal string onto `precision`'s tick. Trailing zeros are insignificant (a venue may
/// pad `.24` to `.24000000`); a significant digit the tick cannot hold is a feed/config mismatch.
pub fn checked_realigned(s: &str, precision: Precision) -> (r: Option<i64>)
    ensures
        match raw_of(s@, precision.0 as int) {
            Some(n) => r == Some(n as i64),
            None => r is None,
        },
{
    let all: Vec<char> = text::chars_of(s);
    let negative: bool = all.len() > 0 && all[0] == '-';
    let start: usize = if all.len() > 0 && (all[0] == '-' || all[0] == '+') { 1 } else { 0 };
    let body: &[char] = text::slice(all.as_slice(), start, all.len());
    assert(body@ =~= unsigned(s@));
    let point: usize = text::find(body, '.');
    let ghost whole = text::before(body@, '.');
    let ghost fraction = text::after(body@, '.');
    let from: usize = if point < body.len() { point + 1 } else { point };
    assert(fraction =~= body@.subrange(from as int, body@.len() as int));
    let mut end: usize = body.len();
    while end > from && body[end - 1] == '0'
        invariant
            from <= end <= body@.len(),
            forall|j: int| end <= j < body@.len() ==> body@[j] == '0',
        decreases end,
    {
        end -= 1;
    }
    proof {
        assert forall|j: int| end - from <= j < fraction.len() implies fraction[j] == '0' by {
            assert(fraction[j] == body@[j + from]);
        }
        if end > from {
            assert(fraction[end - from - 1] == body@[end - 1]);
        }
        text::lemma_trim_end(fraction, '0', end - from);
        assert(decimals(s@) =~= body@.subrange(from as int, end as int));
    }
    let whole_digits: &[char] = text::slice(body, 0, point);
    let decimal_digits: &[char] = text::slice(body, from, end);
    let ghost digits = significant(s@);
    assert(digits == whole_digits@ + decimal_digits@);
    let count: usize = end - from;
    if point > 18 || count > 18 || point + count > 18 || point + count == 0 {
        return None;
    }
    let acc: i64 = match accumulate(whole_digits, decimal_digits) {
        Some(n) => n,
        None => return None,
    };
    let gap: i32 = precision.0 as i32 - count as i32;
    let n: Option<i64> = shift(acc, gap);
    proof {
        if gap < 0 {
            vstd::arithmetic::power::lemma_pow_positive(10, (-gap) as nat);
            lemma_quotient_shrinks(acc as int, ten(-gap));
        } else {
            vstd::arithmetic::power::lemma_pow_positive(10, gap as nat);
            assert(acc * ten(gap as int) >= 0) by (nonlinear_arith)
                requires
                    acc >= 0,
                    ten(gap as int) > 0,
            ;
        }
        if s@.len() == 0 {
            assert(digits =~= Seq::empty());
        }
    }
    match n {
        Some(v) => if negative {
            Some(-v)
        } else {
            Some(v)
        },
        None => None,
    }
}

/// [`checked_realigned`], of a literal the tick is known to hold.
pub fn realigned(s: &str, precision: Precision) -> (r: i64)
    requires
        raw_of(s@, precision.0 as int) is Some,
    ensures
        Some(r as int) == raw_of(s@, precision.0 as int),
{
    proof {
        lemma_raw_fits(s@, precision.0 as int);
    }
    checked_realigned(s, precision).unwrap()
}

/// A raw that a literal comes to fits an `i64`.
proof fn lemma_raw_fits(s: Seq<char>, precision: int)
    requires
        raw_of(s, precision) is Some,
    ensures
        -i64::MAX <= raw_of(s, precision)->0 <= i64::MAX,
{
    let digits = significant(s);
    text::lemma_number_bounds(digits);
    let gap = precision - decimals(s).len();
    let n = text::number(digits);
    if gap < 0 {
        vstd::arithmetic::power::lemma_pow_positive(10, (-gap) as nat);
        lemma_quotient_shrinks(n, ten(-gap));
    } else {
        vstd::arithmetic::power::lemma_pow_positive(10, gap as nat);
        assert(n * ten(gap) >= 0) by (nonlinear_arith)
            requires
                n >= 0,
                ten(gap) > 0,
        ;
    }
}

impl Precision {
    pub fn parse_i32(self, s: &str) -> (r: i32)
        requires
            raw_of(s@, self.0 as int) is Some,
            i32::MIN <= raw_of(s@, self.0 as int)->0 <= i32::MAX,
        ensures
            Some(r as int) == raw_of(s@, self.0 as int),
    {
        realigned(s, self) as i32
    }

    pub fn parse_u32(self, s: &str) -> (r: u32)
        requires
            raw_of(s@, self.0 as int) is Some,
            0 <= raw_of(s@, self.0 as int)->0 <= u32::MAX,
        ensures
            Some(r as int) == raw_of(s@, self.0 as int),
    {
        realigned(s, self) as u32
    }
}

/// Per-batch precision shared across all levels / trades in a book / trade batch.
#[derive(Clone, Copy, Debug, Eq, Hash, PartialEq, Structural)]
pub struct PrecisionPriceQty {
    pub price: Precision,
    pub qty: Precision,
}

impl Default for PrecisionPriceQty {
    fn default() -> (r: Self)
        ensures
            r == (PrecisionPriceQty { price: Precision(0), qty: Precision(0) }),
    {
        PrecisionPriceQty { price: Precision(0), qty: Precision(0) }
    }
}

impl PrecisionPriceQty {
    pub fn new(price: Precision, qty: Precision) -> (r: Self)
        ensures
            r == (PrecisionPriceQty { price, qty }),
    {
        PrecisionPriceQty { price, qty }
    }
}

} // verus!
