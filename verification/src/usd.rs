//! An amount of dollars.

use vstd::prelude::*;
use vstd::std_specs::ops::AddSpecImpl;
use vstd::std_specs::ops::DivSpecImpl;
use vstd::std_specs::ops::MulSpecImpl;
use vstd::std_specs::ops::NegSpecImpl;
use vstd::std_specs::ops::SubSpecImpl;

use crate::scalar::Scalar;
use crate::text;

verus! {

/// A struct representing USD (in future, inflation-adjusted) value. That's it. Just a newtype. But
/// extremely powerful.
#[derive(Clone, Copy, Debug, PartialEq, PartialOrd)]
pub struct Usd<V>(pub V);

/// Whether a character is whitespace: has Unicode's `White_Space` property.
pub open spec fn whitespace(c: char) -> bool {
    ||| '\u{9}' <= c <= '\u{d}'
    ||| c == '\u{20}' || c == '\u{85}' || c == '\u{a0}' || c == '\u{1680}'
    ||| '\u{2000}' <= c <= '\u{200a}'
    ||| c == '\u{2028}' || c == '\u{2029}' || c == '\u{202f}' || c == '\u{205f}' || c == '\u{3000}'
}

fn is_whitespace(c: char) -> (r: bool)
    ensures
        r == whitespace(c),
{
    ('\u{9}' <= c && c <= '\u{d}') || c == '\u{20}' || c == '\u{85}' || c == '\u{a0}' || c == '\u{1680}'
        || ('\u{2000}' <= c && c <= '\u{200a}') || c == '\u{2028}' || c == '\u{2029}' || c == '\u{202f}'
        || c == '\u{205f}' || c == '\u{3000}'
}

/// A text without the whitespace it begins with.
pub open spec fn led(s: Seq<char>) -> Seq<char>
    decreases s.len(),
{
    if s.len() > 0 && whitespace(s[0]) {
        led(s.drop_first())
    } else {
        s
    }
}

/// A text without the whitespace it ends in.
pub open spec fn ended(s: Seq<char>) -> Seq<char>
    decreases s.len(),
{
    if s.len() > 0 && whitespace(s.last()) {
        ended(s.drop_last())
    } else {
        s
    }
}

/// A text without the whitespace around it.
pub open spec fn trimmed(s: Seq<char>) -> Seq<char> {
    ended(led(s))
}

/// The number an amount is written by: the sign before it or behind it, and the space around either,
/// taken away. Only one sign is: what is left of another is no number.
pub open spec fn amount_text(s: Seq<char>) -> Seq<char> {
    let s = trimmed(s);
    if s.len() > 0 && s[0] == '$' {
        trimmed(s.drop_first())
    } else if s.len() > 0 && s.last() == '$' {
        trimmed(s.drop_last())
    } else {
        trimmed(s)
    }
}

fn trim(s: &[char]) -> (r: &[char])
    ensures
        r@ == trimmed(s@),
{
    let mut from: usize = 0;
    assert(s@.skip(0) =~= s@);
    while from < s.len() && is_whitespace(s[from])
        invariant
            from <= s@.len(),
            led(s@) == led(s@.skip(from as int)),
        decreases s@.len() - from,
    {
        assert(s@.skip(from as int).drop_first() =~= s@.skip(from + 1));
        from += 1;
    }
    let mut to: usize = s.len();
    assert(s@.subrange(from as int, to as int) =~= s@.skip(from as int));
    while from < to && is_whitespace(s[to - 1])
        invariant
            from <= to <= s@.len(),
            trimmed(s@) == ended(s@.subrange(from as int, to as int)),
        decreases to - from,
    {
        assert(s@.subrange(from as int, to as int).drop_last() =~= s@.subrange(
            from as int,
            to - 1,
        ));
        to -= 1;
    }
    text::slice(s, from, to)
}

/// The text of the number an amount is written by.
pub fn amount(s: &str) -> (r: String)
    ensures
        r@ == amount_text(s@),
{
    let cs: Vec<char> = text::chars_of(s);
    let t: &[char] = trim(cs.as_slice());
    let n: usize = t.len();
    let body: &[char] = if n > 0 && t[0] == '$' {
        text::slice(t, 1, n)
    } else if n > 0 && t[n - 1] == '$' {
        text::slice(t, 0, n - 1)
    } else {
        t
    };
    proof {
        if n > 0 {
            assert(t@.subrange(1, n as int) =~= t@.drop_first());
            assert(t@.subrange(0, n - 1) =~= t@.drop_last());
        }
    }
    text::string_of(trim(body))
}

impl<V: Scalar> AddSpecImpl<Usd<V>> for Usd<V> {
    open spec fn obeys_add_spec() -> bool {
        true
    }

    open spec fn add_req(self, rhs: Usd<V>) -> bool {
        true
    }

    open spec fn add_spec(self, rhs: Usd<V>) -> Usd<V> {
        Usd(self.0.plus(rhs.0))
    }
}

impl<V: Scalar> core::ops::Add<Usd<V>> for Usd<V> {
    type Output = Usd<V>;

    fn add(self, rhs: Usd<V>) -> (r: Usd<V>) {
        Usd(self.0.add(rhs.0))
    }
}

impl<V: Scalar> SubSpecImpl<Usd<V>> for Usd<V> {
    open spec fn obeys_sub_spec() -> bool {
        true
    }

    open spec fn sub_req(self, rhs: Usd<V>) -> bool {
        true
    }

    open spec fn sub_spec(self, rhs: Usd<V>) -> Usd<V> {
        Usd(self.0.minus(rhs.0))
    }
}

impl<V: Scalar> core::ops::Sub<Usd<V>> for Usd<V> {
    type Output = Usd<V>;

    fn sub(self, rhs: Usd<V>) -> (r: Usd<V>) {
        Usd(self.0.sub(rhs.0))
    }
}

impl<V: Scalar> MulSpecImpl<Usd<V>> for Usd<V> {
    open spec fn obeys_mul_spec() -> bool {
        true
    }

    open spec fn mul_req(self, rhs: Usd<V>) -> bool {
        true
    }

    open spec fn mul_spec(self, rhs: Usd<V>) -> Usd<V> {
        Usd(self.0.times(rhs.0))
    }
}

impl<V: Scalar> core::ops::Mul<Usd<V>> for Usd<V> {
    type Output = Usd<V>;

    fn mul(self, rhs: Usd<V>) -> (r: Usd<V>) {
        Usd(self.0.mul(rhs.0))
    }
}

impl<V: Scalar> DivSpecImpl<Usd<V>> for Usd<V> {
    open spec fn obeys_div_spec() -> bool {
        true
    }

    open spec fn div_req(self, rhs: Usd<V>) -> bool {
        true
    }

    open spec fn div_spec(self, rhs: Usd<V>) -> Usd<V> {
        Usd(self.0.over(rhs.0))
    }
}

impl<V: Scalar> core::ops::Div<Usd<V>> for Usd<V> {
    type Output = Usd<V>;

    fn div(self, rhs: Usd<V>) -> (r: Usd<V>) {
        Usd(self.0.div(rhs.0))
    }
}

impl<V: Scalar> NegSpecImpl for Usd<V> {
    open spec fn obeys_neg_spec() -> bool {
        true
    }

    open spec fn neg_req(self) -> bool {
        true
    }

    open spec fn neg_spec(self) -> Usd<V> {
        Usd(self.0.negated())
    }
}

impl<V: Scalar> core::ops::Neg for Usd<V> {
    type Output = Usd<V>;

    fn neg(self) -> (r: Usd<V>) {
        Usd(self.0.neg())
    }
}

impl<V: Scalar> Usd<V> {
    /// The amount taken so many times.
    pub fn scaled(self, by: V) -> (r: Usd<V>)
        ensures
            r.0 == self.0.times(by),
    {
        Usd(self.0.mul(by))
    }

    /// How the amount is written: to so many decimal places where that is asked, else to two where it
    /// has a fractional part, and to none where it is whole.
    pub open spec fn written(self, places: Option<usize>) -> Seq<char> {
        match places {
            Some(p) => self.0.spelled_to(p as int) + "$"@,
            None => if self.0.broken() {
                self.0.spelled_to(2) + "$"@
            } else {
                self.0.spelled() + "$"@
            },
        }
    }

    pub fn text(self, places: Option<usize>) -> (r: String)
        ensures
            r@ == self.written(places),
    {
        let number: String = match places {
            Some(p) => self.0.text_to(p),
            None => if self.0.is_broken() {
                self.0.text_to(2)
            } else {
                self.0.text()
            },
        };
        let mut out: Vec<char> = Vec::new();
        text::push_str(&mut out, number.as_str());
        text::push_str(&mut out, "$");
        assert(out@ =~= self.written(places));
        text::string_of(out.as_slice())
    }
}

} // verus!
