//! A raw counted in ticks, written out as the decimal it stands for.

use vstd::prelude::*;

use crate::money::{pi32, pu32, Price, Qty};
use crate::precision::ten;
use crate::precision::{pow10, Precision};
use crate::text;
use crate::text::decimal;

verus! {

/// The largest whole number a double holds with every one before it.
pub const EXACT: u64 = 9_007_199_254_740_992;

/// Digits with zeros before them, to a width.
pub open spec fn padded(digits: Seq<char>, width: int) -> Seq<char>
    decreases width - digits.len(),
{
    if digits.len() >= width {
        digits
    } else {
        padded(seq!['0'] + digits, width)
    }
}

pub open spec fn magnitude(raw: int) -> int {
    if raw < 0 {
        -raw
    } else {
        raw
    }
}

/// A raw counted in ticks of `10^-prec`, in decimal: as many places as the precision has.
pub open spec fn decimal_text(raw: int, prec: int) -> Seq<char> {
    let n = magnitude(raw);
    let sign = if raw < 0 {
        "-"@
    } else {
        ""@
    };
    sign + if prec <= 0 {
        decimal((n * ten(-prec)) as nat)
    } else {
        decimal((n / ten(prec)) as nat) + "."@ + padded(decimal((n % ten(prec)) as nat), prec)
    }
}

/// A decimal without the places that say nothing.
pub open spec fn short_text(raw: int, prec: int) -> Seq<char> {
    let s = decimal_text(raw, prec);
    if prec <= 0 {
        s
    } else {
        text::trim_end(text::trim_end(s, '0'), '.')
    }
}

/// Whether a decimal is within what is written out digit by digit.
pub open spec fn writable(raw: int, prec: int) -> bool {
    prec < 0 ==> -18 <= prec && magnitude(raw) * ten(-prec) <= EXACT
}

fn push_padded(out: &mut Vec<char>, n: u64, width: usize)
    ensures
        final(out)@ == old(out)@ + padded(decimal(n as nat), width as int),
{
    let mut digits: Vec<char> = Vec::new();
    text::push_decimal(&mut digits, n);
    assert(digits@ =~= decimal(n as nat));
    while digits.len() < width
        invariant
            padded(digits@, width as int) == padded(decimal(n as nat), width as int),
        decreases width - digits@.len(),
    {
        let mut more: Vec<char> = Vec::new();
        more.push('0');
        text::push_all(&mut more, digits.as_slice());
        assert(more@ =~= seq!['0'] + digits@);
        digits = more;
    }
    text::push_all(out, digits.as_slice());
}

/// No power of ten past the eighteenth is within a raw.
proof fn lemma_beyond(n: int, prec: int)
    requires
        0 <= n < ten(18),
        prec > 18,
    ensures
        n / ten(prec) == 0,
        n % ten(prec) == n,
{
    vstd::arithmetic::power::lemma_pow_increases(10, 18, prec as nat);
    vstd::arithmetic::div_mod::lemma_basic_div(n, ten(prec));
    vstd::arithmetic::div_mod::lemma_small_mod(n as nat, ten(prec) as nat);
}

/// A raw in decimal.
pub fn write_decimal(raw: i64, precision: Precision) -> (r: Vec<char>)
    requires
        magnitude(raw as int) < ten(18),
        writable(raw as int, precision.0 as int),
    ensures
        r@ == decimal_text(raw as int, precision.0 as int),
{
    let mut out: Vec<char> = Vec::new();
    let prec: i8 = precision.0;
    proof {
        crate::precision::lemma_ten();
        reveal_strlit("");
        assert(""@ =~= Seq::<char>::empty());
    }
    let n: u64 = if raw < 0 {
        text::push_str(&mut out, "-");
        (-raw) as u64
    } else {
        raw as u64
    };
    let ghost sign = out@;
    assert(sign =~= if raw < 0 {
        "-"@
    } else {
        ""@
    });
    if prec <= 0 {
        let scale: i64 = pow10((-(prec as i32)) as u32);
        assert(n * ten(-prec as int) <= EXACT || prec == 0);
        if prec == 0 {
            text::push_decimal(&mut out, n);
            assert(n * ten(0) == n) by {
                assert(ten(0) == 1);
            }
        } else {
            text::push_decimal(&mut out, n * scale as u64);
        }
    } else {
        let (whole, rest): (u64, u64) = if prec > 18 {
            proof {
                lemma_beyond(n as int, prec as int);
            }
            (0, n)
        } else {
            let scale: u64 = pow10(prec as u32) as u64;
            (n / scale, n % scale)
        };
        text::push_decimal(&mut out, whole);
        text::push_str(&mut out, ".");
        push_padded(&mut out, rest, prec as usize);
    }
    assert(out@ =~= decimal_text(raw as int, prec as int));
    out
}

/// The part of `s` before the run of `c` it ends in.
fn cut_end(s: &[char], c: char) -> (r: &[char])
    ensures
        r@ == text::trim_end(s@, c),
{
    let mut n: usize = s.len();
    while n > 0 && s[n - 1] == c
        invariant
            n <= s@.len(),
            forall|j: int| n <= j < s@.len() ==> s@[j] == c,
        decreases n,
    {
        n -= 1;
    }
    proof {
        text::lemma_trim_end(s@, c, n as int);
    }
    text::slice(s, 0, n)
}

/// A raw in decimal, without the places that say nothing.
pub fn write_short(raw: i64, precision: Precision) -> (r: Vec<char>)
    requires
        magnitude(raw as int) < ten(18),
        writable(raw as int, precision.0 as int),
    ensures
        r@ == short_text(raw as int, precision.0 as int),
{
    let all: Vec<char> = write_decimal(raw, precision);
    if precision.0 <= 0 {
        return all;
    }
    let mut out: Vec<char> = Vec::new();
    text::push_all(&mut out, cut_end(cut_end(all.as_slice(), '0'), '.'));
    assert(out@ =~= short_text(raw as int, precision.0 as int));
    out
}

impl pi32 {
    /// The decimal, to as many places as the precision has.
    pub fn text(self) -> (r: String)
        requires
            writable(self.raw as int, self.prec.0 as int),
        ensures
            r@ == decimal_text(self.raw as int, self.prec.0 as int),
    {
        proof {
            crate::precision::lemma_ten();
        }
        text::string_of(write_decimal(self.raw as i64, self.prec).as_slice())
    }
}

impl pu32 {
    /// The decimal, to as many places as the precision has.
    pub fn text(self) -> (r: String)
        requires
            writable(self.raw as int, self.prec.0 as int),
        ensures
            r@ == decimal_text(self.raw as int, self.prec.0 as int),
    {
        proof {
            crate::precision::lemma_ten();
        }
        text::string_of(write_decimal(self.raw as i64, self.prec).as_slice())
    }
}

impl Price {
    /// The decimal, to as many places as the precision has.
    pub fn text(self) -> (r: String)
        requires
            writable(self.0.raw as int, self.0.prec.0 as int),
        ensures
            r@ == decimal_text(self.0.raw as int, self.0.prec.0 as int),
    {
        proof {
            crate::precision::lemma_ten();
        }
        text::string_of(write_decimal(self.0.raw as i64, self.0.prec).as_slice())
    }
}

impl Qty {
    /// The decimal, to as many places as the precision has.
    pub fn text(self) -> (r: String)
        requires
            writable(self.0.raw as int, self.0.prec.0 as int),
        ensures
            r@ == decimal_text(self.0.raw as int, self.0.prec.0 as int),
    {
        proof {
            crate::precision::lemma_ten();
        }
        text::string_of(write_decimal(self.0.raw as i64, self.0.prec).as_slice())
    }
}

} // verus!
