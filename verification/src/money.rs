//! A raw integer with the tick it was scaled by, and the money types built on it.

use core::cmp::Ordering;
use vstd::arithmetic::power::pow;
use vstd::prelude::*;
use vstd::std_specs::cmp::PartialEqSpecImpl;
use vstd::std_specs::cmp::PartialOrdSpecImpl;
use vstd::std_specs::ops::AddSpecImpl;
use vstd::std_specs::ops::NegSpecImpl;
use vstd::std_specs::ops::SubSpecImpl;

use crate::precision::{aligned, pow10, realign, shifted, ten, Precision};
use crate::text;
use crate::ts::order_of;

verus! {

/// A raw counted in ticks of `10^-prec`, counted in the finer ticks of `10^-to`.
pub open spec fn at(raw: int, prec: int, to: int) -> int {
    raw * ten(to - prec)
}

/// The finer of two ticks.
pub open spec fn finer(a: int, b: int) -> int {
    if a >= b {
        a
    } else {
        b
    }
}

/// The sign of `coarse * 10^gap - fine`.
fn against(coarse: i64, fine: i64, gap: u32) -> (s: i8)
    requires
        -0x1_0000_0000 <= coarse <= 0x1_0000_0000,
        -0x1_0000_0000 <= fine <= 0x1_0000_0000,
    ensures
        s == (if coarse * ten(gap as int) < fine {
            -1int
        } else if coarse * ten(gap as int) == fine {
            0
        } else {
            1
        }),
{
    if gap <= 18 {
        let p: i64 = pow10(gap);
        proof {
            vstd::arithmetic::power::lemma_pow_increases(10, gap as nat, 18);
            vstd::arithmetic::power::lemma_pow_positive(10, gap as nat);
            reveal_with_fuel(pow, 20);
            let most = ten(18);
            assert(-0x1_0000_0000 * most <= coarse * p <= 0x1_0000_0000 * most)
                by (nonlinear_arith)
                requires
                    -0x1_0000_0000 <= coarse <= 0x1_0000_0000,
                    0 <= p <= most,
            ;
        }
        let scaled: i128 = coarse as i128 * p as i128;
        if scaled < fine as i128 {
            -1
        } else if scaled == fine as i128 {
            0
        } else {
            1
        }
    } else {
        proof {
            vstd::arithmetic::power::lemma_pow_increases(10, 18, gap as nat);
            reveal_with_fuel(pow, 20);
            let scale = ten(gap as int);
            assert(coarse > 0 ==> coarse * scale > 0x1_0000_0000) by (nonlinear_arith)
                requires
                    scale > 0x1_0000_0000,
            ;
            assert(coarse < 0 ==> coarse * scale < -0x1_0000_0000) by (nonlinear_arith)
                requires
                    scale > 0x1_0000_0000,
            ;
        }
        if coarse > 0 {
            1
        } else if coarse < 0 {
            -1
        } else if 0 < fine {
            -1
        } else if 0 == fine {
            0
        } else {
            1
        }
    }
}

/// The sign of the difference of what two fixed-point numbers are worth.
fn worth_sign(a_raw: i64, a_prec: Precision, b_raw: i64, b_prec: Precision) -> (s: i8)
    requires
        -0x1_0000_0000 <= a_raw <= 0x1_0000_0000,
        -0x1_0000_0000 <= b_raw <= 0x1_0000_0000,
    ensures
        ({
            let to = finer(a_prec.0 as int, b_prec.0 as int);
            let a = at(a_raw as int, a_prec.0 as int, to);
            let b = at(b_raw as int, b_prec.0 as int, to);
            s == (if a < b {
                -1int
            } else if a == b {
                0
            } else {
                1
            })
        }),
{
    proof {
        vstd::arithmetic::power::lemma_pow0(10);
    }
    let gap: i32 = a_prec.0 as i32 - b_prec.0 as i32;
    if gap >= 0 {
        -against(b_raw, a_raw, gap as u32)
    } else {
        against(a_raw, b_raw, (-gap) as u32)
    }
}

/// The [`Ordering`] a sign stands for.
fn ordering_of(sign: i8) -> (o: Ordering)
    ensures
        o == (if sign < 0 {
            Ordering::Less
        } else if sign == 0 {
            Ordering::Equal
        } else {
            Ordering::Greater
        }),
{
    if sign < 0 {
        Ordering::Less
    } else if sign == 0 {
        Ordering::Equal
    } else {
        Ordering::Greater
    }
}

/// A raw integer plus the tick it was scaled by. Arithmetic realigns the right-hand side onto the
/// left and keeps the left's precision; a realignment or range failure is corrupt state.
#[allow(non_camel_case_types)]
#[derive(Clone, Copy, Debug)]
pub struct pi32 {
    pub raw: i32,
    pub prec: Precision,
}

impl Default for pi32 {
    fn default() -> (r: Self)
        ensures
            r == (pi32 { raw: 0, prec: Precision(0) }),
    {
        pi32 { raw: 0, prec: Precision(0) }
    }
}

impl pi32 {
    pub fn new(raw: i32, prec: Precision) -> (r: Self)
        ensures
            r == (pi32 { raw, prec }),
    {
        pi32 { raw, prec }
    }

    /// What it is worth, in ticks of `10^-to`.
    pub open spec fn worth(self, to: int) -> int {
        at(self.raw as int, self.prec.0 as int, to)
    }

    /// `rhs` counted in this one's ticks.
    pub open spec fn onto(self, rhs: Self) -> Option<int> {
        aligned(rhs.raw as int, rhs.prec.0 as int, self.prec.0 as int)
    }

    /// Whether `rhs` can be added, or taken away, without leaving the range.
    pub open spec fn combines(self, rhs: Self, minus: bool) -> bool {
        self.onto(rhs) is Some && i32::MIN <= self.combined(rhs, minus) <= i32::MAX
    }

    /// The raw of the sum, or of the difference.
    pub open spec fn combined(self, rhs: Self, minus: bool) -> int {
        if minus {
            self.raw - self.onto(rhs)->0
        } else {
            self.raw + self.onto(rhs)->0
        }
    }

    fn combine(self, rhs: Self, minus: bool) -> (r: Self)
        requires
            self.combines(rhs, minus),
        ensures
            r == (pi32 { raw: self.combined(rhs, minus) as i32, prec: self.prec }),
    {
        let rhs: i64 = realign(rhs.raw as i64, rhs.prec, self.prec);
        let raw: i64 = if minus {
            self.raw as i64 - rhs
        } else {
            self.raw as i64 + rhs
        };
        pi32 { raw: raw as i32, prec: self.prec }
    }

    pub fn add_assign(&mut self, rhs: Self)
        requires
            old(self).combines(rhs, false),
        ensures
            final(self).raw == old(self).combined(rhs, false),
            final(self).prec == old(self).prec,
    {
        *self = self.combine(rhs, false);
    }

    pub fn sub_assign(&mut self, rhs: Self)
        requires
            old(self).combines(rhs, true),
        ensures
            final(self).raw == old(self).combined(rhs, true),
            final(self).prec == old(self).prec,
    {
        *self = self.combine(rhs, true);
    }

    fn sign_against(&self, other: &Self) -> (s: i8)
        ensures
            ({
                let to = finer(self.prec.0 as int, other.prec.0 as int);
                let a = self.worth(to);
                let b = other.worth(to);
                s == (if a < b {
                    -1int
                } else if a == b {
                    0
                } else {
                    1
                })
            }),
    {
        worth_sign(self.raw as i64, self.prec, other.raw as i64, other.prec)
    }
}

impl AddSpecImpl for pi32 {
    open spec fn obeys_add_spec() -> bool {
        true
    }

    open spec fn add_req(self, rhs: Self) -> bool {
        self.combines(rhs, false)
    }

    open spec fn add_spec(self, rhs: Self) -> Self {
        pi32 { raw: self.combined(rhs, false) as i32, prec: self.prec }
    }
}

impl core::ops::Add for pi32 {
    type Output = Self;

    fn add(self, rhs: Self) -> (r: Self) {
        self.combine(rhs, false)
    }
}

impl SubSpecImpl for pi32 {
    open spec fn obeys_sub_spec() -> bool {
        true
    }

    open spec fn sub_req(self, rhs: Self) -> bool {
        self.combines(rhs, true)
    }

    open spec fn sub_spec(self, rhs: Self) -> Self {
        pi32 { raw: self.combined(rhs, true) as i32, prec: self.prec }
    }
}

impl core::ops::Sub for pi32 {
    type Output = Self;

    fn sub(self, rhs: Self) -> (r: Self) {
        self.combine(rhs, true)
    }
}

impl PartialEqSpecImpl for pi32 {
    open spec fn obeys_eq_spec() -> bool {
        true
    }

    open spec fn eq_spec(&self, other: &Self) -> bool {
        self.worth(finer(self.prec.0 as int, other.prec.0 as int)) == other.worth(
            finer(self.prec.0 as int, other.prec.0 as int),
        )
    }
}

/// Over the *value*, not the `(raw, precision)` tuple: `1.00` and `1` are one number.
impl PartialEq for pi32 {
    fn eq(&self, other: &Self) -> (r: bool) {
        self.sign_against(other) == 0
    }
}

impl Eq for pi32 {

}

impl PartialOrdSpecImpl for pi32 {
    open spec fn obeys_partial_cmp_spec() -> bool {
        true
    }

    open spec fn partial_cmp_spec(&self, other: &Self) -> Option<Ordering> {
        Some(self.worth_order(other))
    }
}

impl pi32 {
    /// How two numbers compare by what they are worth.
    pub open spec fn worth_order(&self, other: &Self) -> Ordering {
        let to = self.finer_tick(other);
        order_of(self.worth(to), other.worth(to))
    }

    /// The finer of the two ticks.
    pub open spec fn finer_tick(&self, other: &Self) -> int {
        finer(self.prec.0 as int, other.prec.0 as int)
    }
}

impl PartialOrd for pi32 {
    fn partial_cmp(&self, other: &Self) -> (r: Option<Ordering>) {
        Some(ordering_of(self.sign_against(other)))
    }
}

/// The unsigned twin of [`pi32`]: a raw integer plus the tick it was scaled by. Arithmetic realigns
/// the right-hand side onto the left and keeps the left's precision; a realignment or range failure is
/// corrupt state.
#[allow(non_camel_case_types)]
#[derive(Clone, Copy, Debug)]
pub struct pu32 {
    pub raw: u32,
    pub prec: Precision,
}

impl Default for pu32 {
    fn default() -> (r: Self)
        ensures
            r == (pu32 { raw: 0, prec: Precision(0) }),
    {
        pu32 { raw: 0, prec: Precision(0) }
    }
}

impl pu32 {
    pub fn new(raw: u32, prec: Precision) -> (r: Self)
        ensures
            r == (pu32 { raw, prec }),
    {
        pu32 { raw, prec }
    }

    /// What it is worth, in ticks of `10^-to`.
    pub open spec fn worth(self, to: int) -> int {
        at(self.raw as int, self.prec.0 as int, to)
    }

    /// `rhs` counted in this one's ticks.
    pub open spec fn onto(self, rhs: Self) -> Option<int> {
        aligned(rhs.raw as int, rhs.prec.0 as int, self.prec.0 as int)
    }

    /// Whether `rhs` can be added, or taken away, without leaving the range.
    pub open spec fn combines(self, rhs: Self, minus: bool) -> bool {
        self.onto(rhs) is Some && u32::MIN <= self.combined(rhs, minus) <= u32::MAX
    }

    /// The raw of the sum, or of the difference.
    pub open spec fn combined(self, rhs: Self, minus: bool) -> int {
        if minus {
            self.raw - self.onto(rhs)->0
        } else {
            self.raw + self.onto(rhs)->0
        }
    }

    fn combine(self, rhs: Self, minus: bool) -> (r: Self)
        requires
            self.combines(rhs, minus),
        ensures
            r == (pu32 { raw: self.combined(rhs, minus) as u32, prec: self.prec }),
    {
        let rhs: i64 = realign(rhs.raw as i64, rhs.prec, self.prec);
        let raw: i64 = if minus {
            self.raw as i64 - rhs
        } else {
            self.raw as i64 + rhs
        };
        pu32 { raw: raw as u32, prec: self.prec }
    }

    pub fn add_assign(&mut self, rhs: Self)
        requires
            old(self).combines(rhs, false),
        ensures
            final(self).raw == old(self).combined(rhs, false),
            final(self).prec == old(self).prec,
    {
        *self = self.combine(rhs, false);
    }

    pub fn sub_assign(&mut self, rhs: Self)
        requires
            old(self).combines(rhs, true),
        ensures
            final(self).raw == old(self).combined(rhs, true),
            final(self).prec == old(self).prec,
    {
        *self = self.combine(rhs, true);
    }

    fn sign_against(&self, other: &Self) -> (s: i8)
        ensures
            ({
                let to = finer(self.prec.0 as int, other.prec.0 as int);
                let a = self.worth(to);
                let b = other.worth(to);
                s == (if a < b {
                    -1int
                } else if a == b {
                    0
                } else {
                    1
                })
            }),
    {
        worth_sign(self.raw as i64, self.prec, other.raw as i64, other.prec)
    }
}

impl AddSpecImpl for pu32 {
    open spec fn obeys_add_spec() -> bool {
        true
    }

    open spec fn add_req(self, rhs: Self) -> bool {
        self.combines(rhs, false)
    }

    open spec fn add_spec(self, rhs: Self) -> Self {
        pu32 { raw: self.combined(rhs, false) as u32, prec: self.prec }
    }
}

impl core::ops::Add for pu32 {
    type Output = Self;

    fn add(self, rhs: Self) -> (r: Self) {
        self.combine(rhs, false)
    }
}

impl SubSpecImpl for pu32 {
    open spec fn obeys_sub_spec() -> bool {
        true
    }

    open spec fn sub_req(self, rhs: Self) -> bool {
        self.combines(rhs, true)
    }

    open spec fn sub_spec(self, rhs: Self) -> Self {
        pu32 { raw: self.combined(rhs, true) as u32, prec: self.prec }
    }
}

impl core::ops::Sub for pu32 {
    type Output = Self;

    fn sub(self, rhs: Self) -> (r: Self) {
        self.combine(rhs, true)
    }
}

impl PartialEqSpecImpl for pu32 {
    open spec fn obeys_eq_spec() -> bool {
        true
    }

    open spec fn eq_spec(&self, other: &Self) -> bool {
        self.worth(finer(self.prec.0 as int, other.prec.0 as int)) == other.worth(
            finer(self.prec.0 as int, other.prec.0 as int),
        )
    }
}

/// Over the *value*, not the `(raw, precision)` tuple: `1.00` and `1` are one number.
impl PartialEq for pu32 {
    fn eq(&self, other: &Self) -> (r: bool) {
        self.sign_against(other) == 0
    }
}

impl Eq for pu32 {

}

impl PartialOrdSpecImpl for pu32 {
    open spec fn obeys_partial_cmp_spec() -> bool {
        true
    }

    open spec fn partial_cmp_spec(&self, other: &Self) -> Option<Ordering> {
        Some(self.worth_order(other))
    }
}

impl pu32 {
    /// How two numbers compare by what they are worth.
    pub open spec fn worth_order(&self, other: &Self) -> Ordering {
        let to = self.finer_tick(other);
        order_of(self.worth(to), other.worth(to))
    }

    /// The finer of the two ticks.
    pub open spec fn finer_tick(&self, other: &Self) -> int {
        finer(self.prec.0 as int, other.prec.0 as int)
    }
}

impl PartialOrd for pu32 {
    fn partial_cmp(&self, other: &Self) -> (r: Option<Ordering>) {
        Some(ordering_of(self.sign_against(other)))
    }
}

impl NegSpecImpl for pi32 {
    open spec fn obeys_neg_spec() -> bool {
        true
    }

    open spec fn neg_req(self) -> bool {
        self.raw != i32::MIN
    }

    open spec fn neg_spec(self) -> Self {
        pi32 { raw: (-self.raw) as i32, prec: self.prec }
    }
}

impl core::ops::Neg for pi32 {
    type Output = Self;

    fn neg(self) -> (r: Self) {
        pi32 { raw: -self.raw, prec: self.prec }
    }
}

/// Why a run of characters spells no integer of a width.
#[derive(Clone, Copy, Debug, Eq, PartialEq, Structural)]
pub enum Fault {
    Empty,
    InvalidDigit,
    PosOverflow,
    NegOverflow,
}

/// What a run of digits behind a sign comes to, in a range, or where reading it first fails.
pub open spec fn read_digits(s: Seq<char>, negative: bool, min: int, max: int) -> Result<
    int,
    Fault,
>
    decreases s.len(),
{
    if s.len() == 0 {
        Ok(0)
    } else {
        match read_digits(s.drop_last(), negative, min, max) {
            Err(e) => Err(e),
            Ok(n) => {
                let d = text::digit(s.last());
                if !text::is_digit(s.last()) {
                    Err(Fault::InvalidDigit)
                } else if negative {
                    if n * 10 - d < min {
                        Err(Fault::NegOverflow)
                    } else {
                        Ok(n * 10 - d)
                    }
                } else if n * 10 + d > max {
                    Err(Fault::PosOverflow)
                } else {
                    Ok(n * 10 + d)
                }
            },
        }
    }
}

/// The integer a text spells in a range: an optional sign, then digits. Only a range that reaches
/// below zero takes a minus.
pub open spec fn read_int(s: Seq<char>, min: int, max: int) -> Result<int, Fault> {
    if s.len() == 0 {
        Err(Fault::Empty)
    } else if s.len() == 1 && (s[0] == '+' || s[0] == '-') {
        Err(Fault::InvalidDigit)
    } else if s[0] == '+' {
        read_digits(s.drop_first(), false, min, max)
    } else if s[0] == '-' && min < 0 {
        read_digits(s.drop_first(), true, min, max)
    } else {
        read_digits(s, false, min, max)
    }
}

/// A prefix that fails settles the whole.
proof fn lemma_read_fails(s: Seq<char>, k: int, negative: bool, min: int, max: int)
    requires
        0 <= k <= s.len(),
        read_digits(s.take(k), negative, min, max) is Err,
    ensures
        read_digits(s, negative, min, max) == read_digits(s.take(k), negative, min, max),
    decreases s.len(),
{
    if k == s.len() {
        assert(s.take(k) =~= s);
    } else {
        assert(s.drop_last().take(k) =~= s.take(k));
        lemma_read_fails(s.drop_last(), k, negative, min, max);
    }
}

fn parse_digits(s: &[char], negative: bool, min: i64, max: i64) -> (r: Result<i64, Fault>)
    requires
        -0x1_0000_0000 <= min <= 0 <= max <= 0x1_0000_0000,
    ensures
        match read_digits(s@, negative, min as int, max as int) {
            Ok(n) => r == Ok::<i64, Fault>(n as i64) && min <= n <= max,
            Err(e) => r == Err::<i64, Fault>(e),
        },
{
    let mut n: i64 = 0;
    let mut i: usize = 0;
    assert(s@.take(0) =~= Seq::empty());
    while i < s.len()
        invariant
            i <= s@.len(),
            min <= n <= max,
            negative ==> n <= 0,
            !negative ==> n >= 0,
            -0x1_0000_0000 <= min <= 0 <= max <= 0x1_0000_0000,
            read_digits(s@.take(i as int), negative, min as int, max as int)
                == Ok::<int, Fault>(n as int),
        decreases s@.len() - i,
    {
        let c: char = s[i];
        proof {
            assert(s@.take(i + 1).drop_last() =~= s@.take(i as int));
            if read_digits(s@.take(i + 1), negative, min as int, max as int) is Err {
                lemma_read_fails(s@, i + 1, negative, min as int, max as int);
            }
        }
        if c < '0' || c > '9' {
            return Err(Fault::InvalidDigit);
        }
        let d: i64 = (c as u32 - '0' as u32) as i64;
        if negative {
            let m: i64 = n * 10 - d;
            if m < min {
                return Err(Fault::NegOverflow);
            }
            n = m;
        } else {
            let m: i64 = n * 10 + d;
            if m > max {
                return Err(Fault::PosOverflow);
            }
            n = m;
        }
        i += 1;
    }
    assert(s@.take(s@.len() as int) =~= s@);
    Ok(n)
}

fn parse_int(s: &[char], min: i64, max: i64) -> (r: Result<i64, Fault>)
    requires
        -0x1_0000_0000 <= min <= 0 <= max <= 0x1_0000_0000,
    ensures
        match read_int(s@, min as int, max as int) {
            Ok(n) => r == Ok::<i64, Fault>(n as i64) && min <= n <= max,
            Err(e) => r == Err::<i64, Fault>(e),
        },
{
    if s.len() == 0 {
        return Err(Fault::Empty);
    }
    if s.len() == 1 && (s[0] == '+' || s[0] == '-') {
        return Err(Fault::InvalidDigit);
    }
    if s[0] == '+' {
        let rest: &[char] = text::slice(s, 1, s.len());
        assert(rest@ =~= s@.drop_first());
        parse_digits(rest, false, min, max)
    } else if s[0] == '-' && min < 0 {
        let rest: &[char] = text::slice(s, 1, s.len());
        assert(rest@ =~= s@.drop_first());
        parse_digits(rest, true, min, max)
    } else {
        parse_digits(s, false, min, max)
    }
}

/// The precision a literal's own decimals state.
pub open spec fn dotted(s: Seq<char>) -> Precision {
    Precision(text::after(s, '.').len() as i8)
}

/// A literal without its point.
pub open spec fn undotted(s: Seq<char>) -> Seq<char> {
    text::before(s, '.') + text::after(s, '.')
}

pub fn split_decimal(s: &str) -> (r: (Precision, Vec<char>))
    ensures
        r.0 == dotted(s@),
        r.1@ == undotted(s@),
{
    let mut all: Vec<char> = text::chars_of(s);
    let point: usize = text::find(all.as_slice(), '.');
    if point < all.len() {
        let frac: usize = all.len() - point - 1;
        let c: char = all.remove(point);
        assert(all@ =~= undotted(s@));
        (Precision(#[verifier::truncate] (frac as i8)), all)
    } else {
        assert(all@ =~= undotted(s@));
        (Precision(0), all)
    }
}

/// Fixed-point price. Signed to support options and index ticks below zero.
#[derive(Clone, Copy, Debug)]
pub struct Price(pub pi32);

impl Default for Price {
    fn default() -> (r: Self)
        ensures
            r == Price(pi32 { raw: 0, prec: Precision(0) }),
    {
        Price(pi32 { raw: 0, prec: Precision(0) })
    }
}

impl Price {
    pub fn new(raw: i32, precision: Precision) -> (r: Self)
        ensures
            r == Price(pi32 { raw, prec: precision }),
    {
        Price(pi32::new(raw, precision))
    }

    /// Precision is inferred from the literal's own decimals; a venue-supplied precision goes
    /// through [`Precision::parse_i32`] instead.
    pub fn parse(s: &str) -> (r: Result<Self, Fault>)
        ensures
            match read_int(undotted(s@), i32::MIN as int, i32::MAX as int) {
                Ok(n) => r == Ok::<Self, Fault>(Price(pi32 { raw: n as i32, prec: dotted(s@) })),
                Err(e) => r == Err::<Self, Fault>(e),
            },
    {
        let (precision, digits) = split_decimal(s);
        match parse_int(digits.as_slice(), i32::MIN as i64, i32::MAX as i64) {
            Ok(n) => Ok(Self::new(n as i32, precision)),
            Err(e) => Err(e),
        }
    }
}

impl PartialEqSpecImpl for Price {
    open spec fn obeys_eq_spec() -> bool {
        true
    }

    open spec fn eq_spec(&self, other: &Self) -> bool {
        self.0.worth(self.0.finer_tick(&other.0)) == other.0.worth(self.0.finer_tick(&other.0))
    }
}

impl PartialEq for Price {
    fn eq(&self, other: &Self) -> (r: bool) {
        self.0 == other.0
    }
}

impl Eq for Price {

}

impl PartialOrdSpecImpl for Price {
    open spec fn obeys_partial_cmp_spec() -> bool {
        true
    }

    open spec fn partial_cmp_spec(&self, other: &Self) -> Option<Ordering> {
        Some(self.0.worth_order(&other.0))
    }
}

impl PartialOrd for Price {
    fn partial_cmp(&self, other: &Self) -> (r: Option<Ordering>) {
        Some(ordering_of(self.0.sign_against(&other.0)))
    }
}

impl core::str::FromStr for Price {
    type Err = Fault;

    fn from_str(s: &str) -> Result<Self, Fault> {
        Self::parse(s)
    }
}

/// Fixed-point quantity. Non-negative.
#[derive(Clone, Copy, Debug)]
pub struct Qty(pub pu32);

impl Default for Qty {
    fn default() -> (r: Self)
        ensures
            r == Qty(pu32 { raw: 0, prec: Precision(0) }),
    {
        Qty(pu32 { raw: 0, prec: Precision(0) })
    }
}

impl Qty {
    pub fn new(raw: u32, precision: Precision) -> (r: Self)
        ensures
            r == Qty(pu32 { raw, prec: precision }),
    {
        Qty(pu32::new(raw, precision))
    }

    /// Precision is inferred from the literal's own decimals; a venue-supplied precision goes
    /// through [`Precision::parse_u32`] instead.
    pub fn parse(s: &str) -> (r: Result<Self, Fault>)
        ensures
            match read_int(undotted(s@), u32::MIN as int, u32::MAX as int) {
                Ok(n) => r == Ok::<Self, Fault>(Qty(pu32 { raw: n as u32, prec: dotted(s@) })),
                Err(e) => r == Err::<Self, Fault>(e),
            },
    {
        let (precision, digits) = split_decimal(s);
        match parse_int(digits.as_slice(), u32::MIN as i64, u32::MAX as i64) {
            Ok(n) => Ok(Self::new(n as u32, precision)),
            Err(e) => Err(e),
        }
    }
}

impl PartialEqSpecImpl for Qty {
    open spec fn obeys_eq_spec() -> bool {
        true
    }

    open spec fn eq_spec(&self, other: &Self) -> bool {
        self.0.worth(self.0.finer_tick(&other.0)) == other.0.worth(self.0.finer_tick(&other.0))
    }
}

impl PartialEq for Qty {
    fn eq(&self, other: &Self) -> (r: bool) {
        self.0 == other.0
    }
}

impl Eq for Qty {

}

impl PartialOrdSpecImpl for Qty {
    open spec fn obeys_partial_cmp_spec() -> bool {
        true
    }

    open spec fn partial_cmp_spec(&self, other: &Self) -> Option<Ordering> {
        Some(self.0.worth_order(&other.0))
    }
}

impl PartialOrd for Qty {
    fn partial_cmp(&self, other: &Self) -> (r: Option<Ordering>) {
        Some(ordering_of(self.0.sign_against(&other.0)))
    }
}

impl core::str::FromStr for Qty {
    type Err = Fault;

    fn from_str(s: &str) -> Result<Self, Fault> {
        Self::parse(s)
    }
}

impl SubSpecImpl for Price {
    open spec fn obeys_sub_spec() -> bool {
        true
    }

    open spec fn sub_req(self, rhs: Self) -> bool {
        self.0.combines(rhs.0, true)
    }

    open spec fn sub_spec(self, rhs: Self) -> pi32 {
        pi32 { raw: self.0.combined(rhs.0, true) as i32, prec: self.0.prec }
    }
}

/// A price plus a price is not a price: only the difference of two is a value, and it is a
/// [`pi32`] delta, not a `Price`.
impl core::ops::Sub for Price {
    type Output = pi32;

    fn sub(self, rhs: Self) -> (r: pi32) {
        self.0.combine(rhs.0, true)
    }
}

impl AddSpecImpl for Qty {
    open spec fn obeys_add_spec() -> bool {
        true
    }

    open spec fn add_req(self, rhs: Self) -> bool {
        self.0.combines(rhs.0, false)
    }

    open spec fn add_spec(self, rhs: Self) -> Self {
        Qty(pu32 { raw: self.0.combined(rhs.0, false) as u32, prec: self.0.prec })
    }
}

impl core::ops::Add for Qty {
    type Output = Self;

    fn add(self, rhs: Self) -> (r: Self) {
        Qty(self.0.combine(rhs.0, false))
    }
}

impl SubSpecImpl for Qty {
    open spec fn obeys_sub_spec() -> bool {
        true
    }

    open spec fn sub_req(self, rhs: Self) -> bool {
        self.0.combines(rhs.0, true)
    }

    open spec fn sub_spec(self, rhs: Self) -> Self {
        Qty(pu32 { raw: self.0.combined(rhs.0, true) as u32, prec: self.0.prec })
    }
}

impl core::ops::Sub for Qty {
    type Output = Self;

    fn sub(self, rhs: Self) -> (r: Self) {
        Qty(self.0.combine(rhs.0, true))
    }
}

impl Qty {
    pub fn add_assign(&mut self, rhs: Self)
        requires
            old(self).0.combines(rhs.0, false),
        ensures
            final(self).0.raw == old(self).0.combined(rhs.0, false),
            final(self).0.prec == old(self).0.prec,
    {
        self.0 = self.0.combine(rhs.0, false);
    }

    pub fn sub_assign(&mut self, rhs: Self)
        requires
            old(self).0.combines(rhs.0, true),
        ensures
            final(self).0.raw == old(self).0.combined(rhs.0, true),
            final(self).0.prec == old(self).0.prec,
    {
        self.0 = self.0.combine(rhs.0, true);
    }
}

/// Counting in finer ticks keeps what a number is worth: worths compare the same at any tick at
/// least as fine as both.
pub proof fn worth_is_one_number(a: int, ap: int, b: int, bp: int, to: int)
    requires
        finer(ap, bp) <= to,
    ensures
        at(a, ap, to) < at(b, bp, to) <==> at(a, ap, finer(ap, bp)) < at(b, bp, finer(ap, bp)),
        at(a, ap, to) == at(b, bp, to) <==> at(a, ap, finer(ap, bp)) == at(b, bp, finer(ap, bp)),
{
    let m = finer(ap, bp);
    lemma_refine(a, ap, m, to);
    lemma_refine(b, bp, m, to);
    let x = at(a, ap, m);
    let y = at(b, bp, m);
    let k = ten(to - m);
    vstd::arithmetic::power::lemma_pow_positive(10, (to - m) as nat);
    assert(x < y <==> x * k < y * k) by (nonlinear_arith)
        requires
            k > 0,
    ;
    assert(x == y <==> x * k == y * k) by (nonlinear_arith)
        requires
            k > 0,
    ;
}

/// Counting twice in finer ticks is counting once.
proof fn lemma_refine(raw: int, prec: int, mid: int, to: int)
    requires
        prec <= mid <= to,
    ensures
        at(raw, prec, to) == at(raw, prec, mid) * ten(to - mid),
{
    vstd::arithmetic::power::lemma_pow_adds(10, (mid - prec) as nat, (to - mid) as nat);
    let p = ten(mid - prec);
    let q = ten(to - mid);
    assert(raw * (p * q) == raw * p * q) by (nonlinear_arith);
}

/// Comparison by worth is transitive, whatever the ticks: three numbers are on one scale.
pub proof fn worth_orders_totally(a: pi32, b: pi32, c: pi32)
    requires
        a.worth(a.finer_tick(&b)) <= b.worth(a.finer_tick(&b)),
        b.worth(b.finer_tick(&c)) <= c.worth(b.finer_tick(&c)),
    ensures
        a.worth(a.finer_tick(&c)) <= c.worth(a.finer_tick(&c)),
{
    let to = finer(a.finer_tick(&b), c.prec.0 as int);
    worth_is_one_number(a.raw as int, a.prec.0 as int, b.raw as int, b.prec.0 as int, to);
    worth_is_one_number(b.raw as int, b.prec.0 as int, c.raw as int, c.prec.0 as int, to);
    worth_is_one_number(a.raw as int, a.prec.0 as int, c.raw as int, c.prec.0 as int, to);
}

/// Realigning keeps what a raw is worth.
pub proof fn realigned_is_worth_the_same(raw: int, from: int, onto: int, to: int)
    requires
        aligned(raw, from, onto) is Some,
        finer(from, onto) <= to,
    ensures
        at(aligned(raw, from, onto)->0, onto, to) == at(raw, from, to),
{
    let n = aligned(raw, from, onto)->0;
    if onto >= from {
        lemma_refine(raw, from, onto, to);
    } else {
        let p = ten(from - onto);
        vstd::arithmetic::power::lemma_pow_positive(10, (from - onto) as nat);
        vstd::arithmetic::div_mod::lemma_fundamental_div_mod(raw, p);
        assert(shifted(raw, onto - from) == Some(raw / p));
        assert(raw == n * p) by (nonlinear_arith)
            requires
                raw == p * (raw / p) + raw % p,
                raw % p == 0,
                n == raw / p,
        ;
        lemma_refine(n, onto, from, to);
    }
}

/// A sum or a difference is exact and lands on the left-hand side's precision.
pub proof fn combining_is_exact(a: pi32, b: pi32, minus: bool, to: int)
    requires
        a.combines(b, minus),
        a.finer_tick(&b) <= to,
    ensures
        ({
            let r = pi32 { raw: a.combined(b, minus) as i32, prec: a.prec };
            &&& r.prec == a.prec
            &&& r.worth(to) == if minus {
                a.worth(to) - b.worth(to)
            } else {
                a.worth(to) + b.worth(to)
            }
        }),
{
    realigned_is_worth_the_same(b.raw as int, b.prec.0 as int, a.prec.0 as int, to);
    let n = a.onto(b)->0;
    let k = ten(to - a.prec.0);
    assert((a.raw + n) * k == a.raw * k + n * k) by (nonlinear_arith);
    assert((a.raw - n) * k == a.raw * k - n * k) by (nonlinear_arith);
}

/// The unsigned twin of [`combining_is_exact`].
pub proof fn quantities_combine_exactly(a: pu32, b: pu32, minus: bool, to: int)
    requires
        a.combines(b, minus),
        a.finer_tick(&b) <= to,
    ensures
        ({
            let r = pu32 { raw: a.combined(b, minus) as u32, prec: a.prec };
            &&& r.prec == a.prec
            &&& r.worth(to) == if minus {
                a.worth(to) - b.worth(to)
            } else {
                a.worth(to) + b.worth(to)
            }
        }),
{
    realigned_is_worth_the_same(b.raw as int, b.prec.0 as int, a.prec.0 as int, to);
    let n = a.onto(b)->0;
    let k = ten(to - a.prec.0);
    assert((a.raw + n) * k == a.raw * k + n * k) by (nonlinear_arith);
    assert((a.raw - n) * k == a.raw * k - n * k) by (nonlinear_arith);
}

} // verus!
