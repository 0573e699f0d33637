//! A day of trades as the venue archives it: one comma-separated row a trade.

use vstd::prelude::*;
use vstd::utf8::encode_utf8;

use crate::manifest::str_eq;
use crate::precision::{lemma_ten, ten};
use crate::precision::{pow10, MAX_GAP};
use crate::text;
use crate::text::{after, all_digits, before, index_of, number};

verus! {

/// Why a row is refused.
#[derive(Clone, Copy, Debug, Eq, PartialEq, Structural)]
pub enum RowError {
    /// A column is missing.
    Malformed,
    /// The row is another symbol's.
    ForeignSymbol,
    /// Neither a buy nor a sell.
    BadSide,
    /// More decimals than the precision holds.
    TooFine,
    /// Not a decimal.
    BadDecimal,
    /// A decimal past what the count of ticks can be told in.
    Overflow,
    /// The trade happened before the one before it.
    OutOfOrder,
    PriceOverflow,
    QtyOverflow,
}

/// What a row says of a trade, beside when it happened.
#[derive(Clone, Copy, Debug, Eq, PartialEq, Structural)]
pub struct Row {
    /// Zero a buy, one a sell.
    pub side: u8,
    pub qty_raw: i64,
    pub price_raw: i64,
}

/// A trade as a lane stores it.
#[derive(Clone, Copy, Debug, Eq, PartialEq, Structural)]
pub struct Trade {
    pub ts_event: i64,
    pub ts_init: i64,
    pub monotonic_seq: u64,
    pub trade_id: u64,
    pub side: u8,
    pub price_raw: i32,
    pub qty_raw: u32,
}

/// A day, in nanoseconds.
pub const DAY: i64 = 86_400_000_000_000;

/// The first instant of a day and the first one past it, from the first.
pub fn day_bounds(start: i64) -> (r: (i64, i64))
    requires
        start + DAY <= i64::MAX,
    ensures
        r.0 == start,
        r.1 == start + DAY,
{
    (start, start + DAY)
}

/// The columns a row leads with.
pub open spec fn heading() -> Seq<char> {
    "timestamp,symbol,side,size,price"@
}

/// Whether an archive's first line names the columns its rows lead with.
pub fn header_fits(header: &str) -> (r: bool)
    ensures
        r == (heading().len() <= header@.len() && header@.take(heading().len() as int) == heading()),
{
    let want: Vec<char> = text::chars_of("timestamp,symbol,side,size,price");
    let got: Vec<char> = text::chars_of(header);
    if got.len() < want.len() {
        return false;
    }
    let mut i: usize = 0;
    while i < want.len()
        invariant
            i <= want@.len() <= got@.len(),
            want@ == heading(),
            got@ == header@,
            forall|j: int| 0 <= j < i ==> #[trigger] want@[j] == got@[j],
        decreases want@.len() - i,
    {
        if want[i] != got[i] {
            assert(header@.take(heading().len() as int)[i as int] != heading()[i as int]);
            return false;
        }
        i += 1;
    }
    assert(header@.take(heading().len() as int) =~= heading());
    true
}

/// Column `k` of a row, where it reaches so far.
pub open spec fn column(line: Seq<char>, k: nat) -> Option<Seq<char>>
    decreases k,
{
    if k == 0 {
        Some(before(line, ','))
    } else if index_of(line, ',') < line.len() {
        column(after(line, ','), (k - 1) as nat)
    } else {
        None
    }
}

fn column_of(line: &[char], k: usize) -> (r: Option<&[char]>)
    ensures
        match r {
            Some(c) => column(line@, k as nat) == Some(c@),
            None => column(line@, k as nat) is None,
        },
    decreases k,
{
    let i: usize = text::find(line, ',');
    if k == 0 {
        Some(text::slice(line, 0, i))
    } else if i < line.len() {
        column_of(text::slice(line, i + 1, line.len()), k - 1)
    } else {
        None
    }
}

/// The text of when a row's trade happened: its first column.
pub fn happened(line: &str) -> (r: String)
    ensures
        column(line@, 0) == Some(r@),
{
    let cs: Vec<char> = text::chars_of(line);
    let i: usize = text::find(cs.as_slice(), ',');
    text::string_of(text::slice(cs.as_slice(), 0, i))
}

/// The whole number a text spells: digits, a sign before them or none, within a machine integer.
pub open spec fn whole_number(s: Seq<char>) -> Option<int> {
    let signed = s.len() > 0 && (s[0] == '-' || s[0] == '+');
    let digits = if signed {
        s.drop_first()
    } else {
        s
    };
    let n = if signed && s[0] == '-' {
        -number(digits)
    } else {
        number(digits)
    };
    if digits.len() > 0 && all_digits(digits) && i64::MIN <= n <= i64::MAX {
        Some(n)
    } else {
        None
    }
}

/// Digits before others spell no more than all of them.
proof fn lemma_number_grows(s: Seq<char>, i: int)
    requires
        all_digits(s),
        0 <= i <= s.len(),
    ensures
        0 <= number(s.take(i)) <= number(s),
    decreases s.len(),
{
    if i == s.len() {
        assert(s.take(i) =~= s);
        text::lemma_number_bounds(s);
    } else {
        lemma_number_grows(s.drop_last(), i);
        assert(s.drop_last().take(i) =~= s.take(i));
        text::lemma_number_bounds(s.drop_last());
        assert(text::is_digit(s[s.len() - 1]));
    }
}

fn parse_whole(s: &[char]) -> (r: Option<i64>)
    ensures
        match r {
            Some(n) => whole_number(s@) == Some(n as int),
            None => whole_number(s@) is None,
        },
{
    let n: usize = s.len();
    let signed: bool = n > 0 && (s[0] == '-' || s[0] == '+');
    let negative: bool = n > 0 && s[0] == '-';
    let digits: &[char] = if signed { text::slice(s, 1, n) } else { s };
    proof {
        if signed {
            assert(digits@ =~= s@.drop_first());
        }
    }
    if digits.len() == 0 {
        return None;
    }
    let mut acc: i128 = 0;
    let mut i: usize = 0;
    assert(digits@.take(0) =~= Seq::empty());
    while i < digits.len()
        invariant
            i <= digits@.len(),
            0 < digits@.len(),
            signed == (s@.len() > 0 && (s@[0] == '-' || s@[0] == '+')),
            digits@ == if signed {
                s@.drop_first()
            } else {
                s@
            },
            all_digits(digits@.take(i as int)),
            acc == number(digits@.take(i as int)),
            0 <= acc <= i64::MAX + 1,
        decreases digits@.len() - i,
    {
        let c: char = digits[i];
        assert(digits@.take(i + 1).drop_last() =~= digits@.take(i as int));
        if c < '0' || c > '9' {
            assert(!text::is_digit(digits@[i as int]));
            return None;
        }
        let d: i128 = (c as u32 - '0' as u32) as i128;
        acc = acc * 10 + d;
        assert forall|j: int| 0 <= j < i + 1 implies text::is_digit(
            #[trigger] digits@.take(i + 1)[j],
        ) by {
            if j < i {
                assert(digits@.take(i as int)[j] == digits@.take(i + 1)[j]);
            }
        }
        if acc > i64::MAX as i128 + 1 {
            proof {
                if all_digits(digits@) {
                    lemma_number_grows(digits@, i + 1);
                }
            }
            return None;
        }
        i += 1;
    }
    assert(digits@.take(i as int) =~= digits@);
    if negative {
        Some((-acc) as i64)
    } else if acc <= i64::MAX as i128 {
        Some(acc as i64)
    } else {
        None
    }
}

/// Whether a number is within a machine integer.
pub open spec fn fits(n: int) -> bool {
    i64::MIN <= n <= i64::MAX
}

/// Whether a text leads with a minus.
pub open spec fn negative(s: Seq<char>) -> bool {
    s.len() > 0 && s[0] == '-'
}

/// A fraction as digits: a plus that leads it holds a place and says nothing.
pub open spec fn placed(s: Seq<char>) -> Seq<char> {
    if s.len() > 1 && s[0] == '+' {
        seq!['0'] + s.drop_first()
    } else {
        s
    }
}

/// The ticks of `10^-prec` a decimal counts: a whole number, its sign or none before it, and digits
/// after the point, which stand on the whole's side of zero. No rounding: what the ticks cannot tell
/// is refused.
pub open spec fn ticks(s: Seq<char>, prec: int) -> Result<i64, RowError> {
    let (whole, spelled) = (before(s, '.'), after(s, '.'));
    let fraction = placed(spelled);
    let width = encode_utf8(spelled).len();
    if width > prec {
        Err(RowError::TooFine)
    } else if whole_number(whole) is None || !all_digits(fraction) {
        Err(RowError::BadDecimal)
    } else {
        let (high, low) = (whole_number(whole)->Some_0 * ten(prec), number(fraction) * ten(prec - width));
        let n = if negative(whole) {
            high - low
        } else {
            high + low
        };
        if fits(n) {
            Ok(n as i64)
        } else {
            Err(RowError::Overflow)
        }
    }
}

/// A fraction no wider than a precision counts fewer ticks than a whole.
proof fn lemma_fraction(spelled: Seq<char>, fraction: Seq<char>, prec: int)
    requires
        fraction == placed(spelled),
        all_digits(fraction),
        encode_utf8(spelled).len() <= prec <= MAX_GAP,
    ensures
        encode_utf8(spelled).len() == fraction.len() == spelled.len(),
        0 <= number(fraction) < ten(fraction.len() as int),
        ten(prec) == ten(fraction.len() as int) * ten(prec - fraction.len()),
        0 <= number(fraction) * ten(prec - fraction.len()) < ten(prec),
{
    assert forall|i: int| 0 <= i < spelled.len() implies '\0' <= #[trigger] spelled[i] <= '\u{7f}' by {
        assert(text::is_digit(fraction[i]));
    }
    assert(vstd::utf8::is_ascii_chars(spelled));
    vstd::utf8::is_ascii_chars_encode_utf8(spelled);
    text::lemma_number_bounds(fraction);
    let (a, b) = (fraction.len(), (prec - fraction.len()) as nat);
    vstd::arithmetic::power::lemma_pow_adds(10, a, b);
    vstd::arithmetic::power::lemma_pow_positive(10, b);
    let (n, p, q) = (number(fraction), ten(a as int), ten(b as int));
    assert(0 <= n * q < p * q) by (nonlinear_arith)
        requires
            0 <= n < p,
            q > 0,
    ;
}

/// A fraction with no minus before it reads as the digits it places.
proof fn lemma_placed(s: Seq<char>)
    requires
        s.len() > 0,
        s[0] != '-',
    ensures
        whole_number(s) == if all_digits(placed(s)) && fits(number(placed(s))) {
            Some(number(placed(s)))
        } else {
            None
        },
{
    if s[0] == '+' {
        let digits = s.drop_first();
        if s.len() > 1 {
            assert(all_digits(placed(s)) == all_digits(digits)) by {
                if all_digits(placed(s)) {
                    assert forall|i: int| 0 <= i < digits.len() implies text::is_digit(
                        #[trigger] digits[i],
                    ) by {
                        assert(placed(s)[i + 1] == digits[i]);
                    }
                }
            }
            if all_digits(digits) {
                lemma_number_joins(seq!['0'], digits);
                assert(seq!['0'].drop_last() =~= Seq::empty());
                assert(number(seq!['0']) == 0) by {
                    reveal_with_fuel(number, 2);
                }
            }
        } else {
            assert(!text::is_digit(placed(s)[0]));
        }
    }
}

/// Exact scaled-integer parse: no float round-trip, so precision violations are refused instead of
/// silently truncating.
pub fn decimal_raw(s: &str, prec: u8) -> (r: Result<i64, RowError>)
    requires
        prec <= MAX_GAP,
    ensures
        r == ticks(s@, prec as int),
{
    let cs: Vec<char> = text::chars_of(s);
    let i: usize = text::find(cs.as_slice(), '.');
    let n: usize = cs.len();
    let whole: &[char] = text::slice(cs.as_slice(), 0, i);
    let fraction: &[char] = if i < n {
        text::slice(cs.as_slice(), i + 1, n)
    } else {
        text::slice(cs.as_slice(), n, n)
    };
    assert(fraction@ =~= after(s@, '.'));
    let spelled: String = text::string_of(fraction);
    let width: usize = spelled.as_str().as_bytes().len();
    if width > prec as usize {
        return Err(RowError::TooFine);
    }
    let w: i64 = match parse_whole(whole) {
        Some(w) => w,
        None => return Err(RowError::BadDecimal),
    };
    let p: i64 = if fraction.len() == 0 {
        0
    } else if fraction[0] == '-' {
        assert(!text::is_digit(placed(fraction@)[0]));
        return Err(RowError::BadDecimal);
    } else {
        proof {
            lemma_placed(fraction@);
            if all_digits(placed(fraction@)) {
                lemma_fraction(fraction@, placed(fraction@), prec as int);
                lemma_ten();
            }
        }
        match parse_whole(fraction) {
            Some(p) => p,
            None => return Err(RowError::BadDecimal),
        }
    };
    proof {
        lemma_fraction(fraction@, placed(fraction@), prec as int);
        lemma_ten();
    }
    let low: i64 = match p.checked_mul(pow10(prec as u32 - width as u32)) {
        Some(low) => low,
        None => return Err(RowError::Overflow),
    };
    let high: i64 = match w.checked_mul(pow10(prec as u32)) {
        Some(high) => high,
        None => {
            proof {
                lemma_whole_side(whole@, ten(prec as int));
            }
            return Err(RowError::Overflow);
        },
    };
    let n: Option<i64> = if whole[0] == '-' {
        high.checked_sub(low)
    } else {
        high.checked_add(low)
    };
    match n {
        Some(n) => Ok(n),
        None => Err(RowError::Overflow),
    }
}

/// A whole number stands on the side of zero its sign says, and so do its ticks.
proof fn lemma_whole_side(whole: Seq<char>, scale: int)
    requires
        whole_number(whole) is Some,
        scale > 0,
    ensures
        negative(whole) ==> whole_number(whole)->Some_0 * scale <= 0,
        !negative(whole) ==> whole_number(whole)->Some_0 * scale >= 0,
{
    let signed = whole.len() > 0 && (whole[0] == '-' || whole[0] == '+');
    text::lemma_number_bounds(if signed {
        whole.drop_first()
    } else {
        whole
    });
    let w = whole_number(whole)->Some_0;
    assert(w <= 0 ==> w * scale <= 0) by (nonlinear_arith)
        requires
            scale > 0,
    ;
    assert(w >= 0 ==> w * scale >= 0) by (nonlinear_arith)
        requires
            scale > 0,
    ;
}

/// Which side a row's third column names.
pub open spec fn side_of(s: Seq<char>) -> Option<u8> {
    if s == "Buy"@ {
        Some(0)
    } else if s == "Sell"@ {
        Some(1)
    } else {
        None
    }
}

/// What a row reads as. Columns are looked at from left to right, and the first thing wrong with one
/// is what the row is refused for.
pub open spec fn row(line: Seq<char>, symbol: Seq<char>, price_prec: int, qty_prec: int) -> Result<
    Row,
    RowError,
> {
    match column(line, 1) {
        None => Err(RowError::Malformed),
        Some(of) if of != symbol => Err(RowError::ForeignSymbol),
        Some(_) => match column(line, 2) {
            None => Err(RowError::Malformed),
            Some(s) => match side_of(s) {
                None => Err(RowError::BadSide),
                Some(side) => match column(line, 3) {
                    None => Err(RowError::Malformed),
                    Some(q) => match ticks(q, qty_prec) {
                        Err(e) => Err(e),
                        Ok(qty_raw) => match column(line, 4) {
                            None => Err(RowError::Malformed),
                            Some(p) => match ticks(p, price_prec) {
                                Err(e) => Err(e),
                                Ok(price_raw) => Ok(Row { side, qty_raw, price_raw }),
                            },
                        },
                    },
                },
            },
        },
    }
}

pub fn parse_row(line: &str, symbol: &str, price_prec: u8, qty_prec: u8) -> (r: Result<Row, RowError>)
    requires
        price_prec <= MAX_GAP,
        qty_prec <= MAX_GAP,
    ensures
        r == row(line@, symbol@, price_prec as int, qty_prec as int),
{
    let cs: Vec<char> = text::chars_of(line);
    let line: &[char] = cs.as_slice();
    let of: String = match column_of(line, 1) {
        Some(c) => text::string_of(c),
        None => return Err(RowError::Malformed),
    };
    if !str_eq(of.as_str(), symbol) {
        return Err(RowError::ForeignSymbol);
    }
    let side: String = match column_of(line, 2) {
        Some(c) => text::string_of(c),
        None => return Err(RowError::Malformed),
    };
    let side: u8 = if str_eq(side.as_str(), "Buy") {
        0
    } else if str_eq(side.as_str(), "Sell") {
        1
    } else {
        return Err(RowError::BadSide);
    };
    let qty: String = match column_of(line, 3) {
        Some(c) => text::string_of(c),
        None => return Err(RowError::Malformed),
    };
    let qty_raw: i64 = match decimal_raw(qty.as_str(), qty_prec) {
        Ok(q) => q,
        Err(e) => return Err(e),
    };
    let price: String = match column_of(line, 4) {
        Some(c) => text::string_of(c),
        None => return Err(RowError::Malformed),
    };
    let price_raw: i64 = match decimal_raw(price.as_str(), price_prec) {
        Ok(p) => p,
        Err(e) => return Err(e),
    };
    Ok(Row { side, qty_raw, price_raw })
}

/// Where an ingest stands: how many trades it took, and when the last of them happened.
#[derive(Clone, Copy, Debug, Eq, PartialEq, Structural)]
pub struct Ingest {
    pub taken: u64,
    pub prev_ts: i64,
}

/// What a row that happened at `ts` becomes as the next trade.
pub open spec fn next_trade(at: Ingest, ts: i64, row: Row) -> Result<Trade, RowError> {
    if ts < at.prev_ts {
        Err(RowError::OutOfOrder)
    } else if !(i32::MIN <= row.price_raw <= i32::MAX) {
        Err(RowError::PriceOverflow)
    } else if !(0 <= row.qty_raw <= u32::MAX) {
        Err(RowError::QtyOverflow)
    } else {
        Ok(
            Trade {
                ts_event: ts,
                ts_init: ts,
                monotonic_seq: at.taken,
                trade_id: at.taken,
                side: row.side,
                price_raw: row.price_raw as i32,
                qty_raw: row.qty_raw as u32,
            },
        )
    }
}

impl Ingest {
    pub fn new() -> (r: Self)
        ensures
            r.taken == 0,
            r.prev_ts == i64::MIN,
    {
        Ingest { taken: 0, prev_ts: i64::MIN }
    }

    /// Takes the next row. Trades come in order: one that happened before the last is refused, and a
    /// refused row leaves the ingest where it stood.
    pub fn take(&mut self, ts: i64, row: Row) -> (r: Result<Trade, RowError>)
        requires
            old(self).taken < u64::MAX,
        ensures
            r == next_trade(*old(self), ts, row),
            r is Ok ==> final(self).taken == old(self).taken + 1 && final(self).prev_ts == ts,
            r is Err ==> *final(self) == *old(self),
    {
        if ts < self.prev_ts {
            return Err(RowError::OutOfOrder);
        }
        if row.price_raw < i32::MIN as i64 || row.price_raw > i32::MAX as i64 {
            return Err(RowError::PriceOverflow);
        }
        if row.qty_raw < 0 || row.qty_raw > u32::MAX as i64 {
            return Err(RowError::QtyOverflow);
        }
        let seq: u64 = self.taken;
        self.taken = seq + 1;
        self.prev_ts = ts;
        Ok(
            Trade {
                ts_event: ts,
                ts_init: ts,
                monotonic_seq: seq,
                trade_id: seq,
                side: row.side,
                price_raw: row.price_raw as i32,
                qty_raw: row.qty_raw as u32,
            },
        )
    }
}

/// The digits of a text, without the sign they may follow.
pub open spec fn unsigned(s: Seq<char>) -> Seq<char> {
    if s.len() > 0 && (s[0] == '-' || s[0] == '+') {
        s.drop_first()
    } else {
        s
    }
}

/// The number spelled by one run of digits and then another.
pub(crate) proof fn lemma_number_joins(a: Seq<char>, b: Seq<char>)
    ensures
        number(a + b) == number(a) * ten(b.len() as int) + number(b),
    decreases b.len(),
{
    reveal(vstd::arithmetic::power::pow);
    if b.len() == 0 {
        assert(a + b =~= a);
        assert(ten(0) == 1);
        assert(number(a) * 1 == number(a)) by (nonlinear_arith);
    } else {
        lemma_number_joins(a, b.drop_last());
        assert((a + b).drop_last() =~= a + b.drop_last());
        assert((a + b).last() == b.last());
        let (n, t) = (number(a), ten(b.len() - 1));
        assert(ten(b.len() as int) == 10 * t);
        assert(n * ten(b.len() as int) == (n * t) * 10) by (nonlinear_arith)
            requires
                ten(b.len() as int) == 10 * t,
        ;
    }
}

/// No fraction is lost: a decimal that reads is worth exactly its ticks. All of its digits, the
/// point left out, spell one number, and the ticks are that number scaled from the decimals it has
/// to those of the precision, on the side of zero that its sign says.
pub proof fn a_decimal_that_reads_is_exact(s: Seq<char>, prec: int)
    requires
        0 <= prec <= MAX_GAP,
        ticks(s, prec) is Ok,
    ensures
        ({
            let (whole, fraction) = (before(s, '.'), placed(after(s, '.')));
            let size = number(unsigned(whole) + fraction) * ten(prec - fraction.len());
            &&& fraction.len() <= prec
            &&& ticks(s, prec)->Ok_0 == if negative(whole) {
                -size
            } else {
                size
            }
        }),
{
    let (whole, fraction) = (before(s, '.'), placed(after(s, '.')));
    lemma_fraction(after(s, '.'), fraction, prec);
    lemma_number_joins(unsigned(whole), fraction);
    let (w, f, p, q) = (
        number(unsigned(whole)),
        number(fraction),
        ten(fraction.len() as int),
        ten(prec - fraction.len()),
    );
    assert((w * p + f) * q == w * (p * q) + f * q) by (nonlinear_arith);
    assert((-w) * (p * q) == -(w * (p * q))) by (nonlinear_arith);
}

/// Trades taken one after another never run backwards, and are numbered without a gap.
pub proof fn trades_taken_are_in_order(at: Ingest, a: Trade, b: Trade, ts: i64, row: Row)
    requires
        at.prev_ts == a.ts_event,
        at.taken == a.monotonic_seq + 1,
        next_trade(at, ts, row) == Ok::<Trade, RowError>(b),
    ensures
        a.ts_event <= b.ts_event,
        b.monotonic_seq == a.monotonic_seq + 1,
{
}

} // verus!
