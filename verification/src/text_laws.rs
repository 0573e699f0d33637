//! What is read back of what was written, and what stands where in a line.

use vstd::prelude::*;
use vstd::utf8::encode_utf8;

use crate::decimal::{decimal_text, magnitude, padded};
use crate::feed::{
    column, lemma_number_joins, next_trade, placed, row, ticks, whole_number, Ingest, Row,
    RowError, Trade, DAY,
};
use crate::horizon::{Timeframe, TimeframeDesignator};
use crate::money::{dotted, read_digits, read_int, undotted, Fault};
use crate::precision::{aligned, decimals, raw_of, significant, ten, unsigned, Precision};
use crate::tag::{lemma_one_unit, listed, timeframe_text};
use crate::text;
use crate::text::{
    after, all_digits, before, decimal, decimal_spells_the_number, is_digit, joined,
    lemma_index_of, lemma_number_bounds, number, trim_end,
};
use crate::usd::{amount_text, ended, led, trimmed, whitespace};

verus! {

/// A number below a power of ten is spelled in no more digits than the power has zeros.
proof fn lemma_digits(n: nat, k: nat)
    requires
        k >= 1,
        n < ten(k as int),
    ensures
        decimal(n).len() <= k,
    decreases n,
{
    reveal(vstd::arithmetic::power::pow);
    if n >= 10 {
        if k == 1 {
            assert(ten(1) == 10 * ten(0));
            assert(ten(0) == 1);
        }
        assert(ten(k as int) == 10 * ten(k - 1));
        lemma_digits(n / 10, (k - 1) as nat);
    }
}

/// Zeros before a number leave it what it is.
proof fn lemma_padded(digits: Seq<char>, width: int)
    requires
        all_digits(digits),
        digits.len() <= width,
    ensures
        padded(digits, width).len() == width,
        all_digits(padded(digits, width)),
        number(padded(digits, width)) == number(digits),
    decreases width - digits.len(),
{
    if digits.len() < width {
        let zero = seq!['0'];
        let more = zero + digits;
        assert forall|i: int| 0 <= i < more.len() implies is_digit(#[trigger] more[i]) by {
            if i > 0 {
                assert(more[i] == digits[i - 1]);
            }
        }
        lemma_number_joins(zero, digits);
        assert(number(zero) == 0) by {
            reveal_with_fuel(number, 2);
            assert(zero.drop_last() =~= Seq::empty());
        }
        assert(0 * ten(digits.len() as int) == 0);
        lemma_padded(more, width);
    }
}

/// A run of zeros is nothing.
proof fn lemma_zeros(s: Seq<char>)
    requires
        forall|i: int| 0 <= i < s.len() ==> s[i] == '0',
    ensures
        number(s) == 0,
    decreases s.len(),
{
    if s.len() > 0 {
        lemma_zeros(s.drop_last());
        assert(s.last() == '0');
    }
}

proof fn lemma_joined_digits(a: Seq<char>, b: Seq<char>)
    requires
        all_digits(a),
        all_digits(b),
    ensures
        all_digits(a + b),
{
    let s = a + b;
    assert forall|i: int| 0 <= i < s.len() implies is_digit(#[trigger] s[i]) by {
        if i < a.len() {
            assert(s[i] == a[i]);
        } else {
            assert(s[i] == b[i - a.len()]);
        }
    }
}

/// The whole and the fraction of a written decimal: digits, the fraction as many as the precision, and
/// together the number of ticks.
proof fn lemma_written(n: int, prec: int)
    requires
        0 <= n,
        0 < prec,
    ensures
        ({
            let whole = decimal((n / ten(prec)) as nat);
            let fraction = padded(decimal((n % ten(prec)) as nat), prec);
            &&& all_digits(whole) && whole.len() >= 1
            &&& all_digits(fraction) && fraction.len() == prec
            &&& number(whole) == n / ten(prec)
            &&& number(fraction) == n % ten(prec)
            &&& number(whole) * ten(prec) + number(fraction) == n
            &&& number(whole + fraction) == n
            &&& all_digits(whole + fraction)
            &&& 0 <= n / ten(prec) <= n
            &&& 0 <= n % ten(prec) < ten(prec)
        }),
{
    vstd::arithmetic::power::lemma_pow_positive(10, prec as nat);
    let p = ten(prec);
    vstd::arithmetic::div_mod::lemma_fundamental_div_mod(n, p);
    vstd::arithmetic::div_mod::lemma_mod_bound(n, p);
    assert(0 <= n / p <= n) by (nonlinear_arith)
        requires
            0 <= n,
            0 < p,
    ;
    let (w, f) = ((n / p) as nat, (n % p) as nat);
    decimal_spells_the_number(w);
    decimal_spells_the_number(f);
    lemma_digits(f, prec as nat);
    lemma_padded(decimal(f), prec);
    lemma_number_joins(decimal(w), padded(decimal(f), prec));
    lemma_joined_digits(decimal(w), padded(decimal(f), prec));
    assert((n / p) * p == p * (n / p)) by (nonlinear_arith);
}

/// Digits read as the number they spell, on the side of zero they are read on, where there is room.
proof fn lemma_read(s: Seq<char>, negative: bool, min: int, max: int)
    requires
        all_digits(s),
        min <= 0 <= max,
        negative ==> min <= -number(s),
        !negative ==> number(s) <= max,
    ensures
        read_digits(s, negative, min, max) == Ok::<int, Fault>(
            if negative {
                -number(s)
            } else {
                number(s)
            },
        ),
    decreases s.len(),
{
    if s.len() > 0 {
        let t = s.drop_last();
        assert(is_digit(s[s.len() - 1]));
        assert forall|i: int| 0 <= i < t.len() implies is_digit(#[trigger] t[i]) by {
            assert(t[i] == s[i]);
        }
        lemma_number_bounds(t);
        lemma_read(t, negative, min, max);
    }
}

/// Where the point of a written decimal stands, and what stands on either side of it.
proof fn lemma_point(sign: Seq<char>, whole: Seq<char>, fraction: Seq<char>)
    requires
        sign.len() == 0 || sign == seq!['-'],
        all_digits(whole),
    ensures
        before(sign + (whole + "."@ + fraction), '.') == sign + whole,
        after(sign + (whole + "."@ + fraction), '.') == fraction,
        before(sign + whole, '.') == sign + whole,
        after(sign + whole, '.') == Seq::<char>::empty(),
{
    reveal_strlit(".");
    let s = sign + (whole + "."@ + fraction);
    let k = (sign.len() + whole.len()) as int;
    assert(s[k] == '.');
    assert forall|j: int| 0 <= j < k implies s[j] != '.' by {
        if j >= sign.len() {
            assert(s[j] == whole[j - sign.len()]);
            assert(is_digit(whole[j - sign.len()]));
        } else {
            assert(s[j] == sign[j]);
        }
    }
    lemma_index_of(s, '.', k);
    assert(s.subrange(0, k) =~= sign + whole);
    assert(s.subrange(k + 1, s.len() as int) =~= fraction);
    let t = sign + whole;
    assert forall|j: int| 0 <= j < k implies t[j] != '.' by {
        assert(t[j] == s[j]);
    }
    lemma_index_of(t, '.', k);
    assert(t.subrange(0, k) =~= t);
}

/// A decimal is read back as it was written: the same ticks at the same precision. A price may stand
/// on either side of zero, a quantity on the one.
pub proof fn what_is_written_reads_back(raw: int, prec: int, min: int, max: int)
    requires
        0 <= prec <= i8::MAX,
        min <= raw <= max,
        min <= 0 <= max,
    ensures
        read_int(undotted(decimal_text(raw, prec)), min, max) == Ok::<int, Fault>(raw),
        dotted(decimal_text(raw, prec)) == Precision(prec as i8),
{
    reveal_strlit("-");
    reveal_strlit("");
    let n = magnitude(raw);
    let sign = if raw < 0 {
        "-"@
    } else {
        ""@
    };
    assert(raw < 0 ==> sign =~= seq!['-']);
    let s = decimal_text(raw, prec);
    let digits = if prec > 0 {
        lemma_written(n, prec);
        let whole = decimal((n / ten(prec)) as nat);
        let fraction = padded(decimal((n % ten(prec)) as nat), prec);
        lemma_point(sign, whole, fraction);
        assert(undotted(s) =~= sign + (whole + fraction));
        whole + fraction
    } else {
        vstd::arithmetic::power::lemma_pow0(10);
        assert(ten(-prec) == 1);
        assert(n * ten(-prec) == n) by (nonlinear_arith)
            requires
                ten(-prec) == 1,
        ;
        let whole = decimal(n as nat);
        decimal_spells_the_number(n as nat);
        lemma_point(sign, whole, Seq::empty());
        assert(undotted(s) =~= sign + whole);
        whole
    };
    let t = sign + digits;
    assert(is_digit(digits[0]));
    if raw < 0 {
        assert(t.drop_first() =~= digits);
        lemma_read(digits, true, min, max);
    } else {
        assert(t =~= digits);
        lemma_read(digits, false, min, max);
    }
}

/// A decimal read at the precision it was written at is its ticks again.
pub proof fn what_is_written_realigns_to_itself(raw: int, prec: int)
    requires
        0 <= prec <= 17,
        magnitude(raw) < ten(17),
    ensures
        raw_of(decimal_text(raw, prec), prec) == Some(raw),
{
    reveal_strlit("-");
    reveal_strlit("");
    reveal_strlit(".");
    let n = magnitude(raw);
    let sign = if raw < 0 {
        "-"@
    } else {
        ""@
    };
    assert(raw < 0 ==> sign =~= seq!['-']);
    assert(ten(17) == 100_000_000_000_000_000) by {
        reveal(vstd::arithmetic::power::pow);
        reveal_with_fuel(vstd::arithmetic::power::pow, 18);
    }
    let s = decimal_text(raw, prec);
    let none = Seq::<char>::empty();
    let (whole, fraction, rest) = if prec > 0 {
        lemma_written(n, prec);
        let whole = decimal((n / ten(prec)) as nat);
        let fraction = padded(decimal((n % ten(prec)) as nat), prec);
        (whole, fraction, whole + "."@ + fraction)
    } else {
        vstd::arithmetic::power::lemma_pow0(10);
        assert(ten(-prec) == 1);
        assert(n * ten(-prec) == n) by (nonlinear_arith)
            requires
                ten(-prec) == 1,
        ;
        decimal_spells_the_number(n as nat);
        (decimal(n as nat), none, decimal(n as nat))
    };
    assert(is_digit(whole[0]));
    assert(rest[0] == whole[0]);
    if raw < 0 {
        assert(s =~= sign + rest);
        assert(s.drop_first() =~= rest);
    } else {
        assert(s =~= rest);
    }
    assert(unsigned(s) == rest);
    lemma_point(none, whole, fraction);
    assert(none + (whole + "."@ + fraction) =~= whole + "."@ + fraction);
    assert(none + whole =~= whole);
    assert(before(rest, '.') == whole && after(rest, '.') == fraction);
    let t = lemma_trimmed(fraction);
    let kept = fraction.subrange(0, t);
    let zeros = fraction.subrange(t, fraction.len() as int);
    assert(decimals(s) == kept);
    assert(fraction =~= kept + zeros);
    assert(significant(s) == whole + kept);
    lemma_zeros(zeros);
    lemma_number_joins(whole + kept, zeros);
    assert((whole + kept) + zeros =~= whole + fraction);
    assert(whole + none =~= whole);
    assert(number(whole + fraction) == n);
    assert(number(whole + kept) * ten(prec - t) == n);
    assert forall|i: int| 0 <= i < kept.len() implies is_digit(#[trigger] kept[i]) by {
        assert(kept[i] == fraction[i]);
    }
    lemma_joined_digits(whole, kept);
    // there are no more digits than are read.
    if prec > 0 {
        let p = ten(prec);
        vstd::arithmetic::power::lemma_pow_positive(10, prec as nat);
        let k = if prec < 17 {
            17 - prec
        } else {
            1
        };
        assert(n / p < ten(k)) by {
            vstd::arithmetic::power::lemma_pow_adds(10, prec as nat, k as nat);
            if prec == 17 {
                vstd::arithmetic::power::lemma_pow_increases(10, 17, 18);
            }
            let q = ten(k);
            assert(n < p * q);
            assert(n / p < q) by (nonlinear_arith)
                requires
                    n < p * q,
                    p > 0,
                    n >= 0,
            ;
        }
        lemma_digits((n / p) as nat, k as nat);
    } else {
        lemma_digits(n as nat, 17);
    }
    assert(aligned(number(whole + kept), t, prec) == Some(n));
}

/// How much of a fraction is left without the zeros it ends with.
proof fn lemma_trimmed(s: Seq<char>) -> (t: int)
    ensures
        0 <= t <= s.len(),
        trim_end(s, '0') == s.subrange(0, t),
        forall|i: int| t <= i < s.len() ==> s[i] == '0',
    decreases s.len(),
{
    if s.len() > 0 && s.last() == '0' {
        let t = lemma_trimmed(s.drop_last());
        assert(s.drop_last().subrange(0, t) =~= s.subrange(0, t));
        assert forall|i: int| t <= i < s.len() implies s[i] == '0' by {
            if i < s.len() - 1 {
                assert(s.drop_last()[i] == s[i]);
            }
        }
        t
    } else {
        assert(s.subrange(0, s.len() as int) =~= s);
        s.len() as int
    }
}

/// An archive's decimal written at a precision counts as many ticks as were written.
pub proof fn an_archived_decimal_counts_its_ticks(raw: int, prec: int)
    requires
        0 <= prec <= 18,
        i64::MIN < raw <= i64::MAX,
    ensures
        ticks(decimal_text(raw, prec), prec) == Ok::<i64, RowError>(raw as i64),
{
    reveal_strlit("-");
    reveal_strlit("");
    let n = magnitude(raw);
    let sign = if raw < 0 {
        "-"@
    } else {
        ""@
    };
    assert(raw < 0 ==> sign =~= seq!['-']);
    let s = decimal_text(raw, prec);
    let none = Seq::<char>::empty();
    let (whole, fraction) = if prec > 0 {
        lemma_written(n, prec);
        (decimal((n / ten(prec)) as nat), padded(decimal((n % ten(prec)) as nat), prec))
    } else {
        vstd::arithmetic::power::lemma_pow0(10);
        assert(ten(-prec) == 1);
        assert(n * ten(-prec) == n) by (nonlinear_arith)
            requires
                ten(-prec) == 1,
        ;
        decimal_spells_the_number(n as nat);
        (decimal(n as nat), none)
    };
    lemma_point(sign, whole, fraction);
    assert(before(s, '.') == sign + whole && after(s, '.') == fraction);
    let w = sign + whole;
    assert(is_digit(whole[0]));
    if raw < 0 {
        assert(w.drop_first() =~= whole);
    } else {
        assert(w =~= whole);
    }
    if fraction.len() > 0 {
        assert(is_digit(fraction[0]));
    }
    assert(placed(fraction) == fraction);
    assert(encode_utf8(fraction).len() == fraction.len()) by {
        assert forall|i: int| 0 <= i < fraction.len() implies '\0' <= #[trigger] fraction[i]
            <= '\u{7f}' by {
            assert(is_digit(fraction[i]));
        }
        assert(vstd::utf8::is_ascii_chars(fraction));
        vstd::utf8::is_ascii_chars_encode_utf8(fraction);
    }
    vstd::arithmetic::power::lemma_pow0(10);
    let (a, b) = (number(whole), number(fraction));
    assert(b * ten(0) == b);
    assert(whole_number(w) == Some(if raw < 0 {
        -a
    } else {
        a
    }));
    assert((-a) * ten(prec) == -(a * ten(prec))) by (nonlinear_arith);
    assert(a * ten(prec) + b == n);
}

/// Whether a text holds no comma.
pub open spec fn one_field(s: Seq<char>) -> bool {
    forall|i: int| 0 <= i < s.len() ==> s[i] != ','
}

/// The columns of a line are what stands between its commas.
pub proof fn a_column_is_what_stands_between_two_commas(field: Seq<char>, rest: Seq<char>, k: nat)
    requires
        one_field(field),
    ensures
        column(field, 0) == Some(field),
        column(field, k + 1) is None,
        column(field.push(',') + rest, 0) == Some(field),
        column(field.push(',') + rest, k + 1) == column(rest, k),
{
    let line = field.push(',') + rest;
    let n = field.len() as int;
    lemma_index_of(field, ',', n);
    assert(field.subrange(0, n) =~= field);
    assert(line[n] == ',');
    assert forall|j: int| 0 <= j < n implies line[j] != ',' by {
        assert(line[j] == field[j]);
    }
    lemma_index_of(line, ',', n);
    assert(line.subrange(0, n) =~= field);
    assert(line.subrange(n + 1, line.len() as int) =~= rest);
}

/// A row of an archive is its time, its symbol, its side, its size and its price, in this order, and
/// whatever follows: the side is a buy or a sell, the size counts in ticks of one precision and the
/// price in those of the other.
pub proof fn a_row_is_read_column_by_column(
    at: Seq<char>,
    symbol: Seq<char>,
    side: Seq<char>,
    size: Seq<char>,
    price: Seq<char>,
    rest: Seq<char>,
    price_prec: int,
    qty_prec: int,
)
    requires
        one_field(at) && one_field(symbol) && one_field(side) && one_field(size) && one_field(price),
    ensures
        ({
            let line = at.push(',') + (symbol.push(',') + (side.push(',') + (size.push(',') + (price.push(
                ',',
            ) + rest))));
            let last = at.push(',') + (symbol.push(',') + (side.push(',') + (size.push(',') + price)));
            let read = |of: Seq<char>| row(of, symbol, price_prec, qty_prec);
            &&& read(line) == read(last)
            &&& (side == "Buy"@ || side == "Sell"@) && ticks(size, qty_prec) is Ok && ticks(
                price,
                price_prec,
            ) is Ok ==> read(line) == Ok::<Row, RowError>(
                Row {
                    side: if side == "Buy"@ {
                        0
                    } else {
                        1
                    },
                    qty_raw: ticks(size, qty_prec)->Ok_0,
                    price_raw: ticks(price, price_prec)->Ok_0,
                },
            )
            &&& side != "Buy"@ && side != "Sell"@ ==> read(line) == Err::<Row, RowError>(
                RowError::BadSide,
            )
            &&& (side == "Buy"@ || side == "Sell"@) && ticks(size, qty_prec) is Err ==> read(line)
                == Err::<Row, RowError>(ticks(size, qty_prec)->Err_0)
            &&& forall|of: Seq<char>|
                of != symbol ==> #[trigger] row(line, of, price_prec, qty_prec) == Err::<Row, RowError>(
                    RowError::ForeignSymbol,
                )
        }),
{
    reveal_strlit("Buy");
    reveal_strlit("Sell");
    assert("Buy"@ != "Sell"@) by {
        assert("Buy"@.len() != "Sell"@.len());
    }
    let l4 = price.push(',') + rest;
    let l3 = size.push(',') + l4;
    let l2 = side.push(',') + l3;
    let l1 = symbol.push(',') + l2;
    let m3 = size.push(',') + price;
    let m2 = side.push(',') + m3;
    let m1 = symbol.push(',') + m2;
    lemma_columns(at, l1);
    lemma_columns(symbol, l2);
    lemma_columns(side, l3);
    lemma_columns(size, l4);
    lemma_columns(price, rest);
    lemma_columns(at, m1);
    lemma_columns(symbol, m2);
    lemma_columns(side, m3);
    lemma_columns(size, price);
    a_column_is_what_stands_between_two_commas(price, rest, 0);
}

/// The first columns of a line that starts with a field.
proof fn lemma_columns(field: Seq<char>, rest: Seq<char>)
    requires
        one_field(field),
    ensures
        column(field.push(',') + rest, 0) == Some(field),
        column(field.push(',') + rest, 1) == column(rest, 0),
        column(field.push(',') + rest, 2) == column(rest, 1),
        column(field.push(',') + rest, 3) == column(rest, 2),
        column(field.push(',') + rest, 4) == column(rest, 3),
{
    a_column_is_what_stands_between_two_commas(field, rest, 0);
    a_column_is_what_stands_between_two_commas(field, rest, 1);
    a_column_is_what_stands_between_two_commas(field, rest, 2);
    a_column_is_what_stands_between_two_commas(field, rest, 3);
}

/// A trade is taken at the time it happened, under the count of those taken before it, with what its
/// row says; a row that goes back in time is refused, and so is one whose price or size is out of reach.
pub proof fn a_row_is_taken_as_the_trade_it_is(at: Ingest, ts: i64, row: Row)
    ensures
        ({
            let taken = next_trade(at, ts, row);
            let fits = i32::MIN <= row.price_raw <= i32::MAX && 0 <= row.qty_raw <= u32::MAX;
            &&& taken is Ok <==> ts >= at.prev_ts && fits
            &&& taken matches Ok(t) ==> {
                &&& t.ts_event == ts && t.ts_init == ts
                &&& t.monotonic_seq == at.taken && t.trade_id == at.taken
                &&& t.side == row.side
                &&& t.price_raw == row.price_raw && t.qty_raw == row.qty_raw
            }
            &&& ts < at.prev_ts ==> taken == Err::<Trade, RowError>(RowError::OutOfOrder)
            &&& ts >= at.prev_ts && !(i32::MIN <= row.price_raw <= i32::MAX) ==> taken == Err::<
                Trade,
                RowError,
            >(RowError::PriceOverflow)
        }),
{
}

/// Whether a text is blank through.
pub open spec fn blank(s: Seq<char>) -> bool {
    forall|i: int| 0 <= i < s.len() ==> whitespace(#[trigger] s[i])
}

/// Whether a text starts and ends with something.
pub open spec fn solid(s: Seq<char>) -> bool {
    s.len() > 0 && !whitespace(s.first()) && !whitespace(s.last())
}

proof fn lemma_led(lead: Seq<char>, s: Seq<char>)
    requires
        blank(lead),
        s.len() > 0 ==> !whitespace(s.first()),
    ensures
        led(lead + s) == s,
    decreases lead.len(),
{
    let t = lead + s;
    if lead.len() > 0 {
        assert(t[0] == lead[0]);
        let less = lead.drop_first();
        assert forall|i: int| 0 <= i < less.len() implies whitespace(#[trigger] less[i]) by {
            assert(less[i] == lead[i + 1]);
        }
        assert(t.drop_first() =~= less + s);
        lemma_led(less, s);
    } else {
        assert(t =~= s);
    }
}

proof fn lemma_ended(s: Seq<char>, tail: Seq<char>)
    requires
        blank(tail),
        s.len() > 0 ==> !whitespace(s.last()),
    ensures
        ended(s + tail) == s,
    decreases tail.len(),
{
    let t = s + tail;
    if tail.len() > 0 {
        assert(t.last() == tail[tail.len() - 1]);
        let less = tail.drop_last();
        assert forall|i: int| 0 <= i < less.len() implies whitespace(#[trigger] less[i]) by {
            assert(less[i] == tail[i]);
        }
        assert(t.drop_last() =~= s + less);
        lemma_ended(s, less);
    } else {
        assert(t =~= s);
    }
}

/// What stands around an amount is dropped: blanks on either side, and nothing within.
pub proof fn what_is_blank_around_a_text_is_dropped(lead: Seq<char>, s: Seq<char>, tail: Seq<char>)
    requires
        blank(lead),
        blank(tail),
        solid(s),
    ensures
        trimmed(lead + s + tail) == s,
{
    assert(lead + s + tail =~= lead + (s + tail));
    assert((s + tail).first() == s.first());
    lemma_led(lead, s + tail);
    lemma_ended(s, tail);
}

/// An amount may bear its dollar sign before it or behind it or not at all, with blanks around and in
/// between: it is the same amount.
pub proof fn a_dollar_sign_stands_on_either_side(
    lead: Seq<char>,
    gap: Seq<char>,
    s: Seq<char>,
    tail: Seq<char>,
)
    requires
        blank(lead),
        blank(gap),
        blank(tail),
        solid(s),
        s.first() != '$' && s.last() != '$',
    ensures
        amount_text(lead + s + tail) == s,
        amount_text(lead + (seq!['$'] + gap + s) + tail) == s,
        amount_text(lead + (s + gap + seq!['$']) + tail) == s,
{
    let none = Seq::<char>::empty();
    assert(none + s + none =~= s);
    what_is_blank_around_a_text_is_dropped(lead, s, tail);
    what_is_blank_around_a_text_is_dropped(none, s, none);
    let front = seq!['$'] + gap + s;
    assert(front.first() == '$' && front.last() == s.last());
    what_is_blank_around_a_text_is_dropped(lead, front, tail);
    assert(front.drop_first() =~= gap + s + none);
    what_is_blank_around_a_text_is_dropped(gap, s, none);
    let back = s + gap + seq!['$'];
    assert(back.last() == '$' && back.first() == s.first());
    what_is_blank_around_a_text_is_dropped(lead, back, tail);
    assert(back.drop_last() =~= none + s + gap);
    what_is_blank_around_a_text_is_dropped(none, s, gap);
}

/// The blanks of a plain text are its spaces, its tabs and what ends its lines: no character that can
/// be seen is one.
pub proof fn nothing_that_can_be_seen_is_blank(c: char)
    ensures
        c == ' ' || c == '\t' || c == '\n' || c == '\r' ==> whitespace(c),
        '!' <= c <= '~' ==> !whitespace(c),
{
}

/// Names in a list stand one behind the other with a comma and a space between each two.
pub proof fn a_list_grows_by_one_name(names: Seq<Seq<char>>, name: Seq<char>)
    ensures
        listed(seq![name]) == name,
        names.len() > 0 ==> listed(names.push(name)) == listed(names) + seq![',', ' '] + name,
        joined(seq![name], seq![',', ' ']) == name,
        names.len() > 0 ==> joined(names.push(name), seq![',', ' ']) == joined(names, seq![',', ' '])
            + seq![',', ' '] + name,
{
    reveal_strlit(", ");
    assert(", "@ =~= seq![',', ' ']);
    assert(names.push(name).drop_last() =~= names);
}

/// A timeframe is spelled as how many of its unit it is, in the largest unit that it is a whole number
/// of.
pub proof fn a_timeframe_is_spelled_in_its_largest_unit(
    tf: Timeframe,
    d: TimeframeDesignator,
    n: nat,
)
    requires
        tf.0 > 0,
        tf.0 == n * d.millis(),
        forall|e: TimeframeDesignator| tf.0 as int % (#[trigger] e.millis()) == 0 ==> e.millis() <= d.millis(),
    ensures
        timeframe_text(tf) == decimal(n) + d.letters(),
{
    let m = d.millis();
    assert(tf.0 as int % m == 0 && tf.0 as int / m == n) by {
        vstd::arithmetic::div_mod::lemma_mod_multiples_basic(n as int, m);
        vstd::arithmetic::div_mod::lemma_div_multiples_vanish(n as int, m);
        assert(n * m == m * n) by (nonlinear_arith);
    }
    assert(tf.whole_in(d));
    assert forall|e: TimeframeDesignator| #[trigger] tf.whole_in(e) implies e.millis() <= m by {
        assert(tf.0 as int % e.millis() == 0);
    }
    assert(tf.designated(d));
    lemma_one_unit(tf, d);
}

/// What is read of a text is refused where a character of it is no digit, and where the number is out of
/// reach; an empty text, and a sign alone, are no number.
pub proof fn what_is_no_number_is_refused(s: Seq<char>, c: char, min: int, max: int)
    requires
        min <= 0 <= max,
    ensures
        read_int(Seq::empty(), min, max) == Err::<int, Fault>(Fault::Empty),
        read_int(seq!['-'], min, max) == Err::<int, Fault>(Fault::InvalidDigit),
        read_int(seq!['+'], min, max) == Err::<int, Fault>(Fault::InvalidDigit),
        !is_digit(c) && all_digits(s) && s.len() > 0 && number(s) <= max ==> read_int(s.push(c), min, max)
            == Err::<int, Fault>(Fault::InvalidDigit),
        is_digit(c) && all_digits(s) && s.len() > 0 && number(s) <= max && number(s.push(c)) > max
            ==> read_int(s.push(c), min, max) == Err::<int, Fault>(Fault::PosOverflow),
{
    let t = s.push(c);
    assert(t.drop_last() =~= s);
    if all_digits(s) && s.len() > 0 && number(s) <= max {
        assert(is_digit(s[0]));
        assert(t[0] == s[0]);
        lemma_read(s, false, min, max);
    }
}

/// A raw is realigned where it keeps its worth, and refused where a tick of it would be lost.
pub proof fn no_tick_is_lost_by_realigning(raw: int, from: int, to: int)
    ensures
        0 <= to - from <= 18 ==> (aligned(raw, from, to) matches Some(n) ==> n == raw * ten(to - from)),
        0 <= to - from <= 18 && i64::MIN <= raw * ten(to - from) <= i64::MAX ==> aligned(raw, from, to) is Some,
        0 < from - to <= 18 ==> (aligned(raw, from, to) matches Some(n) ==> n * ten(from - to) == raw),
        0 < from - to <= 18 && raw % ten(from - to) != 0 ==> aligned(raw, from, to) is None,
        to - from > 18 || from - to > 18 ==> aligned(raw, from, to) is None,
{
    if 0 < from - to <= 18 && raw % ten(from - to) == 0 {
        let p = ten(from - to);
        vstd::arithmetic::power::lemma_pow_positive(10, (from - to) as nat);
        vstd::arithmetic::div_mod::lemma_fundamental_div_mod(raw, p);
        assert((raw / p) * p == p * (raw / p)) by (nonlinear_arith);
    }
}

/// A day is twenty-four hours.
pub proof fn a_day_is_twenty_four_hours()
    ensures
        DAY == 24 * 60 * 60 * 1_000_000_000,
{
}

/// A decimal with more places than the ticks can tell is too fine, whatever else is wrong with it; one
/// with nothing before its point, or with something among its places that is no digit, is no decimal.
pub proof fn a_decimal_is_refused_for_what_is_wrong_with_it(s: Seq<char>, prec: int, i: int)
    ensures
        ({
            let (whole, places) = (before(s, '.'), after(s, '.'));
            let fine = encode_utf8(places).len() > prec;
            &&& fine ==> ticks(s, prec) == Err::<i64, RowError>(RowError::TooFine)
            &&& !fine && whole.len() == 0 ==> ticks(s, prec) == Err::<i64, RowError>(RowError::BadDecimal)
            &&& !fine && 1 <= i < places.len() && !is_digit(places[i]) ==> ticks(s, prec) == Err::<i64, RowError>(
                RowError::BadDecimal,
            )
            &&& !fine && 1 <= i < whole.len() && !is_digit(whole[i]) ==> ticks(s, prec) == Err::<i64, RowError>(
                RowError::BadDecimal,
            )
        }),
{
    let (whole, places) = (before(s, '.'), after(s, '.'));
    if 1 <= i < places.len() && !is_digit(places[i]) {
        assert(placed(places)[i] == places[i]);
    }
    if 1 <= i < whole.len() && !is_digit(whole[i]) {
        if whole[0] == '-' || whole[0] == '+' {
            assert(whole.drop_first()[i - 1] == whole[i]);
        }
    }
}

/// What is blank are the spaces, breaks and tabs of every script, and nothing else.
pub proof fn a_blank_is_a_space_of_some_script(c: char)
    ensures
        ({
            let n = c as u32;
            whitespace(c) <==> {
                ||| 9 <= n <= 13
                ||| n == 32 || n == 133 || n == 160 || n == 5760
                ||| 8192 <= n <= 8202
                ||| n == 8232 || n == 8233 || n == 8239 || n == 8287 || n == 12288
            }
        }),
{
}

} // verus!
