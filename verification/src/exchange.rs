//! Where things trade, what kind of thing trades, and how a symbol is written.

use vstd::prelude::*;

use crate::manifest::str_eq;
use crate::text;
use crate::text::{after, before};

verus! {

/// A name nothing is called by.
#[derive(Clone, Copy, Debug, Eq, PartialEq, Structural)]
pub struct Unlisted;

/// A venue.
#[derive(Clone, Copy, Debug, Eq, Hash, PartialEq, Structural)]
#[non_exhaustive]
pub enum ExchangeName {
    Binance,
    Bybit,
    Kucoin,
    Mexc,
    BitFlyer,
    Coincheck,
    Yahoo,
}

impl ExchangeName {
    /// What it is called.
    pub open spec fn label(self) -> Seq<char> {
        match self {
            ExchangeName::Binance => "binance"@,
            ExchangeName::Bybit => "bybit"@,
            ExchangeName::Kucoin => "kucoin"@,
            ExchangeName::Mexc => "mexc"@,
            ExchangeName::BitFlyer => "bitflyer"@,
            ExchangeName::Coincheck => "coincheck"@,
            ExchangeName::Yahoo => "yahoo"@,
        }
    }

    pub fn as_str(self) -> (r: &'static str)
        ensures
            r@ == self.label(),
    {
        match self {
            ExchangeName::Binance => "binance",
            ExchangeName::Bybit => "bybit",
            ExchangeName::Kucoin => "kucoin",
            ExchangeName::Mexc => "mexc",
            ExchangeName::BitFlyer => "bitflyer",
            ExchangeName::Coincheck => "coincheck",
            ExchangeName::Yahoo => "yahoo",
        }
    }

    /// The one called so, where there is one.
    pub fn from_str(s: &str) -> (r: Result<Self, Unlisted>)
        ensures
            match r {
                Ok(e) => s@ == e.label(),
                Err(_) => forall|e: Self| s@ != #[trigger] e.label(),
            },
    {
        if str_eq(s, "binance") {
            Ok(ExchangeName::Binance)
        } else if str_eq(s, "bybit") {
            Ok(ExchangeName::Bybit)
        } else if str_eq(s, "kucoin") {
            Ok(ExchangeName::Kucoin)
        } else if str_eq(s, "mexc") {
            Ok(ExchangeName::Mexc)
        } else if str_eq(s, "bitflyer") {
            Ok(ExchangeName::BitFlyer)
        } else if str_eq(s, "coincheck") {
            Ok(ExchangeName::Coincheck)
        } else if str_eq(s, "yahoo") {
            Ok(ExchangeName::Yahoo)
        } else {
            Err(Unlisted)
        }
    }
}

/// What kind of contract a pair trades as; spot, left unsaid.
#[derive(Clone, Copy, Debug, Eq, Hash, Ord, PartialEq, PartialOrd, Structural)]
#[non_exhaustive]
pub enum Instrument {
    Spot,
    Perp,
    Margin,
    PerpInverse,
    Options,
}

impl Instrument {
    /// What it is called.
    pub open spec fn label(self) -> Seq<char> {
        match self {
            Instrument::Spot => ""@,
            Instrument::Perp => ".P"@,
            Instrument::Margin => ".M"@,
            Instrument::PerpInverse => ".PERP_INVERSE"@,
            Instrument::Options => ".OPTIONS"@,
        }
    }

    pub fn as_str(self) -> (r: &'static str)
        ensures
            r@ == self.label(),
    {
        match self {
            Instrument::Spot => "",
            Instrument::Perp => ".P",
            Instrument::Margin => ".M",
            Instrument::PerpInverse => ".PERP_INVERSE",
            Instrument::Options => ".OPTIONS",
        }
    }

    /// The one called so, where there is one.
    pub fn from_str(s: &str) -> (r: Result<Self, Unlisted>)
        ensures
            match r {
                Ok(e) => s@ == e.label(),
                Err(_) => forall|e: Self| s@ != #[trigger] e.label(),
            },
    {
        if str_eq(s, "") {
            Ok(Instrument::Spot)
        } else if str_eq(s, ".P") {
            Ok(Instrument::Perp)
        } else if str_eq(s, ".M") {
            Ok(Instrument::Margin)
        } else if str_eq(s, ".PERP_INVERSE") {
            Ok(Instrument::PerpInverse)
        } else if str_eq(s, ".OPTIONS") {
            Ok(Instrument::Options)
        } else {
            Err(Unlisted)
        }
    }
}

impl Default for Instrument {
    fn default() -> (r: Self)
        ensures
            r == Instrument::Spot,
    {
        Instrument::Spot
    }
}

/// A pair, and what it trades as.
#[derive(Clone, Copy, Debug, Eq, Hash, PartialEq)]
pub struct Symbol<P> {
    pub pair: P,
    pub instrument: Instrument,
}

/// Why a text is no symbol.
#[derive(Clone, Copy, Debug, Eq, PartialEq)]
pub enum SymbolError<E> {
    /// What stands before the first dot is no pair.
    Pair(E),
    /// What stands after it names no instrument.
    Instrument,
}

/// What `str::to_uppercase` makes of a text.
pub uninterp spec fn upper_text(s: Seq<char>) -> Seq<char>;

/// `str::to_uppercase`, which maps every character to its Unicode uppercase. What the mapping is goes
/// unsaid.
#[verifier::external_body]
fn uppercase(s: &str) -> (r: String)
    ensures
        r@ == upper_text(s@),
{
    s.to_uppercase()
}

/// The ticker of an instrument as a symbol carries it: a dot and what stands after the first one,
/// uppercased, or nothing.
pub open spec fn ticker_text(s: Seq<char>) -> Seq<char> {
    if s.contains('.') {
        "."@ + upper_text(after(s, '.'))
    } else {
        ""@
    }
}

/// A symbol's text as the text of its pair and the ticker of its instrument.
pub fn symbol_parts(s: &str) -> (r: (String, String))
    ensures
        r.0@ == before(s@, '.'),
        r.1@ == ticker_text(s@),
{
    let cs: Vec<char> = text::chars_of(s);
    let i: usize = text::find(cs.as_slice(), '.');
    let pair: String = text::string_of(text::slice(cs.as_slice(), 0, i));
    if i == cs.len() {
        proof {
            text::lemma_index_of_bounds(s@, '.');
            reveal_strlit("");
            assert(""@ =~= Seq::<char>::empty());
        }
        return (pair, String::new());
    }
    let tail: String = text::string_of(text::slice(cs.as_slice(), i + 1, cs.len()));
    let upper: String = uppercase(tail.as_str());
    let mut out: Vec<char> = Vec::new();
    text::push_str(&mut out, ".");
    text::push_str(&mut out, upper.as_str());
    proof {
        text::lemma_index_of_bounds(s@, '.');
        assert(out@ =~= ticker_text(s@));
    }
    (pair, text::string_of(out.as_slice()))
}

impl<P> Symbol<P> {
    pub fn new(pair: P, instrument: Instrument) -> (r: Self)
        ensures
            r == (Symbol { pair, instrument }),
    {
        Symbol { pair, instrument }
    }

    /// The symbol of a pair as it was read and an instrument's ticker: a pair that did not read is the
    /// first thing wrong with it.
    pub fn read<E>(pair: Result<P, E>, ticker: &str) -> (r: Result<Self, SymbolError<E>>)
        ensures
            match pair {
                Err(e) => r == Err::<Self, _>(SymbolError::Pair(e)),
                Ok(p) => match r {
                    Ok(s) => s.pair == p && s.instrument.label() == ticker@,
                    Err(e) => e == SymbolError::<E>::Instrument && forall|i: Instrument|
                        #[trigger] i.label() != ticker@,
                },
            },
    {
        match pair {
            Err(e) => Err(SymbolError::Pair(e)),
            Ok(pair) => match Instrument::from_str(ticker) {
                Ok(instrument) => Ok(Symbol { pair, instrument }),
                Err(_) => Err(SymbolError::Instrument),
            },
        }
    }

    /// The pair's text with the instrument's ticker behind it.
    pub fn text(&self, pair: &str) -> (r: String)
        ensures
            r@ == pair@ + self.instrument.label(),
    {
        let mut out: Vec<char> = text::chars_of(pair);
        text::push_str(&mut out, self.instrument.as_str());
        text::string_of(out.as_slice())
    }
}

/// No two venues are called the same, so a name that reads, reads as the venue that wrote it.
pub proof fn no_two_venues_share_a_name(a: ExchangeName, b: ExchangeName)
    requires
        a.label() == b.label(),
    ensures
        a == b,
{
    reveal_strlit("binance");
    reveal_strlit("bybit");
    reveal_strlit("kucoin");
    reveal_strlit("mexc");
    reveal_strlit("bitflyer");
    reveal_strlit("coincheck");
    reveal_strlit("yahoo");
    let (x, y) = (a.label(), b.label());
    assert(x.len() == y.len());
    if x.len() > 1 {
        assert(x[0] == y[0] && x[1] == y[1]);
    }
}

/// No two instruments are written the same, so a ticker that reads, reads as the instrument that wrote
/// it.
pub proof fn no_two_instruments_share_a_ticker(a: Instrument, b: Instrument)
    requires
        a.label() == b.label(),
    ensures
        a == b,
{
    reveal_strlit("");
    reveal_strlit(".P");
    reveal_strlit(".M");
    reveal_strlit(".PERP_INVERSE");
    reveal_strlit(".OPTIONS");
    let (x, y) = (a.label(), b.label());
    assert(x.len() == y.len());
    if x.len() > 1 {
        assert(x[0] == y[0] && x[1] == y[1]);
    }
}

/// A symbol written out is taken apart where it was joined: the pair's text comes back as it was,
/// where no dot stands in it, and the ticker as the uppercase of the one that was written.
pub proof fn a_written_symbol_splits_where_it_was_joined(pair: Seq<char>, i: Instrument)
    requires
        !pair.contains('.'),
    ensures
        before(pair + i.label(), '.') == pair,
        ticker_text(pair + i.label()) == if i == Instrument::Spot {
            ""@
        } else {
            "."@ + upper_text(i.label().drop_first())
        },
{
    let s = pair + i.label();
    reveal_strlit("");
    reveal_strlit(".P");
    reveal_strlit(".M");
    reveal_strlit(".PERP_INVERSE");
    reveal_strlit(".OPTIONS");
    if i == Instrument::Spot {
        assert(s =~= pair);
        text::lemma_index_of(s, '.', s.len() as int);
        assert(before(s, '.') =~= pair);
    } else {
        assert(s[pair.len() as int] == '.');
        assert forall|j: int| 0 <= j < pair.len() implies s[j] != '.' by {
            assert(pair.contains(pair[j]));
        }
        text::lemma_index_of(s, '.', pair.len() as int);
        assert(before(s, '.') =~= pair);
        assert(after(s, '.') =~= i.label().drop_first());
        assert(s.contains('.'));
    }
}

} // verus!
