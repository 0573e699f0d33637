//! Venues, instruments and symbols: what each is called, and how a symbol's text splits.

use trading_data::exchange::{symbol_parts, ExchangeName, Instrument, Symbol, SymbolError, Unlisted};

#[test]
fn a_venue_reads_back_from_its_name() {
    for v in [
        ExchangeName::Binance,
        ExchangeName::Bybit,
        ExchangeName::Kucoin,
        ExchangeName::Mexc,
        ExchangeName::BitFlyer,
        ExchangeName::Coincheck,
        ExchangeName::Yahoo,
    ] {
        assert_eq!(ExchangeName::from_str(v.as_str()), Ok(v));
    }
    assert_eq!(ExchangeName::BitFlyer.as_str(), "bitflyer");
    assert_eq!(ExchangeName::from_str("Binance"), Err(Unlisted));
}

#[test]
fn an_instrument_reads_back_from_its_ticker() {
    for i in [
        Instrument::Spot,
        Instrument::Perp,
        Instrument::Margin,
        Instrument::PerpInverse,
        Instrument::Options,
    ] {
        assert_eq!(Instrument::from_str(i.as_str()), Ok(i));
    }
    assert_eq!(Instrument::PerpInverse.as_str(), ".PERP_INVERSE");
    assert_eq!(Instrument::from_str(".p"), Err(Unlisted));
    assert_eq!(Instrument::default(), Instrument::Spot);
}

#[test]
fn a_symbol_splits_at_its_first_dot() {
    assert_eq!(symbol_parts("BTC-USDT.p"), (String::from("BTC-USDT"), String::from(".P")));
    assert_eq!(symbol_parts("BTC-USDT"), (String::from("BTC-USDT"), String::new()));
    assert_eq!(symbol_parts("A.perp_inverse"), (String::from("A"), String::from(".PERP_INVERSE")));
    assert_eq!(symbol_parts("a.b.c"), (String::from("a"), String::from(".B.C")));
    assert_eq!(symbol_parts("x.\u{df}"), (String::from("x"), String::from(".SS")));
}

#[test]
fn a_symbol_is_written_as_it_reads() {
    let s = Symbol::new("BTC-USDT", Instrument::Perp);
    assert_eq!(s.text("BTC-USDT"), "BTC-USDT.P");
    let (pair, ticker) = symbol_parts(&s.text("BTC-USDT"));
    let back: Result<Symbol<String>, SymbolError<()>> = Symbol::read(Ok(pair), &ticker);
    let back = back.expect("a written symbol reads");
    assert_eq!((back.pair.as_str(), back.instrument), ("BTC-USDT", Instrument::Perp));
}

#[test]
fn a_symbol_says_what_is_wrong_with_it() {
    let bad_pair: Result<Symbol<u8>, SymbolError<&str>> = Symbol::read(Err("no quote"), ".NONE");
    assert!(matches!(bad_pair, Err(SymbolError::Pair("no quote"))));
    let bad_ticker: Result<Symbol<u8>, SymbolError<&str>> = Symbol::read(Ok(1), ".NONE");
    assert!(matches!(bad_ticker, Err(SymbolError::Instrument)));
}
