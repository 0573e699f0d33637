//! An archive's rows as trades.

use trading_data::feed::{decimal_raw, happened, header_fits, parse_row, Ingest, Row, RowError};

const HEAD: &str = "timestamp,symbol,side,size,price,tickDirection";
const LINE: &str = "1735862400.1234,BTCUSDT,Buy,0.015,97123.50,PlusTick";

#[test]
fn an_archive_leads_with_its_columns() {
    assert!(header_fits(HEAD));
    assert!(header_fits("timestamp,symbol,side,size,price"));
    assert!(!header_fits("timestamp,symbol,side,size"));
    assert!(!header_fits("time,symbol,side,size,price"));
}

#[test]
fn a_row_reads_into_ticks() {
    assert_eq!(happened(LINE), "1735862400.1234");
    let row = parse_row(LINE, "BTCUSDT", 2, 3);
    assert_eq!(row, Ok(Row { side: 0, qty_raw: 15, price_raw: 9_712_350 }));
    let sell = parse_row("1,X,Sell,2,3.1", "X", 1, 0);
    assert_eq!(sell, Ok(Row { side: 1, qty_raw: 2, price_raw: 31 }));
}

#[test]
fn a_row_says_what_is_wrong_with_it() {
    let read = |line: &str| parse_row(line, "X", 2, 3);
    assert_eq!(read("1"), Err(RowError::Malformed));
    assert_eq!(read("1,Y"), Err(RowError::ForeignSymbol));
    assert_eq!(read("1,X"), Err(RowError::Malformed));
    assert_eq!(read("1,X,buy,1,1"), Err(RowError::BadSide));
    assert_eq!(read("1,X,Buy"), Err(RowError::Malformed));
    assert_eq!(read("1,X,Buy,1.0001,1"), Err(RowError::TooFine));
    assert_eq!(read("1,X,Buy,1.x,1"), Err(RowError::BadDecimal));
    assert_eq!(read("1,X,Buy,9223372036854775807,1"), Err(RowError::Overflow));
    assert_eq!(read("1,X,Buy,1"), Err(RowError::Malformed));
}

#[test]
fn a_decimal_counts_ticks_exactly() {
    assert_eq!(decimal_raw("12.3", 2), Ok(1_230));
    assert_eq!(decimal_raw("12", 2), Ok(1_200));
    assert_eq!(decimal_raw("12.", 2), Ok(1_200));
    assert_eq!(decimal_raw("0.001", 2), Err(RowError::TooFine));
    assert_eq!(decimal_raw("", 2), Err(RowError::BadDecimal));
    assert_eq!(decimal_raw("-1.5", 1), Ok(-15));
    assert_eq!(decimal_raw("-0.5", 1), Ok(-5));
    assert_eq!(decimal_raw("+1.05", 2), Ok(105));
    assert_eq!(decimal_raw("-12", 2), Ok(-1_200));
    assert_eq!(decimal_raw("1.-5", 2), Err(RowError::BadDecimal));
    assert_eq!(decimal_raw("1.+5", 2), Ok(105));
    assert_eq!(decimal_raw("-1.+5", 3), Ok(-1_050));
    assert_eq!(decimal_raw("1.+5", 1), Err(RowError::TooFine));
    assert_eq!(decimal_raw("1.+", 2), Err(RowError::BadDecimal));
    assert_eq!(decimal_raw("1.++", 2), Err(RowError::BadDecimal));
    assert_eq!(decimal_raw("-9223372036854775808", 0), Ok(i64::MIN));
    assert_eq!(decimal_raw("92233720368547758.08", 2), Err(RowError::Overflow));
    assert_eq!(decimal_raw("9223372036854775808", 0), Err(RowError::BadDecimal));
}

#[test]
fn trades_taken_are_in_order() {
    let mut at = Ingest::new();
    let row = Row { side: 1, qty_raw: 5, price_raw: 7 };
    let first = at.take(10, row).expect("nothing came before");
    assert_eq!((first.monotonic_seq, first.trade_id, first.ts_event, first.ts_init), (0, 0, 10, 10));
    assert_eq!((first.side, first.price_raw, first.qty_raw), (1, 7, 5));
    let same = at.take(10, row).expect("a tie is in order");
    assert_eq!(same.monotonic_seq, 1);
    assert_eq!(at.take(9, row), Err(RowError::OutOfOrder));
    assert_eq!(at.take(11, Row { price_raw: 1 << 31, ..row }), Err(RowError::PriceOverflow));
    assert_eq!(at.take(11, Row { qty_raw: -1, ..row }), Err(RowError::QtyOverflow));
    assert_eq!(at.take(11, Row { qty_raw: 1 << 32, ..row }), Err(RowError::QtyOverflow));
    assert_eq!(at.take(11, row).map(|t| t.monotonic_seq), Ok(2));
}
