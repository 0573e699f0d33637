//! An amount of dollars: its arithmetic, how it is read, and how it is written.

use trading_data::scalar::Scalar;
use trading_data::usd::{amount, Usd};

/// A machine float as a scalar.
#[derive(Clone, Copy, Debug, PartialEq, PartialOrd)]
struct F64(f64);

impl Scalar for F64 {
    fn zero_equals_zero() {}

    fn one_is_not_zero() {}

    fn none_is_absent() {}

    fn of(n: i64) -> Self {
        F64(n as f64)
    }

    fn nan() -> Self {
        F64(f64::NAN)
    }

    fn is_nan(self) -> bool {
        self.0.is_nan()
    }

    fn add(self, other: Self) -> Self {
        F64(self.0 + other.0)
    }

    fn sub(self, other: Self) -> Self {
        F64(self.0 - other.0)
    }

    fn mul(self, other: Self) -> Self {
        F64(self.0 * other.0)
    }

    fn div(self, other: Self) -> Self {
        F64(self.0 / other.0)
    }

    fn neg(self) -> Self {
        F64(-self.0)
    }

    fn abs(self) -> Self {
        F64(self.0.abs())
    }

    fn sqrt(self) -> Self {
        F64(self.0.sqrt())
    }

    fn exp(self) -> Self {
        F64(self.0.exp())
    }

    fn min(self, other: Self) -> Self {
        F64(self.0.min(other.0))
    }

    fn max(self, other: Self) -> Self {
        F64(self.0.max(other.0))
    }

    fn lt(self, other: Self) -> bool {
        self.0 < other.0
    }

    fn same(self, other: Self) -> bool {
        self.0 == other.0
    }

    fn round(self) -> i64 {
        self.0.round() as i64
    }

    fn is_broken(self) -> bool {
        self.0.fract() != 0.0
    }

    fn text(self) -> String {
        format!("{}", self.0)
    }

    fn text_to(self, places: usize) -> String {
        format!("{:.*}", places, self.0)
    }
}

fn usd(x: f64) -> Usd<F64> {
    Usd(F64(x))
}

#[test]
fn operators() {
    let one = usd(1.0);
    assert_eq!(one, usd(1.0));
    assert_eq!(one + usd(1.0), usd(2.0));
    assert_eq!(one - usd(1.0), usd(0.0));
    assert_eq!(one * usd(2.0), usd(2.0));
    assert_eq!(one / usd(2.0), usd(0.5));
    assert_eq!(-one, usd(-1.0));
    assert_eq!(usd(3.0).scaled(F64(0.5)), usd(1.5));
}

fn read(s: &str) -> Result<Usd<F64>, std::num::ParseFloatError> {
    amount(s).parse().map(usd)
}

#[test]
fn parse() {
    assert_eq!(read("1$").unwrap(), usd(1.0));
    assert_eq!(read("$1").unwrap(), usd(1.0));
    assert_eq!(read("-1.5").unwrap(), usd(-1.5));
    assert_eq!(read(" $ 2.5 ").unwrap(), usd(2.5));
    assert!(read("1$$").is_err());
    assert!(read("$").is_err());
}

#[test]
fn what_is_left_of_an_amount_is_its_number() {
    assert_eq!(amount(" $ 2.5 "), "2.5");
    assert_eq!(amount("1$$"), "1$");
    assert_eq!(amount("$1$"), "1$");
    assert_eq!(amount("\u{a0}\t7 $\u{2003}"), "7");
    assert_eq!(amount(""), "");
    assert_eq!(amount("$"), "");
}

#[test]
fn precision_and_alignment() {
    let one = usd(1.0);
    assert_eq!(format!("{}", one.text(None)), "1$");
    assert_eq!(format!("{}", one.text(Some(2))), "1.00$");
    assert_eq!(format!("|{:10}|", one.text(None)), "|1$        |");
    assert_eq!(format!("|{:^10}|", one.text(Some(2))), "|  1.00$   |");
    assert_eq!(usd(1.25).text(None), "1.25$");
    assert_eq!(usd(0.125).text(None), "0.12$");
}

/// Whitespace is what the standard library takes for it.
#[test]
fn whitespace_is_the_standard_one() {
    for c in (0..=0x1_1000).filter_map(char::from_u32).filter(|c| *c != '$') {
        assert_eq!(amount(&format!("{c}1{c}")) == "1", c.is_whitespace(), "{c:?}");
    }
}
