//! Prices gathered into periods.

use trading_data::horizon::Timeframe;
use trading_data::klines::{mock_p_to_ohlc, p_to_ohlc, Ohlc};
use trading_data::scalar::Scalar;

/// A machine float as a scalar.
#[derive(Clone, Copy, Debug, PartialEq, PartialOrd)]
struct F64(f64);

impl Scalar for F64 {
    fn zero_equals_zero() {}

    fn one_is_not_zero() {}

    fn none_is_absent() {}

    fn of(n: i64) -> Self {
        F64(n as f64)
    }

    fn nan() -> Self {
        F64(f64::NAN)
    }

    fn is_nan(self) -> bool {
        self.0.is_nan()
    }

    fn add(self, other: Self) -> Self {
        F64(self.0 + other.0)
    }

    fn sub(self, other: Self) -> Self {
        F64(self.0 - other.0)
    }

    fn mul(self, other: Self) -> Self {
        F64(self.0 * other.0)
    }

    fn div(self, other: Self) -> Self {
        F64(self.0 / other.0)
    }

    fn neg(self) -> Self {
        F64(-self.0)
    }

    fn abs(self) -> Self {
        F64(self.0.abs())
    }

    fn sqrt(self) -> Self {
        F64(self.0.sqrt())
    }

    fn exp(self) -> Self {
        F64(self.0.exp())
    }

    fn min(self, other: Self) -> Self {
        F64(self.0.min(other.0))
    }

    fn max(self, other: Self) -> Self {
        F64(self.0.max(other.0))
    }

    fn lt(self, other: Self) -> bool {
        self.0 < other.0
    }

    fn same(self, other: Self) -> bool {
        self.0 == other.0
    }

    fn round(self) -> i64 {
        self.0.round() as i64
    }

    fn is_broken(self) -> bool {
        self.0.fract() != 0.0
    }

    fn text(self) -> String {
        format!("{}", self.0)
    }

    fn text_to(self, places: usize) -> String {
        format!("{:.*}", places, self.0)
    }
}

fn at(seconds: i64) -> jiff::Timestamp {
    jiff::Timestamp::from_second(seconds).expect("within range")
}

fn prices(p: &[(f64, i64)]) -> Vec<(F64, jiff::Timestamp)> {
    p.iter().map(|(x, s)| (F64(*x), at(*s))).collect()
}

fn read(o: &Ohlc<F64>) -> [f64; 4] {
    [o.open.0, o.high.0, o.low.0, o.close.0]
}

#[test]
fn a_period_runs_from_its_first_price_and_the_next_from_a_boundary() {
    let minute = Timeframe(60_000);
    let got = p_to_ohlc(&prices(&[(1.0, 0), (3.0, 20), (0.5, 40), (2.0, 59), (5.0, 70), (4.0, 121)]), &minute);
    let got: Vec<[f64; 4]> = got.iter().map(read).collect();
    assert_eq!(got[0], [1.0, 3.0, 0.5, 2.0]);
    assert_eq!(got[1], [5.0, 5.0, 5.0, 5.0]);
}

#[test]
fn nothing_gathers_into_nothing() {
    assert!(p_to_ohlc::<F64>(&[], &Timeframe(60_000)).is_empty());
    assert!(mock_p_to_ohlc::<F64>(&[], 3).is_empty());
}

#[test]
fn a_run_of_prices_is_cut_every_so_many() {
    let p: Vec<F64> = [1.0, 4.0, 2.0, 7.0, 3.0].map(F64).to_vec();
    let got: Vec<[f64; 4]> = mock_p_to_ohlc(&p, 2).iter().map(read).collect();
    assert_eq!(got, [[1.0, 4.0, 1.0, 4.0], [2.0, 7.0, 2.0, 7.0], [3.0, 3.0, 3.0, 3.0]]);
}
