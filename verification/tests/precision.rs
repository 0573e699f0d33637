use trading_data::cols::scaled_down;
use trading_data::money::{pi32, pu32, Fault, Price, Qty};
use trading_data::precision::{checked_realign, checked_realigned, pow10, Precision};
use trading_data::scalar::{powi, Scalar};

/// A machine float as a scalar.
#[derive(Clone, Copy, Debug, PartialEq, PartialOrd)]
struct F64(f64);

impl Scalar for F64 {
    fn zero_equals_zero() {}

    fn one_is_not_zero() {}

    fn none_is_absent() {}

    fn of(n: i64) -> Self {
        F64(n as f64)
    }

    fn nan() -> Self {
        F64(f64::NAN)
    }

    fn is_nan(self) -> bool {
        self.0.is_nan()
    }

    fn add(self, other: Self) -> Self {
        F64(self.0 + other.0)
    }

    fn sub(self, other: Self) -> Self {
        F64(self.0 - other.0)
    }

    fn mul(self, other: Self) -> Self {
        F64(self.0 * other.0)
    }

    fn div(self, other: Self) -> Self {
        F64(self.0 / other.0)
    }

    fn neg(self) -> Self {
        F64(-self.0)
    }

    fn abs(self) -> Self {
        F64(self.0.abs())
    }

    fn sqrt(self) -> Self {
        F64(self.0.sqrt())
    }

    fn exp(self) -> Self {
        F64(self.0.exp())
    }

    fn min(self, other: Self) -> Self {
        F64(self.0.min(other.0))
    }

    fn max(self, other: Self) -> Self {
        F64(self.0.max(other.0))
    }

    fn lt(self, other: Self) -> bool {
        self.0 < other.0
    }

    fn same(self, other: Self) -> bool {
        self.0 == other.0
    }

    fn round(self) -> i64 {
        self.0.round() as i64
    }

    fn is_broken(self) -> bool {
        self.0.fract() != 0.0
    }

    fn text(self) -> String {
        format!("{}", self.0)
    }

    fn text_to(self, places: usize) -> String {
        format!("{:.*}", places, self.0)
    }
}
#[test]
fn the_tables_are_what_they_replaced() {
    for e in 0..19u32 {
        assert_eq!(pow10(e), 10i64.checked_pow(e).unwrap());
    }
    for e in -18i8..=18 {
        assert_eq!(powi(F64(10.0), e as i32).0.to_bits(), 10f64.powi(e as i32).to_bits(), "10^{e}");
    }
}

#[test]
fn compares_by_value_not_by_representation() {
    assert_eq!(Price::new(100, Precision(2)), Price::new(1, Precision(0)));
    assert!(Price::new(100, Precision(2)) < Price::new(5, Precision(0)));
    assert!(Qty::new(1234, Precision(3)) > Qty::new(1, Precision(0)));
}

#[test]
fn arithmetic_lands_on_the_lhs_precision() {
    let spread = Price::new(4200075, Precision(2)) - Price::new(420005, Precision(1));
    assert_eq!(spread, pi32::new(25, Precision(2)));
    assert_eq!(scaled_down::<F64>(spread.raw as i64, spread.prec.0).0, 0.25);

    let mut q = Qty::new(1500, Precision(3));
    q.add_assign(Qty::new(2, Precision(0)));
    assert_eq!(q, Qty::new(3500, Precision(3)));
    // exact where f64 fails for 0.1 + 0.2
    assert_eq!(Qty::new(1, Precision(1)) + Qty::new(2, Precision(1)), Qty::new(3, Precision(1)));
}

#[test]
fn from_str_infers_precision() {
    assert_eq!("42000.50".parse::<Price>().unwrap(), Price::new(4200050, Precision(2)));
    assert_eq!("-1.25".parse::<Price>().unwrap(), Price::new(-125, Precision(2)));
    assert_eq!("100".parse::<Price>().unwrap(), Price::new(100, Precision(0)));
    assert_eq!("1.234".parse::<Qty>().unwrap(), Qty::new(1234, Precision(3)));
    assert_eq!("50".parse::<Qty>().unwrap(), Qty::new(50, Precision(0)));
}

#[test]
fn realign_to_tick() {
    assert_eq!(Precision(8).parse_i32("0.24"), 24_000_000);
    assert_eq!(Precision(2).parse_i32("42000.50"), 4_200_050);
    assert_eq!(Precision(0).parse_u32("0"), 0);
    // large-tick instruments: raw stays in i32 range
    assert_eq!(Precision(-3).parse_i32("12000000"), 12_000);
    assert_eq!(Precision(-3).parse_i32("-12000000"), -12_000);
    assert_eq!(Precision(-3).parse_u32("0"), 0);
}

#[test]
fn a_tick_too_coarse_is_refused() {
    assert_eq!(checked_realigned("12000500", Precision(-3)), None);
    assert_eq!(checked_realigned("12000000", Precision(-3)), Some(12_000));
    assert_eq!(checked_realigned("1.5x", Precision(3)), None);
    assert_eq!(checked_realign(125, Precision(2), Precision(0)), None);
    assert_eq!(checked_realign(1200, Precision(2), Precision(0)), Some(12));
    assert_eq!(checked_realign(12, Precision(0), Precision(2)), Some(1200));
}

#[test]
fn a_literal_that_is_no_number_is_refused_for_what_is_wrong_with_it() {
    assert_eq!(Price::parse("1.5").unwrap(), Price::new(15, Precision(1)));
    assert_eq!(Qty::parse("-1").unwrap_err(), Fault::InvalidDigit);
    assert_eq!(Price::parse("").unwrap_err(), Fault::Empty);
    assert_eq!(Price::parse("2147483648").unwrap_err(), Fault::PosOverflow);
    assert_eq!(Price::parse("-2147483649").unwrap_err(), Fault::NegOverflow);
}

#[test]
fn a_decimal_is_written_to_the_places_its_precision_has() {
    assert_eq!(Price::new(4200050, Precision(2)).text(), "42000.50");
    assert_eq!(Price::new(-5, Precision(2)).text(), "-0.05");
    assert_eq!(Price::new(7, Precision(0)).text(), "7");
    assert_eq!(Qty::new(12, Precision(-3)).text(), "12000");
    assert_eq!(pi32::new(-1, Precision(1)).text(), "-0.1");
    assert_eq!(pu32::new(3, Precision(20)).text(), format!("{:.20}", 0.00000000000000000003f64));
    for raw in [0i32, 1, -1, 99, 12345, i32::MAX, i32::MIN + 1] {
        for prec in 0..12i8 {
            let float = raw as f64 / 10f64.powi(prec as i32);
            assert_eq!(pi32::new(raw, Precision(prec)).text(), format!("{:.*}", prec as usize, float));
        }
    }
}
