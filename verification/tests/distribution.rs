//! Points in, probabilities out: what the evidence failed to score is ignorance, and ignorance is
//! the default outcome's share.

use trading_data::distribution::{Outcome, ProbabilisticDistribution};
use trading_data::flat::Flat;
use trading_data::scalar::Scalar;

/// A machine float as a scalar.
#[derive(Clone, Copy, Debug, PartialEq, PartialOrd)]
struct F64(f64);

impl Scalar for F64 {
    fn zero_equals_zero() {}

    fn one_is_not_zero() {}

    fn none_is_absent() {}

    fn of(n: i64) -> Self {
        F64(n as f64)
    }

    fn nan() -> Self {
        F64(f64::NAN)
    }

    fn is_nan(self) -> bool {
        self.0.is_nan()
    }

    fn add(self, other: Self) -> Self {
        F64(self.0 + other.0)
    }

    fn sub(self, other: Self) -> Self {
        F64(self.0 - other.0)
    }

    fn mul(self, other: Self) -> Self {
        F64(self.0 * other.0)
    }

    fn div(self, other: Self) -> Self {
        F64(self.0 / other.0)
    }

    fn neg(self) -> Self {
        F64(-self.0)
    }

    fn abs(self) -> Self {
        F64(self.0.abs())
    }

    fn sqrt(self) -> Self {
        F64(self.0.sqrt())
    }

    fn exp(self) -> Self {
        F64(self.0.exp())
    }

    fn min(self, other: Self) -> Self {
        F64(self.0.min(other.0))
    }

    fn max(self, other: Self) -> Self {
        F64(self.0.max(other.0))
    }

    fn lt(self, other: Self) -> bool {
        self.0 < other.0
    }

    fn same(self, other: Self) -> bool {
        self.0 == other.0
    }

    fn round(self) -> i64 {
        self.0.round() as i64
    }

    fn is_broken(self) -> bool {
        self.0.fract() != 0.0
    }

    fn text(self) -> String {
        format!("{}", self.0)
    }

    fn text_to(self, places: usize) -> String {
        format!("{:.*}", places, self.0)
    }
}

#[derive(Clone, Copy, PartialEq)]
enum Read {
    Unknown,
    Yes,
    No,
}

impl Outcome for Read {
    fn is_default(self) -> bool {
        self == Read::Unknown
    }
}

#[derive(Clone, Copy)]
struct Verdict([F64; 3]);

impl Flat<F64> for Verdict {
    fn fills(&self) {}

    fn shaped() {}

    fn dims() -> Vec<usize> {
        vec![3]
    }

    fn len() -> usize {
        3
    }

    fn flat(&self, out: &mut [F64]) -> bool {
        self.0.flat(out)
    }

    fn fires(&self) -> usize {
        1
    }
}

impl ProbabilisticDistribution<F64> for Verdict {
    type Outcome = Read;

    fn outcomes() -> Vec<Read> {
        vec![Read::Unknown, Read::Yes, Read::No]
    }

    fn points() -> F64 {
        F64(16.0)
    }
}

fn check(points: [f64; 3], expect: [f64; 3]) {
    let mut scored = points.map(F64);
    Verdict::certainty(&mut scored);
    let got = scored.map(|x| x.0);
    assert_eq!(got.iter().sum::<f64>(), 1.0, "{points:?} left the space unallocated: {got:?}");
    assert_eq!(got, expect, "{points:?}");
}

#[test]
fn unscored_points_are_the_default_outcome() {
    check([0.0, 0.0, 0.0], [1.0, 0.0, 0.0]);
    // one point out of the root's four: a whisper, and the rest of the space stays unsure.
    check([0.0, 1.0, 0.0], [0.75, 0.25, 0.0]);
    check([1.0, 1.0, 0.0], [0.75, 0.25, 0.0]);
    check([0.0, 3.0, 1.0], [0.0, 0.75, 0.25]);
    // past the root the evidence is overwhelming, and certainty is the split between the outcomes.
    check([0.0, 5.0, 3.0], [0.0, 0.625, 0.375]);
}
