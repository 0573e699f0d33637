use trading_data::ts::{offset, to_local, Exact, Leg, RoundTrip, Span, Ts, Venue};

#[test]
fn floor_buckets_below_and_is_idempotent() {
    let minute = Exact::from_nanos(60_000_000_000);
    let t = Ts::<Venue>::from_nanos(125_000_000_000);
    let f = t.floor(minute);
    assert_eq!(f.as_nanos(), 120_000_000_000);
    assert_eq!(f.floor(minute), f);
    assert!(f <= t && t - f < minute);
}

#[test]
fn offset_recovers_a_known_skew() {
    // venue clock runs 5s ahead; 1s each way on the wire.
    let skew = 5_000_000_000;
    let rt = RoundTrip {
        out: Leg {
            exec_at: Ts::from_nanos(0),
            send: Ts::from_nanos(0),
            recv: Ts::from_nanos(1_000_000_000 + skew),
        },
        back: Leg {
            exec_at: Ts::from_nanos(1_000_000_000 + skew),
            send: Ts::from_nanos(1_000_000_000 + skew),
            recv: Ts::from_nanos(2_000_000_000),
        },
    };
    let o = offset(&rt);
    let b = to_local(Ts::<Venue>::from_nanos(skew), o);
    assert!(b.lo <= 0 && 0 <= b.hi, "true local time 0 must lie in {b:?}");
    assert_eq!(o.est.as_nanos(), skew);
    assert_eq!(o.uncertainty.as_nanos(), 1_000_000_000);
}

#[test]
fn an_instant_converts_there_and_back() {
    let t = Ts::<Venue>::from_nanos(1_735_862_400_000_000_007);
    let j = t.to_jiff();
    assert_eq!(j.as_nanosecond(), 1_735_862_400_000_000_007);
    assert_eq!(Ts::<Venue>::from(j), t);
    assert_eq!(t.text(), "2025-01-03T00:00:00.000000007Z");
}

#[test]
fn a_window_takes_another_in() {
    let a = Span::new(Ts::<Venue>::from_nanos(3), Ts::from_nanos(5));
    let b = Span::new(Ts::<Venue>::from_nanos(1), Ts::from_nanos(4));
    let u = a.including(b);
    assert_eq!((u.first.as_nanos(), u.last.as_nanos()), (1, 5));
}

fn trip(skew: i64, there: i64, dwell: i64, back: i64) -> RoundTrip {
    let (at, left) = (there + skew, there + dwell + skew);
    RoundTrip {
        out: Leg { exec_at: Ts::from_nanos(0), send: Ts::from_nanos(0), recv: Ts::from_nanos(at) },
        back: Leg {
            exec_at: Ts::from_nanos(at),
            send: Ts::from_nanos(left),
            recv: Ts::from_nanos(left - skew + back),
        },
    }
}

/// Half of an odd delay is rounded up, so the true time is held whatever the legs took.
#[test]
fn a_projection_holds_the_true_time() {
    let o = offset(&trip(5, 0, 0, 1));
    assert_eq!((o.est.as_nanos(), o.uncertainty.as_nanos()), (4, 1));
    let b = to_local(Ts::<Venue>::from_nanos(5), o);
    assert_eq!((b.lo, b.hi), (0, 2));
    for skew in -3..=3 {
        for (there, back) in [(0, 0), (0, 1), (1, 0), (1, 1), (0, 3), (3, 0), (2, 5), (7, 0)] {
            let o = offset(&trip(skew, there, 2, back));
            let b = to_local(Ts::<Venue>::from_nanos(10 + skew), o);
            assert!(b.lo <= 10 && 10 <= b.hi, "{skew} {there} {back}: {b:?}");
        }
    }
}

#[test]
fn a_duration_is_its_nanoseconds() {
    assert_eq!(Exact::from(std::time::Duration::from_millis(1_500)).as_nanos(), 1_500_000_000);
    assert_eq!(Exact::from(std::time::Duration::new(3, 7)).as_nanos(), 3_000_000_007);
}
