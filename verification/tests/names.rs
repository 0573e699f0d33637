//! Names, reaches and what a graph's shape may hold.

use trading_data::horizon::{Horizon, Timeframe};
use trading_data::manifest::{
    all, any, clock_divides, contains, cut_gated, deadlocked, distinct, gates_on, gating_leads,
    str_eq, NodeMeta,
};
use trading_data::plot::Plot;
use trading_data::tag::Tag;

#[test]
fn a_timeframe_is_spelled_in_its_largest_unit() {
    let spelled = |ms: u64| String::from(Tag::new("", Timeframe(ms)).as_str());
    assert_eq!(spelled(60_000), "1m");
    assert_eq!(spelled(90_000), "90s");
    assert_eq!(spelled(250), "250ms");
    assert_eq!(spelled(14_400_000), "4h");
    assert_eq!(spelled(604_800_000), "1w");
    assert_eq!(spelled(2_592_000_000), "1M");
}

#[test]
fn a_tag_is_spelled_from_its_parts() {
    assert_eq!(Tag::of("Rsi", &["Bar:1m", "14/9"]).as_str(), "Rsi<Bar:1m, 14/9>");
    assert_eq!(Tag::new("Bar:", Timeframe(60_000)).then(Timeframe(3_600_000)).as_str(), "Bar:1m/1h");
    assert_eq!(Tag::new("w", Timeframe(1_000)).count(12).as_str(), "w1sx12");
}

#[test]
fn a_reach_is_tagged_as_it_reads() {
    assert_eq!(Horizon::Unit.tag().as_str(), "Unit");
    assert_eq!(Horizon::Elems(181).tag().as_str(), "Elems(181)");
    assert_eq!(Horizon::Over(Timeframe(180_000)).tag().as_str(), "Over(3m)");
    assert_eq!(Horizon::Unbounded.tag().as_str(), "Unbounded");
}

#[test]
fn a_joined_reach_serves_both() {
    let (few, many) = (Horizon::Elems(3), Horizon::Elems(9));
    let (hour, day) = (Horizon::Over(Timeframe(3_600_000)), Horizon::Over(Timeframe(86_400_000)));
    assert_eq!(few.join(many), many);
    assert_eq!(hour.join(day), day);
    for (a, b) in [(few, many), (hour, day), (few, hour), (day, many)] {
        let j = a.join(b);
        assert!(j.serves(a) && j.serves(b), "{a:?} {b:?} {j:?}");
    }
    assert!(!few.serves(many) && !few.serves(hour));
    assert_eq!(Horizon::Unit.join(day), day);
    assert_eq!(Horizon::Unbounded.join(few), Horizon::Unbounded);
}

#[test]
fn flags_are_read_together() {
    assert!(any(&[false, true]) && !any(&[]));
    assert!(all(&[true, true]) && all(&[]) && !all(&[true, false]));
    assert!(gating_leads(&[true, true, false]) && !gating_leads(&[false, true]));
}

#[test]
fn a_clock_is_delivered_by_what_divides_it() {
    let (minute, hour, odd) = (Some(Timeframe(60_000)), Some(Timeframe(3_600_000)), Some(Timeframe(7_000)));
    assert!(clock_divides(hour, &[minute, None]));
    assert!(!clock_divides(hour, &[odd]));
    assert!(clock_divides(None, &[odd, minute]));
}

#[test]
fn names_are_told_apart() {
    assert!(str_eq("a", "a") && !str_eq("a", "b") && !str_eq("a", "ab"));
    assert!(distinct(&["a", "b"]) && !distinct(&["a", "b", "a"]));
    assert!(contains(&["a", "b"], "b") && !contains(&["a"], "b"));
    assert!(gates_on(&["a", "b"], &[false, true], "b") && !gates_on(&["a", "b"], &[false, true], "a"));
}

#[test]
fn a_latch_behind_its_own_contact_never_arms() {
    let node = |name: &'static str, deps: &'static [&'static str], gates: &'static [bool]| NodeMeta {
        name,
        deps,
        gates,
        latch: false,
    };
    let free = [node("Arm", &["Feed"], &[false]), node("Cut", &["L", "Feed"], &[true, false])];
    assert!(!deadlocked("L", &["Arm"], &free));
    assert!(cut_gated("Cut", "L", &free));
    let stuck = [node("Arm", &["L", "Feed"], &[true, false]), node("Cut", &["Feed"], &[false])];
    assert!(deadlocked("L", &["Arm"], &stuck));
    assert!(!cut_gated("Cut", "L", &stuck));
}

#[test]
fn plots_divide_an_out_between_them() {
    let one = Plot::default();
    assert!(Plot::coherent(&[one], &[2]));
    assert!(!Plot::coherent(&[one, one], &[2]), "two plots cannot both draw everything");
    let named = Plot { labels: &[&["actual", "smooth"]], ..Plot::default() };
    assert!(Plot::coherent(&[named], &[2]) && !Plot::coherent(&[named], &[3]));
    let candles = Plot { slots: &[0, 1, 2, 3], candles: true, overlay: true, ..Plot::default() };
    assert!(Plot::coherent(&[candles], &[5]));
    assert!(!Plot::coherent(&[Plot { overlay: false, ..candles }], &[5]));
    assert!(!Plot::coherent(&[Plot { slots: &[0, 1], ..candles }], &[5]));
}
