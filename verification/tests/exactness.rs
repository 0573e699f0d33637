//! The algebra over whole numbers, whose arithmetic is exact: every reading of one expression is one
//! number.

use trading_data::algebra::{constant, lt, max, min, powi_of, select, square, sum, Vars};
use trading_data::expr::Expr;
use trading_data::scalar::Scalar;
use trading_data::whole::Whole;

fn w(n: i64) -> Whole {
    Whole(Some(n))
}

fn agrees(label: &str, e: impl Expr<Whole>, env: [i64; 2]) {
    let env = env.map(w);
    let mut g = [w(100), w(-7)];
    let value = e.grad(&env, w(3), &mut g);
    assert_eq!(value.0, e.eval(&env).0, "{label}");
    let tree = e.lower();
    assert_eq!(tree.eval(&env).0, e.eval(&env).0, "{label}: the two planes");
    for (i, before) in [(0, 100), (1, -7)] {
        let d = tree.diff(i);
        let slope = d.eval(&env).0.expect("a number");
        assert_eq!(g[i].0, Some(before + 3 * slope), "{label} {i}: seed times the slope is added");
        assert_eq!(d.simplify().eval(&env).0, Some(slope), "{label} {i}: simplified");
    }
}

#[test]
fn the_gradient_is_the_derivative() {
    let v = Vars;
    let (x, y) = (v.get::<0>(), v.get::<1>());
    agrees("sum", x + y, [3, 5]);
    agrees("difference", x - y, [3, 5]);
    agrees("product", x * y * x, [3, 5]);
    agrees("negation", -(x * y), [3, 5]);
    agrees("square", square(x - y), [3, 5]);
    agrees("power", powi_of(x + y, 3), [3, -5]);
    agrees("several", sum([x, x]) + y * constant(w(4)), [3, 5]);
    agrees("larger", max(x * x, y), [3, 5]);
    agrees("choice", select(lt(x, y), x * y, y), [3, 5]);
    agrees("other choice", select(lt(y, x), x * y, y), [3, 5]);
}

#[test]
fn a_quotient_that_is_no_whole_number_is_none() {
    let v = Vars;
    let e = v.get::<0>() / v.get::<1>();
    assert_eq!(e.eval(&[w(12), w(4)]).0, Some(3));
    assert_eq!(e.eval(&[w(12), w(5)]).0, None);
    assert_eq!(e.eval(&[w(12), w(0)]).0, None);
    assert_eq!(w(49).sqrt().0, Some(7));
    assert_eq!(w(50).sqrt().0, None);
    assert_eq!(w(7).text(), "7");
}

fn sloped(label: &str, e: impl Expr<Whole>, env: [i64; 2]) {
    let tree = e.lower();
    let at = |env: [i64; 2]| tree.eval(&env.map(w)).0.expect("a number");
    for var in 0..2 {
        let slope = tree.diff(var).eval(&env.map(w)).0.expect("a number");
        for h in [-3, -2, -1, 1, 2, 7] {
            let mut moved = env;
            moved[var] += h;
            let left = at(moved) - at(env) - h * slope;
            assert_eq!(left % (h * h), 0, "{label} {var}: what is beyond the slope is of the second order");
        }
    }
}

/// Moving one variable moves a smooth expression by its slope, and by the square of the step beyond
/// that.
#[test]
fn a_derivative_is_the_slope() {
    let v = Vars;
    let (x, y) = (v.get::<0>(), v.get::<1>());
    sloped("sum", x + y - constant(w(4)), [3, 5]);
    sloped("product", x * y * x, [3, 5]);
    sloped("square", -square(x - y), [3, 5]);
    sloped("power", powi_of(x + y, 5), [3, -5]);
    sloped("several", sum([x * y, x * y]) + powi_of(x, 3), [-2, 11]);
    sloped("negated quotient", x * y / constant(w(-1)), [3, 5]);
    sloped("larger", max(x * x, y), [20, 5]);
    sloped("smaller", min(x * x, y), [20, 5]);
    sloped("choice", select(lt(x, y), x * y * x, y), [3, 50]);
    sloped("comparison", lt(x, y) * x * x, [3, 50]);
    let cube = powi_of(x, 3).lower();
    assert_eq!(cube.eval(&[w(12)]).0, Some(1728));
    assert_eq!(cube.diff(0).eval(&[w(10)]).0, Some(300));
    assert_eq!(1728 - 1000, 2 * 300 + 2 * 2 * (3 * 10 + 2));
}
