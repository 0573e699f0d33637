//! One kernel, `(x0 + x1)^2 + |x0 - 1|`, read four ways: value, exact gradient against a central
//! difference, symbolic derivative against the gradient, and the written forms.

use trading_data::algebra::{
    abs, constant, exp, gt, lt, max, min, powi_of, select, sqrt, square, sum, Vars,
};
use trading_data::ast::Ast;
use trading_data::expr::Expr;
use trading_data::scalar::Scalar;

/// A machine float as a scalar.
#[derive(Clone, Copy, Debug, PartialEq, PartialOrd)]
struct F64(f64);

impl Scalar for F64 {
    fn zero_equals_zero() {}

    fn one_is_not_zero() {}

    fn none_is_absent() {}

    fn of(n: i64) -> Self {
        F64(n as f64)
    }

    fn nan() -> Self {
        F64(f64::NAN)
    }

    fn is_nan(self) -> bool {
        self.0.is_nan()
    }

    fn add(self, other: Self) -> Self {
        F64(self.0 + other.0)
    }

    fn sub(self, other: Self) -> Self {
        F64(self.0 - other.0)
    }

    fn mul(self, other: Self) -> Self {
        F64(self.0 * other.0)
    }

    fn div(self, other: Self) -> Self {
        F64(self.0 / other.0)
    }

    fn neg(self) -> Self {
        F64(-self.0)
    }

    fn abs(self) -> Self {
        F64(self.0.abs())
    }

    fn sqrt(self) -> Self {
        F64(self.0.sqrt())
    }

    fn exp(self) -> Self {
        F64(self.0.exp())
    }

    fn min(self, other: Self) -> Self {
        F64(self.0.min(other.0))
    }

    fn max(self, other: Self) -> Self {
        F64(self.0.max(other.0))
    }

    fn lt(self, other: Self) -> bool {
        self.0 < other.0
    }

    fn same(self, other: Self) -> bool {
        self.0 == other.0
    }

    fn round(self) -> i64 {
        self.0.round() as i64
    }

    fn is_broken(self) -> bool {
        self.0.fract() != 0.0
    }

    fn text(self) -> String {
        format!("{}", self.0)
    }

    fn text_to(self, places: usize) -> String {
        format!("{:.*}", places, self.0)
    }
}

/// The shared kernel; every test reads the same source of truth.
fn kernel() -> impl Expr<F64> {
    let v = Vars;
    let (x0, x1) = (v.get::<0>(), v.get::<1>());
    square(x0 + x1) + abs(x0 - constant(F64(1.0)))
}

fn env_of(env: &[f64]) -> Vec<F64> {
    env.iter().map(|x| F64(*x)).collect()
}

fn eval(e: &impl Expr<F64>, env: &[f64]) -> f64 {
    e.eval(&env_of(env)).0
}

fn grad(e: &impl Expr<F64>, env: &[f64]) -> (f64, [f64; 2]) {
    let mut g = [F64(0.0); 2];
    let val = e.grad(&env_of(env), F64(1.0), &mut g);
    (val.0, g.map(|x| x.0))
}

fn read(e: &Ast<F64>, env: &[f64]) -> f64 {
    e.eval(&env_of(env)).0
}

fn central_fd(e: &impl Expr<F64>, env: &[f64], i: usize) -> f64 {
    let h = 1e-6;
    let (mut ep, mut em) = (env.to_vec(), env.to_vec());
    ep[i] += h;
    em[i] -= h;
    (eval(e, &ep) - eval(e, &em)) / (2.0 * h)
}

#[test]
fn eval_matches_hand_computation() {
    let e = kernel();
    // (3 + 5)^2 + |3 - 1| = 64 + 2
    assert_eq!(eval(&e, &[3.0, 5.0]), 66.0);
    assert_eq!(eval(&e, &[0.0, 0.0]), 1.0);
}

#[test]
fn grad_matches_central_difference() {
    let e = kernel();
    let env = [3.0, 5.0];
    let (val, g) = grad(&e, &env);
    assert_eq!(val, 66.0);
    // 2(x0+x1) + sign(x0-1) = 17, 2(x0+x1) = 16
    assert!((g[0] - 17.0).abs() < 1e-9, "{g:?}");
    assert!((g[1] - 16.0).abs() < 1e-9, "{g:?}");
    for i in 0..2 {
        assert!((g[i] - central_fd(&e, &env, i)).abs() < 1e-4, "grad {i} vs the difference: {g:?}");
    }
}

#[test]
fn symbolic_derivative_matches_grad_on_random_envs() {
    let e = kernel();
    let ast = e.lower();
    // a deterministic generator; x0 kept clear of the kink at 1.
    let mut s: u64 = 0x9e37_79b9_7f4a_7c15;
    let mut rng = || {
        s = s.wrapping_mul(6364136223846793005).wrapping_add(1442695040888963407);
        (s >> 33) as f64 / (1u64 << 31) as f64
    };
    for _ in 0..64 {
        let env = [2.0 + rng() * 5.0, rng() * 6.0 - 3.0];
        let (_, g) = grad(&e, &env);
        for i in 0..2 {
            let d = ast.diff(i).simplify();
            let got = read(&d, &env);
            assert!((got - g[i]).abs() < 1e-9, "{i} {} at {env:?}: {got} vs {}", d.infix(), g[i]);
        }
    }
}

#[test]
fn latex_and_infix_render() {
    let ast = kernel().lower();
    assert_eq!(ast.infix(), "((x0 + x1)^2 + |(x0 - 1)|)");
    assert_eq!(
        ast.latex(&["x", "y"]),
        "\\left(\\left(x + y\\right)^{2} + \\left|\\left(x - 1\\right)\\right|\\right)"
    );
}

#[test]
fn trace_renders_intermediate_values() {
    let trace = kernel().lower().trace(&[F64(3.0), F64(5.0)]);
    let expected = "\
◉ +: 66
├──◉ sq: 64
│  └──◉ +: 8
│     ├──◉ var: 3
│     └──◉ var: 5
└──◉ abs: 2
   └──◉ -: 2
      ├──◉ var: 3
      └──◉ const: 1";
    assert_eq!(trace.text(), expected);
}

#[test]
fn simplify_clears_derivative_litter() {
    // d/dx1 of the kernel is 2(x0+x1) with the other term vanishing: no 0-terms, no factors of 1 left.
    let d = kernel().lower().diff(1).simplify();
    assert_eq!(d.infix(), "(2 * (x0 + x1))");
}

/// One expression at `(1.5, 2.5)`: `grad`'s chain rule against a central difference of `eval`, and the
/// symbolic derivative as a third reading of the same number.
fn agrees(label: &str, e: impl Expr<F64>) {
    let env = [1.5, 2.5];
    let (val, g) = grad(&e, &env);
    assert!((val - eval(&e, &env)).abs() < 1e-12, "{label}: grad's value disagrees with eval");
    for i in 0..2 {
        let fd = central_fd(&e, &env, i);
        assert!(
            (g[i] - fd).abs() < 1e-4 * fd.abs().max(1.0),
            "{label} {i}: grad {} vs central difference {fd}",
            g[i]
        );
    }
    let ast = e.lower();
    for i in 0..2 {
        let d = read(&ast.diff(i).simplify(), &env);
        assert!((d - g[i]).abs() < 1e-9, "{label} {i}: `diff` {d} vs `grad` {}", g[i]);
    }
}

/// Every operator, differentiated two ways that share no code. A comparison carries a step, so it is
/// sampled away from it: a difference across a jump is not a slope, and neither reading claims one.
#[test]
fn every_operator_agrees_with_a_numeric_difference() {
    let v = Vars;
    agrees("add", v.get::<0>() + v.get::<1>());
    agrees("sub", v.get::<0>() - v.get::<1>());
    agrees("mul", v.get::<0>() * v.get::<1>());
    agrees("div", v.get::<0>() / v.get::<1>());
    agrees("neg", -(v.get::<0>() * v.get::<1>()));
    agrees("square", square(v.get::<0>() + v.get::<1>()));
    agrees("abs", abs(v.get::<0>() - v.get::<1>()));
    agrees("sum", sum([v.get::<0>(), v.get::<0>()]) + v.get::<1>());
    agrees("sqrt", sqrt(v.get::<0>() * v.get::<1>()));
    agrees("exp", exp(v.get::<0>() - v.get::<1>()));
    agrees("powi", powi_of(v.get::<0>() + v.get::<1>(), 3));
    agrees("powi-", powi_of(v.get::<0>() + v.get::<1>(), -2));
    agrees("min", min(v.get::<0>(), v.get::<1>()) * constant(F64(2.0)));
    agrees("max", max(v.get::<0>(), v.get::<1>()) * constant(F64(2.0)));
    agrees("cmp", lt(v.get::<0>(), v.get::<1>()));
    agrees("cmp-gt", gt(v.get::<0>(), v.get::<1>()));
    agrees("select", select(lt(v.get::<0>(), v.get::<1>()), square(v.get::<0>()), v.get::<1>()));
}

/// `min` and `max` are branches, and both readings must take the *same* branch.
#[test]
fn min_and_max_break_ties_the_same_way_in_both_readings() {
    for build in [0, 1] {
        let v = Vars;
        let env = [2.0, 2.0];
        let (g, ast) = match build {
            0 => {
                let e = min(v.get::<0>(), v.get::<1>());
                (grad(&e, &env).1, e.lower())
            }
            _ => {
                let e = max(v.get::<0>(), v.get::<1>());
                (grad(&e, &env).1, e.lower())
            }
        };
        // the tie goes right, so the whole seed lands on x1 and none on x0
        assert_eq!(g, [0.0, 1.0], "build {build}");
        for i in 0..2 {
            assert_eq!(read(&ast.diff(i).simplify(), &env), g[i], "build {build} {i}");
        }
    }
}

/// A deterministic generator.
struct Lcg(u64);

impl Lcg {
    fn next(&mut self) -> u64 {
        self.0 = self.0.wrapping_mul(6364136223846793005).wrapping_add(1442695040888963407);
        self.0 >> 33
    }

    fn below(&mut self, n: u64) -> u64 {
        self.next() % n
    }

    fn span(&mut self, lo: f64, hi: f64) -> f64 {
        lo + (hi - lo) * (self.next() % 4096) as f64 / 4095.0
    }
}

const VARS: usize = 3;

fn leaf(r: &mut Lcg) -> Ast<F64> {
    match r.below(3) {
        0 => Ast::Const(F64(r.span(-3.0, 3.0))),
        _ => Ast::Var(r.below(VARS as u64) as usize),
    }
}

fn branch(r: &mut Lcg, depth: u32) -> Box<Ast<F64>> {
    Box::new(tree(r, depth - 1))
}

fn number(x: f64) -> Box<Ast<F64>> {
    Box::new(Ast::Const(F64(x)))
}

/// A random tree, bounded in depth. Every node kind is in the draw, kinks included: a kink is not
/// avoided, it is *detected* below.
///
/// What *is* avoided is leaving the algebra's domain: a root takes a magnitude, a quotient a
/// denominator that cannot be zero, a power a non-negative exponent, and an exponential an argument
/// bounded above.
fn tree(r: &mut Lcg, depth: u32) -> Ast<F64> {
    if depth == 0 {
        return leaf(r);
    }
    match r.below(16) {
        0 => Ast::Add(branch(r, depth), branch(r, depth)),
        1 => Ast::Sub(branch(r, depth), branch(r, depth)),
        2 => Ast::Mul(branch(r, depth), branch(r, depth)),
        3 => Ast::Div(
            branch(r, depth),
            Box::new(Ast::Add(Box::new(Ast::Abs(branch(r, depth))), number(1.0))),
        ),
        4 => Ast::Neg(branch(r, depth)),
        5 => Ast::Square(branch(r, depth)),
        6 => Ast::Abs(branch(r, depth)),
        7 => Ast::Sqrt(Box::new(Ast::Abs(branch(r, depth)))),
        // an unbounded exponential overflows to infinity, and two infinities meeting is no number
        8 => Ast::Exp(Box::new(Ast::Min(branch(r, depth), number(4.0)))),
        9 => Ast::Powi(branch(r, depth), r.below(4) as i32),
        10 => Ast::Min(branch(r, depth), branch(r, depth)),
        11 => Ast::Max(branch(r, depth), branch(r, depth)),
        12 => Ast::Cmp(branch(r, depth), branch(r, depth)),
        13 => Ast::Select(branch(r, depth), branch(r, depth), branch(r, depth)),
        14 => Ast::Sum((0..2 + r.below(2)).map(|_| tree(r, depth - 1)).collect()),
        _ => leaf(r),
    }
}

/// Whether every *subexpression* is finite here, not merely the root: an infinity swallowed by a
/// minimum still poisons the difference taken around it, and the root would never say so.
fn finite_everywhere(e: &Ast<F64>, env: &[f64]) -> bool {
    if !read(e, env).is_finite() {
        return false;
    }
    let kids: Vec<&Ast<F64>> = match e {
        Ast::Const(_) | Ast::Var(_) => vec![],
        Ast::Neg(a)
        | Ast::Square(a)
        | Ast::Abs(a)
        | Ast::Sqrt(a)
        | Ast::Exp(a)
        | Ast::IsNan(a)
        | Ast::Powi(a, _) => vec![&**a],
        Ast::Add(a, b)
        | Ast::Sub(a, b)
        | Ast::Mul(a, b)
        | Ast::Div(a, b)
        | Ast::Min(a, b)
        | Ast::Max(a, b)
        | Ast::Cmp(a, b) => vec![&**a, &**b],
        Ast::Select(a, b, c) => vec![&**a, &**b, &**c],
        Ast::Sum(xs) => xs.iter().collect(),
    };
    kids.into_iter().all(|k| finite_everywhere(k, env))
}

/// The central difference at `h` and at `2h`, extrapolated, and `None` where the two disagree: a point
/// the *difference* cannot resolve is no evidence about the derivative.
fn difference(e: &Ast<F64>, env: &[f64], i: usize) -> Option<f64> {
    let at = |h: f64| {
        let (mut p, mut m) = (env.to_vec(), env.to_vec());
        p[i] += h;
        m[i] -= h;
        let (a, b) = (read(e, &p), read(e, &m));
        if a.is_finite() && b.is_finite() && a.abs() < 1e9 && b.abs() < 1e9 {
            Some((a - b) / (2.0 * h))
        } else {
            None
        }
    };
    let h = 1e-5;
    let (fine, coarse) = (at(h)?, at(2.0 * h)?);
    if (fine - coarse).abs() <= 1e-4 * (1.0 + fine.abs()) {
        Some((4.0 * fine - coarse) / 3.0)
    } else {
        None
    }
}

/// Every reading of one expression agrees: the symbolic derivative, the simplified symbolic derivative,
/// and the numeric difference.
#[test]
fn the_symbolic_derivative_is_the_numeric_one() {
    let mut r = Lcg(0x9e37_79b9_7f4a_7c15);
    let (mut checked, mut skipped) = (0u32, 0u32);
    for _ in 0..2_000 {
        let depth = 1 + r.below(4) as u32;
        let e = tree(&mut r, depth);
        let env: Vec<f64> = (0..VARS).map(|_| r.span(0.4, 2.6)).collect();
        if !finite_everywhere(&e, &env) {
            continue;
        }
        for i in 0..VARS {
            let d = e.diff(i);
            let (raw, exact) = (read(&d, &env), read(&d.simplify(), &env));
            // Simplification is a rewrite of the same expression, so where both readings are numbers
            // they are the same number; where the raw one is not, simplifying has removed an
            // indeterminacy the chain rule wrote down and cannot cancel by evaluating.
            if raw.is_finite() {
                assert!(
                    (raw - exact).abs() <= 1e-9 * (1.0 + raw.abs()),
                    "simplify moved {i} of {} from {raw} to {exact} at {env:?}",
                    e.infix()
                );
            }
            let Some(fd) = difference(&e, &env, i) else {
                skipped += 1;
                continue;
            };
            if !exact.is_finite() {
                skipped += 1;
                continue;
            }
            checked += 1;
            assert!(
                (exact - fd).abs() <= 1e-4 * (1.0 + exact.abs().max(fd.abs())),
                "{i} of {} at {env:?}: algebra says {exact}, the difference says {fd}",
                e.infix()
            );
        }
    }
    // Loud, because a conditioning test that rejected everything would report green.
    assert!(
        checked > 2_000,
        "only {checked} of {} points were well-conditioned enough to check",
        checked + skipped
    );
}

/// Simplifying twice is simplifying once.
#[test]
fn the_simplest_form_is_its_own() {
    let mut r = Lcg(7);
    for _ in 0..500 {
        let depth = 1 + r.below(4) as u32;
        let e = tree(&mut r, depth);
        for s in [e.simplify(), e.diff(0).simplify()] {
            assert_eq!(s.simplify().infix(), s.infix(), "{}", e.infix());
        }
    }
}
