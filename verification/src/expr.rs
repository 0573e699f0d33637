//! A typed primitive algebra: one expression value, four readings (evaluate, differentiate exactly,
//! document, debug).
//!
//! The expression is nested `Copy` marker structs ([`Var`], [`Const`], [`Add`] and so on).
//! [`Expr::eval`] is its value and [`Expr::grad`] accumulates exact partials by the chain rule.
//! [`Expr::lower`] projects to the runtime [`Ast`] for the documentation and debug readings.
//!
//! [`Const`] is the sole door from a number into an expression, so a body that must return one
//! *cannot* compute any other way.

use vstd::prelude::*;

use crate::ast::{lowerable, Ast};
use crate::scalar::{indicator, powi, sign, takes_left, Scalar};
use crate::scalar::{left_taken, raised, sign_of, truth};
use crate::gradient::all_partials;
use crate::tree::{all_fit, total, Tree};

verus! {

/// What an expression says of its own definedness.
pub trait Declines: Copy {
    /// Whether this expression may evaluate to no number at all, a declination. [`Absent`] is the
    /// only leaf that sets it; every operator derives it, by `||` where absence propagates and by
    /// `&&` where it is skipped.
    open spec fn may_decline() -> bool {
        arbitrary()
    }

    fn maybe(&self) -> (r: bool)
        ensures
            r == Self::may_decline(),
    ;
}

/// One expression node: evaluate, accumulate exact partials, or project to [`Ast`].
pub trait Expr<V: Scalar>: Declines {
    /// What the expression is worth where its variables are worth `env`.
    open spec fn value(&self, env: Seq<V>) -> V {
        arbitrary()
    }

    /// Whether every variable the expression reads is among the first `n`.
    open spec fn fits(&self, n: nat) -> bool {
        arbitrary()
    }

    /// The value the chain-rule pass comes to.
    open spec fn read(&self, env: Seq<V>) -> V {
        arbitrary()
    }

    /// `grad` with `seed` times the partials added in.
    open spec fn slopes(&self, env: Seq<V>, seed: V, grad: Seq<V>) -> Seq<V> {
        arbitrary()
    }

    /// The expression as a mathematical tree.
    open spec fn lowered(&self) -> Tree<V> {
        arbitrary()
    }

    /// The two planes agree: the tree is worth what the expression is worth.
    proof fn planes_agree(&self, env: Seq<V>)
        ensures
            self.lowered().value(env) == self.value(env),
    ;

    proof fn tree_fits(&self, n: nat)
        ensures
            self.lowered().fits(n) == self.fits(n),
    ;

    proof fn slopes_fill(&self, env: Seq<V>, seed: V, grad: Seq<V>)
        ensures
            self.slopes(env, seed, grad).len() == grad.len(),
    ;

    /// The chain-rule pass is the tree's.
    proof fn slopes_are_partials(&self, env: Seq<V>, seed: V, grad: Seq<V>)
        ensures
            self.slopes(env, seed, grad) == self.lowered().partials(env, seed, grad),
    ;

    fn eval(&self, env: &[V]) -> (r: V)
        requires
            self.fits(env@.len()),
        ensures
            r == self.value(env@),
    ;

    /// Chain-rule pass: returns the expression's value and adds `seed` times its partials into
    /// `grad`. `seed` is the slope of the output over this node, one at the root.
    fn grad(&self, env: &[V], seed: V, grad: &mut [V]) -> (r: V)
        requires
            self.fits(env@.len()),
            lowerable(self.lowered()),
            old(grad)@.len() == env@.len(),
        ensures
            r == self.read(env@),
            final(grad)@ == self.slopes(env@, seed, old(grad)@),
    ;

    fn lower(&self) -> (r: Ast<V>)
        ensures
            r@ == self.lowered(),
    ;
}

/// The sum of two.
#[derive(Clone, Copy)]
pub struct Add<L, R>(pub L, pub R);

impl<L: Declines, R: Declines> Declines for Add<L, R> {
    open spec fn may_decline() -> bool {
        L::may_decline() || R::may_decline()
    }

    fn maybe(&self) -> (r: bool) {
        self.0.maybe() || self.1.maybe()
    }
}

impl<V: Scalar, L: Expr<V>, R: Expr<V>> Expr<V> for Add<L, R> {
    open spec fn value(&self, env: Seq<V>) -> V {
        let (l, r) = (self.0.value(env), self.1.value(env));
        l.plus(r)
    }

    open spec fn fits(&self, n: nat) -> bool {
        self.0.fits(n) && self.1.fits(n)
    }

    open spec fn lowered(&self) -> Tree<V> {
        Tree::Add(Box::new(self.0.lowered()), Box::new(self.1.lowered()))
    }

    proof fn planes_agree(&self, env: Seq<V>) {
        self.0.planes_agree(env);
        self.1.planes_agree(env);
    }

    proof fn tree_fits(&self, n: nat) {
        self.0.tree_fits(n);
        self.1.tree_fits(n);
    }

    fn eval(&self, env: &[V]) -> (r: V) {
        let l: V = self.0.eval(env);
        let r: V = self.1.eval(env);
        l.add(r)
    }

    fn lower(&self) -> (r: Ast<V>) {
        Ast::Add(Box::new(self.0.lower()), Box::new(self.1.lower()))
    }

    open spec fn read(&self, env: Seq<V>) -> V {
        let (l, r) = (self.0.read(env), self.1.read(env));
        l.plus(r)
    }

    open spec fn slopes(&self, env: Seq<V>, seed: V, grad: Seq<V>) -> Seq<V> {
        self.1.slopes(env, seed, self.0.slopes(env, seed, grad))
    }

    proof fn slopes_fill(&self, env: Seq<V>, seed: V, grad: Seq<V>) {
        self.0.slopes_fill(env, seed, grad);
        self.1.slopes_fill(env, seed, self.0.slopes(env, seed, grad));
    }

    proof fn slopes_are_partials(&self, env: Seq<V>, seed: V, grad: Seq<V>) {
        self.0.planes_agree(env);
        self.1.planes_agree(env);
        self.0.slopes_are_partials(env, seed, grad);
        self.1.slopes_are_partials(env, seed, self.0.slopes(env, seed, grad));
    }

    fn grad(&self, env: &[V], seed: V, grad: &mut [V]) -> (r: V) {
        proof {
            self.0.slopes_fill(env@, seed, grad@);
        }
        let l: V = self.0.grad(env, seed, grad);
        let r: V = self.1.grad(env, seed, grad);
        l.add(r)
    }
}

/// The difference of two.
#[derive(Clone, Copy)]
pub struct Sub<L, R>(pub L, pub R);

impl<L: Declines, R: Declines> Declines for Sub<L, R> {
    open spec fn may_decline() -> bool {
        L::may_decline() || R::may_decline()
    }

    fn maybe(&self) -> (r: bool) {
        self.0.maybe() || self.1.maybe()
    }
}

impl<V: Scalar, L: Expr<V>, R: Expr<V>> Expr<V> for Sub<L, R> {
    open spec fn value(&self, env: Seq<V>) -> V {
        let (l, r) = (self.0.value(env), self.1.value(env));
        l.minus(r)
    }

    open spec fn fits(&self, n: nat) -> bool {
        self.0.fits(n) && self.1.fits(n)
    }

    open spec fn lowered(&self) -> Tree<V> {
        Tree::Sub(Box::new(self.0.lowered()), Box::new(self.1.lowered()))
    }

    proof fn planes_agree(&self, env: Seq<V>) {
        self.0.planes_agree(env);
        self.1.planes_agree(env);
    }

    proof fn tree_fits(&self, n: nat) {
        self.0.tree_fits(n);
        self.1.tree_fits(n);
    }

    fn eval(&self, env: &[V]) -> (r: V) {
        let l: V = self.0.eval(env);
        let r: V = self.1.eval(env);
        l.sub(r)
    }

    fn lower(&self) -> (r: Ast<V>) {
        Ast::Sub(Box::new(self.0.lower()), Box::new(self.1.lower()))
    }

    open spec fn read(&self, env: Seq<V>) -> V {
        let (l, r) = (self.0.read(env), self.1.read(env));
        l.minus(r)
    }

    open spec fn slopes(&self, env: Seq<V>, seed: V, grad: Seq<V>) -> Seq<V> {
        self.1.slopes(env, seed.negated(), self.0.slopes(env, seed, grad))
    }

    proof fn slopes_fill(&self, env: Seq<V>, seed: V, grad: Seq<V>) {
        self.0.slopes_fill(env, seed, grad);
        self.1.slopes_fill(env, seed.negated(), self.0.slopes(env, seed, grad));
    }

    proof fn slopes_are_partials(&self, env: Seq<V>, seed: V, grad: Seq<V>) {
        self.0.planes_agree(env);
        self.1.planes_agree(env);
        self.0.slopes_are_partials(env, seed, grad);
        self.1.slopes_are_partials(env, seed.negated(), self.0.slopes(env, seed, grad));
    }

    fn grad(&self, env: &[V], seed: V, grad: &mut [V]) -> (r: V) {
        proof {
            self.0.slopes_fill(env@, seed, grad@);
        }
        let l: V = self.0.grad(env, seed, grad);
        let r: V = self.1.grad(env, seed.neg(), grad);
        l.sub(r)
    }
}

/// The product of two.
#[derive(Clone, Copy)]
pub struct Mul<L, R>(pub L, pub R);

impl<L: Declines, R: Declines> Declines for Mul<L, R> {
    open spec fn may_decline() -> bool {
        L::may_decline() || R::may_decline()
    }

    fn maybe(&self) -> (r: bool) {
        self.0.maybe() || self.1.maybe()
    }
}

impl<V: Scalar, L: Expr<V>, R: Expr<V>> Expr<V> for Mul<L, R> {
    open spec fn value(&self, env: Seq<V>) -> V {
        let (l, r) = (self.0.value(env), self.1.value(env));
        l.times(r)
    }

    open spec fn fits(&self, n: nat) -> bool {
        self.0.fits(n) && self.1.fits(n)
    }

    open spec fn lowered(&self) -> Tree<V> {
        Tree::Mul(Box::new(self.0.lowered()), Box::new(self.1.lowered()))
    }

    proof fn planes_agree(&self, env: Seq<V>) {
        self.0.planes_agree(env);
        self.1.planes_agree(env);
    }

    proof fn tree_fits(&self, n: nat) {
        self.0.tree_fits(n);
        self.1.tree_fits(n);
    }

    fn eval(&self, env: &[V]) -> (r: V) {
        let l: V = self.0.eval(env);
        let r: V = self.1.eval(env);
        l.mul(r)
    }

    fn lower(&self) -> (r: Ast<V>) {
        Ast::Mul(Box::new(self.0.lower()), Box::new(self.1.lower()))
    }

    open spec fn read(&self, env: Seq<V>) -> V {
        let (l, r) = (self.0.value(env), self.1.value(env));
        l.times(r)
    }

    open spec fn slopes(&self, env: Seq<V>, seed: V, grad: Seq<V>) -> Seq<V> {
        let (l, r) = (self.0.value(env), self.1.value(env));
        self.1.slopes(env, seed.times(l), self.0.slopes(env, seed.times(r), grad))
    }

    proof fn slopes_fill(&self, env: Seq<V>, seed: V, grad: Seq<V>) {
        let (l, r) = (self.0.value(env), self.1.value(env));
        self.0.slopes_fill(env, seed.times(r), grad);
        self.1.slopes_fill(env, seed.times(l), self.0.slopes(env, seed.times(r), grad));
    }

    proof fn slopes_are_partials(&self, env: Seq<V>, seed: V, grad: Seq<V>) {
        self.0.planes_agree(env);
        self.1.planes_agree(env);
        let (l, r) = (self.0.value(env), self.1.value(env));
        self.0.slopes_are_partials(env, seed.times(r), grad);
        self.1.slopes_are_partials(env, seed.times(l), self.0.slopes(env, seed.times(r), grad));
    }

    fn grad(&self, env: &[V], seed: V, grad: &mut [V]) -> (val: V) {
        let l: V = self.0.eval(env);
        let r: V = self.1.eval(env);
        proof {
            self.0.slopes_fill(env@, seed.times(r), grad@);
        }
        self.0.grad(env, seed.mul(r), grad);
        self.1.grad(env, seed.mul(l), grad);
        l.mul(r)
    }
}

/// The quotient of two.
#[derive(Clone, Copy)]
pub struct Div<L, R>(pub L, pub R);

impl<L: Declines, R: Declines> Declines for Div<L, R> {
    open spec fn may_decline() -> bool {
        L::may_decline() || R::may_decline()
    }

    fn maybe(&self) -> (r: bool) {
        self.0.maybe() || self.1.maybe()
    }
}

impl<V: Scalar, L: Expr<V>, R: Expr<V>> Expr<V> for Div<L, R> {
    open spec fn value(&self, env: Seq<V>) -> V {
        let (l, r) = (self.0.value(env), self.1.value(env));
        l.over(r)
    }

    open spec fn fits(&self, n: nat) -> bool {
        self.0.fits(n) && self.1.fits(n)
    }

    open spec fn lowered(&self) -> Tree<V> {
        Tree::Div(Box::new(self.0.lowered()), Box::new(self.1.lowered()))
    }

    proof fn planes_agree(&self, env: Seq<V>) {
        self.0.planes_agree(env);
        self.1.planes_agree(env);
    }

    proof fn tree_fits(&self, n: nat) {
        self.0.tree_fits(n);
        self.1.tree_fits(n);
    }

    fn eval(&self, env: &[V]) -> (r: V) {
        let l: V = self.0.eval(env);
        let r: V = self.1.eval(env);
        l.div(r)
    }

    fn lower(&self) -> (r: Ast<V>) {
        Ast::Div(Box::new(self.0.lower()), Box::new(self.1.lower()))
    }

    open spec fn read(&self, env: Seq<V>) -> V {
        let (l, r) = (self.0.value(env), self.1.value(env));
        l.over(r)
    }

    open spec fn slopes(&self, env: Seq<V>, seed: V, grad: Seq<V>) -> Seq<V> {
        let (l, r) = (self.0.value(env), self.1.value(env));
        self.1.slopes(env, seed.negated().times(l).over(r.times(r)), self.0.slopes(env, seed.over(r), grad))
    }

    proof fn slopes_fill(&self, env: Seq<V>, seed: V, grad: Seq<V>) {
        let (l, r) = (self.0.value(env), self.1.value(env));
        self.0.slopes_fill(env, seed.over(r), grad);
        self.1.slopes_fill(env, seed.negated().times(l).over(r.times(r)), self.0.slopes(env, seed.over(r), grad));
    }

    proof fn slopes_are_partials(&self, env: Seq<V>, seed: V, grad: Seq<V>) {
        self.0.planes_agree(env);
        self.1.planes_agree(env);
        let (l, r) = (self.0.value(env), self.1.value(env));
        self.0.slopes_are_partials(env, seed.over(r), grad);
        self.1.slopes_are_partials(env, seed.negated().times(l).over(r.times(r)), self.0.slopes(env, seed.over(r), grad));
    }

    fn grad(&self, env: &[V], seed: V, grad: &mut [V]) -> (val: V) {
        let l: V = self.0.eval(env);
        let r: V = self.1.eval(env);
        proof {
            self.0.slopes_fill(env@, seed.over(r), grad@);
        }
        self.0.grad(env, seed.div(r), grad);
        self.1.grad(env, seed.neg().mul(l).div(r.mul(r)), grad);
        l.div(r)
    }
}

/// The smaller of two. Skipped, not propagated: `min(absent, x)` is `x`, so the result is absent only
/// where both operands are.
#[derive(Clone, Copy)]
pub struct Min<L, R>(pub L, pub R);

impl<L: Declines, R: Declines> Declines for Min<L, R> {
    open spec fn may_decline() -> bool {
        L::may_decline() && R::may_decline()
    }

    fn maybe(&self) -> (r: bool) {
        self.0.maybe() && self.1.maybe()
    }
}

impl<V: Scalar, L: Expr<V>, R: Expr<V>> Expr<V> for Min<L, R> {
    open spec fn value(&self, env: Seq<V>) -> V {
        let (l, r) = (self.0.value(env), self.1.value(env));
        l.lesser(r)
    }

    open spec fn fits(&self, n: nat) -> bool {
        self.0.fits(n) && self.1.fits(n)
    }

    open spec fn lowered(&self) -> Tree<V> {
        Tree::Min(Box::new(self.0.lowered()), Box::new(self.1.lowered()))
    }

    proof fn planes_agree(&self, env: Seq<V>) {
        self.0.planes_agree(env);
        self.1.planes_agree(env);
    }

    proof fn tree_fits(&self, n: nat) {
        self.0.tree_fits(n);
        self.1.tree_fits(n);
    }

    fn eval(&self, env: &[V]) -> (r: V) {
        let l: V = self.0.eval(env);
        let r: V = self.1.eval(env);
        l.min(r)
    }

    fn lower(&self) -> (r: Ast<V>) {
        Ast::Min(Box::new(self.0.lower()), Box::new(self.1.lower()))
    }

    open spec fn read(&self, env: Seq<V>) -> V {
        let (l, r) = (self.0.value(env), self.1.value(env));
        if left_taken(l.below(r), r) {
            self.0.read(env)
        } else {
            self.1.read(env)
        }
    }

    open spec fn slopes(&self, env: Seq<V>, seed: V, grad: Seq<V>) -> Seq<V> {
        let (l, r) = (self.0.value(env), self.1.value(env));
        if left_taken(l.below(r), r) {
            self.0.slopes(env, seed, grad)
        } else {
            self.1.slopes(env, seed, grad)
        }
    }

    proof fn slopes_fill(&self, env: Seq<V>, seed: V, grad: Seq<V>) {
        self.0.slopes_fill(env, seed, grad);
        self.1.slopes_fill(env, seed, grad);
    }

    proof fn slopes_are_partials(&self, env: Seq<V>, seed: V, grad: Seq<V>) {
        self.0.planes_agree(env);
        self.1.planes_agree(env);
        self.0.slopes_are_partials(env, seed, grad);
        self.1.slopes_are_partials(env, seed, grad);
    }

    fn grad(&self, env: &[V], seed: V, grad: &mut [V]) -> (val: V) {
        let l: V = self.0.eval(env);
        let r: V = self.1.eval(env);
        if takes_left(l.lt(r), r) {
            self.0.grad(env, seed, grad)
        } else {
            self.1.grad(env, seed, grad)
        }
    }
}

/// The larger of two, an absent one skipped.
#[derive(Clone, Copy)]
pub struct Max<L, R>(pub L, pub R);

impl<L: Declines, R: Declines> Declines for Max<L, R> {
    open spec fn may_decline() -> bool {
        L::may_decline() && R::may_decline()
    }

    fn maybe(&self) -> (r: bool) {
        self.0.maybe() && self.1.maybe()
    }
}

impl<V: Scalar, L: Expr<V>, R: Expr<V>> Expr<V> for Max<L, R> {
    open spec fn value(&self, env: Seq<V>) -> V {
        let (l, r) = (self.0.value(env), self.1.value(env));
        l.greater(r)
    }

    open spec fn fits(&self, n: nat) -> bool {
        self.0.fits(n) && self.1.fits(n)
    }

    open spec fn lowered(&self) -> Tree<V> {
        Tree::Max(Box::new(self.0.lowered()), Box::new(self.1.lowered()))
    }

    proof fn planes_agree(&self, env: Seq<V>) {
        self.0.planes_agree(env);
        self.1.planes_agree(env);
    }

    proof fn tree_fits(&self, n: nat) {
        self.0.tree_fits(n);
        self.1.tree_fits(n);
    }

    fn eval(&self, env: &[V]) -> (r: V) {
        let l: V = self.0.eval(env);
        let r: V = self.1.eval(env);
        l.max(r)
    }

    fn lower(&self) -> (r: Ast<V>) {
        Ast::Max(Box::new(self.0.lower()), Box::new(self.1.lower()))
    }

    open spec fn read(&self, env: Seq<V>) -> V {
        let (l, r) = (self.0.value(env), self.1.value(env));
        if left_taken(r.below(l), r) {
            self.0.read(env)
        } else {
            self.1.read(env)
        }
    }

    open spec fn slopes(&self, env: Seq<V>, seed: V, grad: Seq<V>) -> Seq<V> {
        let (l, r) = (self.0.value(env), self.1.value(env));
        if left_taken(r.below(l), r) {
            self.0.slopes(env, seed, grad)
        } else {
            self.1.slopes(env, seed, grad)
        }
    }

    proof fn slopes_fill(&self, env: Seq<V>, seed: V, grad: Seq<V>) {
        self.0.slopes_fill(env, seed, grad);
        self.1.slopes_fill(env, seed, grad);
    }

    proof fn slopes_are_partials(&self, env: Seq<V>, seed: V, grad: Seq<V>) {
        self.0.planes_agree(env);
        self.1.planes_agree(env);
        self.0.slopes_are_partials(env, seed, grad);
        self.1.slopes_are_partials(env, seed, grad);
    }

    fn grad(&self, env: &[V], seed: V, grad: &mut [V]) -> (val: V) {
        let l: V = self.0.eval(env);
        let r: V = self.1.eval(env);
        if takes_left(r.lt(l), r) {
            self.0.grad(env, seed, grad)
        } else {
            self.1.grad(env, seed, grad)
        }
    }
}

/// One where `l < r`, zero elsewhere: the algebra's only door out of the reals, and a flat one, since
/// a predicate has no slope. `gt` is this with the arguments swapped.
#[derive(Clone, Copy)]
pub struct Cmp<L, R>(pub L, pub R);

impl<L: Declines, R: Declines> Declines for Cmp<L, R> {
    open spec fn may_decline() -> bool {
        false
    }

    fn maybe(&self) -> (r: bool) {
        false
    }
}

impl<V: Scalar, L: Expr<V>, R: Expr<V>> Expr<V> for Cmp<L, R> {
    open spec fn value(&self, env: Seq<V>) -> V {
        let (l, r) = (self.0.value(env), self.1.value(env));
        truth(l.below(r))
    }

    open spec fn fits(&self, n: nat) -> bool {
        self.0.fits(n) && self.1.fits(n)
    }

    open spec fn lowered(&self) -> Tree<V> {
        Tree::Cmp(Box::new(self.0.lowered()), Box::new(self.1.lowered()))
    }

    proof fn planes_agree(&self, env: Seq<V>) {
        self.0.planes_agree(env);
        self.1.planes_agree(env);
    }

    proof fn tree_fits(&self, n: nat) {
        self.0.tree_fits(n);
        self.1.tree_fits(n);
    }

    fn eval(&self, env: &[V]) -> (r: V) {
        let l: V = self.0.eval(env);
        let r: V = self.1.eval(env);
        indicator(l.lt(r))
    }

    fn lower(&self) -> (r: Ast<V>) {
        Ast::Cmp(Box::new(self.0.lower()), Box::new(self.1.lower()))
    }

    open spec fn read(&self, env: Seq<V>) -> V {
        self.value(env)
    }

    open spec fn slopes(&self, env: Seq<V>, seed: V, grad: Seq<V>) -> Seq<V> {
        grad
    }

    proof fn slopes_fill(&self, env: Seq<V>, seed: V, grad: Seq<V>) {
    }

    proof fn slopes_are_partials(&self, env: Seq<V>, seed: V, grad: Seq<V>) {
        self.0.planes_agree(env);
        self.1.planes_agree(env);
    }

    fn grad(&self, env: &[V], seed: V, grad: &mut [V]) -> (val: V) {
        self.eval(env)
    }
}

/// The negation.
#[derive(Clone, Copy)]
pub struct Neg<E>(pub E);

impl<E: Declines> Declines for Neg<E> {
    open spec fn may_decline() -> bool {
        E::may_decline()
    }

    fn maybe(&self) -> (r: bool) {
        self.0.maybe()
    }
}

impl<V: Scalar, E: Expr<V>> Expr<V> for Neg<E> {
    open spec fn value(&self, env: Seq<V>) -> V {
        let e = self.0.value(env);
        e.negated()
    }

    open spec fn fits(&self, n: nat) -> bool {
        self.0.fits(n)
    }

    open spec fn lowered(&self) -> Tree<V> {
        Tree::Neg(Box::new(self.0.lowered()))
    }

    proof fn planes_agree(&self, env: Seq<V>) {
        self.0.planes_agree(env);
    }

    proof fn tree_fits(&self, n: nat) {
        self.0.tree_fits(n);
    }

    fn eval(&self, env: &[V]) -> (r: V) {
        let e: V = self.0.eval(env);
        e.neg()
    }

    fn lower(&self) -> (r: Ast<V>) {
        Ast::Neg(Box::new(self.0.lower()))
    }

    open spec fn read(&self, env: Seq<V>) -> V {
        let e = self.0.read(env);
        e.negated()
    }

    open spec fn slopes(&self, env: Seq<V>, seed: V, grad: Seq<V>) -> Seq<V> {
        self.0.slopes(env, seed.negated(), grad)
    }

    proof fn slopes_fill(&self, env: Seq<V>, seed: V, grad: Seq<V>) {
        self.0.slopes_fill(env, seed.negated(), grad);
    }

    proof fn slopes_are_partials(&self, env: Seq<V>, seed: V, grad: Seq<V>) {
        self.0.planes_agree(env);
        self.0.slopes_are_partials(env, seed.negated(), grad);
    }

    fn grad(&self, env: &[V], seed: V, grad: &mut [V]) -> (r: V) {
        let e: V = self.0.grad(env, seed.neg(), grad);
        e.neg()
    }
}

/// The square.
#[derive(Clone, Copy)]
pub struct Square<E>(pub E);

impl<E: Declines> Declines for Square<E> {
    open spec fn may_decline() -> bool {
        E::may_decline()
    }

    fn maybe(&self) -> (r: bool) {
        self.0.maybe()
    }
}

impl<V: Scalar, E: Expr<V>> Expr<V> for Square<E> {
    open spec fn value(&self, env: Seq<V>) -> V {
        let e = self.0.value(env);
        e.times(e)
    }

    open spec fn fits(&self, n: nat) -> bool {
        self.0.fits(n)
    }

    open spec fn lowered(&self) -> Tree<V> {
        Tree::Square(Box::new(self.0.lowered()))
    }

    proof fn planes_agree(&self, env: Seq<V>) {
        self.0.planes_agree(env);
    }

    proof fn tree_fits(&self, n: nat) {
        self.0.tree_fits(n);
    }

    fn eval(&self, env: &[V]) -> (r: V) {
        let e: V = self.0.eval(env);
        e.mul(e)
    }

    fn lower(&self) -> (r: Ast<V>) {
        Ast::Square(Box::new(self.0.lower()))
    }

    open spec fn read(&self, env: Seq<V>) -> V {
        let e = self.0.value(env);
        e.times(e)
    }

    open spec fn slopes(&self, env: Seq<V>, seed: V, grad: Seq<V>) -> Seq<V> {
        let e = self.0.value(env);
        self.0.slopes(env, seed.times(V::whole(2)).times(e), grad)
    }

    proof fn slopes_fill(&self, env: Seq<V>, seed: V, grad: Seq<V>) {
        let e = self.0.value(env);
        self.0.slopes_fill(env, seed.times(V::whole(2)).times(e), grad);
    }

    proof fn slopes_are_partials(&self, env: Seq<V>, seed: V, grad: Seq<V>) {
        self.0.planes_agree(env);
        let e = self.0.value(env);
        self.0.slopes_are_partials(env, seed.times(V::whole(2)).times(e), grad);
    }

    fn grad(&self, env: &[V], seed: V, grad: &mut [V]) -> (r: V) {
        let e: V = self.0.eval(env);
        let val: V = e.mul(e);
        self.0.grad(env, seed.mul(V::of(2)).mul(e), grad);
        val
    }
}

/// The magnitude. At the kink the slope taken is zero.
#[derive(Clone, Copy)]
pub struct Abs<E>(pub E);

impl<E: Declines> Declines for Abs<E> {
    open spec fn may_decline() -> bool {
        E::may_decline()
    }

    fn maybe(&self) -> (r: bool) {
        self.0.maybe()
    }
}

impl<V: Scalar, E: Expr<V>> Expr<V> for Abs<E> {
    open spec fn value(&self, env: Seq<V>) -> V {
        let e = self.0.value(env);
        e.magnitude()
    }

    open spec fn fits(&self, n: nat) -> bool {
        self.0.fits(n)
    }

    open spec fn lowered(&self) -> Tree<V> {
        Tree::Abs(Box::new(self.0.lowered()))
    }

    proof fn planes_agree(&self, env: Seq<V>) {
        self.0.planes_agree(env);
    }

    proof fn tree_fits(&self, n: nat) {
        self.0.tree_fits(n);
    }

    fn eval(&self, env: &[V]) -> (r: V) {
        let e: V = self.0.eval(env);
        e.abs()
    }

    fn lower(&self) -> (r: Ast<V>) {
        Ast::Abs(Box::new(self.0.lower()))
    }

    open spec fn read(&self, env: Seq<V>) -> V {
        let e = self.0.value(env);
        e.magnitude()
    }

    open spec fn slopes(&self, env: Seq<V>, seed: V, grad: Seq<V>) -> Seq<V> {
        let e = self.0.value(env);
        self.0.slopes(env, seed.times(sign_of(e)), grad)
    }

    proof fn slopes_fill(&self, env: Seq<V>, seed: V, grad: Seq<V>) {
        let e = self.0.value(env);
        self.0.slopes_fill(env, seed.times(sign_of(e)), grad);
    }

    proof fn slopes_are_partials(&self, env: Seq<V>, seed: V, grad: Seq<V>) {
        self.0.planes_agree(env);
        let e = self.0.value(env);
        self.0.slopes_are_partials(env, seed.times(sign_of(e)), grad);
    }

    fn grad(&self, env: &[V], seed: V, grad: &mut [V]) -> (r: V) {
        let e: V = self.0.eval(env);
        let val: V = e.abs();
        self.0.grad(env, seed.mul(sign(e)), grad);
        val
    }
}

/// The square root.
#[derive(Clone, Copy)]
pub struct Sqrt<E>(pub E);

impl<E: Declines> Declines for Sqrt<E> {
    open spec fn may_decline() -> bool {
        E::may_decline()
    }

    fn maybe(&self) -> (r: bool) {
        self.0.maybe()
    }
}

impl<V: Scalar, E: Expr<V>> Expr<V> for Sqrt<E> {
    open spec fn value(&self, env: Seq<V>) -> V {
        let e = self.0.value(env);
        e.root()
    }

    open spec fn fits(&self, n: nat) -> bool {
        self.0.fits(n)
    }

    open spec fn lowered(&self) -> Tree<V> {
        Tree::Sqrt(Box::new(self.0.lowered()))
    }

    proof fn planes_agree(&self, env: Seq<V>) {
        self.0.planes_agree(env);
    }

    proof fn tree_fits(&self, n: nat) {
        self.0.tree_fits(n);
    }

    fn eval(&self, env: &[V]) -> (r: V) {
        let e: V = self.0.eval(env);
        e.sqrt()
    }

    fn lower(&self) -> (r: Ast<V>) {
        Ast::Sqrt(Box::new(self.0.lower()))
    }

    open spec fn read(&self, env: Seq<V>) -> V {
        let e = self.0.value(env);
        e.root()
    }

    open spec fn slopes(&self, env: Seq<V>, seed: V, grad: Seq<V>) -> Seq<V> {
        let e = self.0.value(env);
        self.0.slopes(env, seed.over(V::whole(2).times(e.root())), grad)
    }

    proof fn slopes_fill(&self, env: Seq<V>, seed: V, grad: Seq<V>) {
        let e = self.0.value(env);
        self.0.slopes_fill(env, seed.over(V::whole(2).times(e.root())), grad);
    }

    proof fn slopes_are_partials(&self, env: Seq<V>, seed: V, grad: Seq<V>) {
        self.0.planes_agree(env);
        let e = self.0.value(env);
        self.0.slopes_are_partials(env, seed.over(V::whole(2).times(e.root())), grad);
    }

    fn grad(&self, env: &[V], seed: V, grad: &mut [V]) -> (r: V) {
        let e: V = self.0.eval(env);
        let val: V = e.sqrt();
        self.0.grad(env, seed.div(V::of(2).mul(val)), grad);
        val
    }
}

/// The exponential.
#[derive(Clone, Copy)]
pub struct Exp<E>(pub E);

impl<E: Declines> Declines for Exp<E> {
    open spec fn may_decline() -> bool {
        E::may_decline()
    }

    fn maybe(&self) -> (r: bool) {
        self.0.maybe()
    }
}

impl<V: Scalar, E: Expr<V>> Expr<V> for Exp<E> {
    open spec fn value(&self, env: Seq<V>) -> V {
        let e = self.0.value(env);
        e.exponential()
    }

    open spec fn fits(&self, n: nat) -> bool {
        self.0.fits(n)
    }

    open spec fn lowered(&self) -> Tree<V> {
        Tree::Exp(Box::new(self.0.lowered()))
    }

    proof fn planes_agree(&self, env: Seq<V>) {
        self.0.planes_agree(env);
    }

    proof fn tree_fits(&self, n: nat) {
        self.0.tree_fits(n);
    }

    fn eval(&self, env: &[V]) -> (r: V) {
        let e: V = self.0.eval(env);
        e.exp()
    }

    fn lower(&self) -> (r: Ast<V>) {
        Ast::Exp(Box::new(self.0.lower()))
    }

    open spec fn read(&self, env: Seq<V>) -> V {
        let e = self.0.value(env);
        e.exponential()
    }

    open spec fn slopes(&self, env: Seq<V>, seed: V, grad: Seq<V>) -> Seq<V> {
        let e = self.0.value(env);
        self.0.slopes(env, seed.times(e.exponential()), grad)
    }

    proof fn slopes_fill(&self, env: Seq<V>, seed: V, grad: Seq<V>) {
        let e = self.0.value(env);
        self.0.slopes_fill(env, seed.times(e.exponential()), grad);
    }

    proof fn slopes_are_partials(&self, env: Seq<V>, seed: V, grad: Seq<V>) {
        self.0.planes_agree(env);
        let e = self.0.value(env);
        self.0.slopes_are_partials(env, seed.times(e.exponential()), grad);
    }

    fn grad(&self, env: &[V], seed: V, grad: &mut [V]) -> (r: V) {
        let e: V = self.0.eval(env);
        let val: V = e.exp();
        self.0.grad(env, seed.mul(val), grad);
        val
    }
}

/// One where the operand is no number, zero elsewhere: how the algebra *reasons* about a declination
/// instead of only carrying one.
#[derive(Clone, Copy)]
pub struct IsNan<E>(pub E);

impl<E: Declines> Declines for IsNan<E> {
    open spec fn may_decline() -> bool {
        false
    }

    fn maybe(&self) -> (r: bool) {
        false
    }
}

impl<V: Scalar, E: Expr<V>> Expr<V> for IsNan<E> {
    open spec fn value(&self, env: Seq<V>) -> V {
        let e = self.0.value(env);
        truth(e.absent())
    }

    open spec fn fits(&self, n: nat) -> bool {
        self.0.fits(n)
    }

    open spec fn lowered(&self) -> Tree<V> {
        Tree::IsNan(Box::new(self.0.lowered()))
    }

    proof fn planes_agree(&self, env: Seq<V>) {
        self.0.planes_agree(env);
    }

    proof fn tree_fits(&self, n: nat) {
        self.0.tree_fits(n);
    }

    fn eval(&self, env: &[V]) -> (r: V) {
        let e: V = self.0.eval(env);
        indicator(e.is_nan())
    }

    fn lower(&self) -> (r: Ast<V>) {
        Ast::IsNan(Box::new(self.0.lower()))
    }

    open spec fn read(&self, env: Seq<V>) -> V {
        self.value(env)
    }

    open spec fn slopes(&self, env: Seq<V>, seed: V, grad: Seq<V>) -> Seq<V> {
        grad
    }

    proof fn slopes_fill(&self, env: Seq<V>, seed: V, grad: Seq<V>) {
    }

    proof fn slopes_are_partials(&self, env: Seq<V>, seed: V, grad: Seq<V>) {
        self.0.planes_agree(env);
    }

    fn grad(&self, env: &[V], seed: V, grad: &mut [V]) -> (val: V) {
        self.eval(env)
    }
}

/// Zero-size leaf reading `env[I]`; `I` is the dep slot it stands for.
#[derive(Clone, Copy)]
pub struct Var<const I: usize>;

impl<const I: usize> Declines for Var<I> {
    open spec fn may_decline() -> bool {
        false
    }

    fn maybe(&self) -> (r: bool) {
        false
    }
}

impl<V: Scalar, const I: usize> Expr<V> for Var<I> {
    open spec fn value(&self, env: Seq<V>) -> V {
        env[I as int]
    }

    open spec fn fits(&self, n: nat) -> bool {
        I < n
    }

    open spec fn lowered(&self) -> Tree<V> {
        Tree::Var(I as int)
    }

    open spec fn read(&self, env: Seq<V>) -> V {
        env[I as int]
    }

    open spec fn slopes(&self, env: Seq<V>, seed: V, grad: Seq<V>) -> Seq<V> {
        if I < grad.len() {
            grad.update(I as int, grad[I as int].plus(seed))
        } else {
            grad
        }
    }

    proof fn planes_agree(&self, env: Seq<V>) {
    }

    proof fn tree_fits(&self, n: nat) {
    }

    proof fn slopes_fill(&self, env: Seq<V>, seed: V, grad: Seq<V>) {
    }

    proof fn slopes_are_partials(&self, env: Seq<V>, seed: V, grad: Seq<V>) {
    }

    fn eval(&self, env: &[V]) -> (r: V) {
        env[I]
    }

    fn grad(&self, env: &[V], seed: V, grad: &mut [V]) -> (r: V) {
        let sum: V = grad[I].add(seed);
        grad[I] = sum;
        env[I]
    }

    fn lower(&self) -> (r: Ast<V>) {
        Ast::Var(I)
    }
}

/// The only way a number enters the algebra.
#[derive(Clone, Copy)]
pub struct Const<V>(pub V);

impl<V: Scalar> Declines for Const<V> {
    open spec fn may_decline() -> bool {
        false
    }

    fn maybe(&self) -> (r: bool) {
        false
    }
}

impl<V: Scalar> Expr<V> for Const<V> {
    open spec fn value(&self, env: Seq<V>) -> V {
        self.0
    }

    open spec fn fits(&self, n: nat) -> bool {
        true
    }

    open spec fn lowered(&self) -> Tree<V> {
        Tree::Const(self.0)
    }

    open spec fn read(&self, env: Seq<V>) -> V {
        self.0
    }

    open spec fn slopes(&self, env: Seq<V>, seed: V, grad: Seq<V>) -> Seq<V> {
        grad
    }

    proof fn planes_agree(&self, env: Seq<V>) {
    }

    proof fn tree_fits(&self, n: nat) {
    }

    proof fn slopes_fill(&self, env: Seq<V>, seed: V, grad: Seq<V>) {
    }

    proof fn slopes_are_partials(&self, env: Seq<V>, seed: V, grad: Seq<V>) {
    }

    fn eval(&self, env: &[V]) -> (r: V) {
        self.0
    }

    fn grad(&self, env: &[V], seed: V, grad: &mut [V]) -> (r: V) {
        self.0
    }

    fn lower(&self) -> (r: Ast<V>) {
        Ast::Const(self.0)
    }
}

/// No number: how a body inside the algebra declines. A leaf of its own rather than a [`Const`] that
/// carries none, because [`Declines::may_decline`] is what the comparing operators refuse.
#[derive(Clone, Copy)]
pub struct Absent;

impl Declines for Absent {
    open spec fn may_decline() -> bool {
        true
    }

    fn maybe(&self) -> (r: bool) {
        true
    }
}

impl<V: Scalar> Expr<V> for Absent {
    open spec fn value(&self, env: Seq<V>) -> V {
        V::none()
    }

    open spec fn fits(&self, n: nat) -> bool {
        true
    }

    open spec fn lowered(&self) -> Tree<V> {
        Tree::Const(V::none())
    }

    open spec fn read(&self, env: Seq<V>) -> V {
        V::none()
    }

    open spec fn slopes(&self, env: Seq<V>, seed: V, grad: Seq<V>) -> Seq<V> {
        grad
    }

    proof fn planes_agree(&self, env: Seq<V>) {
    }

    proof fn tree_fits(&self, n: nat) {
    }

    proof fn slopes_fill(&self, env: Seq<V>, seed: V, grad: Seq<V>) {
    }

    proof fn slopes_are_partials(&self, env: Seq<V>, seed: V, grad: Seq<V>) {
    }

    fn eval(&self, env: &[V]) -> (r: V) {
        V::nan()
    }

    fn grad(&self, env: &[V], seed: V, grad: &mut [V]) -> (r: V) {
        V::nan()
    }

    fn lower(&self) -> (r: Ast<V>) {
        Ast::Const(V::nan())
    }
}

/// Integer power, so the exponent stays exact and the derivative stays in the algebra.
#[derive(Clone, Copy)]
pub struct Powi<E>(pub E, pub i32);

impl<E: Declines> Declines for Powi<E> {
    open spec fn may_decline() -> bool {
        E::may_decline()
    }

    fn maybe(&self) -> (r: bool) {
        self.0.maybe()
    }
}

impl<V: Scalar, E: Expr<V>> Expr<V> for Powi<E> {
    open spec fn value(&self, env: Seq<V>) -> V {
        raised(self.0.value(env), self.1 as int)
    }

    open spec fn fits(&self, n: nat) -> bool {
        self.0.fits(n)
    }

    open spec fn lowered(&self) -> Tree<V> {
        Tree::Powi(Box::new(self.0.lowered()), self.1 as int)
    }

    open spec fn read(&self, env: Seq<V>) -> V {
        self.value(env)
    }

    open spec fn slopes(&self, env: Seq<V>, seed: V, grad: Seq<V>) -> Seq<V> {
        let v = self.0.value(env);
        self.0.slopes(env, seed.times(V::whole(self.1 as int)).times(raised(v, self.1 - 1)), grad)
    }

    proof fn planes_agree(&self, env: Seq<V>) {
        self.0.planes_agree(env);
    }

    proof fn tree_fits(&self, n: nat) {
        self.0.tree_fits(n);
    }

    proof fn slopes_fill(&self, env: Seq<V>, seed: V, grad: Seq<V>) {
        let v = self.0.value(env);
        self.0.slopes_fill(
            env,
            seed.times(V::whole(self.1 as int)).times(raised(v, self.1 - 1)),
            grad,
        );
    }

    proof fn slopes_are_partials(&self, env: Seq<V>, seed: V, grad: Seq<V>) {
        self.0.planes_agree(env);
        let v = self.0.value(env);
        self.0.slopes_are_partials(
            env,
            seed.times(V::whole(self.1 as int)).times(raised(v, self.1 - 1)),
            grad,
        );
    }

    fn eval(&self, env: &[V]) -> (r: V) {
        powi(self.0.eval(env), self.1)
    }

    fn grad(&self, env: &[V], seed: V, grad: &mut [V]) -> (r: V) {
        let v: V = self.0.eval(env);
        self.0.grad(env, seed.mul(V::of(self.1 as i64)).mul(powi(v, self.1 - 1)), grad);
        powi(v, self.1)
    }

    fn lower(&self) -> (r: Ast<V>) {
        Ast::Powi(Box::new(self.0.lower()), self.1)
    }
}

/// `if c != 0 { a } else { b }`. The seed reaches the taken branch only, so a `Select` over a `Cmp`
/// is a piecewise expression whose derivative is the taken piece's.
#[derive(Clone, Copy)]
pub struct Select<C, A, B>(pub C, pub A, pub B);

impl<C: Declines, A: Declines, B: Declines> Declines for Select<C, A, B> {
    /// The branches, and not the condition: a `Select` is where a body *writes* a declination, and
    /// which branch is live is not a thing the type knows.
    open spec fn may_decline() -> bool {
        A::may_decline() || B::may_decline()
    }

    fn maybe(&self) -> (r: bool) {
        self.1.maybe() || self.2.maybe()
    }
}

impl<V: Scalar, C: Expr<V>, A: Expr<V>, B: Expr<V>> Expr<V> for Select<C, A, B> {
    open spec fn value(&self, env: Seq<V>) -> V {
        if !self.0.value(env).equals(V::whole(0)) {
            self.1.value(env)
        } else {
            self.2.value(env)
        }
    }

    open spec fn fits(&self, n: nat) -> bool {
        self.0.fits(n) && self.1.fits(n) && self.2.fits(n)
    }

    open spec fn lowered(&self) -> Tree<V> {
        Tree::Select(
            Box::new(self.0.lowered()),
            Box::new(self.1.lowered()),
            Box::new(self.2.lowered()),
        )
    }

    open spec fn read(&self, env: Seq<V>) -> V {
        if !self.0.value(env).equals(V::whole(0)) {
            self.1.read(env)
        } else {
            self.2.read(env)
        }
    }

    open spec fn slopes(&self, env: Seq<V>, seed: V, grad: Seq<V>) -> Seq<V> {
        if !self.0.value(env).equals(V::whole(0)) {
            self.1.slopes(env, seed, grad)
        } else {
            self.2.slopes(env, seed, grad)
        }
    }

    proof fn planes_agree(&self, env: Seq<V>) {
        self.0.planes_agree(env);
        self.1.planes_agree(env);
        self.2.planes_agree(env);
    }

    proof fn tree_fits(&self, n: nat) {
        self.0.tree_fits(n);
        self.1.tree_fits(n);
        self.2.tree_fits(n);
    }

    proof fn slopes_fill(&self, env: Seq<V>, seed: V, grad: Seq<V>) {
        self.1.slopes_fill(env, seed, grad);
        self.2.slopes_fill(env, seed, grad);
    }

    proof fn slopes_are_partials(&self, env: Seq<V>, seed: V, grad: Seq<V>) {
        self.0.planes_agree(env);
        self.1.planes_agree(env);
        self.2.planes_agree(env);
        self.1.slopes_are_partials(env, seed, grad);
        self.2.slopes_are_partials(env, seed, grad);
    }

    fn eval(&self, env: &[V]) -> (r: V) {
        if !self.0.eval(env).same(V::of(0)) {
            self.1.eval(env)
        } else {
            self.2.eval(env)
        }
    }

    fn grad(&self, env: &[V], seed: V, grad: &mut [V]) -> (r: V) {
        if !self.0.eval(env).same(V::of(0)) {
            self.1.grad(env, seed, grad)
        } else {
            self.2.grad(env, seed, grad)
        }
    }

    fn lower(&self) -> (r: Ast<V>) {
        Ast::Select(
            Box::new(self.0.lower()),
            Box::new(self.1.lower()),
            Box::new(self.2.lower()),
        )
    }
}

/// `x` where it is a number, `fallback` where it declines: the door out of absence, and the reason
/// it is a node rather than a `Select` written out. A `Select`'s definedness is the union of its
/// branches, where this one's is the fallback's alone.
#[derive(Clone, Copy)]
pub struct Or<X, F>(pub X, pub F);

impl<X: Declines, F: Declines> Declines for Or<X, F> {
    open spec fn may_decline() -> bool {
        F::may_decline()
    }

    fn maybe(&self) -> (r: bool) {
        self.1.maybe()
    }
}

impl<V: Scalar, X: Expr<V>, F: Expr<V>> Expr<V> for Or<X, F> {
    open spec fn value(&self, env: Seq<V>) -> V {
        if self.0.value(env).absent() {
            self.1.value(env)
        } else {
            self.0.value(env)
        }
    }

    open spec fn fits(&self, n: nat) -> bool {
        self.0.fits(n) && self.1.fits(n)
    }

    /// As the `Select` a reader would have written: the presence test is the condition, and the
    /// fallback is the branch it takes.
    open spec fn lowered(&self) -> Tree<V> {
        Tree::Select(
            Box::new(Tree::IsNan(Box::new(self.0.lowered()))),
            Box::new(self.1.lowered()),
            Box::new(self.0.lowered()),
        )
    }

    open spec fn read(&self, env: Seq<V>) -> V {
        if self.0.value(env).absent() {
            self.1.read(env)
        } else {
            self.0.read(env)
        }
    }

    open spec fn slopes(&self, env: Seq<V>, seed: V, grad: Seq<V>) -> Seq<V> {
        if self.0.value(env).absent() {
            self.1.slopes(env, seed, grad)
        } else {
            self.0.slopes(env, seed, grad)
        }
    }

    proof fn planes_agree(&self, env: Seq<V>) {
        reveal_with_fuel(Tree::value, 2);
        self.0.planes_agree(env);
        self.1.planes_agree(env);
        V::zero_equals_zero();
        V::one_is_not_zero();
    }

    proof fn tree_fits(&self, n: nat) {
        reveal_with_fuel(Tree::fits, 2);
        self.0.tree_fits(n);
        self.1.tree_fits(n);
    }

    proof fn slopes_fill(&self, env: Seq<V>, seed: V, grad: Seq<V>) {
        self.0.slopes_fill(env, seed, grad);
        self.1.slopes_fill(env, seed, grad);
    }

    proof fn slopes_are_partials(&self, env: Seq<V>, seed: V, grad: Seq<V>) {
        reveal_with_fuel(Tree::value, 2);
        V::zero_equals_zero();
        V::one_is_not_zero();
        self.0.planes_agree(env);
        self.1.planes_agree(env);
        self.0.slopes_are_partials(env, seed, grad);
        self.1.slopes_are_partials(env, seed, grad);
    }

    fn eval(&self, env: &[V]) -> (r: V) {
        let x: V = self.0.eval(env);
        if x.is_nan() {
            self.1.eval(env)
        } else {
            x
        }
    }

    fn grad(&self, env: &[V], seed: V, grad: &mut [V]) -> (r: V) {
        proof {
            reveal_with_fuel(lowerable, 3);
        }
        if self.0.eval(env).is_nan() {
            self.1.grad(env, seed, grad)
        } else {
            self.0.grad(env, seed, grad)
        }
    }

    fn lower(&self) -> (r: Ast<V>) {
        proof {
            reveal_with_fuel(Ast::tree, 3);
        }
        let x: Ast<V> = self.0.lower();
        Ast::Select(
            Box::new(Ast::IsNan(Box::new(x.clone()))),
            Box::new(self.1.lower()),
            Box::new(x),
        )
    }
}

/// Homogeneous fold; heterogeneous sums chain via `+`.
#[derive(Clone, Copy)]
pub struct Sum<E, const N: usize>(pub [E; N]);

/// The sum of the values of some expressions, from zero and left to right.
pub open spec fn sum_values<V: Scalar, E: Expr<V>>(xs: Seq<E>, env: Seq<V>) -> V
    decreases xs.len(),
{
    if xs.len() == 0 {
        V::whole(0)
    } else {
        sum_values(xs.drop_last(), env).plus(xs.last().value(env))
    }
}

pub open spec fn sum_reads<V: Scalar, E: Expr<V>>(xs: Seq<E>, env: Seq<V>) -> V
    decreases xs.len(),
{
    if xs.len() == 0 {
        V::whole(0)
    } else {
        sum_reads(xs.drop_last(), env).plus(xs.last().read(env))
    }
}

pub open spec fn sum_slopes<V: Scalar, E: Expr<V>>(
    xs: Seq<E>,
    env: Seq<V>,
    seed: V,
    grad: Seq<V>,
) -> Seq<V>
    decreases xs.len(),
{
    if xs.len() == 0 {
        grad
    } else {
        xs.last().slopes(env, seed, sum_slopes(xs.drop_last(), env, seed, grad))
    }
}

pub open spec fn all_lowered<V: Scalar, E: Expr<V>>(xs: Seq<E>) -> Seq<Tree<V>>
    decreases xs.len(),
{
    if xs.len() == 0 {
        Seq::empty()
    } else {
        all_lowered::<V, E>(xs.drop_last()).push(xs.last().lowered())
    }
}

pub open spec fn each_fits<V: Scalar, E: Expr<V>>(xs: Seq<E>, n: nat) -> bool {
    forall|i: int| 0 <= i < xs.len() ==> (#[trigger] xs[i]).fits(n)
}

proof fn lemma_all_lowered<V: Scalar, E: Expr<V>>(xs: Seq<E>, env: Seq<V>, n: nat)
    ensures
        all_lowered::<V, E>(xs).len() == xs.len(),
        forall|i: int|
            0 <= i < xs.len() ==> #[trigger] all_lowered::<V, E>(xs)[i] == xs[i].lowered(),
        total(all_lowered(xs), env) == sum_values(xs, env),
        all_fit(all_lowered::<V, E>(xs), n) == each_fits::<V, E>(xs, n),
    decreases xs.len(),
{
    if xs.len() > 0 {
        let rest = xs.drop_last();
        lemma_all_lowered(rest, env, n);
        assert(all_lowered::<V, E>(xs).drop_last() =~= all_lowered::<V, E>(rest));
        xs.last().planes_agree(env);
        xs.last().tree_fits(n);
        assert(each_fits::<V, E>(xs, n) == (each_fits::<V, E>(rest, n) && xs.last().fits(n))) by {
            if each_fits::<V, E>(xs, n) {
                assert forall|i: int| 0 <= i < rest.len() implies (#[trigger] rest[i]).fits(n) by {
                    assert(rest[i] == xs[i]);
                }
            }
            if each_fits::<V, E>(rest, n) && xs.last().fits(n) {
                assert forall|i: int| 0 <= i < xs.len() implies (#[trigger] xs[i]).fits(n) by {
                    if i < rest.len() {
                        assert(rest[i] == xs[i]);
                    }
                }
            }
        }
    }
}

proof fn lemma_sum_slopes_fill<V: Scalar, E: Expr<V>>(
    xs: Seq<E>,
    env: Seq<V>,
    seed: V,
    grad: Seq<V>,
)
    ensures
        sum_slopes(xs, env, seed, grad).len() == grad.len(),
    decreases xs.len(),
{
    if xs.len() > 0 {
        lemma_sum_slopes_fill(xs.drop_last(), env, seed, grad);
        xs.last().slopes_fill(env, seed, sum_slopes(xs.drop_last(), env, seed, grad));
    }
}

proof fn lemma_sum_slopes<V: Scalar, E: Expr<V>>(xs: Seq<E>, env: Seq<V>, seed: V, grad: Seq<V>)
    ensures
        sum_slopes(xs, env, seed, grad) == all_partials(all_lowered(xs), env, seed, grad),
    decreases xs.len(),
{
    if xs.len() > 0 {
        let rest = xs.drop_last();
        lemma_sum_slopes(rest, env, seed, grad);
        assert(all_lowered::<V, E>(xs).drop_last() =~= all_lowered::<V, E>(rest));
        xs.last().slopes_are_partials(env, seed, sum_slopes(rest, env, seed, grad));
    }
}

impl<E: Declines, const N: usize> Declines for Sum<E, N> {
    open spec fn may_decline() -> bool {
        N > 0 && E::may_decline()
    }

    fn maybe(&self) -> (r: bool) {
        N > 0 && self.0[0].maybe()
    }
}

impl<V: Scalar, E: Expr<V>, const N: usize> Expr<V> for Sum<E, N> {
    open spec fn value(&self, env: Seq<V>) -> V {
        sum_values(self.0@, env)
    }

    open spec fn fits(&self, n: nat) -> bool {
        each_fits::<V, E>(self.0@, n)
    }

    open spec fn lowered(&self) -> Tree<V> {
        Tree::Sum(all_lowered::<V, E>(self.0@))
    }

    open spec fn read(&self, env: Seq<V>) -> V {
        sum_reads(self.0@, env)
    }

    open spec fn slopes(&self, env: Seq<V>, seed: V, grad: Seq<V>) -> Seq<V> {
        sum_slopes(self.0@, env, seed, grad)
    }

    proof fn planes_agree(&self, env: Seq<V>) {
        lemma_all_lowered::<V, E>(self.0@, env, 0);
    }

    proof fn tree_fits(&self, n: nat) {
        lemma_all_lowered::<V, E>(self.0@, Seq::empty(), n);
    }

    proof fn slopes_fill(&self, env: Seq<V>, seed: V, grad: Seq<V>) {
        lemma_sum_slopes_fill(self.0@, env, seed, grad);
    }

    proof fn slopes_are_partials(&self, env: Seq<V>, seed: V, grad: Seq<V>) {
        lemma_sum_slopes(self.0@, env, seed, grad);
    }

    fn eval(&self, env: &[V]) -> (r: V) {
        let mut acc: V = V::of(0);
        let mut i: usize = 0;
        while i < N
            invariant
                i <= N,
                each_fits::<V, E>(self.0@, env@.len()),
                acc == sum_values(self.0@.take(i as int), env@),
            decreases N - i,
        {
            proof {
                let upto = self.0@.take(i + 1);
                assert(upto.drop_last() =~= self.0@.take(i as int));
                assert(self.0@[i as int].fits(env@.len()));
            }
            acc = acc.add(self.0[i].eval(env));
            i += 1;
        }
        assert(self.0@.take(i as int) =~= self.0@);
        acc
    }

    fn grad(&self, env: &[V], seed: V, grad: &mut [V]) -> (r: V) {
        let ghost before = grad@;
        let mut acc: V = V::of(0);
        let mut i: usize = 0;
        while i < N
            invariant
                i <= N,
                each_fits::<V, E>(self.0@, env@.len()),
                lowerable(self.lowered()),
                before.len() == env@.len(),
                grad@ == sum_slopes(self.0@.take(i as int), env@, seed, before),
                acc == sum_reads(self.0@.take(i as int), env@),
            decreases N - i,
        {
            proof {
                let upto = self.0@.take(i + 1);
                assert(upto.drop_last() =~= self.0@.take(i as int));
                assert(self.0@[i as int].fits(env@.len()));
                lemma_sum_slopes_fill(self.0@.take(i as int), env@, seed, before);
                lemma_all_lowered::<V, E>(self.0@, env@, 0);
                crate::ast::lemma_all_lowerable(all_lowered::<V, E>(self.0@), i as int);
            }
            acc = acc.add(self.0[i].grad(env, seed, grad));
            i += 1;
        }
        assert(self.0@.take(i as int) =~= self.0@);
        acc
    }

    fn lower(&self) -> (r: Ast<V>) {
        let mut out: Vec<Ast<V>> = Vec::new();
        let mut i: usize = 0;
        while i < N
            invariant
                i <= N,
                crate::ast::trees(out@) == all_lowered::<V, E>(self.0@.take(i as int)),
            decreases N - i,
        {
            proof {
                let upto = self.0@.take(i + 1);
                assert(upto.drop_last() =~= self.0@.take(i as int));
            }
            let x: Ast<V> = self.0[i].lower();
            let ghost before = out@;
            out.push(x);
            assert(out@.drop_last() =~= before);
            i += 1;
        }
        assert(self.0@.take(i as int) =~= self.0@);
        Ast::Sum(out)
    }
}

} // verus!
