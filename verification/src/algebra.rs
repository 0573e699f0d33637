//! The operator-ergonomics handle over the algebra, and one expression per slot of a multi-slot out.

use vstd::prelude::*;
use vstd::std_specs::ops::AddSpecImpl;
use vstd::std_specs::ops::DivSpecImpl;
use vstd::std_specs::ops::MulSpecImpl;
use vstd::std_specs::ops::NegSpecImpl;
use vstd::std_specs::ops::SubSpecImpl;

use crate::ast::{lowerable, trees, Ast};
use crate::expr;
use crate::expr::{
    Abs, Absent, Cmp, Const, Declines, Exp, Expr, IsNan, Max, Min, Or, Powi, Select, Sqrt, Square, Sum,
    Var,
};
use crate::scalar::Scalar;
use crate::tree::Tree;

verus! {

/// Operator-ergonomics handle: `x * y + constant(2)` builds the nested type. Delegates every
/// [`Expr`] method to its inner primitive.
#[derive(Clone, Copy)]
pub struct Ex<T>(pub T);

impl<T: Declines> Declines for Ex<T> {
    open spec fn may_decline() -> bool {
        T::may_decline()
    }

    fn maybe(&self) -> (r: bool) {
        self.0.maybe()
    }
}

impl<V: Scalar, T: Expr<V>> Expr<V> for Ex<T> {
    open spec fn value(&self, env: Seq<V>) -> V {
        self.0.value(env)
    }

    open spec fn fits(&self, n: nat) -> bool {
        self.0.fits(n)
    }

    open spec fn read(&self, env: Seq<V>) -> V {
        self.0.read(env)
    }

    open spec fn slopes(&self, env: Seq<V>, seed: V, grad: Seq<V>) -> Seq<V> {
        self.0.slopes(env, seed, grad)
    }

    open spec fn lowered(&self) -> Tree<V> {
        self.0.lowered()
    }

    proof fn planes_agree(&self, env: Seq<V>) {
        self.0.planes_agree(env);
    }

    proof fn tree_fits(&self, n: nat) {
        self.0.tree_fits(n);
    }

    proof fn slopes_fill(&self, env: Seq<V>, seed: V, grad: Seq<V>) {
        self.0.slopes_fill(env, seed, grad);
    }

    proof fn slopes_are_partials(&self, env: Seq<V>, seed: V, grad: Seq<V>) {
        self.0.planes_agree(env);
        self.0.slopes_are_partials(env, seed, grad);
    }

    fn eval(&self, env: &[V]) -> (r: V) {
        self.0.eval(env)
    }

    fn grad(&self, env: &[V], seed: V, grad: &mut [V]) -> (r: V) {
        self.0.grad(env, seed, grad)
    }

    fn lower(&self) -> (r: Ast<V>) {
        self.0.lower()
    }
}

/// The dep-slot dispenser handed to a body: `v.get::<I>()` is the [`Var`] reading dep `I`.
#[derive(Clone, Copy)]
pub struct Vars;

impl Vars {
    pub fn get<const I: usize>(self) -> (r: Ex<Var<I>>)
        ensures
            r == Ex(Var::<I>),
    {
        Ex(Var)
    }
}

pub fn constant<V: Scalar>(c: V) -> (r: Ex<Const<V>>)
    ensures
        r == Ex(Const(c)),
{
    Ex(Const(c))
}

/// How a body inside the algebra declines, which the out plane reads back as absence. Every tree
/// reaching one says so ([`Declines::may_decline`]), so the operators that cannot answer over one
/// refuse it where it is written rather than where it lands.
pub fn absent() -> (r: Ex<Absent>)
    ensures
        r == Ex(Absent),
{
    Ex(Absent)
}

/// One where `x` is a number, zero where it declines: how a body *reads* an absence instead of merely
/// carrying one. Flat, and never absent itself, so it is a condition the comparing operators accept.
pub fn present<V: Scalar, T: Expr<V>>(x: Ex<T>) -> (r: Ex<expr::Sub<Const<V>, IsNan<T>>>)
    ensures
        r == Ex(expr::Sub(Const(V::whole(1)), IsNan(x.0))),
{
    Ex(expr::Sub(Const(V::of(1)), IsNan(x.0)))
}

/// `x` where it stands, `fallback` where it declines. The way out of absence: what comes back is a
/// number exactly as often as `fallback` is one, which is what lets a body compare it.
pub fn or<T, F>(x: Ex<T>, fallback: Ex<F>) -> (r: Ex<Or<T, F>>)
    ensures
        r == Ex(Or(x.0, fallback.0)),
{
    Ex(Or(x.0, fallback.0))
}

pub fn square<T>(x: Ex<T>) -> (r: Ex<Square<T>>)
    ensures
        r == Ex(Square(x.0)),
{
    Ex(Square(x.0))
}

pub fn abs<T>(x: Ex<T>) -> (r: Ex<Abs<T>>)
    ensures
        r == Ex(Abs(x.0)),
{
    Ex(Abs(x.0))
}

pub fn sqrt<T>(x: Ex<T>) -> (r: Ex<Sqrt<T>>)
    ensures
        r == Ex(Sqrt(x.0)),
{
    Ex(Sqrt(x.0))
}

pub fn exp<T>(x: Ex<T>) -> (r: Ex<Exp<T>>)
    ensures
        r == Ex(Exp(x.0)),
{
    Ex(Exp(x.0))
}

pub fn powi_of<T>(x: Ex<T>, n: i32) -> (r: Ex<Powi<T>>)
    ensures
        r == Ex(Powi(x.0, n)),
{
    Ex(Powi(x.0, n))
}

pub fn sum<T, const N: usize>(xs: [T; N]) -> (r: Ex<Sum<T, N>>)
    ensures
        r == Ex(Sum(xs)),
{
    Ex(Sum(xs))
}

pub fn min<L, R>(l: Ex<L>, r: Ex<R>) -> (out: Ex<Min<L, R>>)
    ensures
        out == Ex(Min(l.0, r.0)),
{
    Ex(Min(l.0, r.0))
}

pub fn max<L, R>(l: Ex<L>, r: Ex<R>) -> (out: Ex<Max<L, R>>)
    ensures
        out == Ex(Max(l.0, r.0)),
{
    Ex(Max(l.0, r.0))
}

/// A comparison is the one thing an absence has no answer for, so a tree that can carry one may not
/// reach here: `or` it against a number first, or leave the comparison out and let the absence
/// propagate.
pub fn lt<L: Declines, R: Declines>(l: Ex<L>, r: Ex<R>) -> (out: Ex<Cmp<L, R>>)
    requires
        !L::may_decline(),
        !R::may_decline(),
    ensures
        out == Ex(Cmp(l.0, r.0)),
{
    Ex(Cmp(l.0, r.0))
}

/// `l > r` is `r < l`: one comparison in the algebra, read from the other side.
pub fn gt<L: Declines, R: Declines>(l: Ex<L>, r: Ex<R>) -> (out: Ex<Cmp<R, L>>)
    requires
        !L::may_decline(),
        !R::may_decline(),
    ensures
        out == Ex(Cmp(r.0, l.0)),
{
    Ex(Cmp(r.0, l.0))
}

/// The **condition** may not decline: a `Select` is where a body writes an absence, and a branch that
/// cannot be chosen is no branch. The two branches stay permissive, which is the whole point.
pub fn select<C: Declines, A, B>(c: Ex<C>, a: Ex<A>, b: Ex<B>) -> (out: Ex<Select<C, A, B>>)
    requires
        !C::may_decline(),
    ensures
        out == Ex(Select(c.0, a.0, b.0)),
{
    Ex(Select(c.0, a.0, b.0))
}

impl<L, R> AddSpecImpl<Ex<R>> for Ex<L> {
    open spec fn obeys_add_spec() -> bool {
        true
    }

    open spec fn add_req(self, rhs: Ex<R>) -> bool {
        true
    }

    open spec fn add_spec(self, rhs: Ex<R>) -> Ex<expr::Add<L, R>> {
        Ex(expr::Add(self.0, rhs.0))
    }
}

impl<L, R> core::ops::Add<Ex<R>> for Ex<L> {
    type Output = Ex<expr::Add<L, R>>;

    fn add(self, rhs: Ex<R>) -> (r: Ex<expr::Add<L, R>>) {
        Ex(expr::Add(self.0, rhs.0))
    }
}

impl<L, R> SubSpecImpl<Ex<R>> for Ex<L> {
    open spec fn obeys_sub_spec() -> bool {
        true
    }

    open spec fn sub_req(self, rhs: Ex<R>) -> bool {
        true
    }

    open spec fn sub_spec(self, rhs: Ex<R>) -> Ex<expr::Sub<L, R>> {
        Ex(expr::Sub(self.0, rhs.0))
    }
}

impl<L, R> core::ops::Sub<Ex<R>> for Ex<L> {
    type Output = Ex<expr::Sub<L, R>>;

    fn sub(self, rhs: Ex<R>) -> (r: Ex<expr::Sub<L, R>>) {
        Ex(expr::Sub(self.0, rhs.0))
    }
}

impl<L, R> MulSpecImpl<Ex<R>> for Ex<L> {
    open spec fn obeys_mul_spec() -> bool {
        true
    }

    open spec fn mul_req(self, rhs: Ex<R>) -> bool {
        true
    }

    open spec fn mul_spec(self, rhs: Ex<R>) -> Ex<expr::Mul<L, R>> {
        Ex(expr::Mul(self.0, rhs.0))
    }
}

impl<L, R> core::ops::Mul<Ex<R>> for Ex<L> {
    type Output = Ex<expr::Mul<L, R>>;

    fn mul(self, rhs: Ex<R>) -> (r: Ex<expr::Mul<L, R>>) {
        Ex(expr::Mul(self.0, rhs.0))
    }
}

impl<L, R> DivSpecImpl<Ex<R>> for Ex<L> {
    open spec fn obeys_div_spec() -> bool {
        true
    }

    open spec fn div_req(self, rhs: Ex<R>) -> bool {
        true
    }

    open spec fn div_spec(self, rhs: Ex<R>) -> Ex<expr::Div<L, R>> {
        Ex(expr::Div(self.0, rhs.0))
    }
}

impl<L, R> core::ops::Div<Ex<R>> for Ex<L> {
    type Output = Ex<expr::Div<L, R>>;

    fn div(self, rhs: Ex<R>) -> (r: Ex<expr::Div<L, R>>) {
        Ex(expr::Div(self.0, rhs.0))
    }
}

impl<E> NegSpecImpl for Ex<E> {
    open spec fn obeys_neg_spec() -> bool {
        true
    }

    open spec fn neg_req(self) -> bool {
        true
    }

    open spec fn neg_spec(self) -> Ex<expr::Neg<E>> {
        Ex(expr::Neg(self.0))
    }
}

impl<E> core::ops::Neg for Ex<E> {
    type Output = Ex<expr::Neg<E>>;

    fn neg(self) -> (r: Ex<expr::Neg<E>>) {
        Ex(expr::Neg(self.0))
    }
}

/// One expression per slot of a multi-slot out: what a per-element kernel evaluates to fill an item.
/// Heterogeneous, so a tuple rather than [`Sum`]'s homogeneous array: the slots of an item are
/// different functions of one env, and a single-slot out is the one-tuple spelled without brackets.
pub trait Slots<V: Scalar>: Sized {
    open spec fn width() -> nat {
        arbitrary()
    }

    /// Whether *any* slot may decline, which is what the item being filled owes an absence channel
    /// for.
    open spec fn any_declines() -> bool {
        arbitrary()
    }

    open spec fn slots_fit(&self, n: nat) -> bool {
        arbitrary()
    }

    open spec fn slot_values(&self, env: Seq<V>) -> Seq<V> {
        arbitrary()
    }

    /// A row per slot, `jac` with each slot's partials added into its own.
    open spec fn slot_slopes(&self, env: Seq<V>, jac: Seq<V>) -> Seq<V> {
        arbitrary()
    }

    open spec fn slot_trees(&self) -> Seq<Tree<V>> {
        arbitrary()
    }

    /// A value and a tree for every slot.
    proof fn slots_fill(&self, env: Seq<V>)
        ensures
            self.slot_values(env).len() == Self::width(),
            self.slot_trees().len() == Self::width(),
    ;

    fn len(&self) -> (r: usize)
        ensures
            r == Self::width(),
    ;

    fn maybe(&self) -> (r: bool)
        ensures
            r == Self::any_declines(),
    ;

    fn eval_slots(&self, env: &[V], out: &mut [V])
        requires
            self.slots_fit(env@.len()),
            old(out)@.len() == Self::width(),
        ensures
            final(out)@ == self.slot_values(env@),
    ;

    /// Row-major, a row as wide as `env` for every slot, accumulated: the caller zeroes.
    fn grad_slots(&self, env: &[V], jac: &mut [V])
        requires
            self.slots_fit(env@.len()),
            all_lowerable(self.slot_trees()),
            old(jac)@.len() == Self::width() * env@.len(),
        ensures
            final(jac)@ == self.slot_slopes(env@, old(jac)@),
            final(jac)@.len() == old(jac)@.len(),
    ;

    fn lower_slots(&self) -> (r: Vec<Ast<V>>)
        ensures
            trees(r@) == self.slot_trees(),
    ;
}

/// Whether every exponent in some trees can be lowered by one.
pub open spec fn all_lowerable<V>(xs: Seq<Tree<V>>) -> bool {
    forall|i: int| 0 <= i < xs.len() ==> lowerable(#[trigger] xs[i])
}

/// Row `i` of a row-major block.
pub open spec fn row<V>(jac: Seq<V>, i: int, w: int) -> Seq<V> {
    jac.subrange(i * w, (i + 1) * w)
}

impl<V: Scalar, A: Expr<V>> Slots<V> for Ex<A> {
    open spec fn width() -> nat {
        1
    }

    open spec fn any_declines() -> bool {
        A::may_decline()
    }

    open spec fn slots_fit(&self, n: nat) -> bool {
        self.fits(n)
    }

    open spec fn slot_values(&self, env: Seq<V>) -> Seq<V> {
        seq![self.value(env)]
    }

    open spec fn slot_slopes(&self, env: Seq<V>, jac: Seq<V>) -> Seq<V> {
        let w = env.len() as int;
        self.slopes(env, V::whole(1), row(jac, 0, w))
    }

    open spec fn slot_trees(&self) -> Seq<Tree<V>> {
        seq![self.lowered()]
    }

    proof fn slots_fill(&self, env: Seq<V>) {
    }

    fn len(&self) -> (r: usize) {
        1
    }

    fn maybe(&self) -> (r: bool) {
        self.0.maybe()
    }

    fn eval_slots(&self, env: &[V], out: &mut [V]) {
        let v0: V = self.eval(env);
        out[0] = v0;
    }

    fn grad_slots(&self, env: &[V], jac: &mut [V]) {
        let ghost before = jac@;
        let w: usize = env.len();
        let ghost ts = self.slot_trees();
        proof {
            let wide = w as int;
            assert(ts[0] == self.lowered());
            self.slopes_fill(env@, V::whole(1), row(before, 0, wide));
        }
        assert(row(before, 0, w as int) =~= before);
        self.grad(env, V::of(1), jac);
    }

    fn lower_slots(&self) -> (r: Vec<Ast<V>>) {
        let mut out: Vec<Ast<V>> = Vec::new();
        out.push(self.lower());
        proof {
            crate::ast::lemma_trees(out@);
            assert(trees(out@) =~= self.slot_trees());
        }
        out
    }
}

impl<V: Scalar, A: Expr<V>, B: Expr<V>> Slots<V> for (Ex<A>, Ex<B>) {
    open spec fn width() -> nat {
        2
    }

    open spec fn any_declines() -> bool {
        A::may_decline() || B::may_decline()
    }

    open spec fn slots_fit(&self, n: nat) -> bool {
        self.0.fits(n) && self.1.fits(n)
    }

    open spec fn slot_values(&self, env: Seq<V>) -> Seq<V> {
        seq![self.0.value(env), self.1.value(env)]
    }

    open spec fn slot_slopes(&self, env: Seq<V>, jac: Seq<V>) -> Seq<V> {
        let w = env.len() as int;
        self.0.slopes(env, V::whole(1), row(jac, 0, w)) + self.1.slopes(env, V::whole(1), row(jac, 1, w))
    }

    open spec fn slot_trees(&self) -> Seq<Tree<V>> {
        seq![self.0.lowered(), self.1.lowered()]
    }

    proof fn slots_fill(&self, env: Seq<V>) {
    }

    fn len(&self) -> (r: usize) {
        2
    }

    fn maybe(&self) -> (r: bool) {
        self.0.0.maybe() || self.1.0.maybe()
    }

    fn eval_slots(&self, env: &[V], out: &mut [V]) {
        let v0: V = self.0.eval(env);
        out[0] = v0;
        let v1: V = self.1.eval(env);
        out[1] = v1;
    }

    fn grad_slots(&self, env: &[V], jac: &mut [V]) {
        let ghost before = jac@;
        let w: usize = env.len();
        let ghost ts = self.slot_trees();
        proof {
            let wide = w as int;
            assert(ts[0] == self.0.lowered());
            self.0.slopes_fill(env@, V::whole(1), row(before, 0, wide));
            assert(ts[1] == self.1.lowered());
            self.1.slopes_fill(env@, V::whole(1), row(before, 1, wide));
        }
        let (row0, rest0) = jac.split_at_mut(w);
        assert(row0@ =~= row(before, 0, w as int));
        self.0.grad(env, V::of(1), row0);
        assert(rest0@ =~= row(before, 1, w as int));
        self.1.grad(env, V::of(1), rest0);
    }

    fn lower_slots(&self) -> (r: Vec<Ast<V>>) {
        let mut out: Vec<Ast<V>> = Vec::new();
        out.push(self.0.lower());
        out.push(self.1.lower());
        proof {
            crate::ast::lemma_trees(out@);
            assert(trees(out@) =~= self.slot_trees());
        }
        out
    }
}

impl<V: Scalar, A: Expr<V>, B: Expr<V>, C: Expr<V>> Slots<V> for (Ex<A>, Ex<B>, Ex<C>) {
    open spec fn width() -> nat {
        3
    }

    open spec fn any_declines() -> bool {
        A::may_decline() || B::may_decline() || C::may_decline()
    }

    open spec fn slots_fit(&self, n: nat) -> bool {
        self.0.fits(n) && self.1.fits(n) && self.2.fits(n)
    }

    open spec fn slot_values(&self, env: Seq<V>) -> Seq<V> {
        seq![self.0.value(env), self.1.value(env), self.2.value(env)]
    }

    open spec fn slot_slopes(&self, env: Seq<V>, jac: Seq<V>) -> Seq<V> {
        let w = env.len() as int;
        self.0.slopes(env, V::whole(1), row(jac, 0, w))
            + self.1.slopes(env, V::whole(1), row(jac, 1, w))
            + self.2.slopes(env, V::whole(1), row(jac, 2, w))
    }

    open spec fn slot_trees(&self) -> Seq<Tree<V>> {
        seq![self.0.lowered(), self.1.lowered(), self.2.lowered()]
    }

    proof fn slots_fill(&self, env: Seq<V>) {
    }

    fn len(&self) -> (r: usize) {
        3
    }

    fn maybe(&self) -> (r: bool) {
        self.0.0.maybe() || self.1.0.maybe() || self.2.0.maybe()
    }

    fn eval_slots(&self, env: &[V], out: &mut [V]) {
        let v0: V = self.0.eval(env);
        out[0] = v0;
        let v1: V = self.1.eval(env);
        out[1] = v1;
        let v2: V = self.2.eval(env);
        out[2] = v2;
    }

    fn grad_slots(&self, env: &[V], jac: &mut [V]) {
        let ghost before = jac@;
        let w: usize = env.len();
        let ghost ts = self.slot_trees();
        proof {
            let wide = w as int;
            assert(ts[0] == self.0.lowered());
            self.0.slopes_fill(env@, V::whole(1), row(before, 0, wide));
            assert(ts[1] == self.1.lowered());
            self.1.slopes_fill(env@, V::whole(1), row(before, 1, wide));
            assert(ts[2] == self.2.lowered());
            self.2.slopes_fill(env@, V::whole(1), row(before, 2, wide));
        }
        let (row0, rest0) = jac.split_at_mut(w);
        assert(row0@ =~= row(before, 0, w as int));
        self.0.grad(env, V::of(1), row0);
        let (row1, rest1) = rest0.split_at_mut(w);
        assert(row1@ =~= row(before, 1, w as int));
        self.1.grad(env, V::of(1), row1);
        assert(rest1@ =~= row(before, 2, w as int));
        self.2.grad(env, V::of(1), rest1);
    }

    fn lower_slots(&self) -> (r: Vec<Ast<V>>) {
        let mut out: Vec<Ast<V>> = Vec::new();
        out.push(self.0.lower());
        out.push(self.1.lower());
        out.push(self.2.lower());
        proof {
            crate::ast::lemma_trees(out@);
            assert(trees(out@) =~= self.slot_trees());
        }
        out
    }
}

impl<V: Scalar, A: Expr<V>, B: Expr<V>, C: Expr<V>, D: Expr<V>> Slots<V> for (Ex<A>, Ex<B>, Ex<C>, Ex<D>) {
    open spec fn width() -> nat {
        4
    }

    open spec fn any_declines() -> bool {
        A::may_decline() || B::may_decline() || C::may_decline() || D::may_decline()
    }

    open spec fn slots_fit(&self, n: nat) -> bool {
        self.0.fits(n) && self.1.fits(n) && self.2.fits(n) && self.3.fits(n)
    }

    open spec fn slot_values(&self, env: Seq<V>) -> Seq<V> {
        seq![self.0.value(env), self.1.value(env), self.2.value(env), self.3.value(env)]
    }

    open spec fn slot_slopes(&self, env: Seq<V>, jac: Seq<V>) -> Seq<V> {
        let w = env.len() as int;
        self.0.slopes(env, V::whole(1), row(jac, 0, w))
            + self.1.slopes(env, V::whole(1), row(jac, 1, w))
            + self.2.slopes(env, V::whole(1), row(jac, 2, w))
            + self.3.slopes(env, V::whole(1), row(jac, 3, w))
    }

    open spec fn slot_trees(&self) -> Seq<Tree<V>> {
        seq![self.0.lowered(), self.1.lowered(), self.2.lowered(), self.3.lowered()]
    }

    proof fn slots_fill(&self, env: Seq<V>) {
    }

    fn len(&self) -> (r: usize) {
        4
    }

    fn maybe(&self) -> (r: bool) {
        self.0.0.maybe() || self.1.0.maybe() || self.2.0.maybe() || self.3.0.maybe()
    }

    fn eval_slots(&self, env: &[V], out: &mut [V]) {
        let v0: V = self.0.eval(env);
        out[0] = v0;
        let v1: V = self.1.eval(env);
        out[1] = v1;
        let v2: V = self.2.eval(env);
        out[2] = v2;
        let v3: V = self.3.eval(env);
        out[3] = v3;
    }

    fn grad_slots(&self, env: &[V], jac: &mut [V]) {
        let ghost before = jac@;
        let w: usize = env.len();
        let ghost ts = self.slot_trees();
        proof {
            let wide = w as int;
            assert(ts[0] == self.0.lowered());
            self.0.slopes_fill(env@, V::whole(1), row(before, 0, wide));
            assert(ts[1] == self.1.lowered());
            self.1.slopes_fill(env@, V::whole(1), row(before, 1, wide));
            assert(ts[2] == self.2.lowered());
            self.2.slopes_fill(env@, V::whole(1), row(before, 2, wide));
            assert(ts[3] == self.3.lowered());
            self.3.slopes_fill(env@, V::whole(1), row(before, 3, wide));
        }
        let (row0, rest0) = jac.split_at_mut(w);
        assert(row0@ =~= row(before, 0, w as int));
        self.0.grad(env, V::of(1), row0);
        let (row1, rest1) = rest0.split_at_mut(w);
        assert(row1@ =~= row(before, 1, w as int));
        self.1.grad(env, V::of(1), row1);
        let (row2, rest2) = rest1.split_at_mut(w);
        assert(row2@ =~= row(before, 2, w as int));
        self.2.grad(env, V::of(1), row2);
        assert(rest2@ =~= row(before, 3, w as int));
        self.3.grad(env, V::of(1), rest2);
    }

    fn lower_slots(&self) -> (r: Vec<Ast<V>>) {
        let mut out: Vec<Ast<V>> = Vec::new();
        out.push(self.0.lower());
        out.push(self.1.lower());
        out.push(self.2.lower());
        out.push(self.3.lower());
        proof {
            crate::ast::lemma_trees(out@);
            assert(trees(out@) =~= self.slot_trees());
        }
        out
    }
}

impl<V: Scalar, A: Expr<V>, B: Expr<V>, C: Expr<V>, D: Expr<V>, E: Expr<V>> Slots<V> for (Ex<A>, Ex<B>, Ex<C>, Ex<D>, Ex<E>) {
    open spec fn width() -> nat {
        5
    }

    open spec fn any_declines() -> bool {
        A::may_decline() || B::may_decline() || C::may_decline() || D::may_decline() || E::may_decline()
    }

    open spec fn slots_fit(&self, n: nat) -> bool {
        self.0.fits(n) && self.1.fits(n) && self.2.fits(n) && self.3.fits(n) && self.4.fits(n)
    }

    open spec fn slot_values(&self, env: Seq<V>) -> Seq<V> {
        seq![self.0.value(env), self.1.value(env), self.2.value(env), self.3.value(env), self.4.value(env)]
    }

    open spec fn slot_slopes(&self, env: Seq<V>, jac: Seq<V>) -> Seq<V> {
        let w = env.len() as int;
        self.0.slopes(env, V::whole(1), row(jac, 0, w))
            + self.1.slopes(env, V::whole(1), row(jac, 1, w))
            + self.2.slopes(env, V::whole(1), row(jac, 2, w))
            + self.3.slopes(env, V::whole(1), row(jac, 3, w))
            + self.4.slopes(env, V::whole(1), row(jac, 4, w))
    }

    open spec fn slot_trees(&self) -> Seq<Tree<V>> {
        seq![self.0.lowered(), self.1.lowered(), self.2.lowered(), self.3.lowered(), self.4.lowered()]
    }

    proof fn slots_fill(&self, env: Seq<V>) {
    }

    fn len(&self) -> (r: usize) {
        5
    }

    fn maybe(&self) -> (r: bool) {
        self.0.0.maybe() || self.1.0.maybe() || self.2.0.maybe() || self.3.0.maybe() || self.4.0.maybe()
    }

    fn eval_slots(&self, env: &[V], out: &mut [V]) {
        let v0: V = self.0.eval(env);
        out[0] = v0;
        let v1: V = self.1.eval(env);
        out[1] = v1;
        let v2: V = self.2.eval(env);
        out[2] = v2;
        let v3: V = self.3.eval(env);
        out[3] = v3;
        let v4: V = self.4.eval(env);
        out[4] = v4;
    }

    fn grad_slots(&self, env: &[V], jac: &mut [V]) {
        let ghost before = jac@;
        let w: usize = env.len();
        let ghost ts = self.slot_trees();
        proof {
            let wide = w as int;
            assert(ts[0] == self.0.lowered());
            self.0.slopes_fill(env@, V::whole(1), row(before, 0, wide));
            assert(ts[1] == self.1.lowered());
            self.1.slopes_fill(env@, V::whole(1), row(before, 1, wide));
            assert(ts[2] == self.2.lowered());
            self.2.slopes_fill(env@, V::whole(1), row(before, 2, wide));
            assert(ts[3] == self.3.lowered());
            self.3.slopes_fill(env@, V::whole(1), row(before, 3, wide));
            assert(ts[4] == self.4.lowered());
            self.4.slopes_fill(env@, V::whole(1), row(before, 4, wide));
        }
        let (row0, rest0) = jac.split_at_mut(w);
        assert(row0@ =~= row(before, 0, w as int));
        self.0.grad(env, V::of(1), row0);
        let (row1, rest1) = rest0.split_at_mut(w);
        assert(row1@ =~= row(before, 1, w as int));
        self.1.grad(env, V::of(1), row1);
        let (row2, rest2) = rest1.split_at_mut(w);
        assert(row2@ =~= row(before, 2, w as int));
        self.2.grad(env, V::of(1), row2);
        let (row3, rest3) = rest2.split_at_mut(w);
        assert(row3@ =~= row(before, 3, w as int));
        self.3.grad(env, V::of(1), row3);
        assert(rest3@ =~= row(before, 4, w as int));
        self.4.grad(env, V::of(1), rest3);
    }

    fn lower_slots(&self) -> (r: Vec<Ast<V>>) {
        let mut out: Vec<Ast<V>> = Vec::new();
        out.push(self.0.lower());
        out.push(self.1.lower());
        out.push(self.2.lower());
        out.push(self.3.lower());
        out.push(self.4.lower());
        proof {
            crate::ast::lemma_trees(out@);
            assert(trees(out@) =~= self.slot_trees());
        }
        out
    }
}

} // verus!
