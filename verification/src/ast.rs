//! The runtime projection of an expression: evaluate, differentiate, simplify, spell, trace.

use vstd::prelude::*;

use crate::scalar::{indicator, powi, Scalar};
use crate::tree::{
    all_alike, all_fit, all_simplified, constants, derivatives, folded, others, piece, simple_neg,
    simple_sum, sizes, terms, total, lemma_simplified_size, lemma_sizes, Tree,
};

verus! {

/// The runtime projection of an expression, for the documentation and debug readings:
/// [`Ast::diff`] is the exact symbolic derivative, [`Ast::simplify`] clears the litter it leaves,
/// [`Ast::latex`] and [`Ast::infix`] spell it, [`Ast::trace`] pairs every node with its value.
pub enum Ast<V> {
    Const(V),
    Var(usize),
    Powi(Box<Ast<V>>, i32),
    /// `if c != 0 { a } else { b }`
    Select(Box<Ast<V>>, Box<Ast<V>>, Box<Ast<V>>),
    Sum(Vec<Ast<V>>),
    Add(Box<Ast<V>>, Box<Ast<V>>),
    Sub(Box<Ast<V>>, Box<Ast<V>>),
    Mul(Box<Ast<V>>, Box<Ast<V>>),
    Div(Box<Ast<V>>, Box<Ast<V>>),
    /// Skipped, not propagated: `min(absent, x)` is `x`.
    Min(Box<Ast<V>>, Box<Ast<V>>),
    Max(Box<Ast<V>>, Box<Ast<V>>),
    /// One where `l < r`, zero elsewhere: flat, since a predicate has no slope.
    Cmp(Box<Ast<V>>, Box<Ast<V>>),
    Neg(Box<Ast<V>>),
    Square(Box<Ast<V>>),
    Abs(Box<Ast<V>>),
    Sqrt(Box<Ast<V>>),
    Exp(Box<Ast<V>>),
    /// One where the operand is no number, zero elsewhere.
    IsNan(Box<Ast<V>>),
}

impl<V> Ast<V> {
    /// The expression as a mathematical tree.
    pub open spec fn tree(self) -> Tree<V>
        decreases self,
    {
        match self {
            Ast::Const(c) => Tree::Const(c),
            Ast::Var(i) => Tree::Var(i as int),
            Ast::Powi(e, n) => Tree::Powi(Box::new(e.tree()), n as int),
            Ast::Select(c, a, b) => Tree::Select(
                Box::new(c.tree()),
                Box::new(a.tree()),
                Box::new(b.tree()),
            ),
            Ast::Sum(xs) => Tree::Sum(trees(xs@)),
            Ast::Add(l, r) => Tree::Add(Box::new(l.tree()), Box::new(r.tree())),
            Ast::Sub(l, r) => Tree::Sub(Box::new(l.tree()), Box::new(r.tree())),
            Ast::Mul(l, r) => Tree::Mul(Box::new(l.tree()), Box::new(r.tree())),
            Ast::Div(l, r) => Tree::Div(Box::new(l.tree()), Box::new(r.tree())),
            Ast::Min(l, r) => Tree::Min(Box::new(l.tree()), Box::new(r.tree())),
            Ast::Max(l, r) => Tree::Max(Box::new(l.tree()), Box::new(r.tree())),
            Ast::Cmp(l, r) => Tree::Cmp(Box::new(l.tree()), Box::new(r.tree())),
            Ast::Neg(e) => Tree::Neg(Box::new(e.tree())),
            Ast::Square(e) => Tree::Square(Box::new(e.tree())),
            Ast::Abs(e) => Tree::Abs(Box::new(e.tree())),
            Ast::Sqrt(e) => Tree::Sqrt(Box::new(e.tree())),
            Ast::Exp(e) => Tree::Exp(Box::new(e.tree())),
            Ast::IsNan(e) => Tree::IsNan(Box::new(e.tree())),
        }
    }
}

pub open spec fn trees<V>(xs: Seq<Ast<V>>) -> Seq<Tree<V>>
    decreases xs,
{
    if xs.len() == 0 {
        Seq::empty()
    } else {
        trees(xs.drop_last()).push(xs.last().tree())
    }
}

pub proof fn lemma_trees<V>(xs: Seq<Ast<V>>)
    ensures
        trees(xs).len() == xs.len(),
        forall|i: int| 0 <= i < xs.len() ==> #[trigger] trees(xs)[i] == xs[i].tree(),
    decreases xs.len(),
{
    if xs.len() > 0 {
        lemma_trees(xs.drop_last());
    }
}

/// One more expression is one more tree.
pub proof fn lemma_trees_next<V>(xs: Seq<Ast<V>>, i: int)
    requires
        0 <= i < xs.len(),
    ensures
        trees(xs).len() == xs.len(),
        trees(xs)[i] == xs[i].tree(),
        trees(xs).take(i + 1).drop_last() == trees(xs).take(i),
        trees(xs).take(i + 1).last() == xs[i].tree(),
        trees(xs).take(i + 1).len() == i + 1,
{
    lemma_trees(xs);
    assert(trees(xs).take(i + 1).drop_last() =~= trees(xs).take(i));
}

impl<V> View for Ast<V> {
    type V = Tree<V>;

    open spec fn view(&self) -> Tree<V> {
        self.tree()
    }
}

impl<V: Scalar> Clone for Ast<V> {
    fn clone(&self) -> (r: Self)
        ensures
            r@ == self@,
        decreases self,
    {
        match self {
            Ast::Const(c) => Ast::Const(*c),
            Ast::Var(i) => Ast::Var(*i),
            Ast::Powi(e, n) => Ast::Powi(Box::new((**e).clone()), *n),
            Ast::Select(c, a, b) => Ast::Select(
                Box::new((**c).clone()),
                Box::new((**a).clone()),
                Box::new((**b).clone()),
            ),
            Ast::Sum(xs) => {
                let mut out: Vec<Ast<V>> = Vec::new();
                let mut i: usize = 0;
                while i < xs.len()
                    invariant
                        i <= xs@.len(),
                        *self == Ast::Sum(*xs),
                        trees(out@) == trees(xs@).take(i as int),
                    decreases xs@.len() - i,
                {
                    proof {
                        lemma_trees_next(xs@, i as int);
                        assert(decreases_to!(*self => self->Sum_0));
                        assert(decreases_to!(*self => xs@));
                        assert(decreases_to!(*self => xs@[i as int]));
                    }
                    let x: Ast<V> = xs[i].clone();
                    let ghost before = out@;
                    out.push(x);
                    proof {
                        assert(out@.drop_last() =~= before);
                        assert(trees(out@) =~= trees(xs@).take(i + 1));
                    }
                    i += 1;
                }
                proof {
                    lemma_trees(xs@);
                    assert(trees(xs@).take(i as int) =~= trees(xs@));
                }
                Ast::Sum(out)
            },
            Ast::Add(l, r) => Ast::Add(Box::new((**l).clone()), Box::new((**r).clone())),
            Ast::Sub(l, r) => Ast::Sub(Box::new((**l).clone()), Box::new((**r).clone())),
            Ast::Mul(l, r) => Ast::Mul(Box::new((**l).clone()), Box::new((**r).clone())),
            Ast::Div(l, r) => Ast::Div(Box::new((**l).clone()), Box::new((**r).clone())),
            Ast::Min(l, r) => Ast::Min(Box::new((**l).clone()), Box::new((**r).clone())),
            Ast::Max(l, r) => Ast::Max(Box::new((**l).clone()), Box::new((**r).clone())),
            Ast::Cmp(l, r) => Ast::Cmp(Box::new((**l).clone()), Box::new((**r).clone())),
            Ast::Neg(e) => Ast::Neg(Box::new((**e).clone())),
            Ast::Square(e) => Ast::Square(Box::new((**e).clone())),
            Ast::Abs(e) => Ast::Abs(Box::new((**e).clone())),
            Ast::Sqrt(e) => Ast::Sqrt(Box::new((**e).clone())),
            Ast::Exp(e) => Ast::Exp(Box::new((**e).clone())),
            Ast::IsNan(e) => Ast::IsNan(Box::new((**e).clone())),
        }
    }
}

impl<V: Scalar> Ast<V> {
    /// What the expression is worth where its variables are worth `env`.
    pub fn eval(&self, env: &[V]) -> (r: V)
        requires
            self@.fits(env@.len()),
        ensures
            r == self@.value(env@),
        decreases self,
    {
        match self {
            Ast::Const(c) => *c,
            Ast::Var(i) => env[*i],
            Ast::Powi(e, n) => powi(e.eval(env), *n),
            Ast::Select(c, a, b) => if !c.eval(env).same(V::of(0)) {
                a.eval(env)
            } else {
                b.eval(env)
            },
            Ast::Sum(xs) => {
                let mut acc: V = V::of(0);
                let mut i: usize = 0;
                while i < xs.len()
                    invariant
                        i <= xs@.len(),
                        *self == Ast::Sum(*xs),
                        all_fit(trees(xs@), env@.len()),
                        acc == total(trees(xs@).take(i as int), env@),
                    decreases xs@.len() - i,
                {
                    proof {
                        lemma_trees_next(xs@, i as int);
                        lemma_all_fit(trees(xs@), env@.len(), i as int);
                        assert(decreases_to!(*self => self->Sum_0));
                        assert(decreases_to!(*self => xs@));
                        assert(decreases_to!(*self => xs@[i as int]));
                    }
                    acc = acc.add(xs[i].eval(env));
                    i += 1;
                }
                proof {
                    lemma_trees(xs@);
                    assert(trees(xs@).take(i as int) =~= trees(xs@));
                }
                acc
            },
            Ast::Add(l, r) => l.eval(env).add(r.eval(env)),
            Ast::Sub(l, r) => l.eval(env).sub(r.eval(env)),
            Ast::Mul(l, r) => l.eval(env).mul(r.eval(env)),
            Ast::Div(l, r) => l.eval(env).div(r.eval(env)),
            Ast::Min(l, r) => l.eval(env).min(r.eval(env)),
            Ast::Max(l, r) => l.eval(env).max(r.eval(env)),
            Ast::Cmp(l, r) => indicator(l.eval(env).lt(r.eval(env))),
            Ast::Neg(e) => e.eval(env).neg(),
            Ast::Square(e) => {
                let e = e.eval(env);
                e.mul(e)
            },
            Ast::Abs(e) => e.eval(env).abs(),
            Ast::Sqrt(e) => e.eval(env).sqrt(),
            Ast::Exp(e) => e.eval(env).exp(),
            Ast::IsNan(e) => indicator(e.eval(env).is_nan()),
        }
    }

    /// Whether two expressions are the same, their constants compared by value.
    pub fn same(&self, other: &Ast<V>) -> (r: bool)
        ensures
            r == self@.alike(other@),
        decreases self,
    {
        match (self, other) {
            (Ast::Const(a), Ast::Const(b)) => (*a).same(*b),
            (Ast::Var(a), Ast::Var(b)) => *a == *b,
            (Ast::Powi(a, n), Ast::Powi(b, m)) => a.same(b) && *n == *m,
            (Ast::Select(a, b, c), Ast::Select(d, e, f)) => a.same(d) && b.same(e) && c.same(f),
            (Ast::Sum(a), Ast::Sum(b)) => {
                proof {
                    lemma_trees(a@);
                    lemma_trees(b@);
                    assert(self@ == Tree::Sum(trees(a@)) && other@ == Tree::Sum(trees(b@)));
                }
                if a.len() != b.len() {
                    assert(!all_alike(trees(a@), trees(b@)));
                    return false;
                }
                let mut i: usize = 0;
                while i < a.len()
                    invariant
                        i <= a@.len(),
                        a@.len() == b@.len(),
                        *self == Ast::Sum(*a),
                        *other == Ast::Sum(*b),
                        all_alike(trees(a@).take(i as int), trees(b@).take(i as int)),
                    decreases a@.len() - i,
                {
                    proof {
                        lemma_trees_next(a@, i as int);
                        lemma_trees_next(b@, i as int);
                        assert(decreases_to!(*self => self->Sum_0));
                        assert(decreases_to!(*self => a@));
                        assert(decreases_to!(*self => a@[i as int]));
                    }
                    if !a[i].same(&b[i]) {
                        proof {
                            lemma_all_alike_take(trees(a@), trees(b@), i + 1);
                            assert(self@ == Tree::Sum(trees(a@)) && other@ == Tree::Sum(trees(b@)));
                        }
                        return false;
                    }
                    i += 1;
                }
                proof {
                    assert(trees(a@).take(i as int) =~= trees(a@));
                    assert(trees(b@).take(i as int) =~= trees(b@));
                }
                true
            },
            (Ast::Add(a, b), Ast::Add(c, d)) => a.same(c) && b.same(d),
            (Ast::Sub(a, b), Ast::Sub(c, d)) => a.same(c) && b.same(d),
            (Ast::Mul(a, b), Ast::Mul(c, d)) => a.same(c) && b.same(d),
            (Ast::Div(a, b), Ast::Div(c, d)) => a.same(c) && b.same(d),
            (Ast::Min(a, b), Ast::Min(c, d)) => a.same(c) && b.same(d),
            (Ast::Max(a, b), Ast::Max(c, d)) => a.same(c) && b.same(d),
            (Ast::Cmp(a, b), Ast::Cmp(c, d)) => a.same(c) && b.same(d),
            (Ast::Neg(a), Ast::Neg(b)) => a.same(b),
            (Ast::Square(a), Ast::Square(b)) => a.same(b),
            (Ast::Abs(a), Ast::Abs(b)) => a.same(b),
            (Ast::Sqrt(a), Ast::Sqrt(b)) => a.same(b),
            (Ast::Exp(a), Ast::Exp(b)) => a.same(b),
            (Ast::IsNan(a), Ast::IsNan(b)) => a.same(b),
            _ => false,
        }
    }
}

pub proof fn lemma_all_fit<V: Scalar>(xs: Seq<Tree<V>>, n: nat, i: int)
    requires
        all_fit(xs, n),
        0 <= i < xs.len(),
    ensures
        xs[i].fits(n),
    decreases xs.len(),
{
    if i < xs.len() - 1 {
        lemma_all_fit(xs.drop_last(), n, i);
    }
}

/// Sequences that differ at the front differ.
pub proof fn lemma_all_alike_take<V: Scalar>(a: Seq<Tree<V>>, b: Seq<Tree<V>>, n: int)
    requires
        a.len() == b.len(),
        0 <= n <= a.len(),
        !all_alike(a.take(n), b.take(n)),
    ensures
        !all_alike(a, b),
    decreases a.len(),
{
    if n < a.len() {
        assert(a.drop_last().take(n) =~= a.take(n));
        assert(b.drop_last().take(n) =~= b.take(n));
        lemma_all_alike_take(a.drop_last(), b.drop_last(), n);
    } else {
        assert(a.take(n) =~= a);
        assert(b.take(n) =~= b);
    }
}

/// Whether every exponent of an expression can be lowered by one.
pub open spec fn lowerable<V>(t: Tree<V>) -> bool
    decreases t,
{
    match t {
        Tree::Const(_) => true,
        Tree::Var(_) => true,
        Tree::Powi(e, n) => lowerable(*e) && n > i32::MIN,
        Tree::Select(c, a, b) => lowerable(*c) && lowerable(*a) && lowerable(*b),
        Tree::Sum(xs) => all_lowerable(xs),
        Tree::Add(l, r) => lowerable(*l) && lowerable(*r),
        Tree::Sub(l, r) => lowerable(*l) && lowerable(*r),
        Tree::Mul(l, r) => lowerable(*l) && lowerable(*r),
        Tree::Div(l, r) => lowerable(*l) && lowerable(*r),
        Tree::Min(l, r) => lowerable(*l) && lowerable(*r),
        Tree::Max(l, r) => lowerable(*l) && lowerable(*r),
        Tree::Cmp(l, r) => lowerable(*l) && lowerable(*r),
        Tree::Neg(e) => lowerable(*e),
        Tree::Square(e) => lowerable(*e),
        Tree::Abs(e) => lowerable(*e),
        Tree::Sqrt(e) => lowerable(*e),
        Tree::Exp(e) => lowerable(*e),
        Tree::IsNan(e) => lowerable(*e),
    }
}

pub open spec fn all_lowerable<V>(xs: Seq<Tree<V>>) -> bool
    decreases xs,
{
    xs.len() == 0 || (all_lowerable(xs.drop_last()) && lowerable(xs.last()))
}

pub proof fn lemma_all_lowerable<V>(xs: Seq<Tree<V>>, i: int)
    requires
        all_lowerable(xs),
        0 <= i < xs.len(),
    ensures
        lowerable(xs[i]),
    decreases xs.len(),
{
    if i < xs.len() - 1 {
        lemma_all_lowerable(xs.drop_last(), i);
    }
}

/// The live piece of a `Min`/`Max` as a tree: the right operand absent takes the left, the left
/// absent then takes the right, and only where both are numbers does `strictly` decide. Nested
/// rather than one disjunction because `Select` evaluates the taken branch alone, which is what
/// keeps the comparison off an operand it refuses.
fn skipping<V: Scalar>(
    l: &Ast<V>,
    r: &Ast<V>,
    strictly: Ast<V>,
    dl: Ast<V>,
    dr: Ast<V>,
) -> (out: Ast<V>)
    ensures
        out@ == piece(l@, r@, strictly@, dl@, dr@),
{
    proof {
        reveal_with_fuel(Ast::tree, 5);
    }
    let (left, right) = (dl.clone(), dr.clone());
    Ast::Select(
        Box::new(Ast::IsNan(Box::new(r.clone()))),
        Box::new(left),
        Box::new(
            Ast::Select(
                Box::new(Ast::IsNan(Box::new(l.clone()))),
                Box::new(right),
                Box::new(Ast::Select(Box::new(strictly), Box::new(dl), Box::new(dr))),
            ),
        ),
    )
}

fn constant_of<V: Scalar>(e: &Ast<V>) -> (r: Option<V>)
    ensures
        r == match e@ {
            Tree::Const(c) => Some(c),
            _ => None,
        },
{
    match e {
        Ast::Const(c) => Some(*c),
        _ => None,
    }
}

/// Whether an expression is a constant of a given value.
fn is<V: Scalar>(e: &Ast<V>, n: i32) -> (r: bool)
    ensures
        r == crate::tree::is(e@, n as int),
{
    match e {
        Ast::Const(c) => (*c).same(V::of(n as i64)),
        _ => false,
    }
}

/// A node whose operands all simplified to constants *is* its value, and that value comes from
/// [`Ast::eval`] rather than from a second copy of the operator's law.
fn fold<V: Scalar>(node: Ast<V>, constant: bool) -> (r: Ast<V>)
    requires
        constant ==> node@.fits(0),
    ensures
        r@ == folded(node@, constant),
{
    if constant {
        let none: Vec<V> = Vec::new();
        let ghost empty = none@;
        assert(empty =~= Seq::empty());
        Ast::Const(node.eval(none.as_slice()))
    } else {
        node
    }
}

fn negate<V: Scalar>(e: Ast<V>) -> (r: Ast<V>)
    ensures
        r@ == simple_neg(e@),
{
    match e {
        Ast::Const(c) => Ast::Const(c.neg()),
        Ast::Neg(inner) => *inner,
        e => Ast::Neg(Box::new(e)),
    }
}

/// The two walks that are no one rule for every operator: a derivative is per-operator mathematics,
/// and an identity is a per-operator claim about what an operator may be rewritten to.
impl<V: Scalar> Ast<V> {
    /// Exact symbolic derivative with respect to dep `var`, chain rule per node. Call
    /// [`Ast::simplify`] to clear the `0`/`1` litter it leaves.
    pub fn diff(&self, var: usize) -> (out: Ast<V>)
        requires
            lowerable(self@),
        ensures
            out@ == self@.derivative(var as int),
        decreases self,
    {
        proof {
            reveal_with_fuel(Ast::tree, 4);
        }
        match self {
            Ast::Const(_) => Ast::Const(V::of(0)),
            Ast::Var(i) => Ast::Const(indicator(*i == var)),
            Ast::Add(l, r) => Ast::Add(Box::new(l.diff(var)), Box::new(r.diff(var))),
            Ast::Sub(l, r) => Ast::Sub(Box::new(l.diff(var)), Box::new(r.diff(var))),
            Ast::Mul(l, r) => Ast::Add(
                Box::new(Ast::Mul(Box::new(l.diff(var)), Box::new((**r).clone()))),
                Box::new(Ast::Mul(Box::new((**l).clone()), Box::new(r.diff(var)))),
            ),
            Ast::Div(l, r) => Ast::Div(
                Box::new(
                    Ast::Sub(
                        Box::new(Ast::Mul(Box::new(l.diff(var)), Box::new((**r).clone()))),
                        Box::new(Ast::Mul(Box::new((**l).clone()), Box::new(r.diff(var)))),
                    ),
                ),
                Box::new(Ast::Square(Box::new((**r).clone()))),
            ),
            Ast::Neg(e) => Ast::Neg(Box::new(e.diff(var))),
            Ast::Square(e) => Ast::Mul(
                Box::new(Ast::Const(V::of(2))),
                Box::new(Ast::Mul(Box::new((**e).clone()), Box::new(e.diff(var)))),
            ),
            // at `e = 0` this divides nothing by nothing, which is the honest reading of a kink.
            Ast::Abs(e) => Ast::Mul(
                Box::new(
                    Ast::Div(
                        Box::new((**e).clone()),
                        Box::new(Ast::Abs(Box::new((**e).clone()))),
                    ),
                ),
                Box::new(e.diff(var)),
            ),
            Ast::Sqrt(e) => Ast::Div(
                Box::new(e.diff(var)),
                Box::new(
                    Ast::Mul(
                        Box::new(Ast::Const(V::of(2))),
                        Box::new(Ast::Sqrt(Box::new((**e).clone()))),
                    ),
                ),
            ),
            Ast::Exp(e) => Ast::Mul(
                Box::new(Ast::Exp(Box::new((**e).clone()))),
                Box::new(e.diff(var)),
            ),
            Ast::Powi(e, n) => Ast::Mul(
                Box::new(
                    Ast::Mul(
                        Box::new(Ast::Const(V::of(*n as i64))),
                        Box::new(Ast::Powi(Box::new((**e).clone()), *n - 1)),
                    ),
                ),
                Box::new(e.diff(var)),
            ),
            // the kink is a branch, not a slope: which piece is live is what `Cmp` says, and the
            // derivative is that piece's, the tie going right.
            Ast::Min(l, r) => skipping(
                l,
                r,
                Ast::Cmp(Box::new((**l).clone()), Box::new((**r).clone())),
                l.diff(var),
                r.diff(var),
            ),
            Ast::Max(l, r) => skipping(
                l,
                r,
                Ast::Cmp(Box::new((**r).clone()), Box::new((**l).clone())),
                l.diff(var),
                r.diff(var),
            ),
            Ast::Cmp(_, _) => Ast::Const(V::of(0)),
            Ast::IsNan(_) => Ast::Const(V::of(0)),
            Ast::Select(c, a, b) => Ast::Select(
                Box::new((**c).clone()),
                Box::new(a.diff(var)),
                Box::new(b.diff(var)),
            ),
            Ast::Sum(xs) => {
                let mut out: Vec<Ast<V>> = Vec::new();
                let mut i: usize = 0;
                while i < xs.len()
                    invariant
                        i <= xs@.len(),
                        *self == Ast::Sum(*xs),
                        all_lowerable(trees(xs@)),
                        trees(out@) == derivatives(trees(xs@).take(i as int), var as int),
                    decreases xs@.len() - i,
                {
                    proof {
                        lemma_trees_next(xs@, i as int);
                        lemma_all_lowerable(trees(xs@), i as int);
                        assert(decreases_to!(*self => self->Sum_0));
                        assert(decreases_to!(*self => xs@));
                        assert(decreases_to!(*self => xs@[i as int]));
                    }
                    let x: Ast<V> = xs[i].diff(var);
                    let ghost before = out@;
                    out.push(x);
                    assert(out@.drop_last() =~= before);
                    i += 1;
                }
                proof {
                    lemma_trees(xs@);
                    assert(trees(xs@).take(i as int) =~= trees(xs@));
                }
                Ast::Sum(out)
            },
        }
    }
}

impl<V: Scalar> Ast<V> {
    /// Const-fold and `0`/`1` identities, so a differentiated tree renders clean.
    pub fn simplify(&self) -> (out: Ast<V>)
        ensures
            out@ == self@.simplified(),
        decreases self@.size(), 0nat,
    {
        proof {
            lemma_sizes(self@);
            reveal_with_fuel(Ast::tree, 2);
            reveal_with_fuel(Tree::fits, 2);
        }
        match self {
            Ast::Const(c) => Ast::Const(*c),
            Ast::Var(i) => Ast::Var(*i),
            Ast::Add(l, r) => {
                let (l, r) = (l.simplify(), r.simplify());
                if let (Some(a), Some(b)) = (constant_of(&l), constant_of(&r)) {
                    Ast::Const(a.add(b))
                } else if is(&l, 0) {
                    r
                } else if is(&r, 0) {
                    l
                } else {
                    Ast::Add(Box::new(l), Box::new(r))
                }
            },
            Ast::Sub(l, r) => {
                proof {
                    lemma_simplified_size(r@);
                }
                let (l, r) = (l.simplify(), r.simplify());
                if let (Some(a), Some(b)) = (constant_of(&l), constant_of(&r)) {
                    Ast::Const(a.sub(b))
                } else if is(&r, 0) {
                    l
                } else if is(&l, 0) {
                    negate(r.simplify())
                } else {
                    Ast::Sub(Box::new(l), Box::new(r))
                }
            },
            Ast::Mul(l, r) => {
                let (l, r) = (l.simplify(), r.simplify());
                if let (Some(a), Some(b)) = (constant_of(&l), constant_of(&r)) {
                    Ast::Const(a.mul(b))
                } else if is(&l, 0) || is(&r, 0) {
                    Ast::Const(V::of(0))
                } else if is(&l, 1) {
                    r
                } else if is(&r, 1) {
                    l
                } else {
                    Ast::Mul(Box::new(l), Box::new(r))
                }
            },
            Ast::Div(l, r) => {
                let (l, r) = (l.simplify(), r.simplify());
                if let (Some(a), Some(b)) = (constant_of(&l), constant_of(&r)) {
                    Ast::Const(a.div(b))
                } else if is(&l, 0) {
                    Ast::Const(V::of(0))
                } else if is(&r, 1) {
                    l
                } else {
                    Ast::Div(Box::new(l), Box::new(r))
                }
            },
            Ast::Neg(e) => negate(e.simplify()),
            Ast::Square(e) => {
                let e = e.simplify();
                let constant: bool = constant_of(&e).is_some();
                fold(Ast::Square(Box::new(e)), constant)
            },
            Ast::Abs(e) => {
                let e = e.simplify();
                let constant: bool = constant_of(&e).is_some();
                fold(Ast::Abs(Box::new(e)), constant)
            },
            Ast::Sqrt(e) => {
                let e = e.simplify();
                let constant: bool = constant_of(&e).is_some();
                fold(Ast::Sqrt(Box::new(e)), constant)
            },
            Ast::Exp(e) => {
                let e = e.simplify();
                let constant: bool = constant_of(&e).is_some();
                fold(Ast::Exp(Box::new(e)), constant)
            },
            Ast::IsNan(e) => {
                let e = e.simplify();
                let constant: bool = constant_of(&e).is_some();
                fold(Ast::IsNan(Box::new(e)), constant)
            },
            Ast::Min(l, r) => {
                let (l, r) = (l.simplify(), r.simplify());
                let constant: bool = constant_of(&l).is_some() && constant_of(&r).is_some();
                fold(Ast::Min(Box::new(l), Box::new(r)), constant)
            },
            Ast::Max(l, r) => {
                let (l, r) = (l.simplify(), r.simplify());
                let constant: bool = constant_of(&l).is_some() && constant_of(&r).is_some();
                fold(Ast::Max(Box::new(l), Box::new(r)), constant)
            },
            Ast::Cmp(l, r) => {
                let (l, r) = (l.simplify(), r.simplify());
                let constant: bool = constant_of(&l).is_some() && constant_of(&r).is_some();
                fold(Ast::Cmp(Box::new(l), Box::new(r)), constant)
            },
            Ast::Powi(e, n) => {
                let e = e.simplify();
                let constant: bool = constant_of(&e).is_some();
                if !constant && *n == 0 {
                    Ast::Const(V::of(1))
                } else if !constant && *n == 1 {
                    e
                } else {
                    fold(Ast::Powi(Box::new(e), *n), constant)
                }
            },
            Ast::Select(c, a, b) => {
                let (c, a, b) = (c.simplify(), a.simplify(), b.simplify());
                match constant_of(&c) {
                    Some(k) => if !k.same(V::of(0)) {
                        a
                    } else {
                        b
                    },
                    // both arms the same is what a differentiated `Min(x, x)` collapses to
                    None => if a.same(&b) {
                        a
                    } else {
                        Ast::Select(Box::new(c), Box::new(a), Box::new(b))
                    },
                }
            },
            Ast::Sum(xs) => self.simplify_sum(xs),
        }
    }

    /// The simplest form of a sum: the terms that vary, and one constant for those that do not.
    fn simplify_sum(&self, xs: &Vec<Ast<V>>) -> (out: Ast<V>)
        requires
            *self == Ast::Sum(*xs),
        ensures
            out@ == simple_sum(all_simplified(trees(xs@))),
        decreases sizes(trees(xs@)), 1nat,
    {
        let mut acc: V = V::of(0);
        let mut rest: Vec<Ast<V>> = Vec::new();
        let mut i: usize = 0;
        let ghost all = trees(xs@);
        while i < xs.len()
            invariant
                i <= xs@.len(),
                all == trees(xs@),
                sizes(all) == sizes(trees(xs@)),
                acc == constants(all_simplified(all.take(i as int))),
                trees(rest@) == others(all_simplified(all.take(i as int))),
            decreases xs@.len() - i,
        {
            proof {
                lemma_trees_next(xs@, i as int);
                lemma_size_within(all, i as int);
                let upto = all_simplified(all.take(i + 1));
                assert(upto.drop_last() =~= all_simplified(all.take(i as int)));
            }
            let x: Ast<V> = xs[i].simplify();
            let ghost before = rest@;
            match x {
                Ast::Const(c) => {
                    acc = acc.add(c);
                },
                other => {
                    rest.push(other);
                    assert(rest@.drop_last() =~= before);
                },
            }
            i += 1;
        }
        proof {
            lemma_trees(xs@);
            lemma_trees(rest@);
            assert(all.take(i as int) =~= all);
        }
        if !acc.same(V::of(0)) || rest.len() == 0 {
            let ghost before = rest@;
            rest.push(Ast::Const(acc));
            assert(rest@.drop_last() =~= before);
        }
        let ghost whole = rest@;
        proof {
            lemma_trees(whole);
            assert(trees(whole) =~= terms(all_simplified(all)));
        }
        if rest.len() == 1 {
            let last: Option<Ast<V>> = rest.pop();
            match last {
                Some(x) => x,
                None => Ast::Sum(rest),
            }
        } else {
            Ast::Sum(rest)
        }
    }
}

/// A term is no larger than the terms together.
proof fn lemma_size_within<V: Scalar>(xs: Seq<Tree<V>>, i: int)
    requires
        0 <= i < xs.len(),
    ensures
        xs[i].size() <= sizes(xs),
    decreases xs.len(),
{
    if i < xs.len() - 1 {
        lemma_size_within(xs.drop_last(), i);
    }
}

} // verus!
