//! The mathematical model of an expression: its value, its derivative, its simplest form and its
//! spellings.

use vstd::prelude::*;

use crate::scalar::Scalar;
use crate::scalar::{raised, truth};
use crate::text::{decimal, joined};

verus! {

/// An expression as a mathematical tree.
#[verifier::ext_equal]
pub enum Tree<V> {
    Const(V),
    Var(int),
    Powi(Box<Tree<V>>, int),
    Select(Box<Tree<V>>, Box<Tree<V>>, Box<Tree<V>>),
    Sum(Seq<Tree<V>>),
    Add(Box<Tree<V>>, Box<Tree<V>>),
    Sub(Box<Tree<V>>, Box<Tree<V>>),
    Mul(Box<Tree<V>>, Box<Tree<V>>),
    Div(Box<Tree<V>>, Box<Tree<V>>),
    Min(Box<Tree<V>>, Box<Tree<V>>),
    Max(Box<Tree<V>>, Box<Tree<V>>),
    Cmp(Box<Tree<V>>, Box<Tree<V>>),
    Neg(Box<Tree<V>>),
    Square(Box<Tree<V>>),
    Abs(Box<Tree<V>>),
    Sqrt(Box<Tree<V>>),
    Exp(Box<Tree<V>>),
    IsNan(Box<Tree<V>>),
}

impl<V: Scalar> Tree<V> {
    /// What an expression is worth where its variables are worth `env`.
    pub open spec fn value(self, env: Seq<V>) -> V
        decreases self,
    {
        match self {
            Tree::Const(c) => c,
            Tree::Var(i) => env[i],
            Tree::Powi(e, n) => raised(e.value(env), n),
            Tree::Select(c, a, b) => if !c.value(env).equals(V::whole(0)) {
                a.value(env)
            } else {
                b.value(env)
            },
            Tree::Sum(xs) => total(xs, env),
            Tree::Add(l, r) => l.value(env).plus(r.value(env)),
            Tree::Sub(l, r) => l.value(env).minus(r.value(env)),
            Tree::Mul(l, r) => l.value(env).times(r.value(env)),
            Tree::Div(l, r) => l.value(env).over(r.value(env)),
            Tree::Min(l, r) => l.value(env).lesser(r.value(env)),
            Tree::Max(l, r) => l.value(env).greater(r.value(env)),
            Tree::Cmp(l, r) => truth(l.value(env).below(r.value(env))),
            Tree::Neg(e) => e.value(env).negated(),
            Tree::Square(e) => e.value(env).times(e.value(env)),
            Tree::Abs(e) => e.value(env).magnitude(),
            Tree::Sqrt(e) => e.value(env).root(),
            Tree::Exp(e) => e.value(env).exponential(),
            Tree::IsNan(e) => truth(e.value(env).absent()),
        }
    }

    /// Whether every variable an expression reads is among the first `n`.
    pub open spec fn fits(self, n: nat) -> bool
        decreases self,
    {
        match self {
            Tree::Const(_) => true,
            Tree::Var(i) => 0 <= i < n,
            Tree::Powi(e, _) => e.fits(n),
            Tree::Select(c, a, b) => c.fits(n) && a.fits(n) && b.fits(n),
            Tree::Sum(xs) => all_fit(xs, n),
            Tree::Add(l, r) => l.fits(n) && r.fits(n),
            Tree::Sub(l, r) => l.fits(n) && r.fits(n),
            Tree::Mul(l, r) => l.fits(n) && r.fits(n),
            Tree::Div(l, r) => l.fits(n) && r.fits(n),
            Tree::Min(l, r) => l.fits(n) && r.fits(n),
            Tree::Max(l, r) => l.fits(n) && r.fits(n),
            Tree::Cmp(l, r) => l.fits(n) && r.fits(n),
            Tree::Neg(e) => e.fits(n),
            Tree::Square(e) => e.fits(n),
            Tree::Abs(e) => e.fits(n),
            Tree::Sqrt(e) => e.fits(n),
            Tree::Exp(e) => e.fits(n),
            Tree::IsNan(e) => e.fits(n),
        }
    }

    /// How many nodes an expression has.
    pub open spec fn size(self) -> nat
        decreases self,
    {
        match self {
            Tree::Const(_) => 1,
            Tree::Var(_) => 1,
            Tree::Powi(e, _) => 1 + e.size(),
            Tree::Select(c, a, b) => 1 + c.size() + a.size() + b.size(),
            Tree::Sum(xs) => 1 + sizes(xs),
            Tree::Add(l, r) => 1 + l.size() + r.size(),
            Tree::Sub(l, r) => 1 + l.size() + r.size(),
            Tree::Mul(l, r) => 1 + l.size() + r.size(),
            Tree::Div(l, r) => 1 + l.size() + r.size(),
            Tree::Min(l, r) => 1 + l.size() + r.size(),
            Tree::Max(l, r) => 1 + l.size() + r.size(),
            Tree::Cmp(l, r) => 1 + l.size() + r.size(),
            Tree::Neg(e) => 1 + e.size(),
            Tree::Square(e) => 1 + e.size(),
            Tree::Abs(e) => 1 + e.size(),
            Tree::Sqrt(e) => 1 + e.size(),
            Tree::Exp(e) => 1 + e.size(),
            Tree::IsNan(e) => 1 + e.size(),
        }
    }

    /// Whether two expressions are the same, their constants compared by value: an absent constant
    /// is like nothing.
    pub open spec fn alike(self, other: Tree<V>) -> bool
        decreases self,
    {
        match (self, other) {
            (Tree::Const(a), Tree::Const(b)) => a.equals(b),
            (Tree::Var(a), Tree::Var(b)) => a == b,
            (Tree::Powi(a, n), Tree::Powi(b, m)) => a.alike(*b) && n == m,
            (Tree::Select(a, b, c), Tree::Select(d, e, f)) => a.alike(*d) && b.alike(*e)
                && c.alike(*f),
            (Tree::Sum(a), Tree::Sum(b)) => all_alike(a, b),
            (Tree::Add(a, b), Tree::Add(c, d)) => a.alike(*c) && b.alike(*d),
            (Tree::Sub(a, b), Tree::Sub(c, d)) => a.alike(*c) && b.alike(*d),
            (Tree::Mul(a, b), Tree::Mul(c, d)) => a.alike(*c) && b.alike(*d),
            (Tree::Div(a, b), Tree::Div(c, d)) => a.alike(*c) && b.alike(*d),
            (Tree::Min(a, b), Tree::Min(c, d)) => a.alike(*c) && b.alike(*d),
            (Tree::Max(a, b), Tree::Max(c, d)) => a.alike(*c) && b.alike(*d),
            (Tree::Cmp(a, b), Tree::Cmp(c, d)) => a.alike(*c) && b.alike(*d),
            (Tree::Neg(a), Tree::Neg(b)) => a.alike(*b),
            (Tree::Square(a), Tree::Square(b)) => a.alike(*b),
            (Tree::Abs(a), Tree::Abs(b)) => a.alike(*b),
            (Tree::Sqrt(a), Tree::Sqrt(b)) => a.alike(*b),
            (Tree::Exp(a), Tree::Exp(b)) => a.alike(*b),
            (Tree::IsNan(a), Tree::IsNan(b)) => a.alike(*b),
            _ => false,
        }
    }

    /// The exact symbolic derivative with respect to one variable, by the chain rule per node. The
    /// sign of `e` is rendered as `e / |e|`, exact off the kink; a `Min`/`Max` is the live piece's.
    pub open spec fn derivative(self, var: int) -> Tree<V>
        decreases self,
    {
        match self {
            Tree::Const(_) => zero(),
            Tree::Var(i) => Tree::Const(truth(i == var)),
            Tree::Add(l, r) => sum_of(l.derivative(var), r.derivative(var)),
            Tree::Sub(l, r) => difference_of(l.derivative(var), r.derivative(var)),
            Tree::Mul(l, r) => sum_of(product_of(l.derivative(var), *r), product_of(*l, r.derivative(var))),
            Tree::Div(l, r) => quotient_of(
                difference_of(product_of(l.derivative(var), *r), product_of(*l, r.derivative(var))),
                Tree::Square(r),
            ),
            Tree::Neg(e) => Tree::Neg(Box::new(e.derivative(var))),
            Tree::Square(e) => product_of(Tree::Const(V::whole(2)), product_of(*e, e.derivative(var))),
            Tree::Abs(e) => product_of(quotient_of(*e, Tree::Abs(e)), e.derivative(var)),
            Tree::Sqrt(e) => quotient_of(
                e.derivative(var),
                product_of(Tree::Const(V::whole(2)), Tree::Sqrt(e)),
            ),
            Tree::Exp(e) => product_of(Tree::Exp(e), e.derivative(var)),
            Tree::Powi(e, n) => product_of(
                product_of(Tree::Const(V::whole(n)), Tree::Powi(e, n - 1)),
                e.derivative(var),
            ),
            Tree::Min(l, r) => piece(
                *l,
                *r,
                Tree::Cmp(l, r),
                l.derivative(var),
                r.derivative(var),
            ),
            Tree::Max(l, r) => piece(
                *l,
                *r,
                Tree::Cmp(r, l),
                l.derivative(var),
                r.derivative(var),
            ),
            Tree::Cmp(_, _) => zero(),
            Tree::IsNan(_) => zero(),
            Tree::Select(c, a, b) => select(*c, a.derivative(var), b.derivative(var)),
            Tree::Sum(xs) => Tree::Sum(derivatives(xs, var)),
        }
    }

    /// The simplest form of an expression: its constants folded and the units cleared.
    pub open spec fn simplified(self) -> Tree<V>
        decreases self.size(), 0nat,
    {
        proof {
            lemma_sizes(self);
        }
        match self {
            Tree::Const(_) => self,
            Tree::Var(_) => self,
            Tree::Add(l, r) => simple_add(l.simplified(), r.simplified()),
            Tree::Sub(l, r) => {
                let (l, s) = (l.simplified(), r.simplified());
                if subtracts_from_nothing(l, s) && s.size() <= r.size() {
                    simple_neg(s.simplified())
                } else {
                    simple_sub(l, s)
                }
            },
            Tree::Mul(l, r) => simple_mul(l.simplified(), r.simplified()),
            Tree::Div(l, r) => simple_div(l.simplified(), r.simplified()),
            Tree::Neg(e) => simple_neg(e.simplified()),
            Tree::Square(e) => folded(Tree::Square(Box::new(e.simplified())), e.simplified() is Const),
            Tree::Abs(e) => folded(Tree::Abs(Box::new(e.simplified())), e.simplified() is Const),
            Tree::Sqrt(e) => folded(Tree::Sqrt(Box::new(e.simplified())), e.simplified() is Const),
            Tree::Exp(e) => folded(Tree::Exp(Box::new(e.simplified())), e.simplified() is Const),
            Tree::IsNan(e) => folded(Tree::IsNan(Box::new(e.simplified())), e.simplified() is Const),
            Tree::Min(l, r) => folded(
                Tree::Min(Box::new(l.simplified()), Box::new(r.simplified())),
                l.simplified() is Const && r.simplified() is Const,
            ),
            Tree::Max(l, r) => folded(
                Tree::Max(Box::new(l.simplified()), Box::new(r.simplified())),
                l.simplified() is Const && r.simplified() is Const,
            ),
            Tree::Cmp(l, r) => folded(
                Tree::Cmp(Box::new(l.simplified()), Box::new(r.simplified())),
                l.simplified() is Const && r.simplified() is Const,
            ),
            Tree::Powi(e, n) => simple_powi(e.simplified(), n),
            Tree::Select(c, a, b) => simple_select(c.simplified(), a.simplified(), b.simplified()),
            Tree::Sum(xs) => simple_sum(all_simplified(xs)),
        }
    }

    /// The expression in LaTeX, over the given names of its variables.
    pub open spec fn latex(self, names: Seq<&str>) -> Seq<char>
        decreases self,
    {
        match self {
            Tree::Const(c) => c.spelled(),
            Tree::Var(i) => if i < names.len() {
                names[i]@
            } else {
                "x_{"@ + decimal(i as nat) + "}"@
            },
            Tree::Powi(e, n) => e.latex(names) + "^{"@ + signed(n) + "}"@,
            Tree::Select(c, a, b) => "\\begin{cases}"@ + a.latex(names) + " & "@ + c.latex(names)
                + " \\\\ "@ + b.latex(names) + " & \\text{otherwise}\\end{cases}"@,
            Tree::Sum(xs) => "\\left("@ + joined(latexes(xs, names), " + "@) + "\\right)"@,
            Tree::Add(l, r) => "\\left("@ + l.latex(names) + " + "@ + r.latex(names) + "\\right)"@,
            Tree::Sub(l, r) => "\\left("@ + l.latex(names) + " - "@ + r.latex(names) + "\\right)"@,
            Tree::Mul(l, r) => "\\left("@ + l.latex(names) + " \\cdot "@ + r.latex(names) + "\\right)"@,
            Tree::Div(l, r) => "\\frac{"@ + l.latex(names) + "}{"@ + r.latex(names) + "}"@,
            Tree::Min(l, r) => "\\min\\left("@ + l.latex(names) + ", "@ + r.latex(names) + "\\right)"@,
            Tree::Max(l, r) => "\\max\\left("@ + l.latex(names) + ", "@ + r.latex(names) + "\\right)"@,
            Tree::Cmp(l, r) => "\\left["@ + l.latex(names) + " < "@ + r.latex(names) + "\\right]"@,
            Tree::Neg(e) => "-"@ + e.latex(names) + ""@,
            Tree::Square(e) => ""@ + e.latex(names) + "^{2}"@,
            Tree::Abs(e) => "\\left|"@ + e.latex(names) + "\\right|"@,
            Tree::Sqrt(e) => "\\sqrt{"@ + e.latex(names) + "}"@,
            Tree::Exp(e) => "e^{"@ + e.latex(names) + "}"@,
            Tree::IsNan(e) => "\\left["@ + e.latex(names) + " = \\varnothing\\right]"@,
        }
    }

    /// Plain infix over `x_i` metavariables, parens on every compound.
    pub open spec fn infix(self) -> Seq<char>
        decreases self,
    {
        match self {
            Tree::Const(c) => c.spelled(),
            Tree::Var(i) => "x"@ + decimal(i as nat),
            Tree::Powi(e, n) => e.infix() + "^"@ + signed(n),
            Tree::Select(c, a, b) => "("@ + a.infix() + " if "@ + c.infix() + " else "@ + b.infix()
                + ")"@,
            Tree::Sum(xs) => "("@ + joined(infixes(xs), " + "@) + ")"@,
            Tree::Add(l, r) => "("@ + l.infix() + " + "@ + r.infix() + ")"@,
            Tree::Sub(l, r) => "("@ + l.infix() + " - "@ + r.infix() + ")"@,
            Tree::Mul(l, r) => "("@ + l.infix() + " * "@ + r.infix() + ")"@,
            Tree::Div(l, r) => "("@ + l.infix() + " / "@ + r.infix() + ")"@,
            Tree::Min(l, r) => "min("@ + l.infix() + ", "@ + r.infix() + ")"@,
            Tree::Max(l, r) => "max("@ + l.infix() + ", "@ + r.infix() + ")"@,
            Tree::Cmp(l, r) => "["@ + l.infix() + " < "@ + r.infix() + "]"@,
            Tree::Neg(e) => "(-"@ + e.infix() + ")"@,
            Tree::Square(e) => ""@ + e.infix() + "^2"@,
            Tree::Abs(e) => "|"@ + e.infix() + "|"@,
            Tree::Sqrt(e) => "sqrt("@ + e.infix() + ")"@,
            Tree::Exp(e) => "exp("@ + e.infix() + ")"@,
            Tree::IsNan(e) => "["@ + e.infix() + " absent]"@,
        }
    }

    /// Every node paired with its value, the untaken branch of a `Select` left out.
    pub open spec fn traced(self, env: Seq<V>) -> Traced<V>
        decreases self,
    {
        let (op, kids) = match self {
            Tree::Const(_) => ("const"@, Seq::empty()),
            Tree::Var(_) => ("var"@, Seq::empty()),
            Tree::Powi(e, _) => ("powi"@, seq![e.traced(env)]),
            Tree::Select(c, a, b) => (
                "select"@,
                if !c.value(env).equals(V::whole(0)) {
                    seq![c.traced(env), a.traced(env)]
                } else {
                    seq![c.traced(env), b.traced(env)]
                },
            ),
            Tree::Sum(xs) => ("sum"@, all_traced(xs, env)),
            Tree::Add(l, r) => ("+"@, seq![l.traced(env), r.traced(env)]),
            Tree::Sub(l, r) => ("-"@, seq![l.traced(env), r.traced(env)]),
            Tree::Mul(l, r) => ("*"@, seq![l.traced(env), r.traced(env)]),
            Tree::Div(l, r) => ("/"@, seq![l.traced(env), r.traced(env)]),
            Tree::Min(l, r) => ("min"@, seq![l.traced(env), r.traced(env)]),
            Tree::Max(l, r) => ("max"@, seq![l.traced(env), r.traced(env)]),
            Tree::Cmp(l, r) => ("<"@, seq![l.traced(env), r.traced(env)]),
            Tree::Neg(e) => ("neg"@, seq![e.traced(env)]),
            Tree::Square(e) => ("sq"@, seq![e.traced(env)]),
            Tree::Abs(e) => ("abs"@, seq![e.traced(env)]),
            Tree::Sqrt(e) => ("sqrt"@, seq![e.traced(env)]),
            Tree::Exp(e) => ("exp"@, seq![e.traced(env)]),
            Tree::IsNan(e) => ("absent?"@, seq![e.traced(env)]),
        };
        Traced { op, val: self.value(env), kids }
    }
}

/// A node of an expression paired with its value.
#[verifier::ext_equal]
pub struct Traced<V> {
    pub op: Seq<char>,
    pub val: V,
    pub kids: Seq<Traced<V>>,
}

impl<V: Scalar> Traced<V> {
    /// The intermediate-value tree, one node per line.
    pub open spec fn drawn(self) -> Seq<char> {
        "◉ "@ + self.op + ": "@ + self.val.spelled() + drawn_kids(
            self.kids,
            self.kids.len(),
            Seq::empty(),
        )
    }
}

/// The first `n` of some nodes, each under a connector and its own below it.
pub open spec fn drawn_kids<V: Scalar>(
    kids: Seq<Traced<V>>,
    n: nat,
    prefix: Seq<char>,
) -> Seq<char>
    decreases kids, n,
{
    if n == 0 || n > kids.len() {
        Seq::empty()
    } else {
        let k = kids[n - 1];
        let last = n == kids.len();
        drawn_kids(kids, (n - 1) as nat, prefix) + "\n"@ + prefix + (if last {
            "└──"@
        } else {
            "├──"@
        }) + "◉ "@ + k.op + ": "@ + k.val.spelled() + drawn_kids(
            k.kids,
            k.kids.len(),
            prefix + (if last {
                "   "@
            } else {
                "│  "@
            }),
        )
    }
}

/// An integer in decimal, a minus ahead of a negative one.
pub open spec fn signed(n: int) -> Seq<char> {
    if n < 0 {
        "-"@ + decimal((-n) as nat)
    } else {
        decimal(n as nat)
    }
}

pub open spec fn zero<V: Scalar>() -> Tree<V> {
    Tree::Const(V::whole(0))
}

pub open spec fn sum_of<V>(l: Tree<V>, r: Tree<V>) -> Tree<V> {
    Tree::Add(Box::new(l), Box::new(r))
}

pub open spec fn difference_of<V>(l: Tree<V>, r: Tree<V>) -> Tree<V> {
    Tree::Sub(Box::new(l), Box::new(r))
}

pub open spec fn product_of<V>(l: Tree<V>, r: Tree<V>) -> Tree<V> {
    Tree::Mul(Box::new(l), Box::new(r))
}

pub open spec fn quotient_of<V>(l: Tree<V>, r: Tree<V>) -> Tree<V> {
    Tree::Div(Box::new(l), Box::new(r))
}

pub open spec fn select<V>(c: Tree<V>, a: Tree<V>, b: Tree<V>) -> Tree<V> {
    Tree::Select(Box::new(c), Box::new(a), Box::new(b))
}

/// The live piece of a `Min`/`Max`: the right operand absent takes the left, the left absent takes
/// the right, and only where both are numbers does `strictly` decide.
pub open spec fn piece<V>(
    l: Tree<V>,
    r: Tree<V>,
    strictly: Tree<V>,
    dl: Tree<V>,
    dr: Tree<V>,
) -> Tree<V> {
    select(
        Tree::IsNan(Box::new(r)),
        dl,
        select(Tree::IsNan(Box::new(l)), dr, select(strictly, dl, dr)),
    )
}

/// The sum of some expressions, from zero and left to right.
pub open spec fn total<V: Scalar>(xs: Seq<Tree<V>>, env: Seq<V>) -> V
    decreases xs,
{
    if xs.len() == 0 {
        V::whole(0)
    } else {
        total(xs.drop_last(), env).plus(xs.last().value(env))
    }
}

pub open spec fn all_fit<V: Scalar>(xs: Seq<Tree<V>>, n: nat) -> bool
    decreases xs,
{
    xs.len() == 0 || (all_fit(xs.drop_last(), n) && xs.last().fits(n))
}

pub open spec fn sizes<V: Scalar>(xs: Seq<Tree<V>>) -> nat
    decreases xs,
{
    if xs.len() == 0 {
        0
    } else {
        sizes(xs.drop_last()) + xs.last().size()
    }
}

pub open spec fn all_alike<V: Scalar>(a: Seq<Tree<V>>, b: Seq<Tree<V>>) -> bool
    decreases a,
{
    a.len() == b.len() && (a.len() == 0 || (all_alike(a.drop_last(), b.drop_last())
        && a.last().alike(b.last())))
}

pub open spec fn derivatives<V: Scalar>(xs: Seq<Tree<V>>, var: int) -> Seq<Tree<V>>
    decreases xs,
{
    if xs.len() == 0 {
        Seq::empty()
    } else {
        derivatives(xs.drop_last(), var).push(xs.last().derivative(var))
    }
}

pub open spec fn all_simplified<V: Scalar>(xs: Seq<Tree<V>>) -> Seq<Tree<V>>
    decreases sizes(xs), xs.len(),
{
    if xs.len() == 0 {
        Seq::empty()
    } else {
        proof {
            lemma_size_positive(xs.last());
        }
        all_simplified(xs.drop_last()).push(xs.last().simplified())
    }
}

pub open spec fn latexes<V: Scalar>(xs: Seq<Tree<V>>, names: Seq<&str>) -> Seq<Seq<char>>
    decreases xs,
{
    if xs.len() == 0 {
        Seq::empty()
    } else {
        latexes(xs.drop_last(), names).push(xs.last().latex(names))
    }
}

pub open spec fn infixes<V: Scalar>(xs: Seq<Tree<V>>) -> Seq<Seq<char>>
    decreases xs,
{
    if xs.len() == 0 {
        Seq::empty()
    } else {
        infixes(xs.drop_last()).push(xs.last().infix())
    }
}

pub open spec fn all_traced<V: Scalar>(xs: Seq<Tree<V>>, env: Seq<V>) -> Seq<Traced<V>>
    decreases xs,
{
    if xs.len() == 0 {
        Seq::empty()
    } else {
        all_traced(xs.drop_last(), env).push(xs.last().traced(env))
    }
}

pub open spec fn is<V: Scalar>(e: Tree<V>, n: int) -> bool {
    e matches Tree::Const(c) && c.equals(V::whole(n))
}

/// A node whose operands all simplified to constants *is* its value.
pub open spec fn folded<V: Scalar>(node: Tree<V>, constant: bool) -> Tree<V> {
    if constant {
        Tree::Const(node.value(Seq::empty()))
    } else {
        node
    }
}

pub open spec fn simple_add<V: Scalar>(l: Tree<V>, r: Tree<V>) -> Tree<V> {
    if l is Const && r is Const {
        Tree::Const(l->Const_0.plus(r->Const_0))
    } else if is(l, 0) {
        r
    } else if is(r, 0) {
        l
    } else {
        sum_of(l, r)
    }
}

/// Whether a difference is the negation of what it subtracts.
pub open spec fn subtracts_from_nothing<V: Scalar>(l: Tree<V>, r: Tree<V>) -> bool {
    r !is Const && is(l, 0)
}

pub open spec fn simple_sub<V: Scalar>(l: Tree<V>, r: Tree<V>) -> Tree<V> {
    if l is Const && r is Const {
        Tree::Const(l->Const_0.minus(r->Const_0))
    } else if is(r, 0) {
        l
    } else {
        difference_of(l, r)
    }
}

pub open spec fn simple_mul<V: Scalar>(l: Tree<V>, r: Tree<V>) -> Tree<V> {
    if l is Const && r is Const {
        Tree::Const(l->Const_0.times(r->Const_0))
    } else if is(l, 0) || is(r, 0) {
        zero()
    } else if is(l, 1) {
        r
    } else if is(r, 1) {
        l
    } else {
        product_of(l, r)
    }
}

pub open spec fn simple_div<V: Scalar>(l: Tree<V>, r: Tree<V>) -> Tree<V> {
    if l is Const && r is Const {
        Tree::Const(l->Const_0.over(r->Const_0))
    } else if is(l, 0) {
        zero()
    } else if is(r, 1) {
        l
    } else {
        quotient_of(l, r)
    }
}

pub open spec fn simple_neg<V: Scalar>(e: Tree<V>) -> Tree<V> {
    match e {
        Tree::Const(c) => Tree::Const(c.negated()),
        Tree::Neg(inner) => *inner,
        _ => Tree::Neg(Box::new(e)),
    }
}

pub open spec fn simple_powi<V: Scalar>(e: Tree<V>, n: int) -> Tree<V> {
    if e !is Const && n == 0 {
        Tree::Const(V::whole(1))
    } else if e !is Const && n == 1 {
        e
    } else {
        folded(Tree::Powi(Box::new(e), n), e is Const)
    }
}

pub open spec fn simple_select<V: Scalar>(c: Tree<V>, a: Tree<V>, b: Tree<V>) -> Tree<V> {
    match c {
        Tree::Const(k) => if !k.equals(V::whole(0)) {
            a
        } else {
            b
        },
        _ => if a.alike(b) {
            a
        } else {
            select(c, a, b)
        },
    }
}

/// The sum of the constants among some terms.
pub open spec fn constants<V: Scalar>(xs: Seq<Tree<V>>) -> V
    decreases xs.len(),
{
    if xs.len() == 0 {
        V::whole(0)
    } else {
        match xs.last() {
            Tree::Const(c) => constants(xs.drop_last()).plus(c),
            _ => constants(xs.drop_last()),
        }
    }
}

/// The terms that are no constants.
pub open spec fn others<V: Scalar>(xs: Seq<Tree<V>>) -> Seq<Tree<V>>
    decreases xs.len(),
{
    if xs.len() == 0 {
        Seq::empty()
    } else if xs.last() is Const {
        others(xs.drop_last())
    } else {
        others(xs.drop_last()).push(xs.last())
    }
}

/// The terms that vary, then their constants in one where these amount to anything.
pub open spec fn terms<V: Scalar>(xs: Seq<Tree<V>>) -> Seq<Tree<V>> {
    let acc = constants(xs);
    if !acc.equals(V::whole(0)) || others(xs).len() == 0 {
        others(xs).push(Tree::Const(acc))
    } else {
        others(xs)
    }
}

pub open spec fn simple_sum<V: Scalar>(xs: Seq<Tree<V>>) -> Tree<V> {
    if terms(xs).len() == 1 {
        terms(xs)[0]
    } else {
        Tree::Sum(terms(xs))
    }
}

pub proof fn lemma_size_positive<V: Scalar>(t: Tree<V>)
    ensures
        t.size() >= 1,
{
}

/// An expression is larger than each of its operands.
pub proof fn lemma_sizes<V: Scalar>(t: Tree<V>)
    ensures
        t.size() >= 1,
        match t {
            Tree::Const(_) => true,
            Tree::Var(_) => true,
            Tree::Powi(e, _) => e.size() < t.size(),
            Tree::Select(c, a, b) => c.size() < t.size() && a.size() < t.size() && b.size()
                < t.size(),
            Tree::Sum(xs) => sizes(xs) < t.size(),
            Tree::Add(l, r) => 1 <= l.size() < t.size() && 1 <= r.size() < t.size(),
            Tree::Sub(l, r) => 1 <= l.size() < t.size() && 1 <= r.size() < t.size(),
            Tree::Mul(l, r) => 1 <= l.size() < t.size() && 1 <= r.size() < t.size(),
            Tree::Div(l, r) => 1 <= l.size() < t.size() && 1 <= r.size() < t.size(),
            Tree::Min(l, r) => 1 <= l.size() < t.size() && 1 <= r.size() < t.size(),
            Tree::Max(l, r) => 1 <= l.size() < t.size() && 1 <= r.size() < t.size(),
            Tree::Cmp(l, r) => 1 <= l.size() < t.size() && 1 <= r.size() < t.size(),
            Tree::Neg(e) => e.size() < t.size(),
            Tree::Square(e) => e.size() < t.size(),
            Tree::Abs(e) => e.size() < t.size(),
            Tree::Sqrt(e) => e.size() < t.size(),
            Tree::Exp(e) => e.size() < t.size(),
            Tree::IsNan(e) => e.size() < t.size(),
        },
{
    match t {
        Tree::Add(l, r) => {
            lemma_size_positive(*l);
            lemma_size_positive(*r);
        },
        Tree::Sub(l, r) => {
            lemma_size_positive(*l);
            lemma_size_positive(*r);
        },
        Tree::Mul(l, r) => {
            lemma_size_positive(*l);
            lemma_size_positive(*r);
        },
        Tree::Div(l, r) => {
            lemma_size_positive(*l);
            lemma_size_positive(*r);
        },
        Tree::Min(l, r) => {
            lemma_size_positive(*l);
            lemma_size_positive(*r);
        },
        Tree::Max(l, r) => {
            lemma_size_positive(*l);
            lemma_size_positive(*r);
        },
        Tree::Cmp(l, r) => {
            lemma_size_positive(*l);
            lemma_size_positive(*r);
        },
        _ => {},
    }
}

pub proof fn lemma_sizes_push<V: Scalar>(xs: Seq<Tree<V>>, x: Tree<V>)
    ensures
        sizes(xs.push(x)) == sizes(xs) + x.size(),
{
    assert(xs.push(x).drop_last() =~= xs);
}

/// The terms that vary are no larger than all of them, and smaller where a constant is among them.
proof fn lemma_others<V: Scalar>(xs: Seq<Tree<V>>)
    ensures
        sizes(others(xs)) <= sizes(xs),
        sizes(others(xs)) == sizes(xs) ==> constants(xs) == V::whole(0),
    decreases xs.len(),
{
    if xs.len() > 0 {
        lemma_others(xs.drop_last());
        lemma_size_positive(xs.last());
        if xs.last() !is Const {
            lemma_sizes_push(others(xs.drop_last()), xs.last());
        }
    }
}

proof fn lemma_simple_sum<V: Scalar>(xs: Seq<Tree<V>>)
    ensures
        simple_sum(xs).size() <= 1 + sizes(xs),
{
    lemma_others(xs);
    V::zero_equals_zero();
    let acc = constants(xs);
    if !acc.equals(V::whole(0)) || others(xs).len() == 0 {
        lemma_sizes_push(others(xs), Tree::Const(acc));
    }
    let ts = terms(xs);
    if ts.len() == 1 {
        assert(ts =~= Seq::empty().push(ts[0]));
        lemma_sizes_push(Seq::<Tree<V>>::empty(), ts[0]);
        if others(xs).len() == 0 {
            assert(ts[0] is Const);
        } else {
            assert(ts == others(xs));
        }
    }
}

/// Simplifying makes no expression larger.
pub proof fn lemma_simplified_size<V: Scalar>(t: Tree<V>)
    ensures
        t.simplified().size() <= t.size(),
    decreases t.size(), 0nat,
{
    lemma_sizes(t);
    match t {
        Tree::Const(_) => {},
        Tree::Var(_) => {},
        Tree::Powi(e, _) => {
            lemma_simplified_size(*e);
        },
        Tree::Select(c, a, b) => {
            lemma_simplified_size(*c);
            lemma_simplified_size(*a);
            lemma_simplified_size(*b);
        },
        Tree::Sum(xs) => {
            lemma_all_simplified_size(xs);
            lemma_simple_sum(all_simplified(xs));
        },
        Tree::Sub(l, r) => {
            lemma_simplified_size(*l);
            lemma_simplified_size(*r);
            lemma_simplified_size(r.simplified());
            lemma_size_positive(l.simplified());
        },
        Tree::Add(l, r) => {
            lemma_simplified_size(*l);
            lemma_simplified_size(*r);
        },
        Tree::Mul(l, r) => {
            lemma_simplified_size(*l);
            lemma_simplified_size(*r);
        },
        Tree::Div(l, r) => {
            lemma_simplified_size(*l);
            lemma_simplified_size(*r);
        },
        Tree::Min(l, r) => {
            lemma_simplified_size(*l);
            lemma_simplified_size(*r);
        },
        Tree::Max(l, r) => {
            lemma_simplified_size(*l);
            lemma_simplified_size(*r);
        },
        Tree::Cmp(l, r) => {
            lemma_simplified_size(*l);
            lemma_simplified_size(*r);
        },
        Tree::Neg(e) => {
            lemma_simplified_size(*e);
        },
        Tree::Square(e) => {
            lemma_simplified_size(*e);
        },
        Tree::Abs(e) => {
            lemma_simplified_size(*e);
        },
        Tree::Sqrt(e) => {
            lemma_simplified_size(*e);
        },
        Tree::Exp(e) => {
            lemma_simplified_size(*e);
        },
        Tree::IsNan(e) => {
            lemma_simplified_size(*e);
        },
    }
}

pub proof fn lemma_all_simplified_size<V: Scalar>(xs: Seq<Tree<V>>)
    ensures
        sizes(all_simplified(xs)) <= sizes(xs),
        all_simplified(xs).len() == xs.len(),
    decreases sizes(xs), xs.len(),
{
    if xs.len() > 0 {
        lemma_size_positive(xs.last());
        lemma_all_simplified_size(xs.drop_last());
        lemma_simplified_size(xs.last());
        lemma_sizes_push(all_simplified(xs.drop_last()), xs.last().simplified());
    }
}

} // verus!
