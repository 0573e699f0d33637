//! The spellings of an expression: LaTeX, plain infix, and the value-annotated tree.

use vstd::prelude::*;

use crate::ast::{lemma_trees, lemma_trees_next, trees, Ast};
use crate::scalar::Scalar;
use crate::text;
use crate::text::joined;
use crate::tree::{all_traced, drawn_kids, infixes, latexes, signed, Traced};

verus! {

fn push_signed(out: &mut Vec<char>, n: i32)
    ensures
        final(out)@ == old(out)@ + signed(n as int),
{
    let ghost before = out@;
    if n < 0 {
        text::push_str(out, "-");
        text::push_decimal(out, (-(n as i64)) as u64);
    } else {
        text::push_decimal(out, n as u64);
    }
    assert(out@ =~= before + signed(n as int));
}

fn push_text(out: &mut Vec<char>, s: &String)
    ensures
        final(out)@ == old(out)@ + s@,
{
    text::push_str(out, s.as_str());
}

impl<V: Scalar> Ast<V> {
    fn push_latex(&self, names: &[&str], out: &mut Vec<char>)
        ensures
            final(out)@ == old(out)@ + self@.latex(names@),
        decreases self,
    {
        let ghost before = out@;
        match self {
            Ast::Const(c) => push_text(out, &(*c).text()),
            Ast::Var(i) => if *i < names.len() {
                text::push_str(out, names[*i]);
            } else {
                text::push_str(out, "x_{");
                text::push_decimal(out, *i as u64);
                text::push_str(out, "}");
            },
            Ast::Powi(e, n) => {
                e.push_latex(names, out);
                text::push_str(out, "^{");
                push_signed(out, *n);
                text::push_str(out, "}");
            },
            Ast::Select(c, a, b) => {
                text::push_str(out, "\\begin{cases}");
                a.push_latex(names, out);
                text::push_str(out, " & ");
                c.push_latex(names, out);
                text::push_str(out, " \\\\ ");
                b.push_latex(names, out);
                text::push_str(out, " & \\text{otherwise}\\end{cases}");
            },
            Ast::Sum(xs) => {
                text::push_str(out, "\\left(");
                let list: Vec<char> = self.latex_terms(xs, names);
                text::push_all(out, list.as_slice());
                text::push_str(out, "\\right)");
            },
            Ast::Add(l, r) => {
                text::push_str(out, "\\left(");
                l.push_latex(names, out);
                text::push_str(out, " + ");
                r.push_latex(names, out);
                text::push_str(out, "\\right)");
            },
            Ast::Sub(l, r) => {
                text::push_str(out, "\\left(");
                l.push_latex(names, out);
                text::push_str(out, " - ");
                r.push_latex(names, out);
                text::push_str(out, "\\right)");
            },
            Ast::Mul(l, r) => {
                text::push_str(out, "\\left(");
                l.push_latex(names, out);
                text::push_str(out, " \\cdot ");
                r.push_latex(names, out);
                text::push_str(out, "\\right)");
            },
            Ast::Div(l, r) => {
                text::push_str(out, "\\frac{");
                l.push_latex(names, out);
                text::push_str(out, "}{");
                r.push_latex(names, out);
                text::push_str(out, "}");
            },
            Ast::Min(l, r) => {
                text::push_str(out, "\\min\\left(");
                l.push_latex(names, out);
                text::push_str(out, ", ");
                r.push_latex(names, out);
                text::push_str(out, "\\right)");
            },
            Ast::Max(l, r) => {
                text::push_str(out, "\\max\\left(");
                l.push_latex(names, out);
                text::push_str(out, ", ");
                r.push_latex(names, out);
                text::push_str(out, "\\right)");
            },
            Ast::Cmp(l, r) => {
                text::push_str(out, "\\left[");
                l.push_latex(names, out);
                text::push_str(out, " < ");
                r.push_latex(names, out);
                text::push_str(out, "\\right]");
            },
            Ast::Neg(e) => {
                text::push_str(out, "-");
                e.push_latex(names, out);
                text::push_str(out, "");
            },
            Ast::Square(e) => {
                text::push_str(out, "");
                e.push_latex(names, out);
                text::push_str(out, "^{2}");
            },
            Ast::Abs(e) => {
                text::push_str(out, "\\left|");
                e.push_latex(names, out);
                text::push_str(out, "\\right|");
            },
            Ast::Sqrt(e) => {
                text::push_str(out, "\\sqrt{");
                e.push_latex(names, out);
                text::push_str(out, "}");
            },
            Ast::Exp(e) => {
                text::push_str(out, "e^{");
                e.push_latex(names, out);
                text::push_str(out, "}");
            },
            Ast::IsNan(e) => {
                text::push_str(out, "\\left[");
                e.push_latex(names, out);
                text::push_str(out, " = \\varnothing\\right]");
            },
        }
        assert(out@ =~= before + self@.latex(names@));
    }

    /// The terms of a sum, joined.
    fn latex_terms(&self, xs: &Vec<Ast<V>>, names: &[&str]) -> (list: Vec<char>)
        requires
            *self == Ast::Sum(*xs),
        ensures
            list@ == joined(latexes(trees(xs@), names@), " + "@),
        decreases self, 0nat,
    {
        let mut list: Vec<char> = Vec::new();
        let mut i: usize = 0;
        let ghost all = trees(xs@);
        while i < xs.len()
            invariant
                i <= xs@.len(),
                *self == Ast::Sum(*xs),
                all == trees(xs@),
                latexes(all.take(i as int), names@).len() == i,
                list@ == joined(latexes(all.take(i as int), names@), " + "@),
            decreases xs@.len() - i,
        {
            proof {
                lemma_trees_next(xs@, i as int);
                assert(decreases_to!(*self => self->Sum_0));
                assert(decreases_to!(*self => xs@));
                assert(decreases_to!(*self => xs@[i as int]));
            }
            let mut part: Vec<char> = Vec::new();
            xs[i].push_latex(names, &mut part);
            let ghost parts = latexes(all.take(i as int), names@);
            text::push_part(&mut list, Ghost(parts), i == 0, " + ", part.as_slice());
            i += 1;
        }
        proof {
            lemma_trees(xs@);
            assert(all.take(i as int) =~= all);
        }
        list
    }

    /// The expression in LaTeX, over the given names of its variables.
    pub fn latex(&self, names: &[&str]) -> (r: String)
        ensures
            r@ == self@.latex(names@),
    {
        let mut out: Vec<char> = Vec::new();
        self.push_latex(names, &mut out);
        text::string_of(out.as_slice())
    }
}

impl<V: Scalar> Ast<V> {
    fn push_infix(&self, out: &mut Vec<char>)
        ensures
            final(out)@ == old(out)@ + self@.infix(),
        decreases self,
    {
        let ghost before = out@;
        match self {
            Ast::Const(c) => push_text(out, &(*c).text()),
            Ast::Var(i) => {
                text::push_str(out, "x");
                text::push_decimal(out, *i as u64);
            },
            Ast::Powi(e, n) => {
                e.push_infix(out);
                text::push_str(out, "^");
                push_signed(out, *n);
            },
            Ast::Select(c, a, b) => {
                text::push_str(out, "(");
                a.push_infix(out);
                text::push_str(out, " if ");
                c.push_infix(out);
                text::push_str(out, " else ");
                b.push_infix(out);
                text::push_str(out, ")");
            },
            Ast::Sum(xs) => {
                text::push_str(out, "(");
                let list: Vec<char> = self.infix_terms(xs);
                text::push_all(out, list.as_slice());
                text::push_str(out, ")");
            },
            Ast::Add(l, r) => {
                text::push_str(out, "(");
                l.push_infix(out);
                text::push_str(out, " + ");
                r.push_infix(out);
                text::push_str(out, ")");
            },
            Ast::Sub(l, r) => {
                text::push_str(out, "(");
                l.push_infix(out);
                text::push_str(out, " - ");
                r.push_infix(out);
                text::push_str(out, ")");
            },
            Ast::Mul(l, r) => {
                text::push_str(out, "(");
                l.push_infix(out);
                text::push_str(out, " * ");
                r.push_infix(out);
                text::push_str(out, ")");
            },
            Ast::Div(l, r) => {
                text::push_str(out, "(");
                l.push_infix(out);
                text::push_str(out, " / ");
                r.push_infix(out);
                text::push_str(out, ")");
            },
            Ast::Min(l, r) => {
                text::push_str(out, "min(");
                l.push_infix(out);
                text::push_str(out, ", ");
                r.push_infix(out);
                text::push_str(out, ")");
            },
            Ast::Max(l, r) => {
                text::push_str(out, "max(");
                l.push_infix(out);
                text::push_str(out, ", ");
                r.push_infix(out);
                text::push_str(out, ")");
            },
            Ast::Cmp(l, r) => {
                text::push_str(out, "[");
                l.push_infix(out);
                text::push_str(out, " < ");
                r.push_infix(out);
                text::push_str(out, "]");
            },
            Ast::Neg(e) => {
                text::push_str(out, "(-");
                e.push_infix(out);
                text::push_str(out, ")");
            },
            Ast::Square(e) => {
                text::push_str(out, "");
                e.push_infix(out);
                text::push_str(out, "^2");
            },
            Ast::Abs(e) => {
                text::push_str(out, "|");
                e.push_infix(out);
                text::push_str(out, "|");
            },
            Ast::Sqrt(e) => {
                text::push_str(out, "sqrt(");
                e.push_infix(out);
                text::push_str(out, ")");
            },
            Ast::Exp(e) => {
                text::push_str(out, "exp(");
                e.push_infix(out);
                text::push_str(out, ")");
            },
            Ast::IsNan(e) => {
                text::push_str(out, "[");
                e.push_infix(out);
                text::push_str(out, " absent]");
            },
        }
        assert(out@ =~= before + self@.infix());
    }

    /// The terms of a sum, joined.
    fn infix_terms(&self, xs: &Vec<Ast<V>>) -> (list: Vec<char>)
        requires
            *self == Ast::Sum(*xs),
        ensures
            list@ == joined(infixes(trees(xs@)), " + "@),
        decreases self, 0nat,
    {
        let mut list: Vec<char> = Vec::new();
        let mut i: usize = 0;
        let ghost all = trees(xs@);
        while i < xs.len()
            invariant
                i <= xs@.len(),
                *self == Ast::Sum(*xs),
                all == trees(xs@),
                infixes(all.take(i as int)).len() == i,
                list@ == joined(infixes(all.take(i as int)), " + "@),
            decreases xs@.len() - i,
        {
            proof {
                lemma_trees_next(xs@, i as int);
                assert(decreases_to!(*self => self->Sum_0));
                assert(decreases_to!(*self => xs@));
                assert(decreases_to!(*self => xs@[i as int]));
            }
            let mut part: Vec<char> = Vec::new();
            xs[i].push_infix(&mut part);
            let ghost parts = infixes(all.take(i as int));
            text::push_part(&mut list, Ghost(parts), i == 0, " + ", part.as_slice());
            i += 1;
        }
        proof {
            lemma_trees(xs@);
            assert(all.take(i as int) =~= all);
        }
        list
    }

    /// Plain infix over `x_i` metavariables (parens on every compound), the display-dual of
    /// [`Ast::latex`].
    pub fn infix(&self) -> (r: String)
        ensures
            r@ == self@.infix(),
    {
        let mut out: Vec<char> = Vec::new();
        self.push_infix(&mut out);
        text::string_of(out.as_slice())
    }
}

/// An [`Ast`] node paired with its evaluated value.
pub struct Trace<V> {
    pub op: &'static str,
    pub val: V,
    pub kids: Vec<Trace<V>>,
}

impl<V> Trace<V> {
    pub open spec fn traced(self) -> Traced<V>
        decreases self,
    {
        Traced { op: self.op@, val: self.val, kids: all(self.kids@) }
    }
}

pub open spec fn all<V>(xs: Seq<Trace<V>>) -> Seq<Traced<V>>
    decreases xs,
{
    if xs.len() == 0 {
        Seq::empty()
    } else {
        all(xs.drop_last()).push(xs.last().traced())
    }
}

proof fn lemma_all<V>(xs: Seq<Trace<V>>)
    ensures
        all(xs).len() == xs.len(),
        forall|i: int| 0 <= i < xs.len() ==> #[trigger] all(xs)[i] == xs[i].traced(),
    decreases xs.len(),
{
    if xs.len() > 0 {
        lemma_all(xs.drop_last());
    }
}

impl<V> View for Trace<V> {
    type V = Traced<V>;

    open spec fn view(&self) -> Traced<V> {
        self.traced()
    }
}

fn one<V>(a: Trace<V>) -> (r: Vec<Trace<V>>)
    ensures
        all(r@) == seq![a@],
{
    let mut r: Vec<Trace<V>> = Vec::new();
    r.push(a);
    proof {
        reveal_with_fuel(all, 2);
        assert(all(r@) =~= seq![a@]);
    }
    r
}

fn two<V>(a: Trace<V>, b: Trace<V>) -> (r: Vec<Trace<V>>)
    ensures
        all(r@) == seq![a@, b@],
{
    let mut r: Vec<Trace<V>> = one(a);
    let ghost first = r@;
    r.push(b);
    proof {
        assert(r@.drop_last() =~= first);
        assert(all(r@) =~= seq![a@, b@]);
    }
    r
}

impl<V: Scalar> Ast<V> {
    /// Value-annotated tree: every node paired with its value under `env`, for the box-drawing
    /// debug view.
    pub fn trace(&self, env: &[V]) -> (r: Trace<V>)
        requires
            self@.fits(env@.len()),
        ensures
            r@ == self@.traced(env@),
        decreases self,
    {
        let val: V = self.eval(env);
        let (op, kids): (&'static str, Vec<Trace<V>>) = match self {
            Ast::Const(_) => ("const", Vec::new()),
            Ast::Var(_) => ("var", Vec::new()),
            Ast::Powi(e, _) => ("powi", one(e.trace(env))),
            // only the taken branch: a trace shows what the value came from, and the other arm did
            // not contribute to it.
            Ast::Select(c, a, b) => (
                "select",
                if !c.eval(env).same(V::of(0)) {
                    two(c.trace(env), a.trace(env))
                } else {
                    two(c.trace(env), b.trace(env))
                },
            ),
            Ast::Sum(xs) => ("sum", self.trace_terms(xs, env)),
            Ast::Add(l, r) => ("+", two(l.trace(env), r.trace(env))),
            Ast::Sub(l, r) => ("-", two(l.trace(env), r.trace(env))),
            Ast::Mul(l, r) => ("*", two(l.trace(env), r.trace(env))),
            Ast::Div(l, r) => ("/", two(l.trace(env), r.trace(env))),
            Ast::Min(l, r) => ("min", two(l.trace(env), r.trace(env))),
            Ast::Max(l, r) => ("max", two(l.trace(env), r.trace(env))),
            Ast::Cmp(l, r) => ("<", two(l.trace(env), r.trace(env))),
            Ast::Neg(e) => ("neg", one(e.trace(env))),
            Ast::Square(e) => ("sq", one(e.trace(env))),
            Ast::Abs(e) => ("abs", one(e.trace(env))),
            Ast::Sqrt(e) => ("sqrt", one(e.trace(env))),
            Ast::Exp(e) => ("exp", one(e.trace(env))),
            Ast::IsNan(e) => ("absent?", one(e.trace(env))),
        };
        Trace { op, val, kids }
    }

    fn trace_terms(&self, xs: &Vec<Ast<V>>, env: &[V]) -> (out: Vec<Trace<V>>)
        requires
            *self == Ast::Sum(*xs),
            self@.fits(env@.len()),
        ensures
            all(out@) == all_traced(trees(xs@), env@),
        decreases self, 0nat,
    {
        let mut out: Vec<Trace<V>> = Vec::new();
        let mut i: usize = 0;
        let ghost ts = trees(xs@);
        while i < xs.len()
            invariant
                i <= xs@.len(),
                *self == Ast::Sum(*xs),
                self@.fits(env@.len()),
                ts == trees(xs@),
                all(out@) == all_traced(ts.take(i as int), env@),
            decreases xs@.len() - i,
        {
            proof {
                lemma_trees_next(xs@, i as int);
                crate::ast::lemma_all_fit(ts, env@.len(), i as int);
                assert(decreases_to!(*self => self->Sum_0));
                assert(decreases_to!(*self => xs@));
                assert(decreases_to!(*self => xs@[i as int]));
            }
            let t: Trace<V> = xs[i].trace(env);
            let ghost before = out@;
            out.push(t);
            assert(out@.drop_last() =~= before);
            i += 1;
        }
        proof {
            lemma_trees(xs@);
            assert(ts.take(i as int) =~= ts);
        }
        out
    }
}

impl<V: Scalar> Trace<V> {
    fn push_kids(&self, prefix: &[char], out: &mut Vec<char>)
        ensures
            final(out)@ == old(out)@ + drawn_kids(self@.kids, self@.kids.len(), prefix@),
        decreases self,
    {
        let ghost before = out@;
        let ghost kids = self@.kids;
        let n: usize = self.kids.len();
        let mut i: usize = 0;
        proof {
            lemma_all(self.kids@);
        }
        while i < n
            invariant
                i <= n == self.kids@.len() == kids.len(),
                kids == all(self.kids@),
                forall|j: int| 0 <= j < n ==> #[trigger] kids[j] == self.kids@[j].traced(),
                out@ == before + drawn_kids(kids, i as nat, prefix@),
            decreases n - i,
        {
            let ghost so_far = out@;
            let last: bool = i + 1 == n;
            text::push_str(out, "\n");
            text::push_all(out, prefix);
            let mut child: Vec<char> = Vec::new();
            text::push_all(&mut child, prefix);
            if last {
                text::push_str(out, "└──");
                text::push_str(&mut child, "   ");
            } else {
                text::push_str(out, "├──");
                text::push_str(&mut child, "│  ");
            }
            text::push_str(out, "◉ ");
            text::push_str(out, self.kids[i].op);
            text::push_str(out, ": ");
            push_text(out, &self.kids[i].val.text());
            proof {
                assert(decreases_to!(*self => self.kids));
                assert(decreases_to!(*self => self.kids@));
                assert(decreases_to!(*self => self.kids@[i as int]));
                let k = kids[i as int];
                assert(k.op == self.kids@[i as int].op@);
            }
            self.kids[i].push_kids(child.as_slice(), out);
            proof {
                assert(out@ =~= before + drawn_kids(kids, (i + 1) as nat, prefix@)) by {
                    let k = kids[i as int];
                    assert(Seq::<char>::empty() + prefix@ =~= prefix@);
                }
            }
            i += 1;
        }
    }

    /// The intermediate-value tree, drawn with box characters.
    pub fn text(&self) -> (r: String)
        ensures
            r@ == self@.drawn(),
    {
        let mut out: Vec<char> = Vec::new();
        text::push_str(&mut out, "◉ ");
        text::push_str(&mut out, self.op);
        text::push_str(&mut out, ": ");
        push_text(&mut out, &self.val.text());
        let none: Vec<char> = Vec::new();
        self.push_kids(none.as_slice(), &mut out);
        proof {
            assert(none@ =~= Seq::empty());
            assert(out@ =~= self@.drawn());
        }
        text::string_of(out.as_slice())
    }
}

} // verus!
