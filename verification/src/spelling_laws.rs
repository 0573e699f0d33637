//! How things are spelled: expressions, reaches, levels, names and what is shown of a value.

use vstd::prelude::*;

use crate::book::{Book, BookShape};
use crate::book_laws::{lemma_as_many_prices, listed};
use crate::chunk::BookChunk;
use crate::decimal::{decimal_text, short_text};
use crate::delta::{BookDelta, FrameKind};
use crate::exchange::{ExchangeName, Instrument};
use crate::glance::{run_headline, Glance};
use crate::horizon::{Horizon, Timeframe};
use crate::ladder::listing;
use crate::lanes::{kind_text, level_text, side_text};
use crate::precision::PrecisionPriceQty;
use crate::scalar::Scalar;
use crate::series::tagged;
use crate::side::Side;
use crate::sweep::{dep_word, deriv_line, derivs, segment};
use crate::tag::{horizon_text, timeframe_text};
use crate::text::{decimal, joined, trim_end};
use crate::tree::{drawn_kids, infixes, latexes, signed, Traced, Tree};

verus! {

/// An expression of two operands is spelled as the first, the operator and the second, in brackets.
pub proof fn two_operands_are_spelled_round_their_operator<V: Scalar>(l: Tree<V>, r: Tree<V>)
    ensures
        ({
            let (a, b) = (l.infix(), r.infix());
            let (x, y) = (Box::new(l), Box::new(r));
            &&& Tree::Add(x, y).infix() == "("@ + a + " + "@ + b + ")"@
            &&& Tree::Sub(x, y).infix() == "("@ + a + " - "@ + b + ")"@
            &&& Tree::Mul(x, y).infix() == "("@ + a + " * "@ + b + ")"@
            &&& Tree::Div(x, y).infix() == "("@ + a + " / "@ + b + ")"@
            &&& Tree::Min(x, y).infix() == "min("@ + a + ", "@ + b + ")"@
            &&& Tree::Max(x, y).infix() == "max("@ + a + ", "@ + b + ")"@
            &&& Tree::Cmp(x, y).infix() == "["@ + a + " < "@ + b + "]"@
        }),
{
}

/// An expression of one operand is spelled round it, a variable by its place, a power by its exponent,
/// and a choice as what is taken, if what, and else.
pub proof fn one_operand_is_spelled_in_its_operator<V: Scalar>(
    e: Tree<V>,
    a: Tree<V>,
    b: Tree<V>,
    n: int,
    v: V,
)
    ensures
        Tree::Neg(Box::new(e)).infix() == "(-"@ + e.infix() + ")"@,
        Tree::Square(Box::new(e)).infix() == e.infix() + "^2"@,
        Tree::Abs(Box::new(e)).infix() == "|"@ + e.infix() + "|"@,
        Tree::Sqrt(Box::new(e)).infix() == "sqrt("@ + e.infix() + ")"@,
        Tree::Exp(Box::new(e)).infix() == "exp("@ + e.infix() + ")"@,
        Tree::IsNan(Box::new(e)).infix() == "["@ + e.infix() + " absent]"@,
        Tree::Powi(Box::new(e), n).infix() == e.infix() + "^"@ + signed(n),
        Tree::Select(Box::new(e), Box::new(a), Box::new(b)).infix() == "("@ + a.infix() + " if "@ + e.infix()
            + " else "@ + b.infix() + ")"@,
        Tree::<V>::Const(v).infix() == v.spelled(),
        Tree::<V>::Var(n).infix() == seq!['x'] + decimal(n as nat),
        n < 0 ==> signed(n) == "-"@ + decimal((-n) as nat),
        n >= 0 ==> signed(n) == decimal(n as nat),
{
    reveal_strlit("");
    reveal_strlit("x");
    assert("x"@ =~= seq!['x']);
    assert(""@ + e.infix() =~= e.infix());
    assert(Tree::Square(Box::new(e)).infix() =~= e.infix() + "^2"@);
}

/// A sum is spelled term by term, with a plus between two.
pub proof fn a_sum_is_spelled_term_by_term<V: Scalar>(xs: Seq<Tree<V>>, x: Tree<V>, names: Seq<&str>)
    requires
        xs.len() > 0,
    ensures
        Tree::Sum(xs).infix() == "("@ + joined(infixes(xs), " + "@) + ")"@,
        joined(infixes(xs.push(x)), " + "@) == joined(infixes(xs), " + "@) + " + "@ + x.infix(),
        joined(infixes(seq![x]), " + "@) == x.infix(),
        Tree::Sum(xs).latex(names) == "\\left("@ + joined(latexes(xs, names), " + "@) + "\\right)"@,
        joined(latexes(xs.push(x), names), " + "@) == joined(latexes(xs, names), " + "@) + " + "@ + x.latex(names),
        joined(latexes(seq![x], names), " + "@) == x.latex(names),
{
    assert(xs.push(x).drop_last() =~= xs);
    assert(seq![x].drop_last() =~= Seq::<Tree<V>>::empty());
    assert(infixes(xs.push(x)) =~= infixes(xs).push(x.infix()));
    assert(infixes(xs.push(x)).drop_last() =~= infixes(xs));
    assert(infixes(xs).len() > 0);
    let none = Seq::<Tree<V>>::empty();
    assert(infixes(none) =~= Seq::<Seq<char>>::empty());
    assert(latexes(none, names) =~= Seq::<Seq<char>>::empty());
    assert(seq![x].last() == x);
    assert(infixes(seq![x]) =~= seq![x.infix()]);
    assert(latexes(xs.push(x), names) =~= latexes(xs, names).push(x.latex(names)));
    assert(latexes(xs.push(x), names).drop_last() =~= latexes(xs, names));
    assert(latexes(xs, names).len() > 0);
    assert(latexes(seq![x], names) =~= seq![x.latex(names)]);
}

/// A reach is spelled by its kind, with how far in brackets.
pub proof fn a_reach_is_spelled_by_its_kind(n: usize, tf: Timeframe)
    ensures
        horizon_text(Horizon::Unit) == "Unit"@,
        horizon_text(Horizon::Unbounded) == "Unbounded"@,
        horizon_text(Horizon::Elems(n)) == "Elems("@ + decimal(n as nat) + ")"@,
        horizon_text(Horizon::Over(tf)) == "Over("@ + timeframe_text(tf) + ")"@,
{
}

/// A level is spelled as a quantity at a price, each at its own precision, and a side and a kind of row
/// by name.
pub proof fn a_level_is_a_quantity_at_a_price(prec: PrecisionPriceQty, price: i32, qty: u32)
    ensures
        level_text(prec, price, qty) == short_text(qty as int, prec.qty.0 as int) + seq!['@'] + short_text(
            price as int,
            prec.price.0 as int,
        ),
        side_text(Side::Buy) == "Buy"@ && side_text(Side::Sell) == "Sell"@,
        kind_text(FrameKind::Update) == "Update"@ && kind_text(FrameKind::Correction) == "Correction"@,
{
    reveal_strlit("@");
    assert("@"@ =~= seq!['@']);
}

proof fn lemma_trimmed_end(s: Seq<char>, c: char)
    ensures
        trim_end(s, c).len() <= s.len(),
        trim_end(s, c) == s.take(trim_end(s, c).len() as int),
        trim_end(s, c).len() > 0 ==> trim_end(s, c).last() != c,
        forall|i: int| trim_end(s, c).len() <= i < s.len() ==> #[trigger] s[i] == c,
    decreases s.len(),
{
    if s.len() > 0 && s.last() == c {
        lemma_trimmed_end(s.drop_last(), c);
        assert(s.drop_last().take(trim_end(s, c).len() as int) =~= s.take(trim_end(s, c).len() as int));
        assert forall|i: int| trim_end(s, c).len() <= i < s.len() implies #[trigger] s[i] == c by {
            if i < s.len() - 1 {
                assert(s.drop_last()[i] == s[i]);
            }
        }
    } else {
        assert(s.take(s.len() as int) =~= s);
    }
}

/// A decimal is shortened at its end only, by nothing but zeros and the point, and to no text that ends
/// in a point; one without places is not shortened at all.
pub proof fn a_short_decimal_lacks_only_what_says_nothing(raw: int, prec: int, i: int)
    ensures
        ({
            let (s, full) = (short_text(raw, prec), decimal_text(raw, prec));
            &&& s.len() <= full.len()
            &&& s == full.take(s.len() as int)
            &&& s.len() <= i < full.len() ==> full[i] == '0' || full[i] == '.'
            &&& prec <= 0 ==> s == full
            &&& prec > 0 && s.len() > 0 ==> s.last() != '.'
        }),
{
    let full = decimal_text(raw, prec);
    let part = trim_end(full, '0');
    lemma_trimmed_end(full, '0');
    lemma_trimmed_end(part, '.');
    assert(full.take(full.len() as int) =~= full);
    let s = trim_end(part, '.');
    assert(part.take(s.len() as int) =~= full.take(s.len() as int));
    if s.len() <= i < part.len() {
        assert(part[i] == full[i]);
    }
}

/// A parametrised name carries its parameters in angle brackets, with a comma between two.
pub proof fn a_name_carries_its_parameters(prefix: Seq<char>, a: Seq<char>, b: Seq<char>)
    ensures
        tagged(prefix, a, None) == prefix + "<"@ + a + ">"@,
        tagged(prefix, a, Some(b)) == prefix + "<"@ + a + ", "@ + b + ">"@,
{
    assert(prefix + "<"@ + (a + ", "@ + b) + ">"@ =~= prefix + "<"@ + a + ", "@ + b + ">"@);
}

proof fn lemma_segment(s: Seq<char>, n: nat, i: int)
    requires
        n <= s.len(),
        forall|j: int| n < j <= s.len() && j >= 2 ==> !(#[trigger] s[j - 2] == ':' && s[j - 1] == ':'),
    ensures
        ({
            let w = segment(s, n);
            let from = s.len() - w.len();
            &&& w.len() <= s.len()
            &&& w == s.skip(from)
            &&& from > 0 ==> from >= 2 && s[from - 2] == ':' && s[from - 1] == ':'
            &&& from < i < s.len() - 1 ==> !(s[i] == ':' && s[i + 1] == ':')
        }),
    decreases n,
{
    assert(s.skip(0) =~= s);
    if n < 2 {
        if 0 < i < s.len() - 1 {
            assert(!(s[(i + 2) - 2] == ':' && s[(i + 2) - 1] == ':'));
        }
    } else if s[n - 2] == ':' && s[n - 1] == ':' {
        if n < i < s.len() - 1 {
            assert(!(s[(i + 2) - 2] == ':' && s[(i + 2) - 1] == ':'));
        }
    } else {
        lemma_segment(s, (n - 1) as nat, i);
    }
}

/// A dep is called in a derivative by what stands behind the last two colons of its name, or by all of
/// it where there are none; one without a name by a question mark.
pub proof fn a_dep_is_called_by_the_end_of_its_path(names: Seq<Seq<char>>, d: int, i: int)
    requires
        0 <= d,
    ensures
        d >= names.len() ==> dep_word(names, d) == seq!['?'],
        d < names.len() ==> ({
            let (s, w) = (names[d], dep_word(names, d));
            let from = s.len() - w.len();
            &&& w.len() <= s.len()
            &&& w == s.skip(from)
            &&& from > 0 ==> from >= 2 && s[from - 2] == ':' && s[from - 1] == ':'
            &&& from < i < s.len() - 1 ==> !(s[i] == ':' && s[i + 1] == ':')
        }),
{
    reveal_strlit("?");
    assert("?"@ =~= seq!['?']);
    if d < names.len() {
        lemma_segment(names[d], names[d].len(), i);
    }
}

/// The derivatives of an equation are spelled one to a line, each with the dep it is by.
pub proof fn derivatives_are_spelled_one_to_a_line<V: Scalar>(t: Tree<V>, names: Seq<Seq<char>>, n: nat)
    ensures
        derivs(t, names, 0) == Seq::<char>::empty(),
        derivs(t, names, 1) == deriv_line(t, names, 0),
        n >= 1 ==> derivs(t, names, n + 1) == derivs(t, names, n) + "\n"@ + deriv_line(t, names, n as int),
        deriv_line(t, names, n as int) == "∂/∂"@ + dep_word(names, n as int) + " = "@ + t.derivative(
            n as int,
        ).simplified().infix(),
{
    let lines = |k: nat| Seq::new(k, |i: int| deriv_line(t, names, i));
    let sep = "\n"@;
    assert(joined(lines(0), sep) =~= Seq::<char>::empty());
    assert(lines(1)[0] == deriv_line(t, names, 0));
    assert(lines(n + 1).drop_last() =~= lines(n));
    assert(lines(n + 1).last() == deriv_line(t, names, n as int));
}

/// A run is shown by its last element, and an empty one by a pair of brackets; what is not there is
/// shown as such.
pub proof fn a_run_is_shown_by_its_last<T: Glance>(run: Seq<T>, last: T)
    ensures
        run_headline(run.push(last)) == last.headline(),
        run_headline(Seq::<T>::empty()) == "[]"@,
        Some(last).headline() == last.headline(),
        None::<T>.headline() == "None"@,
        true.headline() == "true"@,
        false.headline() == "false"@,
{
}

/// A traced expression is drawn with each part on a line of its own: the last under a corner and the
/// others under a branch, whose own parts carry the line on.
pub proof fn a_trace_is_drawn_part_by_part<V: Scalar>(t: Traced<V>, prefix: Seq<char>, k: nat)
    ensures
        t.kids.len() == 0 ==> t.drawn() == "◉ "@ + t.op + ": "@ + t.val.spelled(),
        drawn_kids(t.kids, 0, prefix) == Seq::<char>::empty(),
        k < t.kids.len() ==> ({
            let kid = t.kids[k as int];
            let last = k + 1 == t.kids.len();
            drawn_kids(t.kids, k + 1, prefix) == drawn_kids(t.kids, k, prefix) + "\n"@ + prefix + (if last {
                "└──"@
            } else {
                "├──"@
            }) + "◉ "@ + kid.op + ": "@ + kid.val.spelled() + drawn_kids(
                kid.kids,
                kid.kids.len(),
                prefix + if last {
                    "   "@
                } else {
                    "│  "@
                },
            )
        }),
{
    assert(t.kids.len() == 0 ==> t.drawn() =~= "◉ "@ + t.op + ": "@ + t.val.spelled());
}

/// In LaTeX an expression of two operands is set round its operator, and a quotient as a fraction of
/// the first over the second.
pub proof fn two_operands_are_set_round_their_operator<V: Scalar>(l: Tree<V>, r: Tree<V>, names: Seq<&str>)
    ensures
        ({
            let (a, b) = (l.latex(names), r.latex(names));
            let (x, y) = (Box::new(l), Box::new(r));
            &&& Tree::Add(x, y).latex(names) == "\\left("@ + a + " + "@ + b + "\\right)"@
            &&& Tree::Sub(x, y).latex(names) == "\\left("@ + a + " - "@ + b + "\\right)"@
            &&& Tree::Mul(x, y).latex(names) == "\\left("@ + a + " \\cdot "@ + b + "\\right)"@
            &&& Tree::Div(x, y).latex(names) == "\\frac{"@ + a + "}{"@ + b + "}"@
            &&& Tree::Min(x, y).latex(names) == "\\min\\left("@ + a + ", "@ + b + "\\right)"@
            &&& Tree::Max(x, y).latex(names) == "\\max\\left("@ + a + ", "@ + b + "\\right)"@
            &&& Tree::Cmp(x, y).latex(names) == "\\left["@ + a + " < "@ + b + "\\right]"@
        }),
{
}

/// In LaTeX an expression of one operand is set round it, a variable by the name its place has, where it
/// has one, and a choice as two cases.
pub proof fn one_operand_is_set_in_its_operator<V: Scalar>(
    e: Tree<V>,
    a: Tree<V>,
    b: Tree<V>,
    names: Seq<&str>,
    n: int,
    v: V,
)
    ensures
        Tree::Neg(Box::new(e)).latex(names) == "-"@ + e.latex(names),
        Tree::Square(Box::new(e)).latex(names) == e.latex(names) + "^{2}"@,
        Tree::Abs(Box::new(e)).latex(names) == "\\left|"@ + e.latex(names) + "\\right|"@,
        Tree::Sqrt(Box::new(e)).latex(names) == "\\sqrt{"@ + e.latex(names) + "}"@,
        Tree::Exp(Box::new(e)).latex(names) == "e^{"@ + e.latex(names) + "}"@,
        Tree::IsNan(Box::new(e)).latex(names) == "\\left["@ + e.latex(names) + " = \\varnothing\\right]"@,
        Tree::Powi(Box::new(e), n).latex(names) == e.latex(names) + "^{"@ + signed(n) + "}"@,
        Tree::Select(Box::new(e), Box::new(a), Box::new(b)).latex(names) == "\\begin{cases}"@ + a.latex(names)
            + " & "@ + e.latex(names) + " \\\\ "@ + b.latex(names) + " & \\text{otherwise}\\end{cases}"@,
        Tree::<V>::Const(v).latex(names) == v.spelled(),
        0 <= n < names.len() ==> Tree::<V>::Var(n).latex(names) == names[n]@,
        n >= names.len() ==> Tree::<V>::Var(n).latex(names) == "x_{"@ + decimal(n as nat) + "}"@,
{
    reveal_strlit("");
    assert("-"@ + e.latex(names) + ""@ =~= "-"@ + e.latex(names));
    assert(""@ + e.latex(names) + "^{2}"@ =~= e.latex(names) + "^{2}"@);
}

/// A row of a book is shown by its kind, its side and its level, a checkpoint by how many levels it has
/// on each side, a chunk by how many it nets, and a book by its best prices and how many levels it has.
pub proof fn a_book_is_shown_at_a_glance<'a>(
    d: BookDelta,
    shape: &'a BookShape,
    chunk: &'a BookChunk,
    book: &'a Book,
)
    ensures
        d.headline() == kind_text(d.kind) + " "@ + side_text(d.side) + " "@ + level_text(d.prec, d.price, d.qty),
        listed(Side::Sell, shape.bids@) && listed(Side::Sell, shape.asks@) ==> shape.headline() == "checkpoint "@
            + decimal(shape.bids@.dom().len()) + "b/"@ + decimal(shape.asks@.dom().len()) + "a"@,
        listed(Side::Sell, chunk@.bids) && listed(Side::Sell, chunk@.asks) && listed(Side::Sell, chunk@.prev_bids)
            && listed(Side::Sell, chunk@.prev_asks) ==> chunk.headline() == decimal(
            chunk@.bids.dom().len() + chunk@.asks.dom().len() + chunk@.prev_bids.dom().len()
                + chunk@.prev_asks.dom().len(),
        ) + " lvls net"@,
        match (book@.top(Side::Buy), book@.top(Side::Sell)) {
            (Some((b, _)), Some((a, _))) => book.headline() == decimal_text(b.0.raw as int, b.0.prec.0 as int)
                + "/"@ + decimal_text(a.0.raw as int, a.0.prec.0 as int) + " ("@ + decimal(book@.depth())
                + " lvls)"@,
            _ => book.headline() == "empty ("@ + decimal(book@.depth()) + " lvls)"@,
        },
{
    if listed(Side::Sell, shape.bids@) && listed(Side::Sell, shape.asks@) {
        lemma_as_many_prices(Side::Sell, listing(Side::Sell, shape.bids@));
        lemma_as_many_prices(Side::Sell, listing(Side::Sell, shape.asks@));
    }
    if listed(Side::Sell, chunk@.bids) && listed(Side::Sell, chunk@.asks) && listed(Side::Sell, chunk@.prev_bids)
        && listed(Side::Sell, chunk@.prev_asks) {
        lemma_as_many_prices(Side::Sell, listing(Side::Sell, chunk@.bids));
        lemma_as_many_prices(Side::Sell, listing(Side::Sell, chunk@.asks));
        lemma_as_many_prices(Side::Sell, listing(Side::Sell, chunk@.prev_bids));
        lemma_as_many_prices(Side::Sell, listing(Side::Sell, chunk@.prev_asks));
    }
}

/// An exchange and an instrument each go by a text of their own.
pub proof fn a_market_goes_by_its_own_text()
    ensures
        ExchangeName::Binance.label() == "binance"@ && ExchangeName::Bybit.label() == "bybit"@,
        ExchangeName::Kucoin.label() == "kucoin"@ && ExchangeName::Mexc.label() == "mexc"@,
        ExchangeName::BitFlyer.label() == "bitflyer"@ && ExchangeName::Coincheck.label() == "coincheck"@,
        ExchangeName::Yahoo.label() == "yahoo"@,
        Instrument::Spot.label() == Seq::<char>::empty() && Instrument::Perp.label() == ".P"@,
        Instrument::Margin.label() == ".M"@ && Instrument::PerpInverse.label() == ".PERP_INVERSE"@,
        Instrument::Options.label() == ".OPTIONS"@,
{
    reveal_strlit("");
    assert(""@ =~= Seq::<char>::empty());
}

} // verus!
