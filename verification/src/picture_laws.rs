//! What is drawn where in the picture of a graph.

use vstd::prelude::*;

use crate::picture::{
    blanks, dark_count, first_taken, free_lane, held, is_held, junction, junctions, lanes_before,
    last_taken, left_end, legend, lemma_free, lemma_held, line_text, lines, mark, node_lanes, node_lines,
    open_lanes, padded, page, page_width, picture, read_after, reads, reads_gate, released, right_end,
    run_between, state_text, surplus, taken_from, Line,
};
use crate::shape::{
    annotations, edge_text, edge_texts, fidelity_text, quoted_text, runs, trimmed, Fidelity, Kind,
    NodeShape, Pin,
};
use crate::tag::{horizon_text, timeframe_text};
use crate::text::{decimal, joined};

verus! {

/// A root has a mark of its own, a node that runs a full one, and one that is dark an empty one, which
/// says so where its sleep takes a rewinding past.
pub proof fn a_mark_says_whether_a_node_runs(n: NodeShape, live: Option<bool>)
    ensures
        n.kind == Kind::Root ==> mark(n, live) == seq!['╷'],
        n.kind != Kind::Root && live != Some(false) ==> mark(n, live) == seq!['●'],
        n.kind != Kind::Root && live == Some(false) && !n.rewinds ==> mark(n, live) == seq!['░'],
        n.kind != Kind::Root && live == Some(false) && n.rewinds ==> mark(n, live) == seq!['░', '⟲'],
{
    reveal_strlit("╷");
    reveal_strlit("●");
    reveal_strlit("░");
    reveal_strlit("░⟲");
    assert("╷"@ =~= seq!['╷']);
    assert("●"@ =~= seq!['●']);
    assert("░"@ =~= seq!['░']);
    assert("░⟲"@ =~= seq!['░', '⟲']);
}

/// Whether a node reads `t` for permission, or reads it at all, told by its deps.
proof fn lemma_reads(n: NodeShape, t: usize, k: int)
    requires
        0 <= k < n.deps@.len(),
        n.deps@[k] == t,
    ensures
        reads(n, t),
        n.dep_gates@[k] ==> reads_gate(n, t),
{
}

/// In the line above a node, a lane it reads for data branches off where another node reads it after,
/// and ends where none does; the corner turns the other way at the right end of the run. A lane it reads
/// for permission is dashed.
pub proof fn a_lane_ends_with_its_last_reader(
    ns: Seq<NodeShape>,
    i: int,
    lanes: Seq<Option<usize>>,
    target: int,
    c: int,
    k: int,
)
    requires
        0 <= i < ns.len(),
        0 <= c < lanes.len(),
        0 <= k < ns[i].deps@.len(),
        lanes[c] == Some(ns[i].deps@[k]),
        0 <= target,
    ensures
        ({
            let t = ns[i].deps@[k];
            let drawn = junction(ns, i, lanes, target, c);
            let later = exists|j: int| i < j < ns.len() && reads(#[trigger] ns[j], t);
            let control = exists|m: int|
                0 <= m < ns[i].deps@.len() && #[trigger] ns[i].deps@[m] == t && ns[i].dep_gates@[m];
            &&& control && !later ==> drawn == '╌'
            &&& control && later ==> drawn == '┽'
            &&& !control && !later ==> drawn == '╰' || drawn == '╯'
            &&& !control && later ==> drawn == '├' || drawn == '┤'
            &&& c < right_end(ns[i], lanes, target) ==> drawn != '╯' && drawn != '┤'
            &&& c == right_end(ns[i], lanes, target) && left_end(ns[i], lanes, target) < c ==> drawn != '╰'
                && drawn != '├'
        }),
{
    lemma_reads(ns[i], ns[i].deps@[k], k);
}

/// Above a node, a lane it does not read goes straight on, crossed by the run where that passes it and
/// with a blank where there is none; in the node's own lane the run comes in.
pub proof fn a_lane_that_is_not_read_goes_on(
    ns: Seq<NodeShape>,
    i: int,
    lanes: Seq<Option<usize>>,
    target: int,
    c: int,
)
    requires
        0 <= i < ns.len(),
        0 <= c,
        c < lanes.len() ==> (lanes[c] matches Some(t) ==> forall|k: int|
            0 <= k < ns[i].deps@.len() ==> #[trigger] ns[i].deps@[k] != t),
    ensures
        ({
            let (lo, hi) = (left_end(ns[i], lanes, target), right_end(ns[i], lanes, target));
            let carries = c < lanes.len() && lanes[c] is Some;
            let drawn = junction(ns, i, lanes, target, c);
            &&& c == target ==> drawn == '╭' || drawn == '╮' || drawn == '┬'
            &&& c == target && c == lo ==> drawn == '╭'
            &&& c == target && lo < c && c == hi ==> drawn == '╮'
            &&& c == target && lo < c < hi ==> drawn == '┬'
            &&& c != target && lo < c < hi ==> drawn == if carries {
                '┼'
            } else {
                '─'
            }
            &&& c != target && !(lo < c < hi) ==> drawn == if carries {
                '│'
            } else {
                ' '
            }
            &&& run_between(lo, hi, c) == if lo <= c < hi {
                '─'
            } else {
                ' '
            }
        }),
{
}

/// The run above a node spans its own lane and every lane it reads, and ends at one of them on either
/// side.
pub proof fn a_run_spans_what_is_read(n: NodeShape, lanes: Seq<Option<usize>>, target: int, c: int)
    requires
        0 <= target <= lanes.len(),
    ensures
        ({
            let (lo, hi) = (left_end(n, lanes, target), right_end(n, lanes, target));
            &&& lo <= target <= hi
            &&& 0 <= c < lanes.len() && (lanes[c] matches Some(t) && reads(n, t)) ==> lo <= c <= hi
            &&& lo == target || taken_from(n, lanes, lo)
            &&& hi == target || taken_from(n, lanes, hi)
        }),
{
    lemma_first_taken(n, lanes, 0, c);
    lemma_last_taken(n, lanes, lanes.len() as int, c);
}

proof fn lemma_first_taken(n: NodeShape, lanes: Seq<Option<usize>>, from: int, c: int)
    requires
        0 <= from <= lanes.len(),
    ensures
        from <= first_taken(n, lanes, from) <= lanes.len(),
        first_taken(n, lanes, from) < lanes.len() ==> taken_from(n, lanes, first_taken(n, lanes, from)),
        from <= c && taken_from(n, lanes, c) ==> first_taken(n, lanes, from) <= c,
    decreases lanes.len() - from,
{
    if from < lanes.len() && !taken_from(n, lanes, from) {
        lemma_first_taken(n, lanes, from + 1, c);
    }
}

proof fn lemma_last_taken(n: NodeShape, lanes: Seq<Option<usize>>, to: int, c: int)
    requires
        0 <= to <= lanes.len(),
    ensures
        -1 <= last_taken(n, lanes, to) < to,
        last_taken(n, lanes, to) >= 0 ==> taken_from(n, lanes, last_taken(n, lanes, to)),
        c < to && taken_from(n, lanes, c) ==> last_taken(n, lanes, to) >= c,
    decreases to,
{
    if to > 0 && !taken_from(n, lanes, to - 1) {
        lemma_last_taken(n, lanes, to - 1, c);
    }
}

/// A node takes the lowest lane that is free, and a lane is held no longer than something reads it:
/// whatever a lane carries when a node is drawn, that node or a later one reads.
pub proof fn a_lane_is_held_while_it_is_read(ns: Seq<NodeShape>, i: int, c: int)
    requires
        0 <= i <= ns.len() <= usize::MAX,
        0 <= c < lanes_before(ns, i).len(),
        lanes_before(ns, i)[c] is Some,
    ensures
        exists|j: int| i <= j < ns.len() && reads(#[trigger] ns[j], lanes_before(ns, i)[c]->0),
    decreases i,
{
    if i > 0 {
        let pre = lanes_before(ns, i - 1);
        let rel = released(ns, pre, i - 1);
        let open = held(rel);
        let now = lanes_before(ns, i);
        lemma_held(rel);
        lemma_free(open);
        let me = (i - 1) as usize;
        if read_after(ns, me, i - 1) && c == free_lane(open) {
            assert(now[c] == Some(me));
            let j = choose|j: int| i - 1 < j < ns.len() && reads(#[trigger] ns[j], me);
            assert(i <= j);
        } else {
            assert(c < open.len());
            assert(now[c] == open[c]);
            assert(open[c] == rel[c]);
            let t = now[c]->0;
            assert(pre[c] == Some(t));
            a_lane_is_held_while_it_is_read(ns, i - 1, c);
            let j = choose|j: int| i - 1 <= j < ns.len() && reads(#[trigger] ns[j], t);
            if j == i - 1 {
                assert(read_after(ns, t, i - 1));
                let m = choose|m: int| i - 1 < m < ns.len() && reads(#[trigger] ns[m], t);
                assert(i <= m);
            }
        }
    }
}

/// The first free lane is the lowest: every lane below it is held.
pub proof fn the_lowest_free_lane_is_taken(lanes: Seq<Option<usize>>, c: int)
    ensures
        0 <= free_lane(lanes) <= lanes.len(),
        free_lane(lanes) < lanes.len() ==> lanes[free_lane(lanes)] is None,
        0 <= c < free_lane(lanes) ==> lanes[c] is Some,
        is_held(lanes, c) ==> c != free_lane(lanes),
    decreases lanes.len(),
{
    lemma_free(lanes);
    if lanes.len() > 0 && lanes[0] is Some && c > 0 {
        the_lowest_free_lane_is_taken(lanes.drop_first(), c - 1);
        if c < free_lane(lanes) {
            assert(lanes.drop_first()[c - 1] == lanes[c]);
        }
    }
}

/// A line of a page stands alone, or has its annotation two blanks behind it.
pub proof fn a_page_is_its_lines(ls: Seq<Line>, l: Line, width: int)
    ensures
        page(Seq::<Line>::empty(), width) == Seq::<char>::empty(),
        page(ls.push(l), width) == page(ls, width) + line_text(l, width),
        l.right is None ==> line_text(l, width) == l.left.push('\n'),
        l.right matches Some(a) ==> a.len() > 0 ==> line_text(l, width) == (padded(l.left, width) + seq![
            ' ',
            ' ',
        ] + a).push('\n'),
{
    reveal_strlit("\n");
    reveal_strlit("  ");
    assert("\n"@ =~= seq!['\n']);
    assert("  "@ =~= seq![' ', ' ']);
    assert(ls.push(l).drop_last() =~= ls);
    assert(l.left + "\n"@ =~= l.left.push('\n'));
    if let Some(a) = l.right {
        assert(padded(l.left, width) + "  "@ + a + "\n"@ =~= (padded(l.left, width) + seq![' ', ' '] + a).push(
            '\n',
        ));
    }
}

/// The nodes counted dark are those that do not run.
pub proof fn each_dark_node_is_counted_once(live: Seq<bool>)
    ensures
        dark_count(Seq::<bool>::empty()) == 0,
        dark_count(live.push(true)) == dark_count(live),
        dark_count(live.push(false)) == dark_count(live) + 1,
        dark_count(live) <= live.len(),
    decreases live.len(),
{
    assert(live.push(true).drop_last() =~= live);
    assert(live.push(false).drop_last() =~= live);
    if live.len() > 0 {
        each_dark_node_is_counted_once(live.drop_last());
    }
}

/// Each gate is listed with how it stands, behind the ones before it.
pub proof fn an_assignment_is_listed_gate_by_gate(state: Seq<(&'static str, bool)>, gate: &'static str)
    ensures
        state_text(Seq::<(&'static str, bool)>::empty()) == Seq::<char>::empty(),
        state_text(state.push((gate, true))) == state_text(state) + seq![' ', ' '] + gate@ + seq!['=', 'o', 'p', 'e', 'n'],
        state_text(state.push((gate, false))) == state_text(state) + seq![' ', ' '] + gate@ + seq![
            '=',
            'c',
            'l',
            'o',
            's',
            'e',
            'd',
        ],
{
    reveal_strlit("  ");
    reveal_strlit("=");
    reveal_strlit("open");
    reveal_strlit("closed");
    assert(state.push((gate, true)).drop_last() =~= state);
    assert(state.push((gate, false)).drop_last() =~= state);
    assert(state_text(state.push((gate, true))) =~= state_text(state) + seq![' ', ' '] + gate@ + seq!['=', 'o', 'p', 'e', 'n']);
    assert(state_text(state.push((gate, false))) =~= state_text(state) + seq![' ', ' '] + gate@ + seq![
        '=',
        'c',
        'l',
        'o',
        's',
        'e',
        'd',
    ]);
}

/// An edge is marked by what it is: a gate read for permission, a dep folded over its reach, a buffer
/// read back over its own, a level sampled; and a bare dep not at all.
pub proof fn an_edge_is_marked_by_what_it_is(ns: Seq<NodeShape>, n: NodeShape, k: int)
    requires
        0 <= k < n.deps@.len(),
    ensures
        ({
            let to = ns[n.deps@[k] as int];
            let (gates, folds, retains) = (n.dep_gates@[k], n.dep_folds@[k], n.dep_retains@[k]);
            let reach = horizon_text(n.dep_reach@[k]);
            &&& gates ==> edge_text(ns, n, k) == Some(seq!['⊣'] + trimmed(to.name@))
            &&& !gates && folds ==> edge_text(ns, n, k) == Some(
                seq!['⟳'] + trimmed(to.name@) + seq!['@'] + reach,
            )
            &&& !gates && !folds && retains && to.kind == Kind::Buffer ==> edge_text(ns, n, k) == Some(
                seq!['⌸', '@'] + reach,
            )
            &&& !gates && !folds && retains && to.kind != Kind::Buffer ==> edge_text(ns, n, k) == Some(
                seq!['·'] + trimmed(to.name@),
            )
            &&& !gates && !folds && !retains ==> edge_text(ns, n, k) is None
        }),
{
    reveal_strlit("⊣");
    reveal_strlit("⟳");
    reveal_strlit("@");
    reveal_strlit("⌸@");
    reveal_strlit("·");
    assert("⊣"@ =~= seq!['⊣']);
    assert("⟳"@ =~= seq!['⟳']);
    assert("@"@ =~= seq!['@']);
    assert("⌸@"@ =~= seq!['⌸', '@']);
    assert("·"@ =~= seq!['·']);
}

/// What pins a node awake is told apart from what does not, and each reason by its own word.
pub proof fn a_pin_is_told_by_its_reason(p: Pin)
    ensures
        p.why() is None <==> p == Pin::Free,
        Pin::Fold.why() == Some("fold"@),
        Pin::Retention.why() == Some("retention"@),
        Pin::Latch.why() == Some("latch"@),
        Pin::Gate.why() == Some("gate"@),
        Pin::Output.why() == Some("output"@),
        Kind::Root.name() == "root"@ && Kind::Node.name() == "node"@ && Kind::Emit.name() == "emit"@,
        Kind::Gate.name() == "gate"@ && Kind::Latch.name() == "latch"@,
        Kind::Buffer.name() == "buffer"@ && Kind::Latest.name() == "latest"@,
{
}

/// A fidelity says what it leaves out, in quotes.
pub proof fn a_fidelity_says_what_it_leaves_out(s: &'static str)
    ensures
        fidelity_text(Fidelity::Exact) == "Exact"@,
        fidelity_text(Fidelity::Partial(s)) == "Partial("@ + quoted_text(s@) + seq![')'],
        fidelity_text(Fidelity::Opaque(s)) == "Opaque("@ + quoted_text(s@) + seq![')'],
{
    reveal_strlit(")");
    assert(")"@ =~= seq![')']);
}

/// The line above a node is drawn lane by lane: what stands in a lane, and between two of them what the
/// run carries across.
pub proof fn the_line_above_a_node_is_drawn_lane_by_lane(
    ns: Seq<NodeShape>,
    i: int,
    lanes: Seq<Option<usize>>,
    target: int,
    width: int,
    c: int,
    upto: int,
)
    requires
        0 <= c < upto <= width,
    ensures
        ({
            let s = junctions(ns, i, lanes, target, width, upto);
            &&& s.len() == if upto < width {
                2 * upto
            } else {
                2 * upto - 1
            }
            &&& s[2 * c] == junction(ns, i, lanes, target, c)
            &&& c + 1 < width ==> s[2 * c + 1] == run_between(
                left_end(ns[i], lanes, target),
                right_end(ns[i], lanes, target),
                c,
            )
        }),
    decreases upto,
{
    if upto > 1 {
        if c < upto - 1 {
            the_line_above_a_node_is_drawn_lane_by_lane(ns, i, lanes, target, width, c, upto - 1);
        } else {
            the_line_above_a_node_is_drawn_lane_by_lane(ns, i, lanes, target, width, 0, upto - 1);
        }
    } else {
        assert(junctions(ns, i, lanes, target, width, 0) =~= Seq::<char>::empty());
    }
}

/// On a node's own line its mark stands in its lane; of the other lanes those that are held go on, and
/// the rest are blank.
pub proof fn a_node_s_line_marks_its_lane(
    lanes: Seq<Option<usize>>,
    target: int,
    marked: Seq<char>,
    c: int,
)
    requires
        0 <= c,
    ensures
        ({
            let (before, after) = (node_lanes(lanes, target, marked, c), node_lanes(lanes, target, marked, c + 1));
            let gap = if c > 0 {
                seq![' ']
            } else {
                Seq::<char>::empty()
            };
            &&& c == 0 ==> before == Seq::<char>::empty()
            &&& c == target ==> after == before + gap + marked
            &&& c != target && c < lanes.len() && lanes[c] is Some ==> after == before + gap + seq!['│']
            &&& c != target && !(c < lanes.len() && lanes[c] is Some) ==> after == before + gap + seq![' ']
        }),
{
    let before = node_lanes(lanes, target, marked, c);
    if c > 0 {
        assert(before.push(' ') =~= before + seq![' ']);
        assert(before.push(' ').push('│') =~= before + seq![' '] + seq!['│']);
        assert(before.push(' ').push(' ') =~= before + seq![' '] + seq![' ']);
    } else {
        assert(before =~= Seq::<char>::empty());
        assert(before + Seq::<char>::empty() =~= before);
        assert(before.push('│') =~= before + Seq::<char>::empty() + seq!['│']);
        assert(before.push(' ') =~= before + Seq::<char>::empty() + seq![' ']);
    }
}

/// A node's own line ends in its name and carries its annotations, two blanks between each two; a node
/// that reads something has the line of the run above it, and one that reads nothing has none.
pub proof fn a_node_is_drawn_on_its_own_line(ns: Seq<NodeShape>, live: Option<Seq<bool>>, i: int)
    requires
        0 <= i < ns.len(),
    ensures
        ({
            let ls = node_lines(ns, live, i);
            let own = ls.last();
            let name = trimmed(ns[i].name@);
            &&& ls.len() == if ns[i].deps@.len() > 0 {
                2int
            } else {
                1
            }
            &&& ns[i].deps@.len() > 0 ==> ls[0].right is None
            &&& own.left.len() > name.len()
            &&& own.left.skip(own.left.len() - name.len()) == name
            &&& own.left[own.left.len() - name.len() - 1] == ' '
            &&& own.right == Some(joined(annotations(ns, ns[i]), seq![' ', ' ']))
            &&& lines(ns, live, i + 1) == lines(ns, live, i) + ls
            &&& lines(ns, live, 0) == Seq::<Line>::empty()
        }),
{
    reveal_strlit(" ");
    reveal_strlit("  ");
    assert(" "@ =~= seq![' ']);
    assert("  "@ =~= seq![' ', ' ']);
    let own = node_lines(ns, live, i).last();
    let name = trimmed(ns[i].name@);
    assert(own.left.skip(own.left.len() - name.len()) =~= name);
}

/// A page is as wide as its widest annotated line, and no line that carries no annotation widens it.
pub proof fn a_page_is_as_wide_as_its_widest_annotated_line(ls: Seq<Line>, i: int)
    requires
        0 <= i < ls.len(),
    ensures
        ls[i].right is Some ==> ls[i].left.len() <= page_width(ls),
        page_width(ls) == 0 || exists|j: int|
            0 <= j < ls.len() && (#[trigger] ls[j]).right is Some && ls[j].left.len() == page_width(ls),
    decreases ls.len(),
{
    let rest = ls.drop_last();
    if rest.len() > 0 {
        if i < rest.len() {
            a_page_is_as_wide_as_its_widest_annotated_line(rest, i);
        } else {
            a_page_is_as_wide_as_its_widest_annotated_line(rest, 0);
        }
        if page_width(rest) != 0 {
            let j = choose|j: int|
                0 <= j < rest.len() && (#[trigger] rest[j]).right is Some && rest[j].left.len() == page_width(rest);
            assert(ls[j] == rest[j]);
        }
        if i < rest.len() {
            assert(ls[i] == rest[i]);
        }
    } else {
        assert(page_width(rest) == 0);
    }
    let l = ls[ls.len() - 1];
    assert(l == ls.last());
    if l.right is Some && l.left.len() > page_width(rest) {
        assert(page_width(ls) == l.left.len());
    }
}

proof fn lemma_blanks(n: int, i: int)
    ensures
        blanks(n).len() == if n > 0 {
            n
        } else {
            0
        },
        0 <= i < n ==> blanks(n)[i] == ' ',
    decreases n,
{
    if n > 0 {
        lemma_blanks(n - 1, i);
    }
}

/// A line is filled with blanks up to the width it is padded to, and by one more for each byte that a
/// character takes beyond its first.
pub proof fn a_line_is_padded_with_blanks(s: Seq<char>, width: int, c: char, i: int)
    requires
        s.len() <= width,
    ensures
        padded(s, width).len() == width + surplus(s),
        padded(s, width).take(s.len() as int) == s,
        s.len() <= i < padded(s, width).len() ==> padded(s, width)[i] == ' ',
        surplus(s.push(c)) == surplus(s) + if (c as u32) < 0x80 {
            0int
        } else if (c as u32) < 0x800 {
            1
        } else if (c as u32) < 0x10000 {
            2
        } else {
            3
        },
        surplus(Seq::<char>::empty()) == 0,
        surplus(s) >= 0,
{
    lemma_surplus(s);
    lemma_blanks(width - s.len() + surplus(s), i - s.len());
    assert(padded(s, width).take(s.len() as int) =~= s);
    assert(s.push(c).drop_last() =~= s);
}

proof fn lemma_surplus(s: Seq<char>)
    ensures
        surplus(s) >= 0,
    decreases s.len(),
{
    if s.len() > 0 {
        lemma_surplus(s.drop_last());
    }
}

/// A picture is headed by the graph's name and, under an assignment, by how its gates stand, and ends in
/// what the marks mean and, under an assignment, in how many nodes are dark of how many.
pub proof fn a_picture_is_headed_and_counted(
    graph: Seq<char>,
    ns: Seq<NodeShape>,
    state: Seq<(&'static str, bool)>,
)
    ensures
        ({
            let live = Seq::new(ns.len(), |i: int| runs(ns, state, ns[i]));
            let (plain, under) = (lines(ns, None, ns.len() as int), lines(ns, Some(live), ns.len() as int));
            &&& picture(graph, ns, None) == "graph "@ + graph + "\n"@ + "\n"@ + page(plain, page_width(plain))
                + "\n"@ + legend()
            &&& picture(graph, ns, Some(state)) == "graph "@ + graph + "  ·"@ + state_text(state) + "\n"@ + "\n"@
                + page(under, page_width(under)) + "\n"@ + legend() + "\n"@ + decimal(dark_count(live)) + " of "@
                + decimal(ns.len()) + " dark"@
        }),
{
    let live = Seq::new(ns.len(), |i: int| runs(ns, state, ns[i]));
    let under = lines(ns, Some(live), ns.len() as int);
    assert(picture(graph, ns, Some(state)) =~= "graph "@ + graph + "  ·"@ + state_text(state) + "\n"@ + "\n"@ + page(
        under,
        page_width(under),
    ) + "\n"@ + legend() + "\n"@ + decimal(dark_count(live)) + " of "@ + decimal(ns.len()) + " dark"@);
    assert(picture(graph, ns, None) =~= "graph "@ + graph + "\n"@ + "\n"@ + page(
        lines(ns, None, ns.len() as int),
        page_width(lines(ns, None, ns.len() as int)),
    ) + "\n"@ + legend());
}

proof fn lemma_edges_alike(ns: Seq<NodeShape>, n: NodeShape, m: NodeShape, k: int)
    requires
        n.deps == m.deps && n.dep_gates == m.dep_gates && n.dep_folds == m.dep_folds,
        n.dep_retains == m.dep_retains && n.dep_reach == m.dep_reach,
    ensures
        edge_texts(ns, n, k) == edge_texts(ns, m, k),
    decreases k,
{
    if k > 0 {
        lemma_edges_alike(ns, n, m, k - 1);
    }
}

/// A node is annotated first with its clock, where it has one, and last with what its derivative leaves
/// out, where it leaves something out; before that with the field it is read out by.
pub proof fn annotations_stand_in_order(ns: Seq<NodeShape>, n: NodeShape)
    ensures
        n.clock matches Some(tf) ==> annotations(ns, n) == seq![seq!['@'] + timeframe_text(tf)] + annotations(
            ns,
            NodeShape { clock: None, ..n },
        ),
        n.fidelity != Fidelity::Exact ==> annotations(ns, n) == annotations(
            ns,
            NodeShape { fidelity: Fidelity::Exact, ..n },
        ).push(fidelity_text(n.fidelity)),
        n.fidelity == Fidelity::Exact && n.kind != Kind::Root ==> (n.field matches Some(f) ==> annotations(ns, n)
            == annotations(ns, NodeShape { field: None, ..n }).push("→out "@ + f@)),
{
    reveal_strlit("@");
    assert("@"@ =~= seq!['@']);
    let (a, b, c) = (
        NodeShape { clock: None, ..n },
        NodeShape { fidelity: Fidelity::Exact, ..n },
        NodeShape { field: None, ..n },
    );
    lemma_edges_alike(ns, n, a, n.deps@.len() as int);
    lemma_edges_alike(ns, n, b, n.deps@.len() as int);
    lemma_edges_alike(ns, n, c, n.deps@.len() as int);
    if let Some(tf) = n.clock {
        assert(annotations(ns, n) =~= seq![seq!['@'] + timeframe_text(tf)] + annotations(ns, a));
    }
    if n.fidelity != Fidelity::Exact {
        assert(annotations(ns, n) =~= annotations(ns, b).push(fidelity_text(n.fidelity)));
    } else if n.kind != Kind::Root {
        if let Some(f) = n.field {
            assert(annotations(ns, n) =~= annotations(ns, c).push("→out "@ + f@));
        }
    }
}

/// Where nothing comes before or after, a node is annotated with what it is, a root with its field, then
/// with what pins it, and then with its edges in the order of its deps.
pub proof fn a_node_is_annotated_with_what_it_is(ns: Seq<NodeShape>, n: NodeShape, k: int)
    requires
        n.clock is None,
        n.fidelity == Fidelity::Exact,
        n.kind != Kind::Root ==> n.field is None,
    ensures
        ({
            let notes = annotations(ns, n);
            let edges = edge_texts(ns, n, n.deps@.len() as int);
            let pins = if n.pin == Pin::Free {
                0int
            } else {
                1
            };
            &&& n.kind == Kind::Root ==> (n.field matches Some(f) ==> notes[0] == "root "@ + f@)
            &&& n.field is None ==> notes[0] == n.kind.name()
            &&& n.pin != Pin::Free ==> notes[1] == "pin·"@ + n.pin.why()->0
            &&& edges.len() == 0 ==> notes.len() == 1 + pins
            &&& edges.len() > 0 ==> notes.len() == 2 + pins && notes.last() == joined(edges, seq![' '])
        }),
        0 <= k && edge_text(ns, n, k) is None ==> edge_texts(ns, n, k + 1) == edge_texts(ns, n, k),
        0 <= k ==> (edge_text(ns, n, k) matches Some(e) ==> edge_texts(ns, n, k + 1) == edge_texts(ns, n, k).push(
            e,
        )),
        edge_texts(ns, n, 0) == Seq::<Seq<char>>::empty(),
{
    reveal_strlit(" ");
    assert(" "@ =~= seq![' ']);
}

} // verus!
