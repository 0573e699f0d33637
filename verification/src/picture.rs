//! A graph drawn with git-log-style lanes: a slot per producer with consumers still ahead of it,
//! held open from the tick it is stepped to the tick its last reader takes it.

use vstd::prelude::*;

use crate::shape::{
    annotate, annotations, node_drawn, runs, shape_drawn, shape_gated, trim, trimmed, Kind, NodeShape,
    Shape, Under,
};
use crate::text;
use crate::text::decimal;

verus! {

/// Whether a node reads `t`.
pub open spec fn reads(n: NodeShape, t: usize) -> bool {
    exists|k: int| 0 <= k < n.deps@.len() && #[trigger] n.deps@[k] == t
}

/// Whether a node reads `t` for permission.
pub open spec fn reads_gate(n: NodeShape, t: usize) -> bool {
    exists|k: int| 0 <= k < n.deps@.len() && #[trigger] n.deps@[k] == t && n.dep_gates@[k]
}

/// Whether a node after `i` reads `t`.
pub open spec fn read_after(ns: Seq<NodeShape>, t: usize, i: int) -> bool {
    exists|j: int| i < j < ns.len() && reads(#[trigger] ns[j], t)
}

/// The lanes once node `i` has taken its last readings.
pub open spec fn released(
    ns: Seq<NodeShape>,
    lanes: Seq<Option<usize>>,
    i: int,
) -> Seq<Option<usize>> {
    lanes.map_values(
        |s: Option<usize>|
            match s {
                Some(t) => if reads(ns[i], t) && !read_after(ns, t, i) {
                    None
                } else {
                    Some(t)
                },
                None => None,
            },
    )
}

/// The lanes up to the last one that is held.
pub open spec fn held(lanes: Seq<Option<usize>>) -> Seq<Option<usize>>
    decreases lanes.len(),
{
    if lanes.len() > 0 && lanes.last() is None {
        held(lanes.drop_last())
    } else {
        lanes
    }
}

/// The first lane that is free.
pub open spec fn free_lane(lanes: Seq<Option<usize>>) -> int
    decreases lanes.len(),
{
    if lanes.len() == 0 || lanes[0] is None {
        0
    } else {
        1 + free_lane(lanes.drop_first())
    }
}

/// The lanes that stay open past node `i`'s readings.
pub open spec fn open_lanes(ns: Seq<NodeShape>, i: int) -> Seq<Option<usize>> {
    held(released(ns, lanes_before(ns, i), i))
}

/// The lanes open when node `i` is drawn: each node takes the first free lane, and keeps it while
/// anything after it reads it.
pub open spec fn lanes_before(ns: Seq<NodeShape>, i: int) -> Seq<Option<usize>>
    decreases i,
{
    if i <= 0 {
        Seq::empty()
    } else {
        let lanes = held(released(ns, lanes_before(ns, i - 1), i - 1));
        seated(ns, lanes, i - 1)
    }
}

/// The lanes with node `i` in the first free one, if anything after it reads it.
pub open spec fn seated(
    ns: Seq<NodeShape>,
    lanes: Seq<Option<usize>>,
    i: int,
) -> Seq<Option<usize>> {
    if read_after(ns, i as usize, i) {
        if free_lane(lanes) < lanes.len() {
            lanes.update(free_lane(lanes), Some(i as usize))
        } else {
            lanes.push(Some(i as usize))
        }
    } else {
        lanes
    }
}

/// Whether lane `c` carries something the node reads.
pub open spec fn taken_from(n: NodeShape, lanes: Seq<Option<usize>>, c: int) -> bool {
    0 <= c < lanes.len() && lanes[c] is Some && reads(n, lanes[c]->0)
}

/// Whether lane `c` is held.
pub open spec fn is_held(lanes: Seq<Option<usize>>, c: int) -> bool {
    0 <= c < lanes.len() && lanes[c] is Some
}

/// The first lane from `c` on that the node reads, or the number of lanes.
pub open spec fn first_taken(n: NodeShape, lanes: Seq<Option<usize>>, c: int) -> int
    decreases lanes.len() - c,
{
    if c >= lanes.len() {
        lanes.len() as int
    } else if taken_from(n, lanes, c) {
        c
    } else {
        first_taken(n, lanes, c + 1)
    }
}

/// The last lane before `c` that the node reads, or one below zero.
pub open spec fn last_taken(n: NodeShape, lanes: Seq<Option<usize>>, c: int) -> int
    decreases c,
{
    if c <= 0 {
        -1
    } else if taken_from(n, lanes, c - 1) {
        c - 1
    } else {
        last_taken(n, lanes, c - 1)
    }
}

/// The left end of the run that carries a node's readings to its lane.
pub open spec fn left_end(n: NodeShape, lanes: Seq<Option<usize>>, target: int) -> int {
    let first = first_taken(n, lanes, 0);
    if first <= target {
        first
    } else {
        target
    }
}

/// The right end of that run.
pub open spec fn right_end(n: NodeShape, lanes: Seq<Option<usize>>, target: int) -> int {
    let last = last_taken(n, lanes, lanes.len() as int);
    if last >= target {
        last
    } else {
        target
    }
}

/// What is drawn in lane `c` above node `i`. A control read is drawn dashed in the lane it leaves,
/// so permission reads apart from data without the shared horizontal run having to carry two kinds
/// at once. The corners mirror at the right end of the run, where the line turns the other way.
pub open spec fn junction(
    ns: Seq<NodeShape>,
    i: int,
    lanes: Seq<Option<usize>>,
    target: int,
    c: int,
) -> char {
    let n = ns[i];
    let lo = left_end(n, lanes, target);
    let hi = right_end(n, lanes, target);
    if taken_from(n, lanes, c) {
        let t = lanes[c]->0;
        match (reads_gate(n, t), !read_after(ns, t, i), c == hi && hi > lo) {
            (true, true, _) => '╌',
            (true, false, _) => '┽',
            (false, true, false) => '╰',
            (false, true, true) => '╯',
            (false, false, false) => '├',
            (false, false, true) => '┤',
        }
    } else if c == target {
        if c == lo {
            '╭'
        } else if c == hi {
            '╮'
        } else {
            '┬'
        }
    } else if lo < c < hi {
        if is_held(lanes, c) {
            '┼'
        } else {
            '─'
        }
    } else if is_held(lanes, c) {
        '│'
    } else {
        ' '
    }
}

/// What is drawn between lane `c` and the next above node `i`.
pub open spec fn run_between(lo: int, hi: int, c: int) -> char {
    if lo <= c < hi {
        '─'
    } else {
        ' '
    }
}

/// The first `c` lanes above node `i`, of `width` in all.
pub open spec fn junctions(
    ns: Seq<NodeShape>,
    i: int,
    lanes: Seq<Option<usize>>,
    target: int,
    width: int,
    c: int,
) -> Seq<char>
    decreases c,
{
    if c <= 0 {
        Seq::empty()
    } else {
        let before = junctions(ns, i, lanes, target, width, c - 1).push(
            junction(ns, i, lanes, target, c - 1),
        );
        if c < width {
            before.push(
                run_between(
                    left_end(ns[i], lanes, target),
                    right_end(ns[i], lanes, target),
                    c - 1,
                ),
            )
        } else {
            before
        }
    }
}

/// How a node is marked: a root, live, or dark, where a dark node either may sleep or needs a
/// rewinding past to.
pub open spec fn mark(n: NodeShape, live: Option<bool>) -> Seq<char> {
    match (n.kind, live) {
        (Kind::Root, _) => "╷"@,
        (_, Some(false)) => if n.rewinds {
            "░⟲"@
        } else {
            "░"@
        },
        _ => "●"@,
    }
}

/// The first `c` lanes of a node's own line.
pub open spec fn node_lanes(
    lanes: Seq<Option<usize>>,
    target: int,
    marked: Seq<char>,
    c: int,
) -> Seq<char>
    decreases c,
{
    if c <= 0 {
        Seq::empty()
    } else {
        let before = node_lanes(lanes, target, marked, c - 1);
        let spaced = if c > 1 {
            before.push(' ')
        } else {
            before
        };
        if c - 1 == target {
            spaced + marked
        } else if is_held(lanes, c - 1) {
            spaced.push('│')
        } else {
            spaced.push(' ')
        }
    }
}

/// The larger of two numbers.
pub open spec fn larger(a: int, b: int) -> int {
    if a >= b {
        a
    } else {
        b
    }
}

/// One drawn line: the lanes and the node, and, where there is a node on it, the columns that
/// annotate it. Measured together, so the annotations line up down the page.
#[verifier::ext_equal]
pub struct Line {
    pub left: Seq<char>,
    pub right: Option<Seq<char>>,
}

/// Whether node `i` is live, where that is asked.
pub open spec fn live_at(live: Option<Seq<bool>>, i: int) -> Option<bool> {
    match live {
        Some(l) => Some(l[i]),
        None => None,
    }
}

/// The lines of node `i`: the run that carries its readings, if it reads anything, and its own.
pub open spec fn node_lines(ns: Seq<NodeShape>, live: Option<Seq<bool>>, i: int) -> Seq<Line> {
    let n = ns[i];
    let pre = lanes_before(ns, i);
    let lanes = open_lanes(ns, i);
    let target = free_lane(lanes);
    let width = larger(pre.len() as int, target + 1);
    let above = if n.deps@.len() > 0 {
        seq![
            Line {
                left: text::trim_end(junctions(ns, i, pre, target, width, width), ' '),
                right: None,
            },
        ]
    } else {
        Seq::empty()
    };
    above.push(
        Line {
            left: node_lanes(
                lanes,
                target,
                mark(n, live_at(live, i)),
                larger(lanes.len() as int, target + 1),
            ) + " "@ + trimmed(n.name@),
            right: Some(text::joined(annotations(ns, n), "  "@)),
        },
    )
}

/// The lines of the first `i` nodes.
pub open spec fn lines(ns: Seq<NodeShape>, live: Option<Seq<bool>>, i: int) -> Seq<Line>
    decreases i,
{
    if i <= 0 {
        Seq::empty()
    } else {
        lines(ns, live, i - 1) + node_lines(ns, live, i - 1)
    }
}

/// The widest annotated line.
pub open spec fn page_width(ls: Seq<Line>) -> int
    decreases ls.len(),
{
    if ls.len() == 0 {
        0
    } else {
        let before = page_width(ls.drop_last());
        if ls.last().right is Some {
            larger(before, ls.last().left.len() as int)
        } else {
            before
        }
    }
}

/// How many bytes past its first a character is encoded in.
pub open spec fn spare_bytes(c: char) -> int {
    if (c as u32) < 0x80 {
        0
    } else if (c as u32) < 0x800 {
        1
    } else if (c as u32) < 0x10000 {
        2
    } else {
        3
    }
}

/// By how many the bytes of a text outnumber its characters.
pub open spec fn surplus(s: Seq<char>) -> int
    decreases s.len(),
{
    if s.len() == 0 {
        0
    } else {
        surplus(s.drop_last()) + spare_bytes(s.last())
    }
}

/// So many blanks.
pub open spec fn blanks(n: int) -> Seq<char>
    decreases n,
{
    if n <= 0 {
        Seq::empty()
    } else {
        blanks(n - 1).push(' ')
    }
}

/// A line with blanks behind it: up to a width, and as many more as its bytes outnumber its
/// characters.
pub open spec fn padded(s: Seq<char>, width: int) -> Seq<char> {
    s + blanks(width - s.len() + surplus(s))
}

/// One line as it is written.
pub open spec fn line_text(l: Line, width: int) -> Seq<char> {
    match l.right {
        None => l.left + "\n"@,
        Some(a) => if a.len() == 0 {
            l.left + "\n"@
        } else {
            padded(l.left, width) + "  "@ + a + "\n"@
        },
    }
}

/// Lines as they are written.
pub open spec fn page(ls: Seq<Line>, width: int) -> Seq<char>
    decreases ls.len(),
{
    if ls.len() == 0 {
        Seq::empty()
    } else {
        page(ls.drop_last(), width) + line_text(ls.last(), width)
    }
}

/// The gates of an assignment and how they stand.
pub open spec fn state_text(state: Seq<(&'static str, bool)>) -> Seq<char>
    decreases state.len(),
{
    if state.len() == 0 {
        Seq::empty()
    } else {
        state_text(state.drop_last()) + "  "@ + state.last().0@ + "="@ + if state.last().1 {
            "open"@
        } else {
            "closed"@
        }
    }
}

/// How many of some nodes are dark.
pub open spec fn dark_count(live: Seq<bool>) -> nat
    decreases live.len(),
{
    if live.len() == 0 {
        0
    } else {
        dark_count(live.drop_last()) + if live.last() {
            0nat
        } else {
            1nat
        }
    }
}

/// What the marks mean.
pub open spec fn legend() -> Seq<char> {
    "legend  ╷root ●live ░dark ⟲needs-a-rewinding-past  ⊣gating ⟳folding ⌸buffering ·sampling"@
}

/// The whole picture of a graph, under an assignment of its gates where there is one.
pub open spec fn picture(
    graph: Seq<char>,
    ns: Seq<NodeShape>,
    state: Option<Seq<(&'static str, bool)>>,
) -> Seq<char> {
    let live = match state {
        Some(s) => Some(Seq::new(ns.len(), |i: int| runs(ns, s, ns[i]))),
        None => None,
    };
    let ls = lines(ns, live, ns.len() as int);
    let head = match state {
        Some(s) => "graph "@ + graph + "  ·"@ + state_text(s),
        None => "graph "@ + graph,
    };
    let tail = match live {
        Some(l) => "\n"@ + decimal(dark_count(l)) + " of "@ + decimal(l.len()) + " dark"@,
        None => Seq::empty(),
    };
    head + "\n"@ + "\n"@ + page(ls, page_width(ls)) + "\n"@ + legend() + tail
}

/// A drawn line in storage.
pub struct Row {
    pub left: Vec<char>,
    pub right: Option<Vec<char>>,
}

impl View for Row {
    type V = Line;

    open spec fn view(&self) -> Line {
        Line {
            left: self.left@,
            right: match self.right {
                Some(v) => Some(v@),
                None => None,
            },
        }
    }
}

/// The lines some rows hold.
pub open spec fn lines_of(rows: Seq<Row>) -> Seq<Line> {
    rows.map_values(|r: Row| r@)
}

fn node_reads(n: &NodeShape, t: usize) -> (r: bool)
    ensures
        r == reads(*n, t),
{
    let mut k: usize = 0;
    while k < n.deps.len()
        invariant
            k <= n.deps@.len(),
            forall|j: int| 0 <= j < k ==> #[trigger] n.deps@[j] != t,
        decreases n.deps@.len() - k,
    {
        if n.deps[k] == t {
            return true;
        }
        k += 1;
    }
    false
}

fn node_reads_gate(n: &NodeShape, t: usize) -> (r: bool)
    requires
        n.dep_gates@.len() >= n.deps@.len(),
    ensures
        r == reads_gate(*n, t),
{
    let mut k: usize = 0;
    while k < n.deps.len()
        invariant
            n.dep_gates@.len() >= n.deps@.len(),
            k <= n.deps@.len(),
            forall|j: int| 0 <= j < k ==> !(#[trigger] n.deps@[j] == t && n.dep_gates@[j]),
        decreases n.deps@.len() - k,
    {
        if n.deps[k] == t && n.dep_gates[k] {
            return true;
        }
        k += 1;
    }
    false
}

fn is_read_after(ns: &[NodeShape], t: usize, i: usize) -> (r: bool)
    requires
        i < ns@.len(),
    ensures
        r == read_after(ns@, t, i as int),
{
    let count: usize = ns.len();
    let mut j: usize = i + 1;
    while j < count
        invariant
            count == ns@.len(),
            i < j <= ns@.len(),
            forall|k: int| i < k < j ==> !reads(#[trigger] ns@[k], t),
        decreases ns@.len() - j,
    {
        if node_reads(&ns[j], t) {
            assert(reads(ns@[j as int], t));
            return true;
        }
        j += 1;
    }
    false
}

/// The lanes once node `i` has taken its last readings, up to the last one held.
fn release(ns: &[NodeShape], pre: &Vec<Option<usize>>, i: usize) -> (r: Vec<Option<usize>>)
    requires
        i < ns@.len(),
    ensures
        r@ == held(released(ns@, pre@, i as int)),
{
    let ghost all = released(ns@, pre@, i as int);
    let mut out: Vec<Option<usize>> = Vec::new();
    let mut c: usize = 0;
    while c < pre.len()
        invariant
            i < ns@.len(),
            all == released(ns@, pre@, i as int),
            c <= pre@.len(),
            out@ == all.take(c as int),
        decreases pre@.len() - c,
    {
        let slot: Option<usize> = match pre[c] {
            Some(t) => if node_reads(&ns[i], t) && !is_read_after(ns, t, i) {
                None
            } else {
                Some(t)
            },
            None => None,
        };
        out.push(slot);
        c += 1;
        assert(out@ =~= all.take(c as int));
    }
    assert(out@ =~= all);
    while out.len() > 0 && out[out.len() - 1].is_none()
        invariant
            held(out@) == held(all),
        decreases out@.len(),
    {
        let ghost before = out@;
        out.pop();
        assert(out@ =~= before.drop_last());
    }
    out
}

fn find_free(lanes: &Vec<Option<usize>>) -> (r: usize)
    ensures
        r == free_lane(lanes@),
        r <= lanes@.len(),
        r < lanes@.len() ==> lanes@[r as int] is None,
{
    let mut c: usize = 0;
    assert(lanes@.subrange(0, lanes@.len() as int) =~= lanes@);
    while c < lanes.len() && lanes[c].is_some()
        invariant
            c <= lanes@.len(),
            free_lane(lanes@) == c + free_lane(lanes@.subrange(c as int, lanes@.len() as int)),
        decreases lanes@.len() - c,
    {
        proof {
            let rest = lanes@.subrange(c as int, lanes@.len() as int);
            assert(rest.drop_first() =~= lanes@.subrange(c + 1, lanes@.len() as int));
            assert(rest[0] == lanes@[c as int]);
        }
        c += 1;
    }
    proof {
        let rest = lanes@.subrange(c as int, lanes@.len() as int);
        if c < lanes@.len() {
            assert(rest[0] == lanes@[c as int]);
        }
    }
    c
}

fn is_taken(n: &NodeShape, lanes: &Vec<Option<usize>>, c: usize) -> (r: bool)
    ensures
        r == taken_from(*n, lanes@, c as int),
{
    if c < lanes.len() {
        match lanes[c] {
            Some(t) => node_reads(n, t),
            None => false,
        }
    } else {
        false
    }
}

/// The two ends of the run that carries a node's readings to its lane.
fn run_ends(n: &NodeShape, lanes: &Vec<Option<usize>>, target: usize) -> (r: (usize, usize))
    ensures
        r.0 == left_end(*n, lanes@, target as int),
        r.1 == right_end(*n, lanes@, target as int),
{
    let mut first: usize = 0;
    while first < lanes.len() && !is_taken(n, lanes, first)
        invariant
            first <= lanes@.len(),
            first_taken(*n, lanes@, 0) == first_taken(*n, lanes@, first as int),
        decreases lanes@.len() - first,
    {
        first += 1;
    }
    let mut after: usize = lanes.len();
    while after > 0 && !is_taken(n, lanes, after - 1)
        invariant
            after <= lanes@.len(),
            last_taken(*n, lanes@, lanes@.len() as int) == last_taken(*n, lanes@, after as int),
        decreases after,
    {
        after -= 1;
    }
    let lo: usize = if first <= target { first } else { target };
    let hi: usize = if after > 0 && after - 1 >= target { after - 1 } else { target };
    (lo, hi)
}

/// What is drawn in lane `c` above node `i`.
fn draw_junction(
    ns: &[NodeShape],
    i: usize,
    lanes: &Vec<Option<usize>>,
    target: usize,
    lo: usize,
    hi: usize,
    c: usize,
) -> (g: char)
    requires
        i < ns@.len(),
        node_drawn(ns@, i as int),
        lo == left_end(ns@[i as int], lanes@, target as int),
        hi == right_end(ns@[i as int], lanes@, target as int),
    ensures
        g == junction(ns@, i as int, lanes@, target as int, c as int),
{
    let n: &NodeShape = &ns[i];
    if is_taken(n, lanes, c) {
        let t: usize = lanes[c].unwrap();
        let gating: bool = node_reads_gate(n, t);
        let last: bool = !is_read_after(ns, t, i);
        match (gating, last, c == hi && hi > lo) {
            (true, true, _) => '╌',
            (true, false, _) => '┽',
            (false, true, false) => '╰',
            (false, true, true) => '╯',
            (false, false, false) => '├',
            (false, false, true) => '┤',
        }
    } else {
        let held_here: bool = c < lanes.len() && lanes[c].is_some();
        if c == target {
            if c == lo {
                '╭'
            } else if c == hi {
                '╮'
            } else {
                '┬'
            }
        } else if c > lo && c < hi {
            if held_here {
                '┼'
            } else {
                '─'
            }
        } else if held_here {
            '│'
        } else {
            ' '
        }
    }
}

/// The run that carries node `i`'s readings to its lane.
fn draw_run(ns: &[NodeShape], i: usize, lanes: &Vec<Option<usize>>, target: usize) -> (r: Vec<char>)
    requires
        i < ns@.len(),
        node_drawn(ns@, i as int),
        target < usize::MAX,
    ensures
        ({
            let width = larger(lanes@.len() as int, target + 1);
            r@ == text::trim_end(
                junctions(ns@, i as int, lanes@, target as int, width, width),
                ' ',
            )
        }),
{
    let (lo, hi): (usize, usize) = run_ends(&ns[i], lanes, target);
    let width: usize = if lanes.len() >= target + 1 { lanes.len() } else { target + 1 };
    let mut line: Vec<char> = Vec::new();
    let mut c: usize = 0;
    while c < width
        invariant
            i < ns@.len(),
            node_drawn(ns@, i as int),
            lo == left_end(ns@[i as int], lanes@, target as int),
            hi == right_end(ns@[i as int], lanes@, target as int),
            c <= width,
            line@ == junctions(ns@, i as int, lanes@, target as int, width as int, c as int),
        decreases width - c,
    {
        line.push(draw_junction(ns, i, lanes, target, lo, hi, c));
        if c + 1 < width {
            line.push(
                if c >= lo && c < hi {
                    '─'
                } else {
                    ' '
                },
            );
        }
        c += 1;
    }
    let ghost all = line@;
    while line.len() > 0 && line[line.len() - 1] == ' '
        invariant
            text::trim_end(line@, ' ') == text::trim_end(all, ' '),
        decreases line@.len(),
    {
        let ghost before = line@;
        line.pop();
        assert(line@ =~= before.drop_last());
    }
    line
}

fn mark_of(n: &NodeShape, live: Option<bool>) -> (r: &'static str)
    ensures
        r@ == mark(*n, live),
{
    match (n.kind, live) {
        (Kind::Root, _) => "╷",
        // the sleep the graph permits, and the sleep only a replay pays for.
        (_, Some(false)) => if n.rewinds {
            "░⟲"
        } else {
            "░"
        },
        _ => "●",
    }
}

/// The line of a node: the lanes that pass it, its mark and its name.
fn draw_node(n: &NodeShape, lanes: &Vec<Option<usize>>, target: usize, live: Option<bool>) -> (r: Vec<char>)
    requires
        target < usize::MAX,
    ensures
        r@ == node_lanes(
            lanes@,
            target as int,
            mark(*n, live),
            larger(lanes@.len() as int, target + 1),
        ) + " "@ + trimmed(n.name@),
{
    let width: usize = if lanes.len() >= target + 1 { lanes.len() } else { target + 1 };
    let marked: &'static str = mark_of(n, live);
    let mut line: Vec<char> = Vec::new();
    let mut c: usize = 0;
    while c < width
        invariant
            c <= width,
            marked@ == mark(*n, live),
            line@ == node_lanes(lanes@, target as int, mark(*n, live), c as int),
        decreases width - c,
    {
        if c > 0 {
            line.push(' ');
        }
        if c == target {
            text::push_str(&mut line, marked);
        } else if c < lanes.len() && lanes[c].is_some() {
            line.push('│');
        } else {
            line.push(' ');
        }
        c += 1;
    }
    let name: Vec<char> = trim(n.name);
    text::push_str(&mut line, " ");
    text::push_all(&mut line, name.as_slice());
    line
}

/// The drawn lines of a graph.
fn draw(shape: &Shape, live: &Option<Vec<bool>>) -> (rows: Vec<Row>)
    requires
        shape_drawn(shape.nodes@),
        shape.nodes@.len() < usize::MAX,
        live matches Some(l) ==> l@.len() == shape.nodes@.len(),
    ensures
        lines_of(rows@) == lines(shape.nodes@, live_view(*live), shape.nodes@.len() as int),
{
    let ns: &[NodeShape] = shape.nodes;
    let mut rows: Vec<Row> = Vec::new();
    let mut lanes: Vec<Option<usize>> = Vec::new();
    let mut i: usize = 0;
    assert(lines_of(rows@) =~= Seq::empty());
    while i < ns.len()
        invariant
            ns@ == shape.nodes@,
            shape_drawn(ns@),
            i <= ns@.len() < usize::MAX,
            live matches Some(l) ==> l@.len() == ns@.len(),
            lanes@ == lanes_before(ns@, i as int),
            lanes@.len() <= i,
            lines_of(rows@) == lines(ns@, live_view(*live), i as int),
        decreases ns@.len() - i,
    {
        let n: &NodeShape = &ns[i];
        assert(node_drawn(ns@, i as int));
        let ghost before = rows@;
        let now: Vec<Option<usize>> = release(ns, &lanes, i);
        proof {
            lemma_held_shorter(released(ns@, lanes@, i as int));
        }
        let target: usize = find_free(&now);
        if n.deps.len() > 0 {
            rows.push(Row { left: draw_run(ns, i, &lanes, target), right: None });
        }
        let on: Option<bool> = match live {
            Some(l) => Some(l[i]),
            None => None,
        };
        rows.push(
            Row { left: draw_node(n, &now, target, on), right: Some(annotate(shape, i)) },
        );
        assert(lines_of(rows@) =~= lines_of(before) + node_lines(
            ns@,
            live_view(*live),
            i as int,
        ));
        lanes = now;
        if is_read_after(ns, i, i) {
            if target < lanes.len() {
                lanes.set(target, Some(i));
            } else {
                lanes.push(Some(i));
            }
        }
        i += 1;
    }
    rows
}

/// Which nodes are live, where that is asked.
pub open spec fn live_view(live: Option<Vec<bool>>) -> Option<Seq<bool>> {
    match live {
        Some(l) => Some(l@),
        None => None,
    }
}

/// Dropping free lanes leaves no more lanes.
proof fn lemma_held_shorter(lanes: Seq<Option<usize>>)
    ensures
        held(lanes).len() <= lanes.len(),
    decreases lanes.len(),
{
    if lanes.len() > 0 && lanes.last() is None {
        lemma_held_shorter(lanes.drop_last());
    }
}

/// The widest annotated line.
fn measure(rows: &Vec<Row>) -> (w: usize)
    ensures
        w == page_width(lines_of(rows@)),
{
    let ghost ls = lines_of(rows@);
    let mut w: usize = 0;
    let mut i: usize = 0;
    while i < rows.len()
        invariant
            ls == lines_of(rows@),
            i <= rows@.len(),
            w == page_width(ls.take(i as int)),
        decreases rows@.len() - i,
    {
        proof {
            assert(ls.take(i + 1).drop_last() =~= ls.take(i as int));
            assert(ls.take(i + 1).last() == rows@[i as int]@);
        }
        if rows[i].right.is_some() && rows[i].left.len() > w {
            w = rows[i].left.len();
        }
        i += 1;
    }
    assert(ls.take(ls.len() as int) =~= ls);
    w
}

/// How many bytes past its first a character is encoded in.
fn spare(c: char) -> (r: usize)
    ensures
        r == spare_bytes(c),
{
    let u: u32 = c as u32;
    if u < 0x80 {
        0
    } else if u < 0x800 {
        1
    } else if u < 0x10000 {
        2
    } else {
        3
    }
}

proof fn lemma_surplus(s: Seq<char>)
    ensures
        surplus(s) >= 0,
    decreases s.len(),
{
    if s.len() > 0 {
        lemma_surplus(s.drop_last());
    }
}

/// Append one line as it is written.
fn write_line(out: &mut Vec<char>, r: &Row, width: usize)
    requires
        r.right is Some ==> r.left@.len() <= width,
    ensures
        final(out)@ == old(out)@ + line_text(r@, width as int),
{
    let ghost before = out@;
    match &r.right {
        None => {
            text::push_all(out, r.left.as_slice());
            text::push_str(out, "\n");
            assert(out@ =~= before + line_text(r@, width as int));
        },
        Some(a) => {
            if a.len() == 0 {
                text::push_all(out, r.left.as_slice());
                text::push_str(out, "\n");
                assert(out@ =~= before + line_text(r@, width as int));
            } else {
                let ghost left = r.left@;
                text::push_all(out, r.left.as_slice());
                let n: usize = width - r.left.len();
                let mut k: usize = 0;
                while k < n
                    invariant
                        k <= n,
                        out@ == before + left + blanks(k as int),
                    decreases n - k,
                {
                    out.push(' ');
                    k += 1;
                    assert(out@ =~= before + left + blanks(k as int));
                }
                let mut i: usize = 0;
                while i < r.left.len()
                    invariant
                        left == r.left@,
                        i <= left.len(),
                        n >= 0,
                        out@ == before + left + blanks(n + surplus(left.take(i as int))),
                    decreases left.len() - i,
                {
                    let more: usize = spare(r.left[i]);
                    let ghost so_far = n + surplus(left.take(i as int));
                    let mut j: usize = 0;
                    proof {
                        lemma_surplus(left.take(i as int));
                        assert(left.take(i + 1).drop_last() =~= left.take(i as int));
                    }
                    while j < more
                        invariant
                            j <= more,
                            so_far >= 0,
                            out@ == before + left + blanks(so_far + j),
                        decreases more - j,
                    {
                        out.push(' ');
                        j += 1;
                        assert(out@ =~= before + left + blanks(so_far + j));
                    }
                    i += 1;
                }
                assert(left.take(left.len() as int) =~= left);
                text::push_str(out, "  ");
                text::push_all(out, a.as_slice());
                text::push_str(out, "\n");
                assert(out@ =~= before + line_text(r@, width as int));
            }
        },
    }
}

/// Append lines as they are written.
fn write_page(out: &mut Vec<char>, rows: &Vec<Row>, width: usize)
    requires
        width == page_width(lines_of(rows@)),
    ensures
        final(out)@ == old(out)@ + page(lines_of(rows@), width as int),
{
    let ghost before = out@;
    let ghost ls = lines_of(rows@);
    let mut i: usize = 0;
    assert(before + page(ls.take(0), width as int) =~= before);
    while i < rows.len()
        invariant
            ls == lines_of(rows@),
            i <= rows@.len(),
            width == page_width(ls),
            out@ == before + page(ls.take(i as int), width as int),
        decreases rows@.len() - i,
    {
        proof {
            if ls[i as int].right is Some {
                lemma_page_width(ls, i as int);
            }
            assert(ls.take(i + 1).drop_last() =~= ls.take(i as int));
            assert(ls.take(i + 1).last() == rows@[i as int]@);
        }
        write_line(out, &rows[i], width);
        i += 1;
        assert(out@ =~= before + page(ls.take(i as int), width as int));
    }
    assert(ls.take(ls.len() as int) =~= ls);
}

/// Append the gates of an assignment and how they stand.
fn write_state(out: &mut Vec<char>, state: &[(&'static str, bool)])
    ensures
        final(out)@ == old(out)@ + state_text(state@),
{
    let ghost before = out@;
    let mut i: usize = 0;
    assert(before + state_text(state@.take(0)) =~= before);
    while i < state.len()
        invariant
            i <= state@.len(),
            out@ == before + state_text(state@.take(i as int)),
        decreases state@.len() - i,
    {
        proof {
            assert(state@.take(i + 1).drop_last() =~= state@.take(i as int));
            assert(state@.take(i + 1).last() == state@[i as int]);
        }
        text::push_str(out, "  ");
        text::push_str(out, state[i].0);
        text::push_str(out, "=");
        text::push_str(
            out,
            if state[i].1 {
                "open"
            } else {
                "closed"
            },
        );
        i += 1;
        assert(out@ =~= before + state_text(state@.take(i as int)));
    }
    assert(state@.take(state@.len() as int) =~= state@);
}

/// How many of some nodes are dark.
fn count_dark(live: &Vec<bool>) -> (n: usize)
    ensures
        n == dark_count(live@),
{
    let mut n: usize = 0;
    let mut i: usize = 0;
    while i < live.len()
        invariant
            i <= live@.len(),
            n <= i,
            n == dark_count(live@.take(i as int)),
        decreases live@.len() - i,
    {
        assert(live@.take(i + 1).drop_last() =~= live@.take(i as int));
        if !live[i] {
            n += 1;
        }
        i += 1;
    }
    assert(live@.take(live@.len() as int) =~= live@);
    n
}

/// The assignment a picture is read under.
pub open spec fn state_of(under: Option<&Under<'_>>) -> Option<Seq<(&'static str, bool)>> {
    match under {
        Some(u) => Some(u.state@),
        None => None,
    }
}

/// The whole picture of a graph, under an assignment of its gates where there is one.
pub fn render(shape: &Shape, under: Option<&Under<'_>>) -> (r: String)
    requires
        shape_drawn(shape.nodes@),
        shape.nodes@.len() < usize::MAX,
        under matches Some(u) ==> u.wf() && *u.shape == *shape && shape_gated(shape.nodes@),
    ensures
        r@ == picture(shape.graph@, shape.nodes@, state_of(under)),
{
    let live: Option<Vec<bool>> = match under {
        Some(u) => Some(u.live()),
        None => None,
    };
    let ghost model = match state_of(under) {
        Some(s) => Some(
            Seq::new(shape.nodes@.len(), |i: int| runs(shape.nodes@, s, shape.nodes@[i])),
        ),
        None => None,
    };
    proof {
        if live is Some {
            assert(live->0@ =~= model->0);
        }
        assert(live_view(live) == model);
    }
    let rows: Vec<Row> = draw(shape, &live);
    let width: usize = measure(&rows);
    let ghost ls = lines(shape.nodes@, model, shape.nodes@.len() as int);
    let mut out: Vec<char> = Vec::new();
    text::push_str(&mut out, "graph ");
    text::push_str(&mut out, shape.graph);
    if let Some(u) = under {
        text::push_str(&mut out, "  ·");
        write_state(&mut out, u.state);
    }
    let ghost head = out@;
    text::push_str(&mut out, "\n");
    text::push_str(&mut out, "\n");
    write_page(&mut out, &rows, width);
    text::push_str(&mut out, "\n");
    text::push_str(
        &mut out,
        "legend  ╷root ●live ░dark ⟲needs-a-rewinding-past  ⊣gating ⟳folding ⌸buffering ·sampling",
    );
    let ghost body = out@;
    assert(body == head + "\n"@ + "\n"@ + page(ls, page_width(ls)) + "\n"@ + legend());
    if let Some(l) = &live {
        let dark: usize = count_dark(l);
        text::push_str(&mut out, "\n");
        text::push_decimal(&mut out, dark as u64);
        text::push_str(&mut out, " of ");
        text::push_decimal(&mut out, l.len() as u64);
        text::push_str(&mut out, " dark");
        assert(out@ =~= body + ("\n"@ + decimal(dark_count(l@)) + " of "@ + decimal(l@.len())
            + " dark"@));
    } else {
        assert(out@ =~= body + Seq::<char>::empty());
    }
    proof {
        match state_of(under) {
            Some(st) => {
                assert(head =~= "graph "@ + shape.graph@ + "  ·"@ + state_text(st));
            },
            None => {
                assert(head =~= "graph "@ + shape.graph@);
            },
        }
    }
    text::string_of(out.as_slice())
}

impl Shape {
    /// The graph as a picture.
    pub fn picture(&self) -> (r: String)
        requires
            shape_drawn(self.nodes@),
            self.nodes@.len() < usize::MAX,
        ensures
            r@ == picture(self.graph@, self.nodes@, None),
    {
        render(self, None)
    }
}

impl<'a> Under<'a> {
    /// The graph as a picture, each node read as live or dark.
    pub fn picture(&self) -> (r: String)
        requires
            self.wf(),
            shape_drawn(self.shape.nodes@),
            shape_gated(self.shape.nodes@),
            self.shape.nodes@.len() < usize::MAX,
        ensures
            r@ == picture(self.shape.graph@, self.shape.nodes@, Some(self.state@)),
    {
        render(self.shape, Some(self))
    }
}

/// What is left of some lanes is their first few, up to the last held.
pub(crate) proof fn lemma_held(lanes: Seq<Option<usize>>)
    ensures
        held(lanes).len() <= lanes.len(),
        held(lanes) == lanes.take(held(lanes).len() as int),
        forall|c: int| held(lanes).len() <= c < lanes.len() ==> #[trigger] lanes[c] is None,
    decreases lanes.len(),
{
    if lanes.len() > 0 && lanes.last() is None {
        lemma_held(lanes.drop_last());
        let n = held(lanes).len() as int;
        assert(lanes.drop_last().take(n) =~= lanes.take(n));
        assert forall|c: int| n <= c < lanes.len() implies #[trigger] lanes[c] is None by {
            if c < lanes.len() - 1 {
                assert(lanes.drop_last()[c] == lanes[c]);
            }
        }
    } else {
        assert(lanes.take(lanes.len() as int) =~= lanes);
    }
}

/// The first free lane is free.
pub(crate) proof fn lemma_free(lanes: Seq<Option<usize>>)
    ensures
        0 <= free_lane(lanes) <= lanes.len(),
        free_lane(lanes) < lanes.len() ==> lanes[free_lane(lanes)] is None,
    decreases lanes.len(),
{
    if lanes.len() > 0 && lanes[0] is Some {
        lemma_free(lanes.drop_first());
    }
}

/// A producer holds a lane from when it is drawn until its last reader, and no two share one: every
/// lane open at node `i` carries an earlier node, no node is in two lanes, and every earlier node
/// that `i` or a later one still reads is in one.
pub proof fn a_producer_holds_its_lane(ns: Seq<NodeShape>, i: int)
    requires
        0 <= i <= ns.len() <= usize::MAX,
    ensures
        forall|c: int|
            0 <= c < lanes_before(ns, i).len() && #[trigger] lanes_before(ns, i)[c] is Some
                ==> lanes_before(ns, i)[c]->0 < i,
        forall|a: int, b: int|
            0 <= a < b < lanes_before(ns, i).len() && #[trigger] lanes_before(ns, i)[a] is Some
                ==> lanes_before(ns, i)[a] != #[trigger] lanes_before(ns, i)[b],
        forall|t: usize|
            t < i && #[trigger] read_after(ns, t, i - 1) ==> lanes_before(ns, i).contains(Some(t)),
    decreases i,
{
    if i > 0 {
        a_producer_holds_its_lane(ns, i - 1);
        let pre = lanes_before(ns, i - 1);
        let rel = released(ns, pre, i - 1);
        let open = held(rel);
        let now = lanes_before(ns, i);
        lemma_held(rel);
        lemma_free(open);
        let f = free_lane(open);
        let me = (i - 1) as usize;
        assert forall|c: int| 0 <= c < open.len() implies open[c] == rel[c] by {}
        assert forall|c: int| 0 <= c < open.len() && #[trigger] open[c] is Some implies open[c]
            == pre[c] && open[c]->0 < i - 1 by {
            assert(rel[c] == open[c]);
        }
        assert forall|t: usize| t < i && #[trigger] read_after(ns, t, i - 1) implies now.contains(
            Some(t),
        ) by {
            if t == me {
                assert(now[f] == Some(me));
            } else {
                let j = choose|j: int| i - 1 < j < ns.len() && reads(#[trigger] ns[j], t);
                assert(i - 2 < j < ns.len() && reads(ns[j], t));
                assert(read_after(ns, t, i - 2));
                let c = choose|c: int| 0 <= c < pre.len() && pre[c] == Some(t);
                assert(rel[c] == Some(t));
                assert(open[c] == Some(t));
                assert(now[c] == Some(t));
            }
        }
        assert forall|a: int, b: int|
            0 <= a < b < now.len() && #[trigger] now[a] is Some implies now[a] != #[trigger] now[b] by {
            if a < open.len() && a != f && b < open.len() && b != f {
                assert(open[a] == now[a] && open[b] == now[b]);
                if now[b] is Some {
                    assert(pre[a] == open[a] && pre[b] == open[b]);
                }
            } else if now[b] is Some && read_after(ns, me, i - 1) {
                if a == f {
                    assert(open[b] == now[b]);
                } else {
                    assert(open[a] == now[a]);
                }
            }
        }
    }
}

/// The annotations line up down the page: two annotated lines whose bytes outnumber their characters
/// equally start their annotations in one column.
pub proof fn annotations_of_one_surplus_line_up(ls: Seq<Line>, i: int, j: int)
    requires
        0 <= i < ls.len(),
        0 <= j < ls.len(),
        ls[i].right is Some,
        ls[j].right is Some,
        surplus(ls[i].left) == surplus(ls[j].left),
    ensures
        padded(ls[i].left, page_width(ls)).len() == padded(ls[j].left, page_width(ls)).len(),
{
    lemma_page_width(ls, i);
    lemma_page_width(ls, j);
    lemma_surplus(ls[i].left);
    lemma_blanks(page_width(ls) - ls[i].left.len() + surplus(ls[i].left));
    lemma_blanks(page_width(ls) - ls[j].left.len() + surplus(ls[j].left));
}

proof fn lemma_page_width(ls: Seq<Line>, i: int)
    requires
        0 <= i < ls.len(),
        ls[i].right is Some,
    ensures
        page_width(ls) >= ls[i].left.len(),
    decreases ls.len(),
{
    if i < ls.len() - 1 {
        assert(ls.drop_last()[i] == ls[i]);
        lemma_page_width(ls.drop_last(), i);
    }
}

proof fn lemma_blanks(n: int)
    requires
        n >= 0,
    ensures
        blanks(n).len() == n,
    decreases n,
{
    if n > 0 {
        lemma_blanks(n - 1);
    }
}

} // verus!
