//! What a graph answers under an assignment of its gates, told by the assignment itself: which gates it
//! shuts, and which it opens.

use vstd::prelude::*;

use crate::shape::{
    first_colons, gate_names, is_open, last_segment, name_end, runs, stated, states_gates, trimmed, Kind,
    NodeShape,
};

verus! {

/// Whether an assignment says of a gate that it is shut, or that it is open.
pub open spec fn says(
    ns: Seq<NodeShape>,
    state: Seq<(&'static str, bool)>,
    gate: usize,
    open: bool,
) -> bool {
    exists|j: int|
        0 <= j < state.len() && (#[trigger] state[j]).0@ == trimmed(ns[gate as int].name@)
            && state[j].1 == open
}

/// Whether one way of asking for a node names a gate that an assignment shuts.
pub open spec fn refused(
    ns: Seq<NodeShape>,
    state: Seq<(&'static str, bool)>,
    conj: Seq<usize>,
) -> bool {
    exists|g: int| 0 <= g < conj.len() && says(ns, state, #[trigger] conj[g], false)
}

/// An assignment with one of its gates stated otherwise.
pub open spec fn restated(
    state: Seq<(&'static str, bool)>,
    j: int,
    open: bool,
) -> Seq<(&'static str, bool)> {
    state.update(j, (state[j].0, open))
}

/// What an assignment shuts is not open.
proof fn lemma_said(
    ns: Seq<NodeShape>,
    state: Seq<(&'static str, bool)>,
    gate: usize,
)
    requires
        stated(state).no_duplicates(),
    ensures
        says(ns, state, gate, true) <==> is_open(state, ns[gate as int].name@),
        says(ns, state, gate, false) ==> !is_open(state, ns[gate as int].name@),
{
    let name = trimmed(ns[gate as int].name@);
    if says(ns, state, gate, false) && is_open(state, ns[gate as int].name@) {
        let j = choose|j: int| 0 <= j < state.len() && (#[trigger] state[j]).0@ == name && state[j].1 == false;
        let i = choose|i: int| 0 <= i < state.len() && (#[trigger] state[i]).0@ == name && state[i].1;
        assert(stated(state)[i] == stated(state)[j]);
    }
}

/// What says something of a gate goes on saying it where only what is said of another changes, and
/// where a gate is opened nothing that was open shuts.
proof fn lemma_restated(
    ns: Seq<NodeShape>,
    state: Seq<(&'static str, bool)>,
    j: int,
    open: bool,
)
    requires
        states_gates(ns, state),
        0 <= j < state.len(),
    ensures
        states_gates(ns, restated(state, j, open)),
        open ==> forall|g: usize|
            says(ns, state, g, true) ==> #[trigger] says(ns, restated(state, j, open), g, true),
{
    let after = restated(state, j, open);
    assert(stated(after) =~= stated(state));
    if open {
        assert forall|g: usize| says(ns, state, g, true) implies #[trigger] says(ns, after, g, true) by {
            let i = choose|i: int|
                0 <= i < state.len() && (#[trigger] state[i]).0@ == trimmed(ns[g as int].name@)
                    && state[i].1 == true;
            assert(after[i].0@ == state[i].0@);
            assert(after[i].1);
        }
    }
}

/// A node goes dark where each way of asking for it names a gate that is shut: one open gate of
/// several does not ask for it.
pub proof fn what_nothing_asks_for_goes_dark(
    ns: Seq<NodeShape>,
    state: Seq<(&'static str, bool)>,
    n: NodeShape,
)
    requires
        states_gates(ns, state),
        n.kind != Kind::Root,
        n.rewarms,
        forall|a: int| 0 <= a < n.demand@.len() ==> refused(ns, state, #[trigger] n.demand@[a]@),
    ensures
        !runs(ns, state, n),
{
    assert forall|a: int| 0 <= a < n.demand@.len() implies !crate::shape::conjunct_open(
        ns,
        state,
        #[trigger] n.demand@[a]@,
    ) by {
        let conj = n.demand@[a]@;
        assert(refused(ns, state, conj));
        let g = choose|g: int| 0 <= g < conj.len() && says(ns, state, #[trigger] conj[g], false);
        lemma_said(ns, state, conj[g]);
        assert(!is_open(state, ns[conj[g] as int].name@));
    }
}

/// Shutting one gate of the only way a node is asked for darkens it, whatever the other gates say.
pub proof fn one_shut_gate_darkens_what_it_stands_before(
    ns: Seq<NodeShape>,
    state: Seq<(&'static str, bool)>,
    n: NodeShape,
    g: int,
    j: int,
)
    requires
        states_gates(ns, state),
        n.kind != Kind::Root,
        n.rewarms,
        n.demand@.len() == 1,
        0 <= g < n.demand@[0]@.len(),
        0 <= j < state.len(),
        state[j].0@ == trimmed(ns[n.demand@[0]@[g] as int].name@),
    ensures
        states_gates(ns, restated(state, j, false)),
        !runs(ns, restated(state, j, false), n),
{
    let after = restated(state, j, false);
    lemma_restated(ns, state, j, false);
    assert(after[j].0@ == state[j].0@);
    assert(says(ns, after, n.demand@[0]@[g], false));
    assert(refused(ns, after, n.demand@[0]@));
    what_nothing_asks_for_goes_dark(ns, after, n);
}

/// A node that reads a shut gate for permission is dark, whatever asks for it.
pub proof fn a_node_s_own_shut_gate_darkens_it(
    ns: Seq<NodeShape>,
    state: Seq<(&'static str, bool)>,
    n: NodeShape,
    k: int,
)
    requires
        states_gates(ns, state),
        n.kind != Kind::Root,
        0 <= k < n.deps@.len(),
        n.dep_gates@[k],
        says(ns, state, n.deps@[k], false),
    ensures
        !runs(ns, state, n),
{
    lemma_said(ns, state, n.deps@[k]);
}

/// A node whose own gates are open runs where one way of asking for it names only open gates; one that
/// names none is always open.
pub proof fn what_is_asked_for_runs(
    ns: Seq<NodeShape>,
    state: Seq<(&'static str, bool)>,
    n: NodeShape,
    a: int,
)
    requires
        states_gates(ns, state),
        0 <= a < n.demand@.len(),
        forall|g: int|
            0 <= g < n.demand@[a]@.len() ==> says(ns, state, #[trigger] n.demand@[a]@[g], true),
        forall|k: int|
            0 <= k < n.deps@.len() && #[trigger] n.dep_gates@[k] ==> says(ns, state, n.deps@[k], true),
    ensures
        runs(ns, state, n),
{
    let conj = n.demand@[a]@;
    assert forall|g: int| 0 <= g < conj.len() implies is_open(
        state,
        ns[#[trigger] conj[g] as int].name@,
    ) by {
        assert(says(ns, state, n.demand@[a]@[g], true));
        lemma_said(ns, state, conj[g]);
    }
    assert(crate::shape::conjunct_open(ns, state, n.demand@[a]@));
    assert forall|k: int| 0 <= k < n.deps@.len() && #[trigger] n.dep_gates@[k] implies is_open(
        state,
        ns[n.deps@[k] as int].name@,
    ) by {
        lemma_said(ns, state, n.deps@[k]);
    }
}

/// A latch in what asks for a node keeps it awake where a tick it lost could not be rebuilt: such a
/// node runs wherever its own gates are open, and one that can be rebuilt sleeps behind the latch as
/// behind any gate.
pub proof fn a_latch_darkens_only_what_rewarms(
    ns: Seq<NodeShape>,
    state: Seq<(&'static str, bool)>,
    n: NodeShape,
    a: int,
    g: int,
)
    requires
        states_gates(ns, state),
        n.kind != Kind::Root,
        0 <= a < n.demand@.len(),
        0 <= g < n.demand@[a]@.len(),
        ns[n.demand@[a]@[g] as int].kind == Kind::Latch,
        forall|k: int|
            0 <= k < n.deps@.len() && #[trigger] n.dep_gates@[k] ==> says(ns, state, n.deps@[k], true),
    ensures
        !n.rewarms ==> runs(ns, state, n),
        n.rewarms && (forall|b: int|
            0 <= b < n.demand@.len() ==> refused(ns, state, #[trigger] n.demand@[b]@)) ==> !runs(
            ns,
            state,
            n,
        ),
{
    assert(ns[n.demand@[a]@[g] as int].kind is Latch);
    assert forall|k: int| 0 <= k < n.deps@.len() && #[trigger] n.dep_gates@[k] implies is_open(
        state,
        ns[n.deps@[k] as int].name@,
    ) by {
        lemma_said(ns, state, n.deps@[k]);
    }
    if n.rewarms && (forall|b: int|
        0 <= b < n.demand@.len() ==> refused(ns, state, #[trigger] n.demand@[b]@)) {
        what_nothing_asks_for_goes_dark(ns, state, n);
    }
}

/// What no latch and no gate has a say in: a root always runs, and a node that nothing asks for never
/// does.
pub proof fn a_root_runs_and_an_unread_node_does_not(
    ns: Seq<NodeShape>,
    state: Seq<(&'static str, bool)>,
    n: NodeShape,
)
    ensures
        n.kind == Kind::Root ==> runs(ns, state, n),
        n.kind != Kind::Root && n.demand@.len() == 0 ==> !runs(ns, state, n),
{
}

/// Opening a gate darkens nothing, and shutting one wakes nothing.
pub proof fn opening_a_gate_darkens_nothing(
    ns: Seq<NodeShape>,
    state: Seq<(&'static str, bool)>,
    n: NodeShape,
    j: int,
)
    requires
        states_gates(ns, state),
        0 <= j < state.len(),
    ensures
        runs(ns, state, n) ==> runs(ns, restated(state, j, true), n),
        runs(ns, restated(state, j, false), n) ==> runs(ns, state, n),
{
    lemma_opening(ns, state, n, j);
    let shut = restated(state, j, false);
    lemma_restated(ns, state, j, false);
    if state[j].1 {
        lemma_opening(ns, shut, n, j);
        assert(restated(shut, j, true) =~= state);
    } else {
        assert(shut =~= state);
    }
}

proof fn lemma_opening(
    ns: Seq<NodeShape>,
    state: Seq<(&'static str, bool)>,
    n: NodeShape,
    j: int,
)
    requires
        states_gates(ns, state),
        0 <= j < state.len(),
    ensures
        runs(ns, state, n) ==> runs(ns, restated(state, j, true), n),
{
    let after = restated(state, j, true);
    lemma_restated(ns, state, j, true);
    assert forall|g: usize| is_open(state, #[trigger] ns[g as int].name@) implies is_open(
        after,
        ns[g as int].name@,
    ) by {
        lemma_said(ns, state, g);
        lemma_said(ns, after, g);
        assert(says(ns, after, g, true));
    }
    if crate::shape::demanded(ns, state, n) && !(!n.rewarms && crate::shape::latch_demands(ns, n)) {
        let a = choose|a: int|
            0 <= a < n.demand@.len() && crate::shape::conjunct_open(ns, state, #[trigger] n.demand@[a]@);
        assert(crate::shape::conjunct_open(ns, after, n.demand@[a]@));
    }
}

/// The gates an assignment has to name are the graph's gates and latches, in its own order, as the
/// picture spells them.
pub proof fn a_gate_is_named_and_nothing_else_is(ns: Seq<NodeShape>, n: NodeShape)
    ensures
        gate_names(Seq::empty()) == Seq::<Seq<char>>::empty(),
        n.kind == Kind::Gate || n.kind == Kind::Latch ==> gate_names(ns.push(n)) == gate_names(ns).push(
            trimmed(n.name@),
        ),
        n.kind != Kind::Gate && n.kind != Kind::Latch ==> gate_names(ns.push(n)) == gate_names(ns),
{
    assert(ns.push(n).drop_last() =~= ns);
}

/// Whether a text holds no path: nowhere do two colons stand side by side.
pub open spec fn holds_no_path(s: Seq<char>) -> bool {
    forall|i: int| 0 <= i && i + 1 < s.len() ==> !(#[trigger] s[i] == ':' && s[i + 1] == ':')
}

/// Whether a text is one name: nothing in it opens, ends or parts an argument list.
pub open spec fn is_one_name(s: Seq<char>) -> bool {
    forall|i: int|
        0 <= i < s.len() ==> !((#[trigger] s[i]) == '<' || s[i] == '>' || s[i] == ',' || s[i] == '('
            || s[i] == ')')
}

proof fn lemma_no_colons(s: Seq<char>)
    requires
        holds_no_path(s),
    ensures
        first_colons(s) == s.len(),
        last_segment(s) == s,
    decreases s.len(),
{
    if s.len() >= 2 {
        assert(!(s[0] == ':' && s[1] == ':'));
        let t = s.drop_first();
        assert forall|i: int| 0 <= i && i + 1 < t.len() implies !(#[trigger] t[i] == ':' && t[i + 1]
            == ':') by {
            assert(t[i] == s[i + 1]);
            assert(t[i + 1] == s[i + 2]);
        }
        lemma_no_colons(t);
    }
}

proof fn lemma_one_name(s: Seq<char>)
    requires
        is_one_name(s),
    ensures
        name_end(s) == s.len(),
        trimmed(s) == last_segment(s),
    decreases s.len(),
{
    if s.len() > 0 {
        let t = s.drop_first();
        assert forall|i: int| 0 <= i < t.len() implies !((#[trigger] t[i]) == '<' || t[i] == '>' || t[i]
            == ',' || t[i] == '(' || t[i] == ')') by {
            assert(t[i] == s[i + 1]);
        }
        assert(s[0] == s[0]);
        lemma_one_name(t);
    }
}

/// The first colons of a path whose first segments are `a`, and what is left behind them.
proof fn lemma_colons_after(a: Seq<char>, b: Seq<char>)
    requires
        a.len() > 0 ==> a.last() != ':',
        holds_no_path(b),
    ensures
        last_segment(a + seq![':', ':'] + b) == b,
    decreases a.len(),
{
    let s = a + seq![':', ':'] + b;
    let k = first_colons(s);
    lemma_first(a, b);
    let rest = s.subrange(k + 2, s.len() as int);
    if k == a.len() {
        assert(rest =~= b);
        lemma_no_colons(b);
    } else {
        let c = a.subrange(k + 2, a.len() as int);
        assert(rest =~= c + seq![':', ':'] + b);
        lemma_colons_after(c, b);
    }
}

/// The first colons of such a path stand inside of `a`, with something behind them, or at its end.
proof fn lemma_first(a: Seq<char>, b: Seq<char>)
    requires
        a.len() > 0 ==> a.last() != ':',
    ensures
        0 <= first_colons(a + seq![':', ':'] + b) <= a.len(),
        first_colons(a + seq![':', ':'] + b) < a.len() ==> first_colons(a + seq![':', ':'] + b) + 2
            < a.len(),
    decreases a.len(),
{
    let s = a + seq![':', ':'] + b;
    if a.len() == 0 {
        assert(s[0] == ':' && s[1] == ':');
    } else {
        assert(s[0] == a[0]);
        if s[0] == ':' && s[1] == ':' {
            assert(a.len() >= 2);
            assert(s[1] == a[1]);
        } else {
            let t = a.drop_first();
            assert(s.drop_first() =~= t + seq![':', ':'] + b);
            lemma_first(t, b);
        }
    }
}

/// A name without a path in it is spelled as it is.
pub proof fn a_plain_name_is_spelled_as_it_is(s: Seq<char>)
    requires
        holds_no_path(s),
        is_one_name(s),
    ensures
        trimmed(s) == s,
{
    lemma_one_name(s);
    lemma_no_colons(s);
}

/// A path is spelled by what stands behind its last pair of colons.
pub proof fn a_path_is_spelled_by_its_last_segment(path: Seq<char>, name: Seq<char>)
    requires
        path.len() > 0 ==> path.last() != ':',
        is_one_name(path),
        is_one_name(name),
        holds_no_path(name),
    ensures
        trimmed(path + seq![':', ':'] + name) == name,
{
    let s = path + seq![':', ':'] + name;
    assert(is_one_name(s)) by {
        assert forall|i: int| 0 <= i < s.len() implies !((#[trigger] s[i]) == '<' || s[i] == '>' || s[i]
            == ',' || s[i] == '(' || s[i] == ')') by {
            if i < path.len() {
                assert(s[i] == path[i]);
            } else if i >= path.len() + 2 {
                assert(s[i] == name[i - path.len() - 2]);
            }
        }
    }
    lemma_one_name(s);
    lemma_colons_after(path, name);
}

/// What opens, ends or parts an argument list stays where it is, and what stands on either side of it
/// is spelled as if it stood alone.
pub proof fn an_argument_is_spelled_like_a_name(s: Seq<char>, c: char, t: Seq<char>)
    requires
        c == '<' || c == '>' || c == ',' || c == '(' || c == ')',
    ensures
        trimmed(s.push(c) + t) == trimmed(s).push(c) + trimmed(t),
    decreases s.len(),
{
    let whole = s.push(c) + t;
    lemma_end_within(s, c, t);
    let k = name_end(whole);
    if k == s.len() {
        assert(whole.subrange(0, k) =~= s);
        assert(whole.subrange(k + 1, whole.len() as int) =~= t);
        assert(whole[k] == c);
        assert(trimmed(s) == last_segment(s));
    } else {
        let rest = s.subrange(k + 1, s.len() as int);
        assert(whole.subrange(0, k) =~= s.subrange(0, k));
        assert(whole.subrange(k + 1, whole.len() as int) =~= rest.push(c) + t);
        an_argument_is_spelled_like_a_name(rest, c, t);
        assert(whole[k] == s[k]);
        assert(trimmed(whole) =~= trimmed(s).push(c) + trimmed(t));
    }
}

proof fn lemma_end_within(s: Seq<char>, c: char, t: Seq<char>)
    requires
        c == '<' || c == '>' || c == ',' || c == '(' || c == ')',
    ensures
        0 <= name_end(s) <= s.len(),
        name_end(s.push(c) + t) == name_end(s),
    decreases s.len(),
{
    let whole = s.push(c) + t;
    if s.len() == 0 {
        assert(whole[0] == c);
    } else {
        assert(whole[0] == s[0]);
        assert(whole.drop_first() =~= s.drop_first().push(c) + t);
        lemma_end_within(s.drop_first(), c, t);
    }
}

} // verus!
