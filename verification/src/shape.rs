//! A graph as a value it can be asked about: its sweep order, the kind of each edge and the demand
//! on each node.
//!
//! [`under`](Shape::under) is the half a running graph cannot give: a gate assignment is a
//! hypothetical, so who goes dark under one is the graph's own answer rather than a feed's.

use vstd::prelude::*;

use crate::horizon::{Horizon, Timeframe};
use crate::tag::{horizon_text, push_timeframe, timeframe_text};
use crate::text;

verus! {

/// How much of what a node's body read the kernel's *fullest* reading covers. Three answers rather
/// than two, because the middle one is the case nothing else can show: a derivative may be algebraic
/// and still be narrower than the reading it was taken from, and a partial derivative of a body that
/// reads a window looks exactly like an exact one of a body that reads a point.
#[derive(Clone, Copy, Debug)]
pub enum Fidelity {
    /// Every element the body read is covered.
    Exact,
    /// Algebraic, but narrower than the body's reach: the string says what it omits.
    Partial(&'static str),
    /// No algebra at all: the string says why.
    Opaque(&'static str),
}

/// What a node *is* to the sweep. A root is no node of it at all: it is prepended so that every edge
/// has somewhere to point.
#[derive(Clone, Copy, Debug, Eq, PartialEq, Structural)]
pub enum Kind {
    Root,
    Node,
    Emit,
    Gate,
    Latch,
    /// The retention written beside a series some consumer reads back over.
    Buffer,
    /// The level written beside a series some consumer samples.
    Latest,
}

impl Kind {
    /// What it is called.
    pub open spec fn name(self) -> Seq<char> {
        match self {
            Kind::Root => "root"@,
            Kind::Node => "node"@,
            Kind::Emit => "emit"@,
            Kind::Gate => "gate"@,
            Kind::Latch => "latch"@,
            Kind::Buffer => "buffer"@,
            Kind::Latest => "latest"@,
        }
    }

    pub fn word(self) -> (r: &'static str)
        ensures
            r@ == self.name(),
    {
        match self {
            Kind::Root => "root",
            Kind::Node => "node",
            Kind::Emit => "emit",
            Kind::Gate => "gate",
            Kind::Latch => "latch",
            Kind::Buffer => "buffer",
            Kind::Latest => "latest",
        }
    }

    /// Whether an assignment of gates has to name it.
    pub open spec fn gates(self) -> bool {
        self is Gate || self is Latch
    }
}

/// Why a node is never suppressed: kept apart rather than collapsed to a flag, so a render says
/// which reason held rather than only that one did.
#[derive(Clone, Copy, Debug, Eq, PartialEq, Structural)]
pub enum Pin {
    /// Nothing does: it sleeps where nothing demands it.
    Free,
    /// It folds a reach of its own, which a skipped tick cannot re-warm.
    Fold,
    /// It is retention the frame must keep hole-free.
    Retention,
    Latch,
    /// It is what *decides* demand, so nothing conditions it.
    Gate,
    /// Somebody reads it out of the graph.
    Output,
}

impl Pin {
    /// The reason, where there is one.
    pub open spec fn why(self) -> Option<Seq<char>> {
        match self {
            Pin::Free => None,
            Pin::Fold => Some("fold"@),
            Pin::Retention => Some("retention"@),
            Pin::Latch => Some("latch"@),
            Pin::Gate => Some("gate"@),
            Pin::Output => Some("output"@),
        }
    }

    pub fn reason(self) -> (r: Option<&'static str>)
        ensures
            r is Some <==> self.why() is Some,
            r matches Some(s) ==> self.why() == Some(s@),
    {
        match self {
            Pin::Free => None,
            Pin::Fold => Some("fold"),
            Pin::Retention => Some("retention"),
            Pin::Latch => Some("latch"),
            Pin::Gate => Some("gate"),
            Pin::Output => Some("output"),
        }
    }
}

/// One node of [`Shape::nodes`]. Every per-dep field is positional with `deps`.
pub struct NodeShape {
    pub name: &'static str,
    pub kind: Kind,
    pub clock: Option<Timeframe>,
    pub fidelity: Fidelity,
    pub anchored: bool,
    pub rewarms: bool,
    pub pin: Pin,
    /// Whether a sleep of this node is one only a rewinding past makes sound.
    pub rewinds: bool,
    /// The `roots`/`outputs` field name, where this node is one.
    pub field: Option<&'static str>,
    /// The index in [`Shape::nodes`] each dep resolves against.
    pub deps: &'static [usize],
    pub dep_gates: &'static [bool],
    pub dep_folds: &'static [bool],
    pub dep_retains: &'static [bool],
    pub dep_reach: &'static [Horizon],
    /// A disjunction of conjuncts over [`Shape::nodes`] indices: the condition under which anything
    /// reads this node. An empty conjunct is always true.
    pub demand: &'static [&'static [usize]],
}

pub struct Shape {
    pub graph: &'static str,
    /// Roots first, then sweep order, so every [`NodeShape::deps`] index is total and every edge
    /// points backwards.
    pub nodes: &'static [NodeShape],
}

/// Whether `c` ends a name.
pub open spec fn ends_name(c: char) -> bool {
    c == '<' || c == '>' || c == ',' || c == '(' || c == ')'
}

/// Where the first `::` of a path stands, or its length.
pub open spec fn first_colons(s: Seq<char>) -> int
    decreases s.len(),
{
    if s.len() < 2 {
        s.len() as int
    } else if s[0] == ':' && s[1] == ':' {
        0
    } else {
        1 + first_colons(s.drop_first())
    }
}

/// The last segment of a path.
pub open spec fn last_segment(s: Seq<char>) -> Seq<char>
    decreases s.len(),
{
    let k = first_colons(s);
    if 0 <= k && k + 2 <= s.len() {
        last_segment(s.subrange(k + 2, s.len() as int))
    } else {
        s
    }
}

/// Where the first name in `s` ends.
pub open spec fn name_end(s: Seq<char>) -> int
    decreases s.len(),
{
    if s.len() == 0 || ends_name(s[0]) {
        0
    } else {
        1 + name_end(s.drop_first())
    }
}

/// A name with every path in it cut to its last segment: only the last segment names a type, and a
/// generic argument is a name in its own right.
pub open spec fn trimmed(s: Seq<char>) -> Seq<char>
    decreases s.len(),
{
    let k = name_end(s);
    if 0 <= k < s.len() {
        last_segment(s.subrange(0, k)).push(s[k]) + trimmed(s.subrange(k + 1, s.len() as int))
    } else {
        last_segment(s)
    }
}

/// No pair of colons before `k`, and one at `k` if there is room for one.
proof fn lemma_first_colons(s: Seq<char>, k: int)
    requires
        0 <= k <= s.len(),
        forall|j: int| 0 <= j < k && j + 1 < s.len() ==> !(#[trigger] s[j] == ':' && s[j + 1] == ':'),
        k + 1 < s.len() ==> s[k] == ':' && s[k + 1] == ':',
    ensures
        k + 1 < s.len() ==> first_colons(s) == k,
        k + 1 >= s.len() ==> first_colons(s) == s.len(),
    decreases s.len(),
{
    if s.len() >= 2 && k > 0 {
        let t = s.drop_first();
        assert(!(s[0] == ':' && s[1] == ':'));
        assert forall|j: int| 0 <= j < k - 1 && j + 1 < t.len() implies !(#[trigger] t[j] == ':'
            && t[j + 1] == ':') by {
            assert(t[j] == s[j + 1]);
        }
        lemma_first_colons(t, k - 1);
    }
}

/// The first name ends where nothing before ends it.
proof fn lemma_name_end(s: Seq<char>, k: int)
    requires
        0 <= k <= s.len(),
        forall|j: int| 0 <= j < k ==> !ends_name(#[trigger] s[j]),
        k < s.len() ==> ends_name(s[k]),
    ensures
        name_end(s) == k,
    decreases s.len(),
{
    if s.len() > 0 && k > 0 {
        assert(!ends_name(s[0]));
        let t = s.drop_first();
        assert forall|j: int| 0 <= j < k - 1 implies !ends_name(#[trigger] t[j]) by {
            assert(t[j] == s[j + 1]);
        }
        lemma_name_end(t, k - 1);
    }
}

/// Where the last segment of a path starts.
fn segment_start(s: &[char], from: usize, to: usize) -> (seg: usize)
    requires
        from <= to <= s@.len(),
    ensures
        from <= seg <= to,
        last_segment(s@.subrange(from as int, to as int)) == s@.subrange(seg as int, to as int),
{
    let mut seg: usize = from;
    let mut i: usize = from;
    while i < to && i + 1 < to
        invariant
            from <= seg <= i <= to <= s@.len(),
            last_segment(s@.subrange(from as int, to as int)) == last_segment(
                s@.subrange(seg as int, to as int),
            ),
            forall|j: int|
                seg <= j < i && j + 1 < to ==> !(#[trigger] s@[j] == ':' && s@[j + 1] == ':'),
        decreases to - i,
    {
        if s[i] == ':' && s[i + 1] == ':' {
            proof {
                let path = s@.subrange(seg as int, to as int);
                assert forall|j: int| 0 <= j < i - seg && j + 1 < path.len() implies !(
                #[trigger] path[j] == ':' && path[j + 1] == ':') by {
                    assert(path[j] == s@[j + seg]);
                    assert(path[j + 1] == s@[j + seg + 1]);
                }
                lemma_first_colons(path, i - seg);
                assert(path.subrange(i - seg + 2, path.len() as int) =~= s@.subrange(
                    i + 2,
                    to as int,
                ));
            }
            i += 2;
            seg = i;
        } else {
            i += 1;
        }
    }
    proof {
        let path = s@.subrange(seg as int, to as int);
        assert forall|j: int| 0 <= j < path.len() && j + 1 < path.len() implies !(#[trigger] path[j]
            == ':' && path[j + 1] == ':') by {
            assert(path[j] == s@[j + seg]);
            assert(path[j + 1] == s@[j + seg + 1]);
        }
        lemma_first_colons(path, path.len() as int);
    }
    seg
}

/// A name with every path in it cut to its last segment. A name that holds no path falls through
/// unchanged.
pub fn trim(name: &str) -> (r: Vec<char>)
    ensures
        r@ == trimmed(name@),
{
    let s: Vec<char> = text::chars_of(name);
    let mut out: Vec<char> = Vec::new();
    let mut from: usize = 0;
    let mut i: usize = 0;
    assert(s@.subrange(0, s@.len() as int) =~= s@);
    while i < s.len()
        invariant
            s@ == name@,
            from <= i <= s@.len(),
            forall|j: int| from <= j < i ==> !ends_name(#[trigger] s@[j]),
            out@ + trimmed(s@.subrange(from as int, s@.len() as int)) == trimmed(name@),
        decreases s@.len() - i,
    {
        let c: char = s[i];
        if c == '<' || c == '>' || c == ',' || c == '(' || c == ')' {
            let seg: usize = segment_start(s.as_slice(), from, i);
            proof {
                let rest = s@.subrange(from as int, s@.len() as int);
                assert forall|j: int| 0 <= j < i - from implies !ends_name(#[trigger] rest[j]) by {
                    assert(rest[j] == s@[j + from]);
                }
                lemma_name_end(rest, i - from);
                assert(rest.subrange(0, i - from) =~= s@.subrange(from as int, i as int));
                assert(rest.subrange(i - from + 1, rest.len() as int) =~= s@.subrange(
                    i + 1,
                    s@.len() as int,
                ));
            }
            let ghost before = out@;
            text::push_all(&mut out, text::slice(s.as_slice(), seg, i));
            out.push(c);
            i += 1;
            from = i;
            assert(out@ =~= before + s@.subrange(seg as int, i - 1).push(c));
            assert(out@ + trimmed(s@.subrange(from as int, s@.len() as int)) =~= before + (
            s@.subrange(seg as int, i - 1).push(c) + trimmed(
                s@.subrange(from as int, s@.len() as int),
            )));
        } else {
            i += 1;
        }
    }
    let seg: usize = segment_start(s.as_slice(), from, s.len());
    proof {
        let rest = s@.subrange(from as int, s@.len() as int);
        assert forall|j: int| 0 <= j < rest.len() implies !ends_name(#[trigger] rest[j]) by {
            assert(rest[j] == s@[j + from]);
        }
        lemma_name_end(rest, rest.len() as int);
    }
    text::push_all(&mut out, text::slice(s.as_slice(), seg, s.len()));
    out
}

/// Whether a run of characters is a text.
pub fn spells(v: &[char], s: &str) -> (r: bool)
    ensures
        r == (v@ == s@),
{
    let w: Vec<char> = text::chars_of(s);
    if v.len() != w.len() {
        return false;
    }
    let mut i: usize = 0;
    while i < v.len()
        invariant
            i <= v@.len(),
            v@.len() == w@.len(),
            w@ == s@,
            forall|j: int| 0 <= j < i ==> v@[j] == w@[j],
        decreases v@.len() - i,
    {
        if v[i] != w[i] {
            return false;
        }
        i += 1;
    }
    assert(v@ =~= w@);
    true
}

/// The names of the gates and latches among some nodes, as a picture spells them.
pub open spec fn gate_names(ns: Seq<NodeShape>) -> Seq<Seq<char>>
    decreases ns.len(),
{
    if ns.len() == 0 {
        Seq::empty()
    } else if ns.last().kind.gates() {
        gate_names(ns.drop_last()).push(trimmed(ns.last().name@))
    } else {
        gate_names(ns.drop_last())
    }
}

/// The names an assignment states.
pub open spec fn stated(state: Seq<(&'static str, bool)>) -> Seq<Seq<char>> {
    state.map_values(|s: (&'static str, bool)| s.0@)
}

/// Whether an assignment names exactly a graph's gates, each once.
pub open spec fn states_gates(ns: Seq<NodeShape>, state: Seq<(&'static str, bool)>) -> bool {
    &&& stated(state).no_duplicates()
    &&& stated(state).to_multiset() == gate_names(ns).to_multiset()
}

/// Whether a gate stands open in an assignment.
pub open spec fn is_open(state: Seq<(&'static str, bool)>, name: Seq<char>) -> bool {
    exists|i: int| 0 <= i < state.len() && (#[trigger] state[i]).0@ == trimmed(name) && state[i].1
}

/// Whether every gate a node depends on stands open.
pub open spec fn own_open(
    ns: Seq<NodeShape>,
    state: Seq<(&'static str, bool)>,
    n: NodeShape,
) -> bool {
    forall|k: int|
        0 <= k < n.deps@.len() && #[trigger] n.dep_gates@[k] ==> is_open(
            state,
            ns[n.deps@[k] as int].name@,
        )
}

/// Whether every gate of a conjunct stands open.
pub open spec fn conjunct_open(
    ns: Seq<NodeShape>,
    state: Seq<(&'static str, bool)>,
    conj: Seq<usize>,
) -> bool {
    forall|g: int| 0 <= g < conj.len() ==> is_open(state, ns[#[trigger] conj[g] as int].name@)
}

/// Whether a latch stands in the demand on a node.
pub open spec fn latch_demands(ns: Seq<NodeShape>, n: NodeShape) -> bool {
    exists|a: int, g: int|
        0 <= a < n.demand@.len() && 0 <= g < n.demand@[a]@.len() && ns[#[trigger] n.demand@[a]@[g] as int].kind is Latch
}

/// Whether something demands a node. A latch is read a tick ahead of the consumer it arms, so it
/// only darkens what says a lost tick is one a later tick rebuilds.
pub open spec fn demanded(
    ns: Seq<NodeShape>,
    state: Seq<(&'static str, bool)>,
    n: NodeShape,
) -> bool {
    ||| !n.rewarms && latch_demands(ns, n)
    ||| exists|a: int|
        0 <= a < n.demand@.len() && conjunct_open(ns, state, #[trigger] n.demand@[a]@)
}

/// Whether a node runs under an assignment: something demands it, and its own gates are open.
pub open spec fn runs(ns: Seq<NodeShape>, state: Seq<(&'static str, bool)>, n: NodeShape) -> bool {
    n.kind is Root || (demanded(ns, state, n) && own_open(ns, state, n))
}

/// Whether the reach of the `k`-th dep is spelled out beside the node.
pub open spec fn spells_reach(ns: Seq<NodeShape>, n: NodeShape, k: int) -> bool {
    !n.dep_gates@[k] && (n.dep_folds@[k] || (n.dep_retains@[k] && ns[n.deps@[k] as int].kind
        is Buffer))
}

/// Whether a node says all that a picture shows of it: what each dep is as far as it is read, edges
/// that point backwards, and periods that have a length.
pub open spec fn node_drawn(ns: Seq<NodeShape>, i: int) -> bool {
    let n = ns[i];
    &&& n.dep_gates@.len() >= n.deps@.len()
    &&& forall|k: int| 0 <= k < n.deps@.len() ==> #[trigger] n.deps@[k] < i
    &&& forall|k: int|
        0 <= k < n.deps@.len() && !(#[trigger] n.dep_gates@[k]) ==> {
            &&& k < n.dep_folds@.len()
            &&& !n.dep_folds@[k] ==> k < n.dep_retains@.len()
            &&& spells_reach(ns, n, k) ==> k < n.dep_reach@.len() && (n.dep_reach@[k] matches
                Horizon::Over(tf) ==> tf.0 != 0)
        }
    &&& n.clock matches Some(tf) ==> tf.0 != 0
}

/// Whether a node names gates where it says that it does: among its deps, and in what demands it.
pub open spec fn node_gated(ns: Seq<NodeShape>, i: int) -> bool {
    let n = ns[i];
    &&& n.dep_gates@.len() >= n.deps@.len()
    &&& forall|k: int| 0 <= k < n.deps@.len() ==> #[trigger] n.deps@[k] < i
    &&& forall|k: int|
        0 <= k < n.deps@.len() && #[trigger] n.dep_gates@[k] ==> ns[n.deps@[k] as int].kind.gates()
    &&& forall|a: int, g: int|
        0 <= a < n.demand@.len() && 0 <= g < n.demand@[a]@.len() ==> #[trigger] n.demand@[a]@[g]
            < ns.len() && ns[n.demand@[a]@[g] as int].kind.gates()
}

/// Whether every node of a shape says what a picture shows of it.
pub open spec fn shape_drawn(ns: Seq<NodeShape>) -> bool {
    forall|i: int| 0 <= i < ns.len() ==> #[trigger] node_drawn(ns, i)
}

/// Whether every node of a shape names gates where it says so, which is what reading it under an
/// assignment of its gates takes.
pub open spec fn shape_gated(ns: Seq<NodeShape>) -> bool {
    forall|i: int| 0 <= i < ns.len() ==> #[trigger] node_gated(ns, i)
}

/// The texts of some strings.
pub open spec fn texts(v: Seq<String>) -> Seq<Seq<char>> {
    v.map_values(|s: String| s@)
}

/// A gate of a stated graph is in the assignment.
proof fn lemma_gate_stated(ns: Seq<NodeShape>, state: Seq<(&'static str, bool)>, g: int)
    requires
        states_gates(ns, state),
        0 <= g < ns.len(),
        ns[g].kind.gates(),
    ensures
        exists|i: int| 0 <= i < state.len() && (#[trigger] state[i]).0@ == trimmed(ns[g].name@),
{
    let name = trimmed(ns[g].name@);
    lemma_gate_named(ns, g);
    gate_names(ns).to_multiset_ensures();
    stated(state).to_multiset_ensures();
    assert(gate_names(ns).to_multiset().count(name) > 0);
    assert(stated(state).contains(name));
    let i = choose|i: int| 0 <= i < stated(state).len() && stated(state)[i] == name;
    assert(state[i].0@ == name);
}

/// Every gating node's name is among the gating names.
proof fn lemma_gate_named(ns: Seq<NodeShape>, g: int)
    requires
        0 <= g < ns.len(),
        ns[g].kind.gates(),
    ensures
        gate_names(ns).contains(trimmed(ns[g].name@)),
    decreases ns.len(),
{
    let name = trimmed(ns[g].name@);
    if g == ns.len() - 1 {
        let names = gate_names(ns);
        assert(names[names.len() - 1] == name);
    } else {
        let rest = ns.drop_last();
        assert(rest[g] == ns[g]);
        lemma_gate_named(rest, g);
        let k = choose|k: int| 0 <= k < gate_names(rest).len() && gate_names(rest)[k] == name;
        assert(gate_names(ns)[k] == name);
    }
}

impl Shape {
    /// Every gate and latch of this graph, spelled as the picture spells it, which is the whole of
    /// what [`under`](Shape::under) wants an assignment for.
    pub fn gates(&self) -> (r: Vec<String>)
        ensures
            texts(r@) == gate_names(self.nodes@),
    {
        let mut out: Vec<String> = Vec::new();
        let mut i: usize = 0;
        assert(texts(out@) =~= gate_names(self.nodes@.take(0)));
        while i < self.nodes.len()
            invariant
                i <= self.nodes@.len(),
                texts(out@) == gate_names(self.nodes@.take(i as int)),
            decreases self.nodes@.len() - i,
        {
            let n: &NodeShape = &self.nodes[i];
            assert(self.nodes@.take(i + 1).drop_last() =~= self.nodes@.take(i as int));
            match n.kind {
                Kind::Gate | Kind::Latch => {
                    let ghost before = out@;
                    let name: Vec<char> = trim(n.name);
                    out.push(text::string_of(name.as_slice()));
                    assert(texts(out@) =~= texts(before).push(name@));
                },
                _ => {},
            }
            i += 1;
        }
        assert(self.nodes@.take(self.nodes@.len() as int) =~= self.nodes@);
        out
    }

    /// Whether `state` names exactly the gating nodes, each of them once.
    pub fn accepts(&self, state: &[(&'static str, bool)]) -> (r: bool)
        ensures
            r == states_gates(self.nodes@, state@),
    {
        let gates: Vec<String> = self.gates();
        proof {
            stated(state@).to_multiset_ensures();
            gate_names(self.nodes@).to_multiset_ensures();
        }
        if gates.len() != state.len() {
            proof {
                assert(stated(state@).to_multiset().len() == state@.len());
                assert(gate_names(self.nodes@).to_multiset().len() == texts(gates@).len());
            }
            return false;
        }
        let mut i: usize = 0;
        while i < state.len()
            invariant
                i <= state@.len(),
                state@.len() == gates@.len(),
                texts(gates@) == gate_names(self.nodes@),
                forall|a: int, b: int|
                    0 <= a < b < i ==> (#[trigger] state@[a]).0@ != (#[trigger] state@[b]).0@,
                forall|a: int| 0 <= a < i ==> texts(gates@).contains((#[trigger] state@[a]).0@),
            decreases state@.len() - i,
        {
            let mut j: usize = 0;
            let here: Vec<char> = text::chars_of(state[i].0);
            while j < i
                invariant
                    j <= i < state@.len(),
                    here@ == state@[i as int].0@,
                    forall|a: int| 0 <= a < j ==> (#[trigger] state@[a]).0@ != here@,
                decreases i - j,
            {
                if spells(here.as_slice(), state[j].0) {
                    proof {
                        assert(stated(state@)[j as int] == stated(state@)[i as int]);
                    }
                    return false;
                }
                j += 1;
            }
            let mut k: usize = 0;
            let mut found: bool = false;
            while k < gates.len()
                invariant
                    k <= gates@.len(),
                    here@ == state@[i as int].0@,
                    found ==> texts(gates@).contains(here@),
                    !found ==> forall|a: int| 0 <= a < k ==> (#[trigger] gates@[a])@ != here@,
                decreases gates@.len() - k,
            {
                if spells(here.as_slice(), gates[k].as_str()) {
                    found = true;
                    assert(texts(gates@)[k as int] == here@);
                }
                k += 1;
            }
            if !found {
                proof {
                    assert(!texts(gates@).contains(here@)) by {
                        if texts(gates@).contains(here@) {
                            let a = choose|a: int|
                                0 <= a < texts(gates@).len() && texts(gates@)[a] == here@;
                            assert(gates@[a]@ == here@);
                        }
                    }
                    stated(state@).to_multiset_ensures();
                    texts(gates@).to_multiset_ensures();
                    assert(stated(state@)[i as int] == here@);
                    assert(stated(state@).contains(here@));
                    assert(stated(state@).to_multiset().count(here@) > 0);
                }
                return false;
            }
            i += 1;
        }
        proof {
            let names = stated(state@);
            let others = gate_names(self.nodes@);
            assert(names.no_duplicates());
            assert forall|n: Seq<char>| names.contains(n) implies others.contains(n) by {
                let a = choose|a: int| 0 <= a < names.len() && names[a] == n;
                assert(state@[a].0@ == n);
            }
            lemma_distinct_cover(names, others);
        }
        true
    }

    /// The same picture, with each node read as live or dark under `state`.
    ///
    /// `state` names exactly the gating nodes: a graph that grows one more has to break what pinned its
    /// shape, which is the whole reason to pin one.
    pub fn under<'a>(&'a self, state: &'a [(&'static str, bool)]) -> (r: Under<'a>)
        requires
            states_gates(self.nodes@, state@),
        ensures
            *r.shape == *self,
            r.state@ == state@,
            r.wf(),
    {
        Under { shape: self, state }
    }
}

/// Distinct elements that all occur among as many are all of them, once each.
proof fn lemma_distinct_cover<A>(a: Seq<A>, b: Seq<A>)
    requires
        a.no_duplicates(),
        a.len() == b.len(),
        forall|x: A| a.contains(x) ==> b.contains(x),
    ensures
        a.to_multiset() == b.to_multiset(),
    decreases a.len(),
{
    if a.len() == 0 {
        assert(a =~= b);
    } else {
        let x = a.last();
        assert(a.contains(a[a.len() - 1]));
        let k = choose|k: int| 0 <= k < b.len() && b[k] == x;
        let c = b.remove(k);
        let d = a.drop_last();
        assert forall|y: A| d.contains(y) implies c.contains(y) by {
            let i = choose|i: int| 0 <= i < d.len() && d[i] == y;
            assert(a[i] == y);
            assert(a.contains(y));
            let j = choose|j: int| 0 <= j < b.len() && b[j] == y;
            assert(y != x);
            if j < k {
                assert(c[j] == y);
            } else {
                assert(c[j - 1] == y);
            }
        }
        lemma_distinct_cover(d, c);
        a.to_multiset_ensures();
        b.to_multiset_ensures();
        d.to_multiset_ensures();
        assert(a.remove(a.len() - 1) =~= d);
        assert(b.to_multiset().remove(x) == c.to_multiset());
        assert(a.to_multiset().remove(x) == d.to_multiset());
        assert(a.to_multiset() =~= d.to_multiset().insert(x));
        assert(b.to_multiset() =~= c.to_multiset().insert(x));
    }
}

/// A [`Shape`] read under one assignment of its gates.
pub struct Under<'a> {
    pub shape: &'a Shape,
    pub state: &'a [(&'static str, bool)],
}

impl<'a> Under<'a> {
    /// Whether the assignment names exactly the gates of the graph.
    pub open spec fn wf(&self) -> bool {
        states_gates(self.shape.nodes@, self.state@)
    }

    fn open(&self, name: &str) -> (r: bool)
        requires
            self.wf(),
            exists|i: int|
                0 <= i < self.state@.len() && (#[trigger] self.state@[i]).0@ == trimmed(name@),
        ensures
            r == is_open(self.state@, name@),
    {
        let short: Vec<char> = trim(name);
        let mut i: usize = 0;
        while i < self.state.len()
            invariant
                i <= self.state@.len(),
                self.wf(),
                short@ == trimmed(name@),
                forall|j: int| 0 <= j < i ==> (#[trigger] self.state@[j]).0@ != short@,
            decreases self.state@.len() - i,
        {
            if spells(short.as_slice(), self.state[i].0) {
                proof {
                    assert forall|j: int| 0 <= j < self.state@.len() && (#[trigger] self.state@[j]).0@
                        == short@ implies j == i by {
                        assert(stated(self.state@)[j] == stated(self.state@)[i as int]);
                    }
                }
                return self.state[i].1;
            }
            i += 1;
        }
        false
    }

    /// Which nodes run: a node runs where something demands it *and* its own gates are open.
    ///
    /// An anchored node's sleep is taken as one a rewinding past pays for: that is the graph's own
    /// answer, where a driver that pins it awake is a particular driver's.
    pub fn live(&self) -> (r: Vec<bool>)
        requires
            self.wf(),
            shape_gated(self.shape.nodes@),
        ensures
            r@.len() == self.shape.nodes@.len(),
            forall|i: int|
                0 <= i < r@.len() ==> #[trigger] r@[i] == runs(
                    self.shape.nodes@,
                    self.state@,
                    self.shape.nodes@[i],
                ),
    {
        let mut out: Vec<bool> = Vec::new();
        let mut i: usize = 0;
        while i < self.shape.nodes.len()
            invariant
                i <= self.shape.nodes@.len(),
                self.wf(),
                shape_gated(self.shape.nodes@),
                out@.len() == i,
                forall|j: int|
                    0 <= j < i ==> #[trigger] out@[j] == runs(
                        self.shape.nodes@,
                        self.state@,
                        self.shape.nodes@[j],
                    ),
            decreases self.shape.nodes@.len() - i,
        {
            let n: &NodeShape = &self.shape.nodes[i];
            assert(node_gated(self.shape.nodes@, i as int));
            let root: bool = match n.kind {
                Kind::Root => true,
                _ => false,
            };
            let on: bool = root || (self.demanded(i) && self.own_open(i));
            out.push(on);
            i += 1;
        }
        out
    }

    fn own_open(&self, i: usize) -> (r: bool)
        requires
            self.wf(),
            i < self.shape.nodes@.len(),
            node_gated(self.shape.nodes@, i as int),
        ensures
            r == own_open(self.shape.nodes@, self.state@, self.shape.nodes@[i as int]),
    {
        let ns: &[NodeShape] = self.shape.nodes;
        let n: &NodeShape = &ns[i];
        let mut k: usize = 0;
        while k < n.deps.len()
            invariant
                self.wf(),
                ns@ == self.shape.nodes@,
                i < ns@.len(),
                *n == ns@[i as int],
                node_gated(ns@, i as int),
                k <= n.deps@.len(),
                forall|j: int|
                    0 <= j < k && #[trigger] n.dep_gates@[j] ==> is_open(
                        self.state@,
                        ns@[n.deps@[j] as int].name@,
                    ),
            decreases n.deps@.len() - k,
        {
            if n.dep_gates[k] {
                let t: usize = n.deps[k];
                assert(n.dep_gates@[k as int]);
                assert(n.deps@[k as int] < i);
                proof {
                    lemma_gate_stated(ns@, self.state@, t as int);
                }
                if !self.open(ns[t].name) {
                    return false;
                }
            }
            k += 1;
        }
        true
    }

    fn demanded(&self, i: usize) -> (r: bool)
        requires
            self.wf(),
            i < self.shape.nodes@.len(),
            node_gated(self.shape.nodes@, i as int),
        ensures
            r == demanded(self.shape.nodes@, self.state@, self.shape.nodes@[i as int]),
    {
        let ns: &[NodeShape] = self.shape.nodes;
        let n: &NodeShape = &ns[i];
        let mut latched: bool = false;
        let mut a: usize = 0;
        while a < n.demand.len()
            invariant
                self.wf(),
                ns@ == self.shape.nodes@,
                i < ns@.len(),
                *n == ns@[i as int],
                node_gated(ns@, i as int),
                a <= n.demand@.len(),
                latched ==> latch_demands(ns@, *n),
                !latched ==> forall|b: int, g: int|
                    0 <= b < a && 0 <= g < n.demand@[b]@.len() ==> !(ns@[#[trigger] n.demand@[b]@[g] as int].kind is Latch),
                forall|b: int|
                    0 <= b < a ==> !conjunct_open(ns@, self.state@, #[trigger] n.demand@[b]@),
            decreases n.demand@.len() - a,
        {
            let conj: &[usize] = n.demand[a];
            let mut all: bool = true;
            let mut g: usize = 0;
            while g < conj.len()
                invariant
                    self.wf(),
                    ns@ == self.shape.nodes@,
                    i < ns@.len(),
                    *n == ns@[i as int],
                    node_gated(ns@, i as int),
                    a < n.demand@.len(),
                    conj@ == n.demand@[a as int]@,
                    g <= conj@.len(),
                    latched ==> latch_demands(ns@, *n),
                    !latched ==> forall|b: int, h: int|
                        0 <= b < a && 0 <= h < n.demand@[b]@.len() ==> !(ns@[#[trigger] n.demand@[b]@[h] as int].kind is Latch),
                    !latched ==> forall|h: int|
                        0 <= h < g ==> !(ns@[#[trigger] conj@[h] as int].kind is Latch),
                    all ==> forall|h: int|
                        0 <= h < g ==> is_open(self.state@, ns@[#[trigger] conj@[h] as int].name@),
                    !all ==> !conjunct_open(ns@, self.state@, conj@),
                decreases conj@.len() - g,
            {
                let t: usize = conj[g];
                assert(n.demand@[a as int]@[g as int] == t);
                proof {
                    lemma_gate_stated(ns@, self.state@, t as int);
                }
                match ns[t].kind {
                    Kind::Latch => {
                        latched = true;
                        assert(ns@[n.demand@[a as int]@[g as int] as int].kind is Latch);
                    },
                    _ => {},
                }
                if !self.open(ns[t].name) {
                    all = false;
                    assert(!is_open(self.state@, ns@[conj@[g as int] as int].name@));
                }
                g += 1;
            }
            if all {
                assert(conjunct_open(ns@, self.state@, n.demand@[a as int]@));
                return true;
            }
            a += 1;
        }
        if !n.rewarms {
            latched
        } else {
            false
        }
    }
}

/// What stands between quotes, as a program would write it.
pub uninterp spec fn quoted_text(s: Seq<char>) -> Seq<char>;

/// `str`'s `Debug`, which writes the text between quotes and escapes what needs it.
#[verifier::external_body]
fn quoted(s: &str) -> (r: String)
    ensures
        r@ == quoted_text(s@),
{
    format!("{:?}", s)
}

/// What a fidelity is called where it is shown.
pub open spec fn fidelity_text(f: Fidelity) -> Seq<char> {
    match f {
        Fidelity::Exact => "Exact"@,
        Fidelity::Partial(s) => "Partial("@ + quoted_text(s@) + ")"@,
        Fidelity::Opaque(s) => "Opaque("@ + quoted_text(s@) + ")"@,
    }
}

/// How the edge to the `k`-th dep is written, where the lane alone cannot show what it is.
pub open spec fn edge_text(ns: Seq<NodeShape>, n: NodeShape, k: int) -> Option<Seq<char>> {
    let to = ns[n.deps@[k] as int];
    if n.dep_gates@[k] {
        Some("⊣"@ + trimmed(to.name@))
    } else if n.dep_folds@[k] {
        Some("⟳"@ + trimmed(to.name@) + "@"@ + horizon_text(n.dep_reach@[k]))
    } else if n.dep_retains@[k] {
        // the retention's own name already carries the joined reach, so the *declared* one is what
        // this site has to say; a level has no reach to state at all.
        if to.kind is Buffer {
            Some("⌸@"@ + horizon_text(n.dep_reach@[k]))
        } else {
            Some("·"@ + trimmed(to.name@))
        }
    } else {
        // a bare dep is the lane, and the lane is already drawn.
        None
    }
}

/// The edges of the first `k` deps that are written out.
pub open spec fn edge_texts(ns: Seq<NodeShape>, n: NodeShape, k: int) -> Seq<Seq<char>>
    decreases k,
{
    if k <= 0 {
        Seq::empty()
    } else {
        match edge_text(ns, n, k - 1) {
            Some(e) => edge_texts(ns, n, k - 1).push(e),
            None => edge_texts(ns, n, k - 1),
        }
    }
}

/// A list of one text, or of none.
pub open spec fn maybe(part: Option<Seq<char>>) -> Seq<Seq<char>> {
    match part {
        Some(p) => seq![p],
        None => Seq::empty(),
    }
}

/// What stands beside a node: its clock, what it is, what pins it, its edges, where it is read out,
/// and what its derivative leaves out.
pub open spec fn annotations(ns: Seq<NodeShape>, n: NodeShape) -> Seq<Seq<char>> {
    let edges = edge_texts(ns, n, n.deps@.len() as int);
    maybe(
        match n.clock {
            Some(tf) => Some("@"@ + timeframe_text(tf)),
            None => None,
        },
    ) + seq![
        match (n.kind, n.field) {
            (Kind::Root, Some(field)) => "root "@ + field@,
            _ => n.kind.name(),
        },
    ] + maybe(
        match n.pin.why() {
            Some(why) => Some("pin·"@ + why),
            None => None,
        },
    ) + maybe(
        if edges.len() > 0 {
            Some(text::joined(edges, " "@))
        } else {
            None
        },
    ) + maybe(
        match n.field {
            Some(field) => if n.kind is Root {
                None
            } else {
                Some("→out "@ + field@)
            },
            None => None,
        },
    ) + maybe(
        match n.fidelity {
            Fidelity::Exact => None,
            _ => Some(fidelity_text(n.fidelity)),
        },
    )
}

/// Append a reach as it is read.
fn push_horizon(out: &mut Vec<char>, h: Horizon)
    requires
        h matches Horizon::Over(tf) ==> tf.0 != 0,
    ensures
        final(out)@ == old(out)@ + horizon_text(h),
{
    let t = h.tag();
    text::push_str(out, t.as_str());
}

/// How the edge to the `k`-th dep is written, where the lane alone cannot show what it is.
fn edge(ns: &[NodeShape], i: usize, k: usize) -> (r: Option<Vec<char>>)
    requires
        i < ns@.len(),
        node_drawn(ns@, i as int),
        k < ns@[i as int].deps@.len(),
    ensures
        match r {
            Some(v) => edge_text(ns@, ns@[i as int], k as int) == Some(v@),
            None => edge_text(ns@, ns@[i as int], k as int) is None,
        },
{
    let n: &NodeShape = &ns[i];
    assert(n.deps@[k as int] < i);
    let to: &NodeShape = &ns[n.deps[k]];
    let name: Vec<char> = trim(to.name);
    let mut out: Vec<char> = Vec::new();
    if n.dep_gates[k] {
        text::push_str(&mut out, "⊣");
        text::push_all(&mut out, name.as_slice());
        assert(out@ =~= "⊣"@ + name@);
        Some(out)
    } else if n.dep_folds[k] {
        assert(spells_reach(ns@, *n, k as int));
        let reach: Horizon = n.dep_reach[k];
        text::push_str(&mut out, "⟳");
        text::push_all(&mut out, name.as_slice());
        text::push_str(&mut out, "@");
        push_horizon(&mut out, reach);
        assert(out@ =~= "⟳"@ + name@ + "@"@ + horizon_text(reach));
        Some(out)
    } else if n.dep_retains[k] {
        match to.kind {
            Kind::Buffer => {
                assert(spells_reach(ns@, *n, k as int));
                let reach: Horizon = n.dep_reach[k];
                text::push_str(&mut out, "⌸@");
                push_horizon(&mut out, reach);
                assert(out@ =~= "⌸@"@ + horizon_text(reach));
            },
            _ => {
                text::push_str(&mut out, "·");
                text::push_all(&mut out, name.as_slice());
                assert(out@ =~= "·"@ + name@);
            },
        }
        Some(out)
    } else {
        None
    }
}

/// The edges of a node that are written out, with a space between each two; nothing where there are
/// none.
fn edges(ns: &[NodeShape], i: usize) -> (r: Option<Vec<char>>)
    requires
        i < ns@.len(),
        node_drawn(ns@, i as int),
    ensures
        ({
            let list = edge_texts(ns@, ns@[i as int], ns@[i as int].deps@.len() as int);
            match r {
                Some(v) => list.len() > 0 && v@ == text::joined(list, " "@),
                None => list.len() == 0,
            }
        }),
{
    let n: &NodeShape = &ns[i];
    let mut out: Vec<char> = Vec::new();
    let mut any: bool = false;
    let mut k: usize = 0;
    while k < n.deps.len()
        invariant
            i < ns@.len(),
            *n == ns@[i as int],
            node_drawn(ns@, i as int),
            k <= n.deps@.len(),
            any == (edge_texts(ns@, *n, k as int).len() > 0),
            out@ == text::joined(edge_texts(ns@, *n, k as int), " "@),
        decreases n.deps@.len() - k,
    {
        if let Some(e) = edge(ns, i, k) {
            text::push_part(
                &mut out,
                Ghost(edge_texts(ns@, *n, k as int)),
                !any,
                " ",
                e.as_slice(),
            );
            any = true;
        }
        k += 1;
    }
    if any {
        Some(out)
    } else {
        None
    }
}

/// What a fidelity is called where it is shown.
fn fidelity(f: Fidelity) -> (r: Vec<char>)
    ensures
        r@ == fidelity_text(f),
{
    let mut out: Vec<char> = Vec::new();
    match f {
        Fidelity::Exact => {
            text::push_str(&mut out, "Exact");
        },
        Fidelity::Partial(s) => {
            let q: String = quoted(s);
            text::push_str(&mut out, "Partial(");
            text::push_str(&mut out, q.as_str());
            text::push_str(&mut out, ")");
        },
        Fidelity::Opaque(s) => {
            let q: String = quoted(s);
            text::push_str(&mut out, "Opaque(");
            text::push_str(&mut out, q.as_str());
            text::push_str(&mut out, ")");
        },
    }
    assert(out@ =~= fidelity_text(f));
    out
}

/// The characters of a text, where there is one.
spec fn text_of(part: Option<Vec<char>>) -> Option<Seq<char>> {
    match part {
        Some(v) => Some(v@),
        None => None,
    }
}

/// Append one annotation, where there is one.
fn push_maybe(out: &mut Vec<char>, parts: Ghost<Seq<Seq<char>>>, first: bool, part: Option<Vec<char>>)
    requires
        first == (parts@.len() == 0),
        old(out)@ == text::joined(parts@, "  "@),
    ensures
        final(out)@ == text::joined(
            parts@ + maybe(text_of(part)),
            "  "@,
        ),
{
    match part {
        Some(v) => {
            assert(parts@ + seq![v@] =~= parts@.push(v@));
            text::push_part(out, parts, first, "  ", v.as_slice());
        },
        None => {
            assert(parts@ + Seq::<Seq<char>>::empty() =~= parts@);
        },
    }
}

/// A text in front of another.
fn prefixed(prefix: &str, s: &str) -> (r: Vec<char>)
    ensures
        r@ == prefix@ + s@,
{
    let mut v: Vec<char> = text::chars_of(prefix);
    text::push_str(&mut v, s);
    v
}

/// The columns to the right of the name: what the node declares, what pins it, and every edge whose
/// kind the lane alone cannot show.
pub fn annotate(shape: &Shape, i: usize) -> (r: Vec<char>)
    requires
        i < shape.nodes@.len(),
        node_drawn(shape.nodes@, i as int),
    ensures
        r@ == text::joined(annotations(shape.nodes@, shape.nodes@[i as int]), "  "@),
{
    let ns: &[NodeShape] = shape.nodes;
    let n: &NodeShape = &ns[i];
    let mut out: Vec<char> = Vec::new();
    let ghost mut parts: Seq<Seq<char>> = Seq::empty();

    let clock: Option<Vec<char>> = match n.clock {
        Some(tf) => {
            let mut v: Vec<char> = text::chars_of("@");
            push_timeframe(&mut v, tf);
            Some(v)
        },
        None => None,
    };
    let ghost clock_part = maybe(text_of(clock));
    let timed: bool = clock.is_some();
    push_maybe(&mut out, Ghost(parts), true, clock);
    proof {
        parts = parts + clock_part;
    }

    let what: Vec<char> = match (n.kind, n.field) {
        (Kind::Root, Some(field)) => prefixed("root ", field),
        (k, _) => text::chars_of(k.word()),
    };
    text::push_part(&mut out, Ghost(parts), !timed, "  ", what.as_slice());
    proof {
        parts = parts.push(what@);
    }

    let pin: Option<Vec<char>> = match n.pin.reason() {
        Some(why) => Some(prefixed("pin·", why)),
        None => None,
    };
    let ghost pin_part = maybe(text_of(pin));
    push_maybe(&mut out, Ghost(parts), false, pin);
    proof {
        parts = parts + pin_part;
    }

    let list: Option<Vec<char>> = edges(ns, i);
    let ghost edge_part = maybe(text_of(list));
    push_maybe(&mut out, Ghost(parts), false, list);
    proof {
        parts = parts + edge_part;
    }

    let read_out: Option<Vec<char>> = match (n.kind, n.field) {
        (Kind::Root, _) => None,
        (_, Some(field)) => Some(prefixed("→out ", field)),
        (_, None) => None,
    };
    let ghost out_part = maybe(text_of(read_out));
    push_maybe(&mut out, Ghost(parts), false, read_out);
    proof {
        parts = parts + out_part;
    }

    let omits: Option<Vec<char>> = match n.fidelity {
        Fidelity::Exact => None,
        f => Some(fidelity(f)),
    };
    let ghost omits_part = maybe(text_of(omits));
    push_maybe(&mut out, Ghost(parts), false, omits);
    proof {
        parts = parts + omits_part;
        assert(parts =~= annotations(ns@, *n));
    }
    out
}

} // verus!
