//! What is checked of a graph before it runs: its names, its gates, its latches and its rates.

use vstd::prelude::*;

use crate::horizon::Timeframe;
use crate::text;

verus! {

/// Whether any flag is set.
pub open spec fn some_set(flags: Seq<bool>) -> bool {
    exists|i: int| 0 <= i < flags.len() && #[trigger] flags[i]
}

/// Whether every flag is set.
pub open spec fn all_set(flags: Seq<bool>) -> bool {
    forall|i: int| 0 <= i < flags.len() ==> #[trigger] flags[i]
}

/// Whether every set flag precedes every clear one.
pub open spec fn set_lead(flags: Seq<bool>) -> bool {
    forall|i: int, j: int|
        0 <= i < j < flags.len() && #[trigger] flags[j] ==> #[trigger] flags[i]
}

pub fn any(flags: &[bool]) -> (r: bool)
    ensures
        r == some_set(flags@),
{
    let mut i: usize = 0;
    while i < flags.len()
        invariant
            i <= flags@.len(),
            forall|j: int| 0 <= j < i ==> !#[trigger] flags@[j],
        decreases flags@.len() - i,
    {
        if flags[i] {
            assert(flags@[i as int]);
            return true;
        }
        i += 1;
    }
    false
}

pub fn all(flags: &[bool]) -> (r: bool)
    ensures
        r == all_set(flags@),
{
    let mut i: usize = 0;
    while i < flags.len()
        invariant
            i <= flags@.len(),
            forall|j: int| 0 <= j < i ==> #[trigger] flags@[j],
        decreases flags@.len() - i,
    {
        if !flags[i] {
            assert(!flags@[i as int]);
            return false;
        }
        i += 1;
    }
    true
}

/// Whether every gating dep precedes every plain one: a closed gate must pull nothing, and the deps
/// are read left to right.
pub fn gating_leads(gates: &[bool]) -> (r: bool)
    ensures
        r == set_lead(gates@),
{
    let mut i: usize = 0;
    while i < gates.len() && gates[i]
        invariant
            i <= gates@.len(),
            forall|j: int| 0 <= j < i ==> #[trigger] gates@[j],
        decreases gates@.len() - i,
    {
        i += 1;
    }
    let ghost first = i as int;
    assert(first < gates@.len() ==> !gates@[first]);
    while i < gates.len()
        invariant
            0 <= first <= i <= gates@.len(),
            forall|j: int| 0 <= j < first ==> #[trigger] gates@[j],
            first < gates@.len() ==> !gates@[first],
            forall|j: int| first <= j < i ==> !#[trigger] gates@[j],
        decreases gates@.len() - i,
    {
        if gates[i] {
            assert(gates@[i as int] && i > first && !gates@[first]);
            return false;
        }
        i += 1;
    }
    true
}

/// One node's shape, as the graph it stands in sees it.
pub struct NodeMeta {
    pub name: &'static str,
    pub deps: &'static [&'static str],
    /// Per-dep, positionally with `deps`: which of them are gates.
    pub gates: &'static [bool],
    /// Whether it is a latch. A latch is momentary by nature, so a consumer behind one is not
    /// standing demand: what it reads must be warm *before* the episode arms.
    pub latch: bool,
}

/// Whether two names are one.
pub fn str_eq(a: &str, b: &str) -> (r: bool)
    ensures
        r == (a@ == b@),
{
    let a: Vec<char> = text::chars_of(a);
    crate::shape::spells(a.as_slice(), b)
}

/// Whether a period is a whole number of another.
pub open spec fn tiles(d: Timeframe, tf: Timeframe) -> bool {
    d.0 != 0 && tf.0 % d.0 == 0
}

/// Whether a node clocked at `clock` can be fed by producers clocked at `deps`.
pub open spec fn delivered(clock: Option<Timeframe>, deps: Seq<Option<Timeframe>>) -> bool {
    clock matches Some(tf) ==> {
        &&& tf.0 > 0
        &&& forall|i: int|
            0 <= i < deps.len() ==> (#[trigger] deps[i] matches Some(d) ==> tiles(d, tf))
    }
}

/// Whether a node clocked at `clock` can be fed by producers clocked at `deps`: every one of them a
/// whole divisor of it. A rate is still the node's own to declare; this is what stops the
/// declaration from being one the inputs cannot deliver: a node publishing every `tf` observes whole
/// elements of its input only where that input's period tiles `tf`.
pub fn clock_divides(clock: Option<Timeframe>, deps: &[Option<Timeframe>]) -> (r: bool)
    ensures
        r == delivered(clock, deps@),
{
    let tf: Timeframe = match clock {
        // unclocked is "whenever my inputs do", which every input delivers by definition.
        None => return true,
        Some(tf) => tf,
    };
    let mut i: usize = 0;
    while i < deps.len()
        invariant
            i <= deps@.len(),
            clock == Some(tf),
            forall|j: int| 0 <= j < i ==> (#[trigger] deps@[j] matches Some(d) ==> tiles(d, tf)),
        decreases deps@.len() - i,
    {
        if let Some(d) = deps[i] {
            if d.0 == 0 || tf.0 % d.0 != 0 {
                assert(!tiles(d, tf));
                assert(deps@[i as int] == Some(d));
                return false;
            }
        }
        i += 1;
    }
    tf.0 > 0
}

/// Whether every name of some occurs once.
pub open spec fn once_each(set: Seq<&str>) -> bool {
    forall|i: int, j: int| 0 <= i < j < set.len() ==> (#[trigger] set[i])@ != (#[trigger] set[j])@
}

/// Whether a name is among some.
pub open spec fn named(set: Seq<&str>, name: Seq<char>) -> bool {
    exists|i: int| 0 <= i < set.len() && (#[trigger] set[i])@ == name
}

/// Whether every name in `set` occurs once.
pub fn distinct(set: &[&str]) -> (r: bool)
    ensures
        r == once_each(set@),
{
    let mut i: usize = 0;
    while i < set.len()
        invariant
            i <= set@.len(),
            forall|a: int, b: int|
                0 <= a < i && a < b < set@.len() ==> (#[trigger] set@[a])@ != (#[trigger] set@[b])@,
        decreases set@.len() - i,
    {
        let mut j: usize = i + 1;
        while j < set.len()
            invariant
                i < j <= set@.len(),
                forall|b: int| i < b < j ==> set@[i as int]@ != (#[trigger] set@[b])@,
            decreases set@.len() - j,
        {
            if str_eq(set[i], set[j]) {
                return false;
            }
            j += 1;
        }
        i += 1;
    }
    true
}

pub fn contains(set: &[&str], name: &str) -> (r: bool)
    ensures
        r == named(set@, name@),
{
    let mut i: usize = 0;
    while i < set.len()
        invariant
            i <= set@.len(),
            forall|j: int| 0 <= j < i ==> (#[trigger] set@[j])@ != name@,
        decreases set@.len() - i,
    {
        if str_eq(set[i], name) {
            return true;
        }
        i += 1;
    }
    false
}

/// Whether some deps name a gate in a gating position.
pub open spec fn gated_by(deps: Seq<&str>, gates: Seq<bool>, gate: Seq<char>) -> bool {
    exists|i: int| 0 <= i < deps.len() && gates[i] && (#[trigger] deps[i])@ == gate
}

/// Whether `deps` names `gate` in a gating position.
pub fn gates_on(deps: &[&str], gates: &[bool], gate: &str) -> (r: bool)
    requires
        gates@.len() >= deps@.len(),
    ensures
        r == gated_by(deps@, gates@, gate@),
{
    let mut i: usize = 0;
    while i < deps.len()
        invariant
            gates@.len() >= deps@.len(),
            i <= deps@.len(),
            forall|j: int| 0 <= j < i ==> !(gates@[j] && (#[trigger] deps@[j])@ == gate@),
        decreases deps@.len() - i,
    {
        if gates[i] && str_eq(deps[i], gate) {
            return true;
        }
        i += 1;
    }
    false
}

/// Whether every node says of each dep whether it gates.
pub open spec fn positional(nodes: Seq<NodeMeta>) -> bool {
    forall|i: int|
        0 <= i < nodes.len() ==> (#[trigger] nodes[i]).gates@.len() >= nodes[i].deps@.len()
}

/// The first node of a name, if there is one.
pub open spec fn first_of(nodes: Seq<NodeMeta>, name: Seq<char>) -> Option<NodeMeta>
    decreases nodes.len(),
{
    if nodes.len() == 0 {
        None
    } else if nodes[0].name@ == name {
        Some(nodes[0])
    } else {
        first_of(nodes.drop_first(), name)
    }
}

/// A latch is cut from within, so its cut must be a stepped field naming it in a gating dep. Absent
/// from the manifest is a root, and a root is never gated.
pub fn cut_gated(cut: &'static str, latch: &'static str, nodes: &[NodeMeta]) -> (r: bool)
    requires
        positional(nodes@),
    ensures
        r == match first_of(nodes@, cut@) {
            Some(n) => gated_by(n.deps@, n.gates@, latch@),
            None => false,
        },
{
    let mut i: usize = 0;
    assert(nodes@.skip(0) =~= nodes@);
    while i < nodes.len()
        invariant
            positional(nodes@),
            i <= nodes@.len(),
            first_of(nodes@, cut@) == first_of(nodes@.skip(i as int), cut@),
        decreases nodes@.len() - i,
    {
        proof {
            let rest = nodes@.skip(i as int);
            assert(rest[0] == nodes@[i as int]);
            assert(rest.drop_first() =~= nodes@.skip(i + 1));
        }
        if str_eq(nodes[i].name, cut) {
            return gates_on(nodes[i].deps, nodes[i].gates, latch);
        }
        i += 1;
    }
    false
}

/// Whether an arm of a latch is a node that the latch gates.
pub open spec fn arm_gated(
    latch: Seq<char>,
    arms: Seq<&str>,
    nodes: Seq<NodeMeta>,
    a: int,
    i: int,
) -> bool {
    &&& 0 <= a < arms.len()
    &&& 0 <= i < nodes.len()
    &&& nodes[i].name@ == arms[a]@
    &&& gated_by(nodes[i].deps@, nodes[i].gates@, latch)
}

/// A latch whose arm is a node it also gates can never re-arm: the arm is dark exactly when the
/// latch is down. Roots are always live, so an external latch is exempt by construction.
pub fn deadlocked(
    latch: &'static str,
    arms: &'static [&'static str],
    nodes: &[NodeMeta],
) -> (r: bool)
    requires
        positional(nodes@),
    ensures
        r == exists|a: int, i: int| arm_gated(latch@, arms@, nodes@, a, i),
{
    let mut a: usize = 0;
    while a < arms.len()
        invariant
            positional(nodes@),
            a <= arms@.len(),
            forall|b: int, i: int| 0 <= b < a ==> !arm_gated(latch@, arms@, nodes@, b, i),
        decreases arms@.len() - a,
    {
        let mut i: usize = 0;
        while i < nodes.len()
            invariant
                positional(nodes@),
                a < arms@.len(),
                i <= nodes@.len(),
                forall|j: int| 0 <= j < i ==> !arm_gated(latch@, arms@, nodes@, a as int, j),
            decreases nodes@.len() - i,
        {
            // a name absent from `nodes` is a root: external, always live, exempt.
            if str_eq(nodes[i].name, arms[a]) && gates_on(nodes[i].deps, nodes[i].gates, latch) {
                assert(arm_gated(latch@, arms@, nodes@, a as int, i as int));
                return true;
            }
            i += 1;
        }
        a += 1;
    }
    false
}

/// The first node of a name is the one nothing before it shares the name with, and there is none where
/// no node has the name.
pub proof fn the_first_of_a_name_is_found(nodes: Seq<NodeMeta>, name: Seq<char>, i: int)
    requires
        0 <= i < nodes.len(),
        forall|j: int| 0 <= j < i ==> (#[trigger] nodes[j]).name@ != name,
    ensures
        nodes[i].name@ == name ==> first_of(nodes, name) == Some(nodes[i]),
        i + 1 == nodes.len() && nodes[i].name@ != name ==> first_of(nodes, name) is None,
    decreases nodes.len(),
{
    if i > 0 {
        let rest = nodes.drop_first();
        assert(rest[i - 1] == nodes[i]);
        assert(nodes[0].name@ != name);
        assert forall|j: int| 0 <= j < i - 1 implies (#[trigger] rest[j]).name@ != name by {
            assert(rest[j] == nodes[j + 1]);
        }
        the_first_of_a_name_is_found(rest, name, i - 1);
    } else if nodes.len() == 1 {
        assert(nodes.drop_first() =~= Seq::empty());
        assert(first_of(nodes.drop_first(), name) is None);
    }
}

/// Gates lead a node's deps where some number of them are set and none behind those is.
pub proof fn gates_lead_where_none_follows_a_dep(flags: Seq<bool>, k: int)
    requires
        0 <= k <= flags.len(),
        forall|i: int| 0 <= i < k ==> flags[i],
    ensures
        (forall|i: int| k <= i < flags.len() ==> !flags[i]) ==> set_lead(flags),
        k + 1 < flags.len() && !flags[k] && flags[k + 1] ==> !set_lead(flags),
{
    if k + 1 < flags.len() && !flags[k] && flags[k + 1] {
        assert(flags[k + 1] && !flags[k]);
    }
}

/// A gate is named in a gating position where some dep that gates has its name: a dep that only reads
/// it does not, and neither does a gate of another name.
pub proof fn a_gate_is_named_where_a_dep_gates_on_it(deps: Seq<&str>, gates: Seq<bool>, gate: Seq<char>, i: int)
    requires
        0 <= i < deps.len(),
    ensures
        gates[i] && deps[i]@ == gate ==> gated_by(deps, gates, gate),
        (forall|k: int| 0 <= k < deps.len() ==> (#[trigger] deps[k])@ == gate ==> !gates[k]) ==> !gated_by(
            deps,
            gates,
            gate,
        ),
{
}

/// An arm deadlocks its latch where a node of its name gates on that latch, and an arm that no node is
/// named by, which is a root, never does.
pub proof fn an_arm_deadlocks_where_its_latch_gates_it(
    latch: Seq<char>,
    arms: Seq<&str>,
    nodes: Seq<NodeMeta>,
    a: int,
    i: int,
    k: int,
)
    requires
        0 <= a < arms.len(),
        0 <= i < nodes.len(),
        0 <= k < nodes[i].deps@.len(),
    ensures
        nodes[i].name@ == arms[a]@ && nodes[i].gates@[k] && nodes[i].deps@[k]@ == latch ==> arm_gated(
            latch,
            arms,
            nodes,
            a,
            i,
        ),
        nodes[i].name@ != arms[a]@ ==> !arm_gated(latch, arms, nodes, a, i),
        (forall|j: int| 0 <= j < nodes[i].deps@.len() ==> !nodes[i].gates@[j]) ==> !arm_gated(
            latch,
            arms,
            nodes,
            a,
            i,
        ),
{
    a_gate_is_named_where_a_dep_gates_on_it(nodes[i].deps@, nodes[i].gates@, latch, k);
}

/// Some flag is set where one is, and all are where none is clear; of no flags none is set and all are.
pub proof fn flags_are_counted_one_by_one(flags: Seq<bool>, flag: bool)
    ensures
        some_set(flags.push(flag)) == (some_set(flags) || flag),
        all_set(flags.push(flag)) == (all_set(flags) && flag),
        !some_set(Seq::<bool>::empty()),
        all_set(Seq::<bool>::empty()),
{
    let more = flags.push(flag);
    assert(more[flags.len() as int] == flag);
    if some_set(flags) {
        let i = choose|i: int| 0 <= i < flags.len() && #[trigger] flags[i];
        assert(more[i]);
    }
    assert forall|i: int| 0 <= i < flags.len() implies #[trigger] flags[i] == more[i] by {}
}

} // verus!
