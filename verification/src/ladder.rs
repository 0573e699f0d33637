//! One side of a book: price levels in contiguous storage, sorted best-first, and the map from
//! price to quantity they stand for.

use vstd::prelude::*;

use crate::side::Side;

verus! {

/// Where a price stands on its side: bids rank downwards from the highest price, asks upwards from
/// the lowest.
pub open spec fn rank(side: Side, price: i32) -> int {
    match side {
        Side::Buy => -price,
        Side::Sell => price as int,
    }
}

/// Whether the levels are sorted best-first, one level per price.
pub open spec fn best_first(side: Side, s: Seq<(i32, u32)>) -> bool {
    forall|i: int, j: int|
        0 <= i < j < s.len() ==> rank(side, #[trigger] s[i].0) < rank(side, #[trigger] s[j].0)
}

/// Whether `i` is where `price` stands.
pub open spec fn stands(s: Seq<(i32, u32)>, price: i32, i: int) -> bool {
    0 <= i < s.len() && s[i].0 == price
}

/// The quantity at each price.
pub open spec fn levels(s: Seq<(i32, u32)>) -> Map<i32, u32> {
    Map::new(
        |price: i32| exists|i: int| stands(s, price, i),
        |price: i32| s[choose|i: int| stands(s, price, i)].1,
    )
}

/// The levels of a map, best-first.
pub open spec fn listing(side: Side, m: Map<i32, u32>) -> Seq<(i32, u32)> {
    choose|s: Seq<(i32, u32)>| best_first(side, s) && #[trigger] levels(s) == m
}

/// One level set absolutely: a quantity of zero deletes it.
pub open spec fn set_level(m: Map<i32, u32>, price: i32, qty: u32) -> Map<i32, u32> {
    if qty == 0 {
        m.remove(price)
    } else {
        m.insert(price, qty)
    }
}

/// The levels of `m` with every level of `net` set on top.
pub open spec fn overlay(m: Map<i32, u32>, net: Map<i32, u32>) -> Map<i32, u32> {
    Map::new(
        |price: i32|
            if net.contains_key(price) {
                net[price] != 0
            } else {
                m.contains_key(price)
            },
        |price: i32|
            if net.contains_key(price) {
                net[price]
            } else {
                m[price]
            },
    )
}

/// Every level stands in the map under its price.
pub proof fn lemma_level_at(side: Side, s: Seq<(i32, u32)>, i: int)
    requires
        best_first(side, s),
        0 <= i < s.len(),
    ensures
        levels(s).contains_key(s[i].0),
        levels(s)[s[i].0] == s[i].1,
{
    let price = s[i].0;
    assert(stands(s, price, i));
    let j = choose|j: int| stands(s, price, j);
    if i < j {
        assert(rank(side, s[i].0) < rank(side, s[j].0));
    } else if j < i {
        assert(rank(side, s[j].0) < rank(side, s[i].0));
    }
}

/// A price that no level holds is in no map.
pub proof fn lemma_level_absent(s: Seq<(i32, u32)>, price: i32)
    requires
        forall|i: int| 0 <= i < s.len() ==> #[trigger] s[i].0 != price,
    ensures
        !levels(s).contains_key(price),
{
}

/// Two maps that agree at every price are one.
pub proof fn lemma_same(a: Map<i32, u32>, b: Map<i32, u32>)
    requires
        forall|p: i32|
            #![trigger a.contains_key(p)]
            a.contains_key(p) == b.contains_key(p) && (a.contains_key(p) ==> a[p] == b[p]),
    ensures
        a == b,
{
    assert forall|p: i32| #[trigger] a.dom().contains(p) == b.dom().contains(p) by {
        assert(a.contains_key(p) == b.contains_key(p));
    }
    assert(a.dom() =~= b.dom());
    assert forall|p: i32| #[trigger] a.dom().contains(p) implies a[p] == b[p] by {
        assert(a.contains_key(p));
    }
    assert(a =~= b);
}

/// Putting a level where its price belongs adds it to the map.
pub proof fn lemma_insert(side: Side, s: Seq<(i32, u32)>, j: int, price: i32, qty: u32)
    requires
        best_first(side, s),
        0 <= j <= s.len(),
        forall|i: int| 0 <= i < j ==> rank(side, #[trigger] s[i].0) < rank(side, price),
        forall|i: int| j <= i < s.len() ==> rank(side, price) < rank(side, #[trigger] s[i].0),
    ensures
        best_first(side, s.insert(j, (price, qty))),
        levels(s.insert(j, (price, qty))) == levels(s).insert(price, qty),
{
    let t = s.insert(j, (price, qty));
    assert forall|a: int, b: int| 0 <= a < b < t.len() implies rank(side, #[trigger] t[a].0) < rank(
        side,
        #[trigger] t[b].0,
    ) by {
        let x = if a < j {
            a
        } else {
            a - 1
        };
        let y = if b < j {
            b
        } else {
            b - 1
        };
        if a == j {
            assert(t[b] == s[y]);
        } else if b == j {
            assert(t[a] == s[x]);
        } else {
            assert(t[a] == s[x] && t[b] == s[y]);
        }
    }
    let u = levels(s).insert(price, qty);
    assert(levels(t) == u) by {
        assert forall|p: i32|
            #![trigger levels(t).contains_key(p)]
            levels(t).contains_key(p) == u.contains_key(p) && (levels(t).contains_key(p)
                ==> levels(t)[p] == u[p]) by {
            if p == price {
                assert(t[j].0 == price);
                lemma_level_at(side, t, j);
            } else if levels(s).contains_key(p) {
                let i = choose|i: int| stands(s, p, i);
                let k = if i < j {
                    i
                } else {
                    i + 1
                };
                assert(t[k] == s[i]);
                lemma_level_at(side, s, i);
                lemma_level_at(side, t, k);
            } else {
                assert forall|k: int| 0 <= k < t.len() implies #[trigger] t[k].0 != p by {
                    if k < j {
                        assert(t[k] == s[k]);
                        lemma_level_at(side, s, k);
                    } else if k > j {
                        assert(t[k] == s[k - 1]);
                        lemma_level_at(side, s, k - 1);
                    }
                }
                lemma_level_absent(t, p);
            }
        }
        lemma_same(levels(t), u);
    }
}

/// One level further down a side.
pub proof fn lemma_push(side: Side, s: Seq<(i32, u32)>, i: int)
    requires
        best_first(side, s),
        0 <= i < s.len(),
    ensures
        levels(s.take(i + 1)) == levels(s.take(i)).insert(s[i].0, s[i].1),
{
    let t = s.take(i);
    assert forall|a: int, b: int| 0 <= a < b < t.len() implies rank(side, #[trigger] t[a].0) < rank(
        side,
        #[trigger] t[b].0,
    ) by {
        assert(t[a] == s[a] && t[b] == s[b]);
    }
    assert(s.take(i + 1) =~= t.insert(i, s[i]));
    lemma_insert(side, t, i, s[i].0, s[i].1);
}

/// Changing a level's quantity changes it in the map.
pub proof fn lemma_update(side: Side, s: Seq<(i32, u32)>, j: int, qty: u32)
    requires
        best_first(side, s),
        0 <= j < s.len(),
    ensures
        best_first(side, s.update(j, (s[j].0, qty))),
        levels(s.update(j, (s[j].0, qty))) == levels(s).insert(s[j].0, qty),
{
    let t = s.update(j, (s[j].0, qty));
    assert forall|a: int, b: int| 0 <= a < b < t.len() implies rank(side, #[trigger] t[a].0) < rank(
        side,
        #[trigger] t[b].0,
    ) by {
        assert(t[a].0 == s[a].0 && t[b].0 == s[b].0);
    }
    let u = levels(s).insert(s[j].0, qty);
    assert(levels(t) == u) by {
        assert forall|p: i32|
            #![trigger levels(t).contains_key(p)]
            levels(t).contains_key(p) == u.contains_key(p) && (levels(t).contains_key(p)
                ==> levels(t)[p] == u[p]) by {
            if levels(s).contains_key(p) {
                let i = choose|i: int| stands(s, p, i);
                assert(t[i].0 == p);
                lemma_level_at(side, s, i);
                lemma_level_at(side, t, i);
                lemma_level_at(side, s, j);
            } else {
                lemma_level_at(side, s, j);
                assert forall|k: int| 0 <= k < t.len() implies #[trigger] t[k].0 != p by {
                    assert(t[k].0 == s[k].0);
                    lemma_level_at(side, s, k);
                }
                lemma_level_absent(t, p);
            }
        }
        lemma_same(levels(t), u);
    }
}

/// Taking a level out takes it out of the map.
pub proof fn lemma_remove(side: Side, s: Seq<(i32, u32)>, j: int)
    requires
        best_first(side, s),
        0 <= j < s.len(),
    ensures
        best_first(side, s.remove(j)),
        levels(s.remove(j)) == levels(s).remove(s[j].0),
{
    let t = s.remove(j);
    assert forall|a: int, b: int| 0 <= a < b < t.len() implies rank(side, #[trigger] t[a].0) < rank(
        side,
        #[trigger] t[b].0,
    ) by {
        let x = if a < j {
            a
        } else {
            a + 1
        };
        let y = if b < j {
            b
        } else {
            b + 1
        };
        assert(t[a] == s[x] && t[b] == s[y]);
    }
    let u = levels(s).remove(s[j].0);
    assert(levels(t) == u) by {
        assert forall|p: i32|
            #![trigger levels(t).contains_key(p)]
            levels(t).contains_key(p) == u.contains_key(p) && (levels(t).contains_key(p)
                ==> levels(t)[p] == u[p]) by {
            if levels(t).contains_key(p) {
                let k = choose|k: int| stands(t, p, k);
                let i = if k < j {
                    k
                } else {
                    k + 1
                };
                assert(t[k] == s[i]);
                lemma_level_at(side, t, k);
                lemma_level_at(side, s, i);
                if p == s[j].0 {
                    if i < j {
                        assert(rank(side, s[i].0) < rank(side, s[j].0));
                    } else {
                        assert(rank(side, s[j].0) < rank(side, s[i].0));
                    }
                }
            } else if levels(s).contains_key(p) && p != s[j].0 {
                let i = choose|i: int| stands(s, p, i);
                let k = if i < j {
                    i
                } else {
                    i - 1
                };
                assert(t[k] == s[i]);
                lemma_level_at(side, t, k);
            }
        }
        lemma_same(levels(t), u);
    }
}

/// A map has one best-first listing.
pub proof fn lemma_one_listing(side: Side, a: Seq<(i32, u32)>, b: Seq<(i32, u32)>)
    requires
        best_first(side, a),
        best_first(side, b),
        levels(a) == levels(b),
    ensures
        a == b,
    decreases a.len(),
{
    if a.len() == 0 {
        if b.len() > 0 {
            lemma_level_at(side, b, 0);
            assert(levels(a).contains_key(b[0].0));
        }
        assert(a =~= b);
    } else {
        let n = a.len() - 1;
        lemma_level_at(side, a, n);
        let k = choose|k: int| stands(b, a[n].0, k);
        assert(stands(b, a[n].0, k));
        let m = b.len() - 1;
        lemma_level_at(side, b, m);
        let l = choose|l: int| stands(a, b[m].0, l);
        assert(stands(a, b[m].0, l));
        if k < m {
            assert(rank(side, b[k].0) < rank(side, b[m].0));
            if l < n {
                assert(rank(side, a[l].0) < rank(side, a[n].0));
            }
        }
        assert(k == m);
        lemma_level_at(side, b, k);
        assert(a[n] == b[m]);
        lemma_remove(side, a, n);
        lemma_remove(side, b, m);
        assert(a.remove(n) =~= a.drop_last());
        assert(b.remove(m) =~= b.drop_last());
        lemma_one_listing(side, a.drop_last(), b.drop_last());
        assert(a =~= a.drop_last().push(a[n]));
        assert(b =~= b.drop_last().push(b[m]));
    }
}

/// A best-first run of levels is the listing of its own map.
pub proof fn lemma_listing(side: Side, s: Seq<(i32, u32)>)
    requires
        best_first(side, s),
    ensures
        listing(side, levels(s)) == s,
{
    let t = listing(side, levels(s));
    lemma_one_listing(side, t, s);
}

/// No levels are no map.
pub proof fn lemma_no_levels(s: Seq<(i32, u32)>)
    requires
        s.len() == 0,
    ensures
        levels(s) == Map::<i32, u32>::empty(),
{
    assert(levels(s) =~= Map::<i32, u32>::empty());
}

/// Whether `a` stands before `b` on its side.
fn precedes(side: Side, a: i32, b: i32) -> (r: bool)
    ensures
        r == (rank(side, a) < rank(side, b)),
{
    match side {
        Side::Buy => a > b,
        Side::Sell => a < b,
    }
}

/// Where `price` sits in a side held best-first: bids descending, asks ascending.
pub fn seek(levels: &[(i32, u32)], side: Side, price: i32) -> (r: Result<usize, usize>)
    requires
        best_first(side, levels@),
    ensures
        match r {
            Ok(j) => j < levels@.len() && levels@[j as int].0 == price,
            Err(j) => {
                &&& j <= levels@.len()
                &&& forall|i: int|
                    0 <= i < j ==> rank(side, #[trigger] levels@[i].0) < rank(side, price)
                &&& forall|i: int|
                    j <= i < levels@.len() ==> rank(side, price) < rank(
                        side,
                        #[trigger] levels@[i].0,
                    )
            },
        },
{
    let mut lo: usize = 0;
    let mut hi: usize = levels.len();
    while lo < hi
        invariant
            lo <= hi <= levels@.len(),
            best_first(side, levels@),
            forall|i: int| 0 <= i < lo ==> rank(side, #[trigger] levels@[i].0) < rank(side, price),
            forall|i: int|
                hi <= i < levels@.len() ==> rank(side, price) < rank(side, #[trigger] levels@[i].0),
        decreases hi - lo,
    {
        let mid: usize = lo + (hi - lo) / 2;
        let p: i32 = levels[mid].0;
        if p == price {
            return Ok(mid);
        }
        if precedes(side, p, price) {
            lo = mid + 1;
        } else {
            hi = mid;
        }
    }
    Err(lo)
}

/// One level, absolutely: `qty == 0` deletes. Idempotent in the price key, which is what lets a
/// period's *net* stand in for the rows that produced it.
pub fn set(side_levels: &mut Vec<(i32, u32)>, side: Side, price: i32, qty: u32)
    requires
        best_first(side, old(side_levels)@),
    ensures
        best_first(side, final(side_levels)@),
        levels(final(side_levels)@) == set_level(levels(old(side_levels)@), price, qty),
{
    let ghost before = side_levels@;
    match seek(side_levels.as_slice(), side, price) {
        Ok(j) => if qty == 0 {
            proof {
                lemma_remove(side, before, j as int);
            }
            side_levels.remove(j);
        } else {
            proof {
                lemma_update(side, before, j as int, qty);
            }
            side_levels.set(j, (price, qty));
        },
        Err(j) => if qty == 0 {
            proof {
                assert forall|i: int| 0 <= i < before.len() implies #[trigger] before[i].0 != price
                    by {}
                lemma_level_absent(before, price);
                assert(levels(before).remove(price) =~= levels(before));
            }
        } else {
            proof {
                lemma_insert(side, before, j as int, price, qty);
            }
            side_levels.insert(j, (price, qty));
        },
    }
}

/// A sorted side with one more level, or another quantity at a price it has.
pub proof fn lemma_put(s: Seq<(i32, u32)>, price: i32, qty: u32) -> (t: Seq<(i32, u32)>)
    requires
        best_first(Side::Sell, s),
    ensures
        best_first(Side::Sell, t),
        levels(t) == levels(s).insert(price, qty),
    decreases s.len(),
{
    if exists|i: int| stands(s, price, i) {
        let i = choose|i: int| stands(s, price, i);
        lemma_update(Side::Sell, s, i, qty);
        s.update(i, (s[i].0, qty))
    } else {
        let j = below(s, price);
        lemma_below(s, price);
        assert forall|i: int| j <= i < s.len() implies rank(Side::Sell, price) < rank(
            Side::Sell,
            #[trigger] s[i].0,
        ) by {
            assert(!stands(s, price, i));
        }
        lemma_insert(Side::Sell, s, j, price, qty);
        s.insert(j, (price, qty))
    }
}

/// How many levels lead an ascending side below a price.
spec fn below(s: Seq<(i32, u32)>, price: i32) -> int
    decreases s.len(),
{
    if s.len() == 0 || s.last().0 < price {
        s.len() as int
    } else {
        below(s.drop_last(), price)
    }
}

proof fn lemma_below(s: Seq<(i32, u32)>, price: i32)
    requires
        best_first(Side::Sell, s),
    ensures
        0 <= below(s, price) <= s.len(),
        forall|i: int| 0 <= i < below(s, price) ==> #[trigger] s[i].0 < price,
        forall|i: int| below(s, price) <= i < s.len() ==> #[trigger] s[i].0 >= price,
    decreases s.len(),
{
    if s.len() > 0 {
        let n = s.len() - 1;
        if s.last().0 < price {
            assert forall|i: int| 0 <= i < s.len() implies #[trigger] s[i].0 < price by {
                if i < n {
                    assert(rank(Side::Sell, s[i].0) < rank(Side::Sell, s[n].0));
                }
            }
        } else {
            let rest = s.drop_last();
            assert forall|a: int, b: int| 0 <= a < b < rest.len() implies rank(
                Side::Sell,
                #[trigger] rest[a].0,
            ) < rank(Side::Sell, #[trigger] rest[b].0) by {
                assert(rest[a] == s[a] && rest[b] == s[b]);
            }
            lemma_below(rest, price);
            assert forall|i: int| below(s, price) <= i < s.len() implies #[trigger] s[i].0 >= price by {
                if i < n {
                    assert(rest[i] == s[i]);
                }
            }
            assert forall|i: int| 0 <= i < below(s, price) implies #[trigger] s[i].0 < price by {
                assert(rest[i] == s[i]);
            }
        }
    }
}

/// One level kept whatever its quantity, a deletion included.
pub fn put(side_levels: &mut Vec<(i32, u32)>, price: i32, qty: u32)
    requires
        best_first(Side::Sell, old(side_levels)@),
    ensures
        best_first(Side::Sell, final(side_levels)@),
        levels(final(side_levels)@) == levels(old(side_levels)@).insert(price, qty),
{
    let ghost before = side_levels@;
    match seek(side_levels.as_slice(), Side::Sell, price) {
        Ok(j) => {
            proof {
                lemma_update(Side::Sell, before, j as int, qty);
            }
            side_levels.set(j, (price, qty));
        },
        Err(j) => {
            proof {
                lemma_insert(Side::Sell, before, j as int, price, qty);
            }
            side_levels.insert(j, (price, qty));
        },
    }
}

/// Setting one more level of a net is overlaying a net that holds one more level.
pub proof fn lemma_overlay_step(m: Map<i32, u32>, net: Map<i32, u32>, price: i32, qty: u32)
    ensures
        overlay(m, net.insert(price, qty)) == set_level(overlay(m, net), price, qty),
{
    assert(overlay(m, net.insert(price, qty)) =~= set_level(overlay(m, net), price, qty));
}

/// An empty net changes nothing.
pub proof fn lemma_overlay_nothing(m: Map<i32, u32>)
    ensures
        overlay(m, Map::empty()) == m,
{
    assert(overlay(m, Map::empty()) =~= m);
}

/// Overlaying a net twice is overlaying it once.
pub proof fn lemma_overlay_again(m: Map<i32, u32>, net: Map<i32, u32>)
    ensures
        overlay(overlay(m, net), net) == overlay(m, net),
{
    assert(overlay(overlay(m, net), net) =~= overlay(m, net));
}

/// Set every level of an ascending run.
pub fn set_all(side_levels: &mut Vec<(i32, u32)>, side: Side, net: &[(i32, u32)])
    requires
        best_first(side, old(side_levels)@),
        best_first(Side::Sell, net@),
    ensures
        best_first(side, final(side_levels)@),
        levels(final(side_levels)@) == overlay(levels(old(side_levels)@), levels(net@)),
{
    let ghost before = levels(side_levels@);
    proof {
        lemma_no_levels(net@.take(0));
        lemma_overlay_nothing(before);
    }
    let mut i: usize = 0;
    while i < net.len()
        invariant
            i <= net@.len(),
            best_first(side, side_levels@),
            best_first(Side::Sell, net@),
            levels(side_levels@) == overlay(before, levels(net@.take(i as int))),
        decreases net@.len() - i,
    {
        let (price, qty): (i32, u32) = net[i];
        proof {
            let t = net@.take(i as int);
            assert(net@.take(i + 1) =~= t.insert(i as int, (price, qty)));
            lemma_insert(Side::Sell, t, i as int, price, qty);
            lemma_overlay_step(before, levels(t), price, qty);
        }
        set(side_levels, side, price, qty);
        i += 1;
    }
    assert(net@.take(net@.len() as int) =~= net@);
}

/// The levels that stand: those of a quantity.
pub(crate) fn shed(side_levels: &[(i32, u32)], side: Side) -> (r: Vec<(i32, u32)>)
    requires
        best_first(side, side_levels@),
    ensures
        best_first(side, r@),
        levels(r@) == overlay(Map::empty(), levels(side_levels@)),
{
    let mut r: Vec<(i32, u32)> = Vec::new();
    proof {
        lemma_no_levels(r@);
        lemma_no_levels(side_levels@.take(0));
        lemma_overlay_nothing(Map::empty());
    }
    let mut i: usize = 0;
    while i < side_levels.len()
        invariant
            i <= side_levels@.len(),
            best_first(side, side_levels@),
            best_first(side, r@),
            levels(r@) == overlay(Map::empty(), levels(side_levels@.take(i as int))),
        decreases side_levels@.len() - i,
    {
        let (price, qty): (i32, u32) = side_levels[i];
        proof {
            lemma_push(side, side_levels@, i as int);
            lemma_overlay_step(Map::empty(), levels(side_levels@.take(i as int)), price, qty);
        }
        set(&mut r, side, price, qty);
        i += 1;
    }
    assert(side_levels@.take(side_levels@.len() as int) =~= side_levels@);
    r
}

/// The same levels, owned.
pub(crate) fn copied(levels: &[(i32, u32)]) -> (r: Vec<(i32, u32)>)
    ensures
        r@ == levels@,
{
    let mut r: Vec<(i32, u32)> = Vec::new();
    let mut i: usize = 0;
    while i < levels.len()
        invariant
            i <= levels@.len(),
            r@ == levels@.take(i as int),
        decreases levels@.len() - i,
    {
        r.push(levels[i]);
        assert(levels@.take(i + 1) =~= levels@.take(i as int).push(levels@[i as int]));
        i += 1;
    }
    assert(r@ =~= levels@);
    r
}

} // verus!
