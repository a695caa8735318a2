//! The merge of the books of several sources, as mathematics: the order in
//! which levels are taken, the positions that the merge picks, and what
//! holds of them.

use crate::ws::models::{better, sorted, PriceLevel, Side};
use vstd::prelude::*;

verus! {

/// A position among the candidate levels of a merge: level `level` of the
/// side that source `source` reports.
pub ghost struct Pick {
    pub source: int,
    pub level: int,
}

/// The rows a merge can run on: at least one source, each reporting
/// `depth` levels, no level strictly better than one before it.
pub open spec fn mergeable(side: Side, rows: Seq<Seq<PriceLevel>>, depth: nat) -> bool {
    &&& rows.len() >= 1
    &&& forall|s: int| 0 <= s < rows.len() ==> (#[trigger] rows[s]).len() == depth
    &&& forall|s: int| 0 <= s < rows.len() ==> sorted(side, #[trigger] rows[s])
}

/// True when `p` names a level that one of the sources reports.
pub open spec fn in_rows(rows: Seq<Seq<PriceLevel>>, depth: nat, p: Pick) -> bool {
    0 <= p.source < rows.len() && 0 <= p.level < depth
}

/// The level that `p` names.
pub open spec fn level_at(rows: Seq<Seq<PriceLevel>>, p: Pick) -> PriceLevel {
    rows[p.source][p.level]
}

/// The merge order: `a` comes before `b` when its price is strictly better,
/// or when the prices are identical and `a` belongs to the earlier source,
/// or to the same source at a shallower level.
pub open spec fn before(side: Side, rows: Seq<Seq<PriceLevel>>, a: Pick, b: Pick) -> bool {
    let pa = level_at(rows, a).price;
    let pb = level_at(rows, b).price;
    better(side, pa, pb) || (pa == pb && (a.source < b.source || (a.source == b.source && a.level
        < b.level)))
}

/// Among the sources below `upto`, the one whose next unmerged level comes
/// first in the merge order. `heads[s]` is the number of levels already
/// taken from source `s`.
pub open spec fn leader(side: Side, rows: Seq<Seq<PriceLevel>>, heads: Seq<int>, upto: int) -> int
    decreases upto,
{
    if upto <= 1 {
        0
    } else {
        let l = leader(side, rows, heads, upto - 1);
        if better(side, rows[upto - 1][heads[upto - 1]].price, rows[l][heads[l]].price) {
            upto - 1
        } else {
            l
        }
    }
}

/// How many levels of each source the first `n` steps of the merge take.
pub open spec fn heads_after(side: Side, rows: Seq<Seq<PriceLevel>>, n: nat) -> Seq<int>
    decreases n,
{
    if n == 0 {
        Seq::new(rows.len(), |s: int| 0int)
    } else {
        let heads = heads_after(side, rows, (n - 1) as nat);
        let l = leader(side, rows, heads, rows.len() as int);
        heads.update(l, heads[l] + 1)
    }
}

/// The position that the merge puts at index `i` of its result.
pub open spec fn pick(side: Side, rows: Seq<Seq<PriceLevel>>, i: nat) -> Pick {
    let heads = heads_after(side, rows, i);
    let l = leader(side, rows, heads, rows.len() as int);
    Pick { source: l, level: heads[l] }
}

/// True when the first `n` steps of the merge have taken position `p`.
pub open spec fn taken(side: Side, rows: Seq<Seq<PriceLevel>>, n: nat, p: Pick) -> bool {
    p.level < heads_after(side, rows, n)[p.source]
}

/// The merge order is transitive.
pub proof fn lemma_before_transitive(
    side: Side,
    rows: Seq<Seq<PriceLevel>>,
    a: Pick,
    b: Pick,
    c: Pick,
)
    requires
        before(side, rows, a, b),
        before(side, rows, b, c),
    ensures
        before(side, rows, a, c),
{
}

/// Of two distinct positions exactly one comes before the other, and no
/// position comes before itself.
pub proof fn lemma_before_total(side: Side, rows: Seq<Seq<PriceLevel>>, a: Pick, b: Pick)
    ensures
        a != b ==> (before(side, rows, a, b) <==> !before(side, rows, b, a)),
        !before(side, rows, a, a),
{
}

/// Within one source a shallower level comes before a deeper one.
pub proof fn lemma_row_order(
    side: Side,
    rows: Seq<Seq<PriceLevel>>,
    depth: nat,
    a: Pick,
    b: Pick,
)
    requires
        mergeable(side, rows, depth),
        in_rows(rows, depth, a),
        in_rows(rows, depth, b),
        a.source == b.source,
        a.level < b.level,
    ensures
        before(side, rows, a, b),
{
    let row = rows[a.source];
    assert(sorted(side, row));
    assert(!better(side, row[b.level].price, row[a.level].price));
}

/// The leader lies below `upto`, and its next level comes before the next
/// level of every other source below `upto`.
pub proof fn lemma_leader(
    side: Side,
    rows: Seq<Seq<PriceLevel>>,
    heads: Seq<int>,
    upto: int,
    s: int,
)
    requires
        1 <= upto,
        0 <= s < upto,
    ensures
        0 <= leader(side, rows, heads, upto) < upto,
        s != leader(side, rows, heads, upto) ==> before(
            side,
            rows,
            Pick {
                source: leader(side, rows, heads, upto),
                level: heads[leader(side, rows, heads, upto)],
            },
            Pick { source: s, level: heads[s] },
        ),
    decreases upto,
{
    if upto > 1 {
        let l = leader(side, rows, heads, upto - 1);
        if s < upto - 1 {
            lemma_leader(side, rows, heads, upto - 1, s);
        } else {
            lemma_leader(side, rows, heads, upto - 1, 0);
        }
    }
}

/// After `n` steps every source has given between zero and `n` levels.
pub proof fn lemma_heads_bounds(side: Side, rows: Seq<Seq<PriceLevel>>, n: nat, s: int)
    requires
        rows.len() >= 1,
        0 <= s < rows.len(),
    ensures
        heads_after(side, rows, n).len() == rows.len(),
        0 <= heads_after(side, rows, n)[s] <= n,
        0 <= pick(side, rows, n).source < rows.len(),
    decreases n,
{
    if n > 0 {
        lemma_heads_bounds(side, rows, (n - 1) as nat, s);
        let heads = heads_after(side, rows, (n - 1) as nat);
        lemma_leader(side, rows, heads, rows.len() as int, s);
    }
    lemma_leader(side, rows, heads_after(side, rows, n), rows.len() as int, s);
}

/// A step of the merge takes exactly the position it picks.
pub proof fn lemma_taken_step(side: Side, rows: Seq<Seq<PriceLevel>>, n: nat, p: Pick)
    requires
        rows.len() >= 1,
        0 <= p.source < rows.len(),
    ensures
        taken(side, rows, n + 1, p) <==> (taken(side, rows, n, p) || p == pick(side, rows, n)),
{
    lemma_heads_bounds(side, rows, n, p.source);
    assert(heads_after(side, rows, n + 1) == {
        let heads = heads_after(side, rows, n);
        let l = leader(side, rows, heads, rows.len() as int);
        heads.update(l, heads[l] + 1)
    });
}

/// What the merge has taken stays taken.
pub proof fn lemma_taken_monotone(
    side: Side,
    rows: Seq<Seq<PriceLevel>>,
    n: nat,
    m: nat,
    p: Pick,
)
    requires
        rows.len() >= 1,
        0 <= p.source < rows.len(),
        n <= m,
        taken(side, rows, n, p),
    ensures
        taken(side, rows, m, p),
    decreases m - n,
{
    if n < m {
        lemma_taken_step(side, rows, n, p);
        lemma_taken_monotone(side, rows, n + 1, m, p);
    }
}

/// Every position among the first `depth` picks names a reported level.
pub proof fn lemma_pick_in_rows(side: Side, rows: Seq<Seq<PriceLevel>>, depth: nat, i: nat)
    requires
        rows.len() >= 1,
        i < depth,
    ensures
        in_rows(rows, depth, pick(side, rows, i)),
        !taken(side, rows, i, pick(side, rows, i)),
        taken(side, rows, i + 1, pick(side, rows, i)),
{
    lemma_heads_bounds(side, rows, i, 0);
    let p = pick(side, rows, i);
    lemma_heads_bounds(side, rows, i, p.source);
    lemma_taken_step(side, rows, i, p);
}

/// Whatever the merge has taken comes before whatever it has not.
pub proof fn lemma_taken_before_rest(
    side: Side,
    rows: Seq<Seq<PriceLevel>>,
    depth: nat,
    n: nat,
    c: Pick,
    d: Pick,
)
    requires
        mergeable(side, rows, depth),
        n <= depth,
        in_rows(rows, depth, c),
        in_rows(rows, depth, d),
        taken(side, rows, n, c),
        !taken(side, rows, n, d),
    ensures
        before(side, rows, c, d),
    decreases n,
{
    if n == 0 {
        lemma_heads_bounds(side, rows, 0, c.source);
    } else {
        let m = (n - 1) as nat;
        lemma_taken_step(side, rows, m, c);
        lemma_taken_step(side, rows, m, d);
        if taken(side, rows, m, c) {
            lemma_taken_before_rest(side, rows, depth, m, c, d);
        } else {
            let heads = heads_after(side, rows, m);
            lemma_pick_in_rows(side, rows, depth, m);
            lemma_heads_bounds(side, rows, m, d.source);
            let head = Pick { source: d.source, level: heads[d.source] };
            if d.source == c.source {
                lemma_row_order(side, rows, depth, c, d);
            } else {
                lemma_leader(side, rows, heads, rows.len() as int, d.source);
                assert(before(side, rows, c, head));
                if head != d {
                    lemma_row_order(side, rows, depth, head, d);
                    lemma_before_transitive(side, rows, c, head, d);
                }
            }
        }
    }
}

/// What the merge has taken after `n` steps is what it picked in them.
pub proof fn lemma_taken_is_picked(side: Side, rows: Seq<Seq<PriceLevel>>, n: nat, p: Pick)
    requires
        rows.len() >= 1,
        0 <= p.source < rows.len(),
        0 <= p.level,
    ensures
        taken(side, rows, n, p) <==> exists|i: nat| i < n && pick(side, rows, i) == p,
    decreases n,
{
    if n == 0 {
        lemma_heads_bounds(side, rows, 0, p.source);
    } else {
        let m = (n - 1) as nat;
        lemma_taken_is_picked(side, rows, m, p);
        lemma_taken_step(side, rows, m, p);
        if taken(side, rows, n, p) {
            if taken(side, rows, m, p) {
                let i = choose|i: nat| i < m && pick(side, rows, i) == p;
                assert(i < n && pick(side, rows, i) == p);
            } else {
                assert(m < n && pick(side, rows, m) == p);
            }
        } else {
            assert forall|i: nat| i < n implies pick(side, rows, i) != p by {
                if i < m {
                } else {
                    assert(i == m);
                }
            }
        }
    }
}

/// The merge gives its positions in merge order: an earlier index holds a
/// position that comes before the one at a later index.
pub proof fn lemma_picks_ordered(
    side: Side,
    rows: Seq<Seq<PriceLevel>>,
    depth: nat,
    i: nat,
    j: nat,
)
    requires
        mergeable(side, rows, depth),
        i < j < depth,
    ensures
        in_rows(rows, depth, pick(side, rows, i)),
        in_rows(rows, depth, pick(side, rows, j)),
        before(side, rows, pick(side, rows, i), pick(side, rows, j)),
{
    let c = pick(side, rows, i);
    let d = pick(side, rows, j);
    lemma_pick_in_rows(side, rows, depth, i);
    lemma_pick_in_rows(side, rows, depth, j);
    lemma_taken_monotone(side, rows, i + 1, j, c);
    lemma_taken_before_rest(side, rows, depth, j, c, d);
}

/// The merge takes the best: a reported level that is not among the first
/// `n` positions of the result comes after each of them in merge order.
pub proof fn lemma_picks_are_best(
    side: Side,
    rows: Seq<Seq<PriceLevel>>,
    depth: nat,
    n: nat,
    i: nat,
    c: Pick,
)
    requires
        mergeable(side, rows, depth),
        n <= depth,
        i < n,
        in_rows(rows, depth, c),
        forall|k: nat| k < n ==> pick(side, rows, k) != c,
    ensures
        before(side, rows, pick(side, rows, i), c),
{
    let p = pick(side, rows, i);
    lemma_pick_in_rows(side, rows, depth, i);
    lemma_taken_monotone(side, rows, i + 1, n, p);
    lemma_taken_is_picked(side, rows, n, c);
    lemma_taken_before_rest(side, rows, depth, n, p, c);
}

/// Ties go to the earlier source: when two reported levels have the same
/// price and the merge puts the one of the later source at index `j`, it
/// has put the one of the earlier source at an index before `j`.
pub proof fn lemma_tie_goes_to_earlier_source(
    side: Side,
    rows: Seq<Seq<PriceLevel>>,
    depth: nat,
    j: nat,
    c: Pick,
)
    requires
        mergeable(side, rows, depth),
        j < depth,
        in_rows(rows, depth, c),
        level_at(rows, c).price == level_at(rows, pick(side, rows, j)).price,
        c.source < pick(side, rows, j).source,
    ensures
        exists|i: nat| i < j && pick(side, rows, i) == c,
{
    let d = pick(side, rows, j);
    lemma_pick_in_rows(side, rows, depth, j);
    lemma_taken_is_picked(side, rows, j, c);
    if !taken(side, rows, j, c) {
        lemma_taken_step(side, rows, j, c);
        lemma_taken_before_rest(side, rows, depth, j + 1, d, c);
        lemma_before_total(side, rows, c, d);
    }
}

} // verus!
