//! The relations map's library-wide analytics: the ten most connected items (by how many
//! forward relation edges touch them) and the ten most cited (by how many forward "cites"
//! relations name them as the cited work).

use vstd::prelude::*;

use crate::collections::{count_unvisited, lemma_count_all_unvisited, lemma_count_unvisited_mark};
use crate::graph::{self, ItemInfo, Relation};
use crate::order;
use crate::text;

verus! {

/// How many entries a ranking keeps.
pub const RANKING_LEN: usize = 10;

/// How much relation `r` of item `id` counts towards `x`: for connectedness, one for
/// each of its ends that is `x`; for citations, one when it cites `x`. Inverse relations
/// count for neither.
pub open spec fn touches(id: Seq<char>, r: Relation, x: Seq<char>, cited: bool) -> nat {
    if r.inverse {
        0
    } else if cited {
        if r.cites && r.target@ == x {
            1
        } else {
            0
        }
    } else {
        (if id == x {
            1nat
        } else {
            0nat
        }) + (if r.target@ == x {
            1nat
        } else {
            0nat
        })
    }
}

/// What the first `k` relations of item `id` count towards `x`.
pub open spec fn count_relations(id: Seq<char>, rs: Seq<Relation>, k: int, x: Seq<char>, cited: bool) -> nat
    decreases k,
{
    if k <= 0 {
        0
    } else {
        count_relations(id, rs, k - 1, x, cited) + touches(id, rs[k - 1], x, cited)
    }
}

/// What the first `n` items' relations count towards `x`.
pub open spec fn tally(items: Seq<(String, Vec<Relation>)>, n: int, x: Seq<char>, cited: bool) -> nat
    decreases n,
{
    if n <= 0 {
        0
    } else {
        tally(items, n - 1, x, cited) + count_relations(
            items[n - 1].0@,
            items[n - 1].1@,
            items[n - 1].1@.len() as int,
            x,
            cited,
        )
    }
}

/// How many relations the first `n` items record in all.
pub open spec fn total_relations(items: Seq<(String, Vec<Relation>)>, n: int) -> nat
    decreases n,
{
    if n <= 0 {
        0
    } else {
        total_relations(items, n - 1) + items[n - 1].1@.len()
    }
}

/// A ranking row as `(id, label, count)`.
pub type RankView = (Seq<char>, Seq<char>, int);

pub open spec fn rank_views(v: Seq<(String, String, usize)>) -> Seq<RankView> {
    Seq::new(v.len(), |i: int| (v[i].0@, v[i].1@, v[i].2 as int))
}

/// `a` ranks strictly above `b`: a higher count, or the same count and a label that sorts
/// first.
pub open spec fn ranks_before(a: RankView, b: RankView) -> bool {
    a.2 > b.2 || (a.2 == b.2 && order::text_lt(a.1, b.1))
}

/// `x`'s row in the ranking by `cited`.
pub open spec fn row_of(
    table: Seq<ItemInfo>,
    items: Seq<(String, Vec<Relation>)>,
    x: Seq<char>,
    cited: bool,
) -> RankView {
    (x, graph::node_kind(table, x).0, tally(items, items.len() as int, x, cited) as int)
}

/// `r` is a top-ten ranking of the items by `cited`: rows of distinct items with a
/// non-zero count, each with its label and count, best first; and every item left out
/// would rank no higher than the last row, which only happens once ten rows are full.
/// (Rows that tie on both count and label may come in any order.)
pub open spec fn top_ranked(
    table: Seq<ItemInfo>,
    items: Seq<(String, Vec<Relation>)>,
    cited: bool,
    r: Seq<RankView>,
) -> bool {
    &&& r.len() <= RANKING_LEN
    &&& forall|i: int, j: int| 0 <= i < j < r.len() ==> (#[trigger] r[i]).0 != (#[trigger] r[j]).0
    &&& forall|i: int|
        0 <= i < r.len() ==> #[trigger] r[i] == row_of(table, items, r[i].0, cited) && r[i].2 > 0
    &&& forall|i: int, j: int| 0 <= i < j < r.len() ==> !ranks_before(#[trigger] r[j], #[trigger] r[i])
    &&& forall|y: Seq<char>|
        #![trigger tally(items, items.len() as int, y, cited)]
        tally(items, items.len() as int, y, cited) > 0 && (forall|i: int|
            0 <= i < r.len() ==> (#[trigger] r[i]).0 != y) ==> r.len() == RANKING_LEN && !ranks_before(
            row_of(table, items, y, cited),
            r[r.len() - 1],
        )
}

// ---------------------------------------------------------------------------
// Counting
// ---------------------------------------------------------------------------

/// The count `v` holds for `y` (zero when it holds none).
pub open spec fn tally_of(v: Seq<(String, usize)>, y: Seq<char>) -> nat
    decreases v.len(),
{
    if v.len() == 0 {
        0
    } else if v[0].0@ == y {
        v[0].1 as nat
    } else {
        tally_of(v.drop_first(), y)
    }
}

/// Every row of `v` names a different item and holds a non-zero count.
pub open spec fn tallies_ok(v: Seq<(String, usize)>) -> bool {
    &&& forall|i: int, j: int| 0 <= i < j < v.len() ==> (#[trigger] v[i]).0@ != (#[trigger] v[j]).0@
    &&& forall|i: int| 0 <= i < v.len() ==> (#[trigger] v[i]).1 > 0
}

proof fn lemma_tally_of_at(v: Seq<(String, usize)>, k: int)
    requires
        tallies_ok(v),
        0 <= k < v.len(),
    ensures
        tally_of(v, v[k].0@) == v[k].1,
    decreases v.len(),
{
    if k > 0 {
        let t = v.drop_first();
        assert forall|i: int, j: int| 0 <= i < j < t.len() implies (#[trigger] t[i]).0@ != (
        #[trigger] t[j]).0@ by {
            assert(t[i] == v[i + 1] && t[j] == v[j + 1]);
        }
        assert forall|i: int| 0 <= i < t.len() implies (#[trigger] t[i]).1 > 0 by {
            assert(t[i] == v[i + 1]);
        }
        assert(v[0].0@ != v[k].0@);
        lemma_tally_of_at(t, k - 1);
    }
}

proof fn lemma_tally_of_absent(v: Seq<(String, usize)>, y: Seq<char>)
    requires
        forall|i: int| 0 <= i < v.len() ==> (#[trigger] v[i]).0@ != y,
    ensures
        tally_of(v, y) == 0,
    decreases v.len(),
{
    if v.len() > 0 {
        let t = v.drop_first();
        assert forall|i: int| 0 <= i < t.len() implies (#[trigger] t[i]).0@ != y by {
            assert(t[i] == v[i + 1]);
        }
        lemma_tally_of_absent(t, y);
    }
}

/// Adds one to `x`'s count in `v`.
fn bump(v: &mut Vec<(String, usize)>, x: &str)
    requires
        tallies_ok(old(v)@),
        tally_of(old(v)@, x@) < usize::MAX,
    ensures
        tallies_ok(final(v)@),
        forall|y: Seq<char>|
            #[trigger] tally_of(final(v)@, y) == tally_of(old(v)@, y) + (if y == x@ {
                1nat
            } else {
                0nat
            }),
{
    let ghost old_v = v@;
    let mut i: usize = 0;
    while i < v.len()
        invariant
            i <= v@.len(),
            v@ == old_v,
            old_v == old(v)@,
            tally_of(old_v, x@) < usize::MAX,
            tallies_ok(old_v),
            forall|j: int| 0 <= j < i ==> (#[trigger] old_v[j]).0@ != x@,
        decreases v.len() - i,
    {
        if text::str_eq(v[i].0.as_str(), x) {
            proof {
                lemma_tally_of_at(old_v, i as int);
            }
            let n = v[i].1 + 1;
            let name = text::owned(v[i].0.as_str());
            v[i] = (name, n);
            proof {
                let nv = v@;
                assert forall|a: int, b: int| 0 <= a < b < nv.len() implies (#[trigger] nv[a]).0@
                    != (#[trigger] nv[b]).0@ by {
                    assert(nv[a].0@ == old_v[a].0@ && nv[b].0@ == old_v[b].0@);
                }
                assert forall|a: int| 0 <= a < nv.len() implies (#[trigger] nv[a]).1 > 0 by {
                    assert(a != i ==> nv[a] == old_v[a]);
                }
                assert forall|y: Seq<char>| #[trigger] tally_of(nv, y) == tally_of(old_v, y) + (
                if y == x@ {
                    1nat
                } else {
                    0nat
                }) by {
                    if exists|m: int| 0 <= m < nv.len() && nv[m].0@ == y {
                        let m = choose|m: int| 0 <= m < nv.len() && nv[m].0@ == y;
                        lemma_tally_of_at(nv, m);
                        assert(old_v[m].0@ == y);
                        lemma_tally_of_at(old_v, m);
                        if m != i {
                            assert(nv[m] == old_v[m]);
                        }
                    } else {
                        lemma_tally_of_absent(nv, y);
                        assert forall|k: int| 0 <= k < old_v.len() implies (#[trigger] old_v[k]).0@
                            != y by {
                            assert(nv[k].0@ == old_v[k].0@);
                        }
                        lemma_tally_of_absent(old_v, y);
                    }
                }
            }
            return;
        }
        i += 1;
    }
    v.push((text::owned(x), 1));
    proof {
        let nv = v@;
        assert forall|a: int, b: int| 0 <= a < b < nv.len() implies (#[trigger] nv[a]).0@ != (
        #[trigger] nv[b]).0@ by {
            if b < old_v.len() {
                assert(nv[a] == old_v[a] && nv[b] == old_v[b]);
            } else {
                assert(nv[a] == old_v[a]);
            }
        }
        assert forall|a: int| 0 <= a < nv.len() implies (#[trigger] nv[a]).1 > 0 by {
            if a < old_v.len() {
                assert(nv[a] == old_v[a]);
            }
        }
        assert forall|y: Seq<char>| #[trigger] tally_of(nv, y) == tally_of(old_v, y) + (if y
            == x@ {
            1nat
        } else {
            0nat
        }) by {
            if y == x@ {
                lemma_tally_of_absent(old_v, y);
                lemma_tally_of_at(nv, old_v.len() as int);
            } else if exists|m: int| 0 <= m < old_v.len() && old_v[m].0@ == y {
                let m = choose|m: int| 0 <= m < old_v.len() && old_v[m].0@ == y;
                lemma_tally_of_at(old_v, m);
                assert(nv[m] == old_v[m]);
                lemma_tally_of_at(nv, m);
            } else {
                lemma_tally_of_absent(old_v, y);
                assert forall|k: int| 0 <= k < nv.len() implies (#[trigger] nv[k]).0@ != y by {
                    if k < old_v.len() {
                        assert(nv[k] == old_v[k]);
                    }
                }
                lemma_tally_of_absent(nv, y);
            }
        }
    }
}

proof fn lemma_count_relations_bound(id: Seq<char>, rs: Seq<Relation>, k: int, x: Seq<char>, cited: bool)
    requires
        0 <= k,
    ensures
        count_relations(id, rs, k, x, cited) <= 2 * k,
    decreases k,
{
    if k > 0 {
        lemma_count_relations_bound(id, rs, k - 1, x, cited);
    }
}

proof fn lemma_tally_bound(items: Seq<(String, Vec<Relation>)>, n: int, x: Seq<char>, cited: bool)
    requires
        0 <= n <= items.len(),
    ensures
        tally(items, n, x, cited) <= 2 * total_relations(items, n),
        total_relations(items, n) <= total_relations(items, items.len() as int),
    decreases n,
{
    if n > 0 {
        lemma_tally_bound(items, n - 1, x, cited);
        lemma_count_relations_bound(items[n - 1].0@, items[n - 1].1@, items[n - 1].1@.len() as int, x, cited);
    }
    lemma_total_monotone(items, n, items.len() as int);
}

proof fn lemma_total_monotone(items: Seq<(String, Vec<Relation>)>, a: int, b: int)
    requires
        0 <= a <= b <= items.len(),
    ensures
        total_relations(items, a) <= total_relations(items, b),
    decreases b - a,
{
    if a < b {
        lemma_total_monotone(items, a, b - 1);
    }
}

/// Each item's count, for every item with a non-zero count.
fn count_all(items: &Vec<(String, Vec<Relation>)>, cited: bool) -> (v: Vec<(String, usize)>)
    requires
        2 * total_relations(items@, items@.len() as int) < usize::MAX,
    ensures
        tallies_ok(v@),
        forall|y: Seq<char>|
            #[trigger] tally_of(v@, y) == tally(items@, items@.len() as int, y, cited),
{
    let mut v: Vec<(String, usize)> = Vec::new();
    let mut i: usize = 0;
    while i < items.len()
        invariant
            i <= items@.len(),
            2 * total_relations(items@, items@.len() as int) < usize::MAX,
            tallies_ok(v@),
            forall|y: Seq<char>| #[trigger] tally_of(v@, y) == tally(items@, i as int, y, cited),
        decreases items.len() - i,
    {
        let id = items[i].0.as_str();
        let rs = &items[i].1;
        let mut k: usize = 0;
        while k < rs.len()
            invariant
                i < items@.len(),
                k <= rs@.len(),
                rs@ == items@[i as int].1@,
                id@ == items@[i as int].0@,
                2 * total_relations(items@, items@.len() as int) < usize::MAX,
                tallies_ok(v@),
                forall|y: Seq<char>|
                    #[trigger] tally_of(v@, y) == tally(items@, i as int, y, cited) + count_relations(
                        id@,
                        rs@,
                        k as int,
                        y,
                        cited,
                    ),
            decreases rs.len() - k,
        {
            let r = &rs[k];
            proof {
                lemma_tally_bound(items@, i + 1, id@, cited);
                lemma_tally_bound(items@, i + 1, r.target@, cited);
                lemma_count_relations_bound(id@, rs@, k as int, id@, cited);
                lemma_count_relations_bound(id@, rs@, k as int, r.target@, cited);
                lemma_count_relations_bound(id@, rs@, rs@.len() as int, id@, cited);
                lemma_count_relations_bound(id@, rs@, rs@.len() as int, r.target@, cited);
                lemma_count_relations_mono(id@, rs@, k as int + 1, rs@.len() as int, id@, cited);
                lemma_count_relations_mono(id@, rs@, k as int + 1, rs@.len() as int, r.target@, cited);
            }
            if !r.inverse {
                if cited {
                    if r.cites {
                        bump(&mut v, r.target.as_str());
                    }
                } else {
                    bump(&mut v, id);
                    proof {
                        lemma_count_relations_mono(id@, rs@, k as int + 1, rs@.len() as int, r.target@, cited);
                    }
                    bump(&mut v, r.target.as_str());
                }
            }
            k += 1;
        }
        i += 1;
    }
    v
}

proof fn lemma_count_relations_mono(id: Seq<char>, rs: Seq<Relation>, a: int, b: int, x: Seq<char>, cited: bool)
    requires
        0 <= a <= b,
    ensures
        count_relations(id, rs, a, x, cited) <= count_relations(id, rs, b, x, cited),
    decreases b - a,
{
    if a < b {
        lemma_count_relations_mono(id, rs, a, b - 1, x, cited);
    }
}

// ---------------------------------------------------------------------------
// Ranking
// ---------------------------------------------------------------------------

proof fn lemma_ranks_before_transitive(a: RankView, b: RankView, c: RankView)
    requires
        ranks_before(a, b),
        ranks_before(b, c),
    ensures
        ranks_before(a, c),
{
    if a.2 == b.2 && b.2 == c.2 {
        order::lemma_lt_transitive(a.1, b.1, c.1);
    }
}

proof fn lemma_ranks_before_irreflexive(a: RankView)
    ensures
        !ranks_before(a, a),
{
    order::lemma_lt_irreflexive(a.1);
}

proof fn lemma_all_marked(v: Seq<bool>)
    requires
        count_unvisited(v) == 0,
    ensures
        forall|j: int| 0 <= j < v.len() ==> #[trigger] v[j],
    decreases v.len(),
{
    if v.len() > 0 {
        lemma_all_marked(v.drop_last());
        assert forall|j: int| 0 <= j < v.len() implies #[trigger] v[j] by {
            if j < v.len() - 1 {
                assert(v.drop_last()[j] == v[j]);
            }
        }
    }
}

/// Whether row `a` ranks strictly above row `b`.
fn row_ranks_before(a: &(String, String, usize), b: &(String, String, usize)) -> (r: bool)
    ensures
        r == ranks_before((a.0@, a.1@, a.2 as int), (b.0@, b.1@, b.2 as int)),
{
    a.2 > b.2 || (a.2 == b.2 && order::str_less(a.1.as_str(), b.1.as_str()))
}

/// No two rows of `v` name the same item.
pub open spec fn distinct_ids(v: Seq<RankView>) -> bool {
    forall|i: int, j: int| 0 <= i < j < v.len() ==> (#[trigger] v[i]).0 != (#[trigger] v[j]).0
}

/// `rv` is a best-first selection of at most `RANKING_LEN` rows of `pv`, each item once,
/// and every row of `pv` left out ranks no higher than any row taken, which only happens
/// once `RANKING_LEN` rows are taken.
pub open spec fn top_of(pv: Seq<RankView>, rv: Seq<RankView>) -> bool {
    &&& rv.len() <= RANKING_LEN
    &&& forall|i: int| 0 <= i < rv.len() ==> exists|j: int| 0 <= j < pv.len() && #[trigger] rv[i] == pv[j]
    &&& distinct_ids(rv)
    &&& forall|i: int, j: int| 0 <= i < j < rv.len() ==> !ranks_before(#[trigger] rv[j], #[trigger] rv[i])
    &&& forall|j: int|
        0 <= j < pv.len() && (forall|i: int| 0 <= i < rv.len() ==> (#[trigger] rv[i]).0 != pv[j].0)
            ==> rv.len() == RANKING_LEN && forall|i: int|
            0 <= i < rv.len() ==> !ranks_before(#[trigger] pv[j], rv[i])
}

/// The selection so far: `chosen` marks the rows of `pv` taken into `ov`.
#[verifier::opaque]
spec fn selection(pv: Seq<RankView>, chosen: Seq<bool>, ov: Seq<RankView>) -> bool {
    &&& chosen.len() == pv.len()
    &&& count_unvisited(chosen) + ov.len() == pv.len()
    &&& forall|i: int| 0 <= i < ov.len() ==> exists|j: int| 0 <= j < pv.len() && chosen[j] && #[trigger] ov[i] == pv[j]
    &&& forall|j: int| 0 <= j < pv.len() ==> (#[trigger] chosen[j] <==> exists|i: int| 0 <= i < ov.len() && (#[trigger] ov[i]).0 == pv[j].0)
    &&& distinct_ids(ov)
    &&& forall|i: int, j: int| 0 <= i < j < ov.len() ==> !ranks_before(#[trigger] ov[j], #[trigger] ov[i])
    &&& forall|j: int, i: int| 0 <= j < pv.len() && !chosen[j] && 0 <= i < ov.len() ==> !ranks_before(#[trigger] pv[j], #[trigger] ov[i])
}

proof fn lemma_selection_start(pv: Seq<RankView>)
    ensures
        selection(pv, Seq::new(pv.len(), |i: int| false), seq![]),
{
    reveal(selection);
    lemma_count_all_unvisited(pv.len());
}

proof fn lemma_selection_step(pv: Seq<RankView>, chosen: Seq<bool>, ov: Seq<RankView>, b: int)
    requires
        distinct_ids(pv),
        selection(pv, chosen, ov),
        0 <= b < pv.len(),
        !chosen[b],
        forall|k: int| 0 <= k < pv.len() && !chosen[k] ==> !ranks_before(#[trigger] pv[k], pv[b]),
    ensures
        selection(pv, chosen.update(b, true), ov.push(pv[b])),
{
    reveal(selection);
    let nc = chosen.update(b, true);
    let nv = ov.push(pv[b]);
    lemma_count_unvisited_mark(chosen, b);
    assert forall|i: int| 0 <= i < nv.len() implies exists|k: int| 0 <= k < pv.len() && nc[k] && #[trigger] nv[i] == pv[k] by {
        if i < ov.len() {
            let k = choose|k: int| 0 <= k < pv.len() && chosen[k] && #[trigger] ov[i] == pv[k];
            assert(nv[i] == ov[i] && nc[k]);
        } else {
            assert(nv[i] == pv[b] && nc[b]);
        }
    }
    assert forall|k: int| 0 <= k < pv.len() implies (#[trigger] nc[k] <==> exists|i: int| 0 <= i < nv.len() && (#[trigger] nv[i]).0 == pv[k].0) by {
        if k == b {
            assert(nv[ov.len() as int].0 == pv[k].0);
        } else {
            if exists|i: int| 0 <= i < nv.len() && (#[trigger] nv[i]).0 == pv[k].0 {
                let i = choose|i: int| 0 <= i < nv.len() && (#[trigger] nv[i]).0 == pv[k].0;
                if i == ov.len() {
                    if k < b {
                        assert(pv[k].0 != pv[b].0);
                    } else {
                        assert(pv[b].0 != pv[k].0);
                    }
                } else {
                    assert(ov[i].0 == pv[k].0);
                }
            }
            if chosen[k] {
                let i = choose|i: int| 0 <= i < ov.len() && (#[trigger] ov[i]).0 == pv[k].0;
                assert(nv[i].0 == pv[k].0);
            }
        }
    }
    assert forall|i: int, j: int| 0 <= i < j < nv.len() implies (#[trigger] nv[i]).0 != (#[trigger] nv[j]).0 by {
        if j == ov.len() {
            let k = choose|k: int| 0 <= k < pv.len() && chosen[k] && #[trigger] ov[i] == pv[k];
            assert(nv[i] == pv[k]);
            assert(k != b);
            if k < b {
                assert(pv[k].0 != pv[b].0);
            } else {
                assert(pv[b].0 != pv[k].0);
            }
        } else {
            assert(nv[i] == ov[i] && nv[j] == ov[j]);
        }
    }
    assert forall|i: int, j: int| 0 <= i < j < nv.len() implies !ranks_before(#[trigger] nv[j], #[trigger] nv[i]) by {
        if j == ov.len() {
            assert(nv[i] == ov[i]);
        } else {
            assert(nv[i] == ov[i] && nv[j] == ov[j]);
        }
    }
    assert forall|k: int, i: int| 0 <= k < pv.len() && !nc[k] && 0 <= i < nv.len() implies !ranks_before(#[trigger] pv[k], #[trigger] nv[i]) by {
        assert(!chosen[k]);
        if i < ov.len() {
            assert(nv[i] == ov[i]);
        }
    }
}

proof fn lemma_selection_done(pv: Seq<RankView>, chosen: Seq<bool>, ov: Seq<RankView>)
    requires
        selection(pv, chosen, ov),
        ov.len() <= RANKING_LEN,
        ov.len() == RANKING_LEN || ov.len() == pv.len(),
    ensures
        top_of(pv, ov),
{
    reveal(selection);
    let full = ov.len() < RANKING_LEN;
    if full {
        lemma_all_marked(chosen);
    }
    assert forall|i: int| 0 <= i < ov.len() implies exists|j: int| 0 <= j < pv.len() && #[trigger] ov[i] == pv[j] by {
        let j = choose|j: int| 0 <= j < pv.len() && chosen[j] && #[trigger] ov[i] == pv[j];
    }
    assert forall|j: int| 0 <= j < pv.len() && (forall|i: int| 0 <= i < ov.len() ==> (#[trigger] ov[i]).0 != pv[j].0)
        implies ov.len() == RANKING_LEN && forall|i: int| 0 <= i < ov.len() ==> !ranks_before(#[trigger] pv[j], ov[i]) by {
        assert(!(exists|i: int| 0 <= i < ov.len() && (#[trigger] ov[i]).0 == pv[j].0));
        assert(!chosen[j]);
    }
}

/// The index of the best row of `pool` not yet `chosen`, if any is left.
fn find_best(pool: &Vec<(String, String, usize)>, chosen: &Vec<bool>) -> (r: Option<usize>)
    requires
        chosen@.len() == pool@.len(),
    ensures
        match r {
            Some(b) => b < pool@.len() && !chosen@[b as int] && forall|k: int|
                0 <= k < pool@.len() && !chosen@[k] ==> !ranks_before(
                    #[trigger] rank_views(pool@)[k],
                    rank_views(pool@)[b as int],
                ),
            None => forall|k: int| 0 <= k < pool@.len() ==> #[trigger] chosen@[k],
        },
{
    let ghost pv = rank_views(pool@);
    let m = pool.len();
    let mut best: Option<usize> = None;
    let mut j: usize = 0;
    while j < m
        invariant
            j <= m == pool@.len() == chosen@.len(),
            pv == rank_views(pool@),
            match best {
                Some(b) => b < j && !chosen@[b as int] && forall|k: int|
                    0 <= k < j && !chosen@[k] ==> !ranks_before(#[trigger] pv[k], pv[b as int]),
                None => forall|k: int| 0 <= k < j ==> #[trigger] chosen@[k],
            },
        decreases m - j,
    {
        if !chosen[j] {
            match best {
                None => {
                    proof {
                        lemma_ranks_before_irreflexive(pv[j as int]);
                    }
                    best = Some(j);
                },
                Some(b) => {
                    if row_ranks_before(&pool[j], &pool[b]) {
                        proof {
                            lemma_ranks_before_irreflexive(pv[j as int]);
                            assert forall|k: int| 0 <= k < j + 1 && !chosen@[k] implies !ranks_before(
                                #[trigger] pv[k],
                                pv[j as int],
                            ) by {
                                if k < j && ranks_before(pv[k], pv[j as int]) {
                                    lemma_ranks_before_transitive(pv[k], pv[j as int], pv[b as int]);
                                }
                            }
                        }
                        best = Some(j);
                    }
                },
            }
        }
        j += 1;
    }
    best
}

/// The best `RANKING_LEN` rows of `pool` (whose rows name distinct items), best first.
fn top_rows(pool: &Vec<(String, String, usize)>) -> (r: Vec<(String, String, usize)>)
    requires
        distinct_ids(rank_views(pool@)),
    ensures
        top_of(rank_views(pool@), rank_views(r@)),
{
    let ghost pv = rank_views(pool@);
    let m = pool.len();
    let mut chosen: Vec<bool> = Vec::new();
    while chosen.len() < m
        invariant
            chosen@.len() <= m,
            chosen@ =~= Seq::new(chosen@.len(), |i: int| false),
        decreases m - chosen.len(),
    {
        chosen.push(false);
    }
    let mut out: Vec<(String, String, usize)> = Vec::new();
    proof {
        lemma_selection_start(pv);
        assert(rank_views(out@) =~= Seq::<RankView>::empty());
    }
    while out.len() < RANKING_LEN && out.len() < m
        invariant
            m == pool@.len(),
            pv == rank_views(pool@),
            distinct_ids(pv),
            out@.len() <= RANKING_LEN,
            out@.len() <= m,
            chosen@.len() == m,
            rank_views(out@).len() == out@.len(),
            selection(pv, chosen@, rank_views(out@)),
        decreases m - out.len(),
    {
        let b = match find_best(pool, &chosen) {
            Some(b) => b,
            None => {
                proof {
                    lemma_selection_not_full(pv, chosen@, rank_views(out@));
                }
                return out;
            },
        };
        let ghost ov = rank_views(out@);
        proof {
            lemma_selection_step(pv, chosen@, ov, b as int);
        }
        chosen.set(b, true);
        out.push((text::owned(pool[b].0.as_str()), text::owned(pool[b].1.as_str()), pool[b].2));
        assert(rank_views(out@) =~= ov.push(pv[b as int]));
        proof {
            lemma_selection_len(pv, chosen@, rank_views(out@));
        }
    }
    proof {
        lemma_selection_done(pv, chosen@, rank_views(out@));
    }
    out
}

proof fn lemma_selection_len(pv: Seq<RankView>, chosen: Seq<bool>, ov: Seq<RankView>)
    requires
        selection(pv, chosen, ov),
    ensures
        chosen.len() == pv.len(),
        ov.len() <= pv.len(),
{
    reveal(selection);
}

proof fn lemma_selection_not_full(pv: Seq<RankView>, chosen: Seq<bool>, ov: Seq<RankView>)
    requires
        selection(pv, chosen, ov),
        ov.len() < pv.len(),
    ensures
        exists|k: int| 0 <= k < chosen.len() && !#[trigger] chosen[k],
{
    reveal(selection);
    if forall|k: int| 0 <= k < chosen.len() ==> #[trigger] chosen[k] {
        lemma_all_marked_count(chosen);
    }
}

proof fn lemma_all_marked_count(v: Seq<bool>)
    requires
        forall|k: int| 0 <= k < v.len() ==> #[trigger] v[k],
    ensures
        count_unvisited(v) == 0,
    decreases v.len(),
{
    if v.len() > 0 {
        assert forall|k: int| 0 <= k < v.len() - 1 implies #[trigger] v.drop_last()[k] by {
            assert(v[k]);
        }
        lemma_all_marked_count(v.drop_last());
    }
}

proof fn lemma_no_unvisited(n: nat)
    ensures
        count_unvisited(Seq::new(n, |i: int| true)) == 0,
    decreases n,
{
    if n > 0 {
        assert(Seq::new(n, |i: int| true).drop_last() =~= Seq::new((n - 1) as nat, |i: int| true));
        lemma_no_unvisited((n - 1) as nat);
    }
}

/// The ranking rows for the counts `v`, each item with its label.
fn rows_for(table: &Vec<ItemInfo>, v: &Vec<(String, usize)>) -> (r: Vec<(String, String, usize)>)
    ensures
        r@.len() == v@.len(),
        forall|i: int|
            0 <= i < v@.len() ==> #[trigger] rank_views(r@)[i] == (
                v@[i].0@,
                graph::node_kind(table@, v@[i].0@).0,
                v@[i].1 as int,
            ),
{
    let mut out: Vec<(String, String, usize)> = Vec::new();
    let mut i: usize = 0;
    while i < v.len()
        invariant
            i <= v@.len(),
            out@.len() == i,
            forall|k: int|
                0 <= k < i ==> #[trigger] rank_views(out@)[k] == (
                    v@[k].0@,
                    graph::node_kind(table@, v@[k].0@).0,
                    v@[k].1 as int,
                ),
        decreases v.len() - i,
    {
        let lk = graph::graph_node_kind(table, v[i].0.as_str());
        let label = lk.0;
        assert(label@ == graph::node_kind(table@, v@[i as int].0@).0);
        let ghost before = out@;
        out.push((text::owned(v[i].0.as_str()), label, v[i].1));
        assert(rank_views(out@)[i as int] == (
            v@[i as int].0@,
            graph::node_kind(table@, v@[i as int].0@).0,
            v@[i as int].1 as int,
        ));
        assert forall|k: int| 0 <= k < i + 1 implies #[trigger] rank_views(out@)[k] == (
            v@[k].0@,
            graph::node_kind(table@, v@[k].0@).0,
            v@[k].1 as int,
        ) by {
            if k < i {
                assert(out@[k] == before[k]);
                assert(rank_views(out@)[k] == rank_views(before)[k]);
            }
        }
        i += 1;
    }
    out
}

/// The top-ten ranking of the items by `cited`.
fn rank(table: &Vec<ItemInfo>, items: &Vec<(String, Vec<Relation>)>, cited: bool) -> (r: Vec<
    (String, String, usize),
>)
    requires
        2 * total_relations(items@, items@.len() as int) < usize::MAX,
    ensures
        top_ranked(table@, items@, cited, rank_views(r@)),
{
    let v = count_all(items, cited);
    let rows = rows_for(table, &v);
    let ghost pv = rank_views(rows@);
    assert forall|i: int, j: int| 0 <= i < j < pv.len() implies (#[trigger] pv[i]).0 != (
    #[trigger] pv[j]).0 by {
        assert(v@[i].0@ != v@[j].0@);
    }
    let top = top_rows(&rows);
    let ghost rv = rank_views(top@);
    assert forall|i: int| 0 <= i < rv.len() implies #[trigger] rv[i] == row_of(
        table@,
        items@,
        rv[i].0,
        cited,
    ) && rv[i].2 > 0 by {
        let j = choose|j: int| 0 <= j < pv.len() && #[trigger] rv[i] == pv[j];
        lemma_tally_of_at(v@, j);
        assert(tally_of(v@, v@[j].0@) == tally(items@, items@.len() as int, v@[j].0@, cited));
    }
    assert forall|y: Seq<char>|
        #![trigger tally(items@, items@.len() as int, y, cited)]
        tally(items@, items@.len() as int, y, cited) > 0 && (forall|i: int|
            0 <= i < rv.len() ==> (#[trigger] rv[i]).0 != y) implies rv.len() == RANKING_LEN
        && !ranks_before(row_of(table@, items@, y, cited), rv[rv.len() - 1]) by {
        assert(tally_of(v@, y) > 0);
        if forall|k: int| 0 <= k < v@.len() ==> (#[trigger] v@[k]).0@ != y {
            lemma_tally_of_absent(v@, y);
        }
        let j = choose|j: int| 0 <= j < v@.len() && (#[trigger] v@[j]).0@ == y;
        lemma_tally_of_at(v@, j);
        assert(pv[j].0 == y);
        assert(pv[j] == row_of(table@, items@, y, cited));
        assert(rv.len() > 0 ==> !ranks_before(pv[j], rv[rv.len() - 1]));
    }
    top
}

/// The two library-wide rankings the relations map shows beside the graph: the ten items
/// most connected (by forward relation edges touching them, an edge from an item to
/// itself counting twice) and the ten most cited (by forward "cites" relations naming
/// them), each best first, ties broken by label. `items` is every entry key and every node
/// slug with the relations recorded on it; inverse relations are not counted, so no
/// connection is counted twice through its maintained backlink.
pub fn library_graph_analytics(table: &Vec<ItemInfo>, items: &Vec<(String, Vec<Relation>)>) -> (r: (
    Vec<(String, String, usize)>,
    Vec<(String, String, usize)>,
))
    requires
        2 * total_relations(items@, items@.len() as int) < usize::MAX,
    ensures
        top_ranked(table@, items@, false, rank_views(r.0@)),
        top_ranked(table@, items@, true, rank_views(r.1@)),
{
    (rank(table, items, false), rank(table, items, true))
}

} // verus!
