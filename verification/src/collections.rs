//! The order in which the collections sidebar lists a library's collections: depth-first,
//! each collection directly followed by its own sub-collections.

use vstd::prelude::*;

use crate::text;

verus! {

/// What the sidebar needs of one collection: its display name and the slug of its parent
/// collection, if it names one.
#[derive(Debug, Clone)]
pub struct Collection {
    pub name: String,
    pub parent: Option<String>,
}

/// A collection as `(slug, name, parent slug)`.
pub type CollView = (Seq<char>, Seq<char>, Option<Seq<char>>);

/// The views of `(slug, collection)` pairs.
pub open spec fn coll_views(cs: Seq<(String, Collection)>) -> Seq<CollView> {
    Seq::new(
        cs.len(),
        |i: int|
            (
                cs[i].0@,
                cs[i].1.name@,
                match cs[i].1.parent {
                    Some(p) => Some(p@),
                    None => None,
                },
            ),
    )
}

/// `s` is the slug of some collection.
pub open spec fn is_slug(cs: Seq<CollView>, s: Seq<char>) -> bool {
    exists|j: int| 0 <= j < cs.len() && cs[j].0 == s
}

/// The parent a collection is placed under: the one it names, unless no collection has
/// that slug or it names itself, in which case it is top-level (`None`).
pub open spec fn eff_parent(cs: Seq<CollView>, i: int) -> Option<Seq<char>> {
    match cs[i].2 {
        Some(p) => if is_slug(cs, p) && p != cs[i].0 {
            Some(p)
        } else {
            None
        },
        None => None,
    }
}

/// The indices `>= i` of the collections placed under `p`, in ascending order.
pub open spec fn children_from(cs: Seq<CollView>, p: Option<Seq<char>>, i: int) -> Seq<int>
    decreases cs.len() - i,
{
    if i < 0 || i >= cs.len() {
        seq![]
    } else if eff_parent(cs, i) == p {
        seq![i] + children_from(cs, p, i + 1)
    } else {
        children_from(cs, p, i + 1)
    }
}

/// The collections placed under `p`, in input order.
pub open spec fn children(cs: Seq<CollView>, p: Option<Seq<char>>) -> Seq<int> {
    children_from(cs, p, 0)
}

/// `stack` with `kids` pushed at depth `d`, the first of them on top.
pub open spec fn push_children(stack: Seq<(int, nat)>, kids: Seq<int>, d: nat) -> Seq<(int, nat)> {
    stack + Seq::new(kids.len(), |k: int| (kids[kids.len() - 1 - k], d))
}

/// How many entries of `v` are false.
pub open spec fn count_unvisited(v: Seq<bool>) -> nat
    decreases v.len(),
{
    if v.len() == 0 {
        0
    } else {
        count_unvisited(v.drop_last()) + if v.last() {
            0nat
        } else {
            1nat
        }
    }
}

pub proof fn lemma_count_unvisited_mark(v: Seq<bool>, i: int)
    requires
        0 <= i < v.len(),
        !v[i],
    ensures
        count_unvisited(v.update(i, true)) + 1 == count_unvisited(v),
    decreases v.len(),
{
    let u = v.update(i, true);
    if i == v.len() - 1 {
        assert(u.drop_last() =~= v.drop_last());
    } else {
        assert(u.drop_last() =~= v.drop_last().update(i, true));
        lemma_count_unvisited_mark(v.drop_last(), i);
    }
}

/// Depth-first walk: take the top `(index, depth)` of the stack; skip it if already
/// visited, else emit it, mark it, and push its children one level deeper. Gives the
/// emitted entries and the final marks.
pub open spec fn dfs(cs: Seq<CollView>, stack: Seq<(int, nat)>, visited: Seq<bool>) -> (Seq<
    (int, nat),
>, Seq<bool>)
    decreases count_unvisited(visited), stack.len(),
{
    if stack.len() == 0 {
        (seq![], visited)
    } else {
        let top = stack.last();
        let rest = stack.drop_last();
        if top.0 < 0 || top.0 >= visited.len() || visited[top.0] {
            dfs(cs, rest, visited)
        } else {
            proof {
                lemma_count_unvisited_mark(visited, top.0);
            }
            let r = dfs(
                cs,
                push_children(rest, children(cs, Some(cs[top.0].0)), top.1 + 1),
                visited.update(top.0, true),
            );
            (seq![top] + r.0, r.1)
        }
    }
}

/// The unmarked indices, ascending, at depth 0.
pub open spec fn leftovers(v: Seq<bool>) -> Seq<(int, nat)>
    decreases v.len(),
{
    if v.len() == 0 {
        seq![]
    } else {
        leftovers(v.drop_last()) + if v.last() {
            Seq::<(int, nat)>::empty()
        } else {
            seq![(v.len() - 1, 0nat)]
        }
    }
}

/// The sidebar order as `(index, depth)`: the depth-first walk from the top-level
/// collections (in input order), then every collection it did not reach (only possible
/// through a cycle of parents) at depth 0, in input order.
pub open spec fn tree_order(cs: Seq<CollView>) -> Seq<(int, nat)> {
    let r = dfs(cs, push_children(seq![], children(cs, None), 0), Seq::new(cs.len(), |i: int| false));
    r.0 + leftovers(r.1)
}

/// The sidebar rows `(slug, name, depth)` for an order given as `(index, depth)`.
pub open spec fn rows_of(cs: Seq<CollView>, order: Seq<(int, nat)>) -> Seq<(Seq<char>, Seq<char>, nat)> {
    Seq::new(order.len(), |k: int| (cs[order[k].0].0, cs[order[k].0].1, order[k].1))
}

/// The views of the sidebar rows.
pub open spec fn row_views(v: Seq<(String, String, usize)>) -> Seq<(Seq<char>, Seq<char>, nat)> {
    Seq::new(v.len(), |k: int| (v[k].0@, v[k].1@, v[k].2 as nat))
}

fn opt_chars(o: &Option<String>) -> (r: Option<Vec<char>>)
    ensures
        match *o {
            Some(p) => r matches Some(v) && v@ == p@,
            None => r is None,
        },
{
    match o {
        Some(p) => Some(text::chars_of(p.as_str())),
        None => None,
    }
}

fn opt_eq(a: &Option<Vec<char>>, b: &Option<Vec<char>>) -> (r: bool)
    ensures
        r == (match (*a, *b) {
            (Some(x), Some(y)) => x@ == y@,
            (None, None) => true,
            _ => false,
        }),
{
    match (a, b) {
        (Some(x), Some(y)) => text::chars_eq(x, y),
        (None, None) => true,
        _ => false,
    }
}

/// The effective parents of all collections.
fn effective_parents(slugs: &Vec<Vec<char>>, parents: &Vec<Option<Vec<char>>>, cs: Ghost<
    Seq<CollView>,
>) -> (r: Vec<Option<Vec<char>>>)
    requires
        slugs@.len() == parents@.len() == cs@.len(),
        forall|i: int| 0 <= i < cs@.len() ==> #[trigger] slugs@[i]@ == cs@[i].0,
        forall|i: int|
            0 <= i < cs@.len() ==> match (#[trigger] parents@[i], cs@[i].2) {
                (Some(x), Some(y)) => x@ == y,
                (None, None) => true,
                _ => false,
            },
    ensures
        r@.len() == cs@.len(),
        forall|i: int|
            0 <= i < cs@.len() ==> match (#[trigger] r@[i], eff_parent(cs@, i)) {
                (Some(x), Some(y)) => x@ == y,
                (None, None) => true,
                _ => false,
            },
{
    let mut r: Vec<Option<Vec<char>>> = Vec::new();
    let mut i: usize = 0;
    while i < parents.len()
        invariant
            i <= parents@.len(),
            slugs@.len() == parents@.len() == cs@.len(),
            r@.len() == i,
            forall|k: int| 0 <= k < cs@.len() ==> #[trigger] slugs@[k]@ == cs@[k].0,
            forall|k: int|
                0 <= k < cs@.len() ==> match (#[trigger] parents@[k], cs@[k].2) {
                    (Some(x), Some(y)) => x@ == y,
                    (None, None) => true,
                    _ => false,
                },
            forall|k: int|
                0 <= k < i ==> match (#[trigger] r@[k], eff_parent(cs@, k)) {
                    (Some(x), Some(y)) => x@ == y,
                    (None, None) => true,
                    _ => false,
                },
        decreases parents.len() - i,
    {
        let e: Option<Vec<char>> = match &parents[i] {
            Some(p) => {
                let mut known = false;
                let mut j: usize = 0;
                while j < slugs.len()
                    invariant
                        j <= slugs@.len() == cs@.len(),
                        forall|k: int| 0 <= k < cs@.len() ==> #[trigger] slugs@[k]@ == cs@[k].0,
                        known == (exists|k: int| 0 <= k < j && cs@[k].0 == p@),
                    decreases slugs.len() - j,
                {
                    if text::chars_eq(&slugs[j], p) {
                        known = true;
                    }
                    j += 1;
                }
                if known && !text::chars_eq(p, &slugs[i]) {
                    Some(text::slice_chars(p, 0, p.len()))
                } else {
                    None
                }
            },
            None => None,
        };
        proof {
            assert(p_matches(parents@[i as int], cs@[i as int].2));
        }
        let ghost before = r@;
        r.push(e);
        assert forall|k: int| 0 <= k < i + 1 implies match (#[trigger] r@[k], eff_parent(cs@, k)) {
            (Some(x), Some(y)) => x@ == y,
            (None, None) => true,
            _ => false,
        } by {
            if k < i {
                assert(r@[k] == before[k]);
            } else {
                assert(r@[k] == e);
                assert(p_matches(parents@[i as int], cs@[i as int].2));
                match cs@[k].2 {
                    Some(y) => {
                        assert(parents@[k] matches Some(x) && x@ == y);
                        assert(cs@[k].0 == slugs@[k]@);
                        if is_slug(cs@, y) && y != cs@[k].0 {
                            assert(e is Some);
                        } else {
                            assert(e is None);
                        }
                    },
                    None => {},
                }
            }
        }
        i += 1;
    }
    r
}

/// The parent slug views agree.
pub open spec fn p_matches(a: Option<Vec<char>>, b: Option<Seq<char>>) -> bool {
    match (a, b) {
        (Some(x), Some(y)) => x@ == y,
        (None, None) => true,
        _ => false,
    }
}

/// The view of an exec stack of `(index, depth)`.
pub open spec fn stack_view(v: Seq<(usize, usize)>) -> Seq<(int, nat)> {
    Seq::new(v.len(), |k: int| (v[k].0 as int, v[k].1 as nat))
}

/// An optional parent slug as a view.
pub open spec fn opt_view(o: Option<Vec<char>>) -> Option<Seq<char>> {
    match o {
        Some(x) => Some(x@),
        None => None,
    }
}

pub proof fn lemma_count_all_unvisited(n: nat)
    ensures
        count_unvisited(Seq::new(n, |i: int| false)) == n,
    decreases n,
{
    if n > 0 {
        assert(Seq::new(n, |i: int| false).drop_last() =~= Seq::new((n - 1) as nat, |i: int| false));
        lemma_count_all_unvisited((n - 1) as nat);
    }
}

pub proof fn lemma_count_unvisited_le(v: Seq<bool>)
    ensures
        count_unvisited(v) <= v.len(),
    decreases v.len(),
{
    if v.len() > 0 {
        lemma_count_unvisited_le(v.drop_last());
    }
}

pub proof fn lemma_children_from_bounds(cs: Seq<CollView>, p: Option<Seq<char>>, i: int)
    requires
        0 <= i,
    ensures
        forall|k: int| 0 <= k < children_from(cs, p, i).len() ==> i <= #[trigger] children_from(cs, p, i)[k] < cs.len()
            && eff_parent(cs, children_from(cs, p, i)[k]) == p,
    decreases cs.len() - i,
{
    if i < cs.len() {
        lemma_children_from_bounds(cs, p, i + 1);
        let rest = children_from(cs, p, i + 1);
        if eff_parent(cs, i) == p {
            assert forall|k: int| 0 <= k < children_from(cs, p, i).len() implies i <= #[trigger] children_from(cs, p, i)[k] < cs.len()
                && eff_parent(cs, children_from(cs, p, i)[k]) == p by {
                if k > 0 {
                    assert(children_from(cs, p, i)[k] == rest[k - 1]);
                }
            }
        }
    }
}

fn children_exec(eff: &Vec<Option<Vec<char>>>, p: &Option<Vec<char>>, cs: Ghost<Seq<CollView>>) -> (r: Vec<usize>)
    requires
        eff@.len() == cs@.len(),
        forall|i: int| 0 <= i < cs@.len() ==> opt_view(#[trigger] eff@[i]) == eff_parent(cs@, i),
    ensures
        r@.len() == children(cs@, opt_view(*p)).len(),
        forall|k: int| 0 <= k < r@.len() ==> #[trigger] r@[k] as int == children(cs@, opt_view(*p))[k],
{
    let ghost pv = opt_view(*p);
    let mut r: Vec<usize> = Vec::new();
    let mut i: usize = 0;
    while i < eff.len()
        invariant
            i <= eff@.len() == cs@.len(),
            pv == opt_view(*p),
            forall|k: int| 0 <= k < cs@.len() ==> opt_view(#[trigger] eff@[k]) == eff_parent(cs@, k),
            children(cs@, pv) == Seq::new(r@.len(), |k: int| r@[k] as int) + children_from(cs@, pv, i as int),
        decreases eff.len() - i,
    {
        let ghost before = Seq::new(r@.len(), |k: int| r@[k] as int);
        if opt_eq(&eff[i], p) {
            assert(opt_view(eff@[i as int]) == pv);
            r.push(i);
            assert(Seq::new(r@.len(), |k: int| r@[k] as int) =~= before.push(i as int));
            assert(before + (seq![i as int] + children_from(cs@, pv, i + 1)) =~= before.push(i as int) + children_from(cs@, pv, i + 1));
        } else {
            assert(opt_view(eff@[i as int]) != pv);
        }
        i += 1;
    }
    assert(children_from(cs@, pv, i as int) =~= Seq::<int>::empty());
    assert(children(cs@, pv) =~= Seq::new(r@.len(), |k: int| r@[k] as int));
    r
}

fn push_kids(stack: &mut Vec<(usize, usize)>, kids: &Vec<usize>, d: usize)
    ensures
        stack_view(final(stack)@) == push_children(stack_view(old(stack)@), Seq::new(kids@.len(), |k: int| kids@[k] as int), d as nat),
{
    let ghost start = stack_view(stack@);
    let ghost ks = Seq::new(kids@.len(), |k: int| kids@[k] as int);
    let mut k = kids.len();
    while k > 0
        invariant
            k <= kids@.len(),
            ks == Seq::new(kids@.len(), |k: int| kids@[k] as int),
            stack_view(stack@) == start + Seq::new((kids@.len() - k) as nat, |m: int| (ks[ks.len() - 1 - m], d as nat)),
        decreases k,
    {
        let ghost before = stack_view(stack@);
        stack.push((kids[k - 1], d));
        assert(stack_view(stack@) =~= before.push((kids@[k - 1] as int, d as nat)));
        k -= 1;
        assert(stack_view(stack@) =~= start + Seq::new((kids@.len() - k) as nat, |m: int| (ks[ks.len() - 1 - m], d as nat)));
    }
}

/// Depth-first sidebar order for a set of collections: top-level first, each one
/// immediately followed by its own children, as `(slug, name, depth)`. A `parent` that
/// names an unknown slug, or the collection itself, counts as top-level; a collection the
/// walk never reaches (only possible through a cycle of parents) still appears, at depth 0,
/// after everything else.
pub fn order_collection_tree(collections: &Vec<(String, Collection)>) -> (out: Vec<(String, String, usize)>)
    ensures
        row_views(out@) == rows_of(coll_views(collections@), tree_order(coll_views(collections@))),
{
    let ghost cs = coll_views(collections@);
    let n = collections.len();
    let mut slugs: Vec<Vec<char>> = Vec::new();
    let mut parents: Vec<Option<Vec<char>>> = Vec::new();
    let mut i: usize = 0;
    while i < n
        invariant
            i <= n == collections@.len() == cs.len(),
            cs == coll_views(collections@),
            slugs@.len() == i,
            parents@.len() == i,
            forall|k: int| 0 <= k < i ==> #[trigger] slugs@[k]@ == cs[k].0,
            forall|k: int| 0 <= k < i ==> p_matches(#[trigger] parents@[k], cs[k].2),
        decreases n - i,
    {
        slugs.push(text::chars_of(collections[i].0.as_str()));
        parents.push(opt_chars(&collections[i].1.parent));
        i += 1;
    }
    let eff = effective_parents(&slugs, &parents, Ghost(cs));
    assert forall|k: int| 0 <= k < cs.len() implies opt_view(#[trigger] eff@[k]) == eff_parent(cs, k) by {
        match (eff@[k], eff_parent(cs, k)) {
            (Some(x), Some(y)) => {},
            (None, None) => {},
            _ => {},
        }
    }

    let mut visited: Vec<bool> = Vec::new();
    let mut j: usize = 0;
    while j < n
        invariant
            j <= n,
            visited@ == Seq::new(j as nat, |k: int| false),
        decreases n - j,
    {
        visited.push(false);
        j += 1;
        assert(visited@ =~= Seq::new(j as nat, |k: int| false));
    }

    let roots = children_exec(&eff, &None, Ghost(cs));
    let mut stack: Vec<(usize, usize)> = Vec::new();
    push_kids(&mut stack, &roots, 0);
    proof {
        lemma_children_from_bounds(cs, None, 0);
        assert(Seq::new(roots@.len(), |k: int| roots@[k] as int) =~= children(cs, None));
        assert(stack_view(stack@) =~= push_children(seq![], children(cs, None), 0));
    }
    let ghost whole = dfs(cs, stack_view(stack@), visited@);
    let mut order: Vec<(usize, usize)> = Vec::new();
    proof {
        lemma_count_unvisited_le(visited@);
        lemma_count_all_unvisited(n as nat);
        assert(stack_view(order@) + whole.0 =~= whole.0);
        assert forall|k: int| 0 <= k < stack@.len() implies (#[trigger] stack@[k]).0 < n && stack@[k].1 + count_unvisited(visited@) <= n by {
            let sv = stack_view(stack@);
            let ch = children(cs, None);
            assert(sv[k] == (ch[ch.len() - 1 - k], 0nat));
        }
    }
    while stack.len() > 0
        invariant
            n == cs.len(),
            visited@.len() == n,
            eff@.len() == cs.len(),
            forall|k: int| 0 <= k < cs.len() ==> opt_view(#[trigger] eff@[k]) == eff_parent(cs, k),
            forall|k: int| 0 <= k < cs.len() ==> #[trigger] slugs@[k]@ == cs[k].0,
            slugs@.len() == n,
            forall|k: int| 0 <= k < stack@.len() ==> (#[trigger] stack@[k]).0 < n && stack@[k].1 + count_unvisited(visited@) <= n,
            count_unvisited(visited@) <= n,
            forall|m: int| 0 <= m < order@.len() ==> (#[trigger] order@[m]).0 < n,
            whole.0 == stack_view(order@) + dfs(cs, stack_view(stack@), visited@).0,
            whole.1 == dfs(cs, stack_view(stack@), visited@).1,
        decreases count_unvisited(visited@), stack.len(),
    {
        let ghost sv = stack_view(stack@);
        let top = stack.pop().unwrap();
        assert(stack_view(stack@) =~= sv.drop_last());
        assert(sv.last() == (top.0 as int, top.1 as nat));
        let (idx, d) = top;
        if visited[idx] {
        } else {
            let ghost vis_before = visited@;
            visited.set(idx, true);
            proof {
                lemma_count_unvisited_mark(vis_before, idx as int);
            }
            let ghost ord_before = stack_view(order@);
            order.push((idx, d));
            assert(stack_view(order@) =~= ord_before.push((idx as int, d as nat)));
            let parent = Some(text::slice_chars(&slugs[idx], 0, slugs[idx].len()));
            let kids = children_exec(&eff, &parent, Ghost(cs));
            proof {
                assert(slugs@[idx as int]@.subrange(0, slugs@[idx as int]@.len() as int) =~= slugs@[idx as int]@);
                lemma_children_from_bounds(cs, Some(cs[idx as int].0), 0);
                assert(Seq::new(kids@.len(), |k: int| kids@[k] as int) =~= children(cs, Some(cs[idx as int].0)));
            }
            let ghost st_before = stack@;
            push_kids(&mut stack, &kids, d + 1);
            proof {
                let sv2 = stack_view(stack@);
                assert(sv2 == push_children(sv.drop_last(), children(cs, Some(cs[idx as int].0)), (d + 1) as nat));
                assert forall|k: int| 0 <= k < stack@.len() implies (#[trigger] stack@[k]).0 < n && stack@[k].1 + count_unvisited(visited@) <= n by {
                    assert(sv2[k] == (stack@[k].0 as int, stack@[k].1 as nat));
                    if k < st_before.len() {
                        assert(sv2[k] == sv.drop_last()[k]);
                        assert(stack@[k] == st_before[k]);
                    } else {
                        let m = k - st_before.len();
                        let ch = children(cs, Some(cs[idx as int].0));
                        assert(sv2[k] == (ch[ch.len() - 1 - m], (d + 1) as nat));
                    }
                }
                assert(ord_before.push((idx as int, d as nat)) + dfs(cs, sv2, visited@).0 =~= ord_before + (seq![(idx as int, d as nat)] + dfs(cs, sv2, visited@).0));
            }
        }
    }

    let ghost marks = visited@;
    let ghost emitted = stack_view(order@);
    assert(emitted =~= whole.0);
    assert(leftovers(marks.take(0)) =~= Seq::<(int, nat)>::empty());
    let mut k: usize = 0;
    while k < n
        invariant
            k <= n == marks.len() == visited@.len(),
            marks == visited@,
            stack_view(order@) == emitted + leftovers(marks.take(k as int)),
            forall|m: int| 0 <= m < order@.len() ==> (#[trigger] order@[m]).0 < n,
            forall|m: int| 0 <= m < emitted.len() ==> 0 <= (#[trigger] emitted[m]).0 < n,
        decreases n - k,
    {
        assert(marks.take(k + 1).drop_last() =~= marks.take(k as int));
        let ghost before = stack_view(order@);
        if !visited[k] {
            order.push((k, 0));
            assert(stack_view(order@) =~= before.push((k as int, 0nat)));
        }
        k += 1;
        assert(stack_view(order@) =~= emitted + leftovers(marks.take(k as int)));
    }
    assert(marks.take(n as int) =~= marks);
    assert(stack_view(order@) == tree_order(cs));

    let mut out: Vec<(String, String, usize)> = Vec::new();
    let mut m: usize = 0;
    while m < order.len()
        invariant
            m <= order@.len(),
            n == collections@.len() == cs.len(),
            cs == coll_views(collections@),
            forall|q: int| 0 <= q < order@.len() ==> (#[trigger] order@[q]).0 < n,
            row_views(out@) == rows_of(cs, stack_view(order@)).take(m as int),
        decreases order.len() - m,
    {
        let (idx, d) = order[m];
        let slug = text::owned(collections[idx].0.as_str());
        let name = text::owned(collections[idx].1.name.as_str());
        let ghost before = row_views(out@);
        out.push((slug, name, d));
        assert(row_views(out@) =~= before.push((cs[idx as int].0, cs[idx as int].1, d as nat)));
        m += 1;
        assert(row_views(out@) =~= rows_of(cs, stack_view(order@)).take(m as int));
    }
    assert(rows_of(cs, stack_view(order@)).take(m as int) =~= rows_of(cs, stack_view(order@)));
    out
}

// ---------------------------------------------------------------------------
// Laws of the sidebar order
// ---------------------------------------------------------------------------

/// `i` is the index of some entry of `out`.
pub open spec fn emits(out: Seq<(int, nat)>, i: int) -> bool {
    exists|k: int| 0 <= k < out.len() && out[k].0 == i
}

pub proof fn lemma_push_children_in_range(cs: Seq<CollView>, st: Seq<(int, nat)>, p: Option<Seq<char>>, d: nat)
    requires
        forall|k: int| 0 <= k < st.len() ==> 0 <= (#[trigger] st[k]).0 < cs.len(),
    ensures
        forall|k: int| 0 <= k < push_children(st, children(cs, p), d).len() ==> 0 <= (#[trigger] push_children(st, children(cs, p), d)[k]).0 < cs.len(),
{
    lemma_children_from_bounds(cs, p, 0);
    let ch = children(cs, p);
    let st2 = push_children(st, ch, d);
    assert forall|k: int| 0 <= k < st2.len() implies 0 <= (#[trigger] st2[k]).0 < cs.len() by {
        if k >= st.len() {
            assert(st2[k] == (ch[ch.len() - 1 - (k - st.len())], d));
        } else {
            assert(st2[k] == st[k]);
        }
    }
}

/// What the walk emits was unmarked, is emitted once, and ends up marked; the marks it
/// ends with are the marks it began with plus what it emitted.
pub proof fn lemma_dfs_marks(cs: Seq<CollView>, st: Seq<(int, nat)>, v: Seq<bool>)
    requires
        v.len() == cs.len(),
        forall|k: int| 0 <= k < st.len() ==> 0 <= (#[trigger] st[k]).0 < cs.len(),
    ensures
        dfs(cs, st, v).1.len() == v.len(),
        forall|k: int| 0 <= k < dfs(cs, st, v).0.len() ==> {
            let i = (#[trigger] dfs(cs, st, v).0[k]).0;
            0 <= i < cs.len() && !v[i]
        },
        forall|k1: int, k2: int| 0 <= k1 < k2 < dfs(cs, st, v).0.len() ==> (#[trigger] dfs(cs, st, v).0[k1]).0 != (#[trigger] dfs(cs, st, v).0[k2]).0,
        forall|i: int| 0 <= i < cs.len() ==> #[trigger] dfs(cs, st, v).1[i] == (v[i] || emits(dfs(cs, st, v).0, i)),
    decreases count_unvisited(v), st.len(),
{
    if st.len() > 0 {
        let top = st.last();
        let rest = st.drop_last();
        assert forall|k: int| 0 <= k < rest.len() implies 0 <= (#[trigger] rest[k]).0 < cs.len() by {
            assert(rest[k] == st[k]);
        }
        assert(0 <= top.0 < cs.len());
        if v[top.0] {
            lemma_dfs_marks(cs, rest, v);
        } else {
            let v2 = v.update(top.0, true);
            let st2 = push_children(rest, children(cs, Some(cs[top.0].0)), top.1 + 1);
            lemma_count_unvisited_mark(v, top.0);
            lemma_push_children_in_range(cs, rest, Some(cs[top.0].0), top.1 + 1);
            lemma_dfs_marks(cs, st2, v2);
            let r2 = dfs(cs, st2, v2);
            let r = dfs(cs, st, v);
            assert(r.0 == seq![top] + r2.0);
            assert(r.1 == r2.1);
            assert forall|k: int| 0 <= k < r.0.len() implies {
                let i = (#[trigger] r.0[k]).0;
                0 <= i < cs.len() && !v[i]
            } by {
                if k > 0 {
                    assert(r.0[k] == r2.0[k - 1]);
                }
            }
            assert forall|k1: int, k2: int| 0 <= k1 < k2 < r.0.len() implies (#[trigger] r.0[k1]).0 != (#[trigger] r.0[k2]).0 by {
                assert(r.0[k2] == r2.0[k2 - 1]);
                if k1 > 0 {
                    assert(r.0[k1] == r2.0[k1 - 1]);
                } else {
                    assert(!v2[r2.0[k2 - 1].0]);
                }
            }
            assert forall|i: int| 0 <= i < cs.len() implies #[trigger] r.1[i] == (v[i] || emits(r.0, i)) by {
                assert(r2.1[i] == (v2[i] || emits(r2.0, i)));
                if i == top.0 {
                    assert(r.0[0].0 == i);
                    assert(emits(r.0, i));
                } else {
                    assert(v2[i] == v[i]);
                }
                if emits(r2.0, i) {
                    let k = choose|k: int| 0 <= k < r2.0.len() && r2.0[k].0 == i;
                    assert(r.0[k + 1] == r2.0[k]);
                }
                if emits(r.0, i) {
                    let k = choose|k: int| 0 <= k < r.0.len() && r.0[k].0 == i;
                    if k > 0 {
                        assert(r.0[k] == r2.0[k - 1]);
                        assert(emits(r2.0, i));
                    }
                }
            }
        }
    }
}

pub proof fn lemma_leftovers(v: Seq<bool>)
    ensures
        forall|k: int| 0 <= k < leftovers(v).len() ==> {
            let e = #[trigger] leftovers(v)[k];
            0 <= e.0 < v.len() && !v[e.0] && e.1 == 0
        },
        forall|k1: int, k2: int| 0 <= k1 < k2 < leftovers(v).len() ==> (#[trigger] leftovers(v)[k1]).0 < (#[trigger] leftovers(v)[k2]).0,
        forall|i: int| 0 <= i < v.len() && !v[i] ==> emits(leftovers(v), i),
    decreases v.len(),
{
    if v.len() > 0 {
        let w = v.drop_last();
        lemma_leftovers(w);
        let l = leftovers(v);
        let lw = leftovers(w);
        assert forall|k: int| 0 <= k < l.len() implies {
            let e = #[trigger] l[k];
            0 <= e.0 < v.len() && !v[e.0] && e.1 == 0
        } by {
            if k < lw.len() {
                assert(l[k] == lw[k]);
                assert(v[lw[k].0] == w[lw[k].0]);
            }
        }
        assert forall|k1: int, k2: int| 0 <= k1 < k2 < l.len() implies (#[trigger] l[k1]).0 < (#[trigger] l[k2]).0 by {
            assert(l[k1] == lw[k1]);
            if k2 < lw.len() {
                assert(l[k2] == lw[k2]);
            }
        }
        assert forall|i: int| 0 <= i < v.len() && !v[i] implies emits(l, i) by {
            if i < v.len() - 1 {
                assert(!w[i]);
                let k = choose|k: int| 0 <= k < lw.len() && lw[k].0 == i;
                assert(l[k] == lw[k]);
            } else {
                assert(l[lw.len() as int] == (i, 0nat));
            }
        }
    }
}

/// The sidebar lists every collection exactly once: each entry names a collection, no
/// collection is listed twice, and none is left out.
pub proof fn law_tree_lists_each_once(cs: Seq<CollView>)
    ensures
        forall|k: int| 0 <= k < tree_order(cs).len() ==> 0 <= (#[trigger] tree_order(cs)[k]).0 < cs.len(),
        forall|k1: int, k2: int| 0 <= k1 < k2 < tree_order(cs).len() ==> (#[trigger] tree_order(cs)[k1]).0 != (#[trigger] tree_order(cs)[k2]).0,
        forall|i: int| 0 <= i < cs.len() ==> emits(tree_order(cs), i),
{
    let v0 = Seq::new(cs.len(), |i: int| false);
    let st0 = push_children(seq![], children(cs, None), 0);
    lemma_push_children_in_range(cs, seq![], None, 0);
    lemma_dfs_marks(cs, st0, v0);
    let r = dfs(cs, st0, v0);
    lemma_leftovers(r.1);
    let l = leftovers(r.1);
    let t = tree_order(cs);
    assert(t == r.0 + l);
    assert forall|k: int| 0 <= k < t.len() implies 0 <= (#[trigger] t[k]).0 < cs.len() by {
        if k < r.0.len() {
            assert(t[k] == r.0[k]);
        } else {
            assert(t[k] == l[k - r.0.len()]);
        }
    }
    assert forall|k1: int, k2: int| 0 <= k1 < k2 < t.len() implies (#[trigger] t[k1]).0 != (#[trigger] t[k2]).0 by {
        if k2 < r.0.len() {
            assert(t[k1] == r.0[k1]);
            assert(t[k2] == r.0[k2]);
        } else if k1 >= r.0.len() {
            assert(t[k1] == l[k1 - r.0.len()]);
            assert(t[k2] == l[k2 - r.0.len()]);
        } else {
            assert(t[k1] == r.0[k1]);
            assert(t[k2] == l[k2 - r.0.len()]);
            let i = r.0[k1].0;
            assert(emits(r.0, i));
            assert(r.1[i]);
        }
    }
    assert forall|i: int| 0 <= i < cs.len() implies emits(t, i) by {
        if emits(r.0, i) {
            let k = choose|k: int| 0 <= k < r.0.len() && r.0[k].0 == i;
            assert(t[k] == r.0[k]);
        } else {
            assert(!r.1[i]);
            let k = choose|k: int| 0 <= k < l.len() && l[k].0 == i;
            assert(t[k + r.0.len()] == l[k]);
        }
    }
}

/// Entry `k` of `out` sits where the tree puts it: a top-level collection at depth 0, and
/// one at depth `d > 0` after an entry for its parent at depth `d - 1`.
pub open spec fn placed_well(cs: Seq<CollView>, out: Seq<(int, nat)>, k: int) -> bool {
    let e = out[k];
    &&& (eff_parent(cs, e.0) is None ==> e.1 == 0)
    &&& (e.1 > 0 ==> exists|j: int|
        0 <= j < k && out[j].1 + 1 == e.1 && eff_parent(cs, e.0) == Some(cs[out[j].0].0))
}

/// Every stack entry would be placed well after `prefix`.
pub open spec fn stack_placed(cs: Seq<CollView>, st: Seq<(int, nat)>, prefix: Seq<(int, nat)>) -> bool {
    forall|k: int| 0 <= k < st.len() ==> {
        let e = #[trigger] st[k];
        &&& (eff_parent(cs, e.0) is None ==> e.1 == 0)
        &&& (e.1 > 0 ==> exists|j: int|
            0 <= j < prefix.len() && prefix[j].1 + 1 == e.1 && eff_parent(cs, e.0) == Some(
                cs[prefix[j].0].0,
            ))
    }
}

pub proof fn lemma_dfs_nesting(cs: Seq<CollView>, st: Seq<(int, nat)>, v: Seq<bool>, prefix: Seq<(int, nat)>)
    requires
        v.len() == cs.len(),
        forall|k: int| 0 <= k < st.len() ==> 0 <= (#[trigger] st[k]).0 < cs.len(),
        stack_placed(cs, st, prefix),
    ensures
        forall|k: int| prefix.len() <= k < prefix.len() + dfs(cs, st, v).0.len() ==> #[trigger] placed_well(cs, prefix + dfs(cs, st, v).0, k),
    decreases count_unvisited(v), st.len(),
{
    if st.len() > 0 {
        let top = st.last();
        let rest = st.drop_last();
        assert forall|k: int| 0 <= k < rest.len() implies 0 <= (#[trigger] rest[k]).0 < cs.len() by {
            assert(rest[k] == st[k]);
        }
        assert(stack_placed(cs, rest, prefix)) by {
            assert forall|k: int| 0 <= k < rest.len() implies {
                let e = #[trigger] rest[k];
                &&& (eff_parent(cs, e.0) is None ==> e.1 == 0)
                &&& (e.1 > 0 ==> exists|j: int|
                    0 <= j < prefix.len() && prefix[j].1 + 1 == e.1 && eff_parent(cs, e.0) == Some(
                        cs[prefix[j].0].0,
                    ))
            } by {
                assert(rest[k] == st[k]);
            }
        }
        if v[top.0] {
            lemma_dfs_nesting(cs, rest, v, prefix);
            assert(dfs(cs, st, v) == dfs(cs, rest, v));
        } else {
            let v2 = v.update(top.0, true);
            let ch = children(cs, Some(cs[top.0].0));
            let st2 = push_children(rest, ch, top.1 + 1);
            let prefix2 = prefix.push(top);
            lemma_count_unvisited_mark(v, top.0);
            lemma_push_children_in_range(cs, rest, Some(cs[top.0].0), top.1 + 1);
            lemma_children_from_bounds(cs, Some(cs[top.0].0), 0);
            assert(stack_placed(cs, st2, prefix2)) by {
                assert forall|k: int| 0 <= k < st2.len() implies {
                    let e = #[trigger] st2[k];
                    &&& (eff_parent(cs, e.0) is None ==> e.1 == 0)
                    &&& (e.1 > 0 ==> exists|j: int|
                        0 <= j < prefix2.len() && prefix2[j].1 + 1 == e.1 && eff_parent(cs, e.0)
                            == Some(cs[prefix2[j].0].0))
                } by {
                    if k < rest.len() {
                        assert(st2[k] == rest[k]);
                        let e = rest[k];
                        if e.1 > 0 {
                            let j = choose|j: int|
                                0 <= j < prefix.len() && prefix[j].1 + 1 == e.1 && eff_parent(cs, e.0)
                                    == Some(cs[prefix[j].0].0);
                            assert(prefix2[j] == prefix[j]);
                        }
                    } else {
                        let m = k - rest.len();
                        assert(st2[k] == (ch[ch.len() - 1 - m], top.1 + 1));
                        assert(prefix2[prefix.len() as int] == top);
                    }
                }
            }
            lemma_dfs_nesting(cs, st2, v2, prefix2);
            let r2 = dfs(cs, st2, v2);
            let r = dfs(cs, st, v);
            assert(r.0 == seq![top] + r2.0);
            assert(prefix + r.0 =~= prefix2 + r2.0);
            let all = prefix + r.0;
            assert forall|k: int| prefix.len() <= k < prefix.len() + r.0.len() implies #[trigger] placed_well(cs, all, k) by {
                if k == prefix.len() {
                    assert(all[k] == top);
                    assert(st[st.len() - 1] == top);
                    if top.1 > 0 {
                        let j = choose|j: int|
                            0 <= j < prefix.len() && prefix[j].1 + 1 == top.1 && eff_parent(cs, top.0)
                                == Some(cs[prefix[j].0].0);
                        assert(all[j] == prefix[j]);
                    }
                } else {
                    assert(placed_well(cs, prefix2 + r2.0, k));
                }
            }
        }
    }
}

/// The sidebar shows the tree: a top-level collection is listed at depth 0, and a
/// collection listed at depth `d > 0` comes after its parent, which is listed at `d - 1`.
pub proof fn law_tree_nests_under_parents(cs: Seq<CollView>)
    ensures
        forall|k: int| 0 <= k < tree_order(cs).len() ==> #[trigger] placed_well(cs, tree_order(cs), k),
{
    let v0 = Seq::new(cs.len(), |i: int| false);
    let ch = children(cs, None);
    let st0 = push_children(seq![], ch, 0);
    lemma_push_children_in_range(cs, seq![], None, 0);
    lemma_children_from_bounds(cs, None, 0);
    assert(stack_placed(cs, st0, seq![])) by {
        assert forall|k: int| 0 <= k < st0.len() implies {
            let e = #[trigger] st0[k];
            &&& (eff_parent(cs, e.0) is None ==> e.1 == 0)
            &&& (e.1 > 0 ==> exists|j: int|
                0 <= j < Seq::<(int, nat)>::empty().len() && Seq::<(int, nat)>::empty()[j].1 + 1 == e.1
                    && eff_parent(cs, e.0) == Some(cs[Seq::<(int, nat)>::empty()[j].0].0))
        } by {
            assert(st0[k] == (ch[ch.len() - 1 - k], 0nat));
        }
    }
    lemma_dfs_nesting(cs, st0, v0, seq![]);
    let r = dfs(cs, st0, v0);
    lemma_leftovers(r.1);
    let l = leftovers(r.1);
    let t = tree_order(cs);
    assert(Seq::<(int, nat)>::empty() + r.0 =~= r.0);
    assert(t == r.0 + l);
    assert forall|k: int| 0 <= k < t.len() implies #[trigger] placed_well(cs, t, k) by {
        if k < r.0.len() {
            assert(placed_well(cs, r.0, k));
            assert(t[k] == r.0[k]);
            if t[k].1 > 0 {
                let j = choose|j: int|
                    0 <= j < k && r.0[j].1 + 1 == r.0[k].1 && eff_parent(cs, r.0[k].0) == Some(cs[r.0[j].0].0);
                assert(t[j] == r.0[j]);
            }
        } else {
            assert(t[k] == l[k - r.0.len()]);
        }
    }
}

} // verus!
