//! The entries spreadsheet's column layout: restoring a saved left-to-right column order.

use vstd::prelude::*;

use crate::text;

verus! {

/// The index of the first column whose id is `id`.
pub open spec fn pos_of(ids: Seq<Option<String>>, id: Seq<char>) -> Option<usize>
    decreases ids.len(),
{
    if ids.len() == 0 {
        None
    } else if ids.last() matches Some(x) && x@ == id && pos_of(ids.drop_last(), id) is None {
        Some((ids.len() - 1) as usize)
    } else {
        pos_of(ids.drop_last(), id)
    }
}

/// `s` without `p`.
pub open spec fn remove_value(s: Seq<usize>, p: usize) -> Seq<usize>
    decreases s.len(),
{
    if s.len() == 0 {
        seq![]
    } else {
        let rest = remove_value(s.drop_last(), p);
        if s.last() == p {
            rest
        } else {
            rest.push(s.last())
        }
    }
}

/// The columns `order` names, as indices into `ids`: walking `order`, each id that names
/// a column moves that column to the end, so a column ends up where its last mention
/// puts it. Ids that name no column are passed over.
pub open spec fn mentioned(ids: Seq<Option<String>>, order: Seq<Seq<char>>) -> Seq<usize>
    decreases order.len(),
{
    if order.len() == 0 {
        seq![]
    } else {
        let m = mentioned(ids, order.drop_last());
        match pos_of(ids, order.last()) {
            Some(p) => remove_value(m, p).push(p),
            None => m,
        }
    }
}

/// The indices below `n` that `m` lacks, ascending.
pub open spec fn unmentioned(m: Seq<usize>, n: int) -> Seq<usize>
    decreases n,
{
    if n <= 0 {
        seq![]
    } else {
        let rest = unmentioned(m, n - 1);
        if m.contains((n - 1) as usize) {
            rest
        } else {
            rest.push((n - 1) as usize)
        }
    }
}

/// The restored layout, as indices into `ids` from left to right: the columns the saved
/// `order` names, in that order, then every other column (a custom field added since the
/// order was saved, say) in its present relative position, trailing after them.
pub open spec fn restored_layout(ids: Seq<Option<String>>, order: Seq<Seq<char>>) -> Seq<usize> {
    let m = mentioned(ids, order);
    m + unmentioned(m, ids.len() as int)
}

/// The first column with id `id`.
fn find_column(ids: &Vec<Option<String>>, id: &str) -> (r: Option<usize>)
    ensures
        r == pos_of(ids@, id@),
{
    let mut i: usize = 0;
    while i < ids.len()
        invariant
            i <= ids@.len(),
            pos_of(ids@.take(i as int), id@) is None,
        decreases ids.len() - i,
    {
        let ghost t = ids@.take(i + 1);
        assert(t.drop_last() =~= ids@.take(i as int));
        let hit = match &ids[i] {
            Some(x) => text::str_eq(x.as_str(), id),
            None => false,
        };
        if hit {
            proof {
                lemma_pos_of_prefix(ids@, i as int + 1, id@);
            }
            return Some(i);
        }
        i += 1;
    }
    assert(ids@.take(ids.len() as int) =~= ids@);
    None
}

proof fn lemma_pos_of_prefix(ids: Seq<Option<String>>, k: int, id: Seq<char>)
    requires
        0 <= k <= ids.len(),
        pos_of(ids.take(k), id) is Some,
    ensures
        pos_of(ids, id) == pos_of(ids.take(k), id),
    decreases ids.len() - k,
{
    if k < ids.len() {
        assert(ids.take(k + 1).drop_last() =~= ids.take(k));
        lemma_pos_of_prefix(ids, k + 1, id);
    } else {
        assert(ids.take(k) =~= ids);
    }
}

/// `s` without `p`.
fn without_index(s: &Vec<usize>, p: usize) -> (r: Vec<usize>)
    ensures
        r@ == remove_value(s@, p),
{
    let mut out: Vec<usize> = Vec::new();
    let mut i: usize = 0;
    assert(s@.take(0) =~= Seq::<usize>::empty());
    while i < s.len()
        invariant
            i <= s@.len(),
            out@ == remove_value(s@.take(i as int), p),
        decreases s.len() - i,
    {
        assert(s@.take(i + 1).drop_last() =~= s@.take(i as int));
        if s[i] != p {
            out.push(s[i]);
        }
        i += 1;
    }
    assert(s@.take(s.len() as int) =~= s@);
    out
}

/// Whether `v` holds `x`.
fn holds(v: &Vec<usize>, x: usize) -> (b: bool)
    ensures
        b == v@.contains(x),
{
    let mut i: usize = 0;
    while i < v.len()
        invariant
            i <= v@.len(),
            forall|j: int| 0 <= j < i ==> v@[j] != x,
        decreases v.len() - i,
    {
        if v[i] == x {
            assert(v@[i as int] == x);
            return true;
        }
        i += 1;
    }
    false
}

/// Restores a saved left-to-right column order. `ids` are the present columns' ids
/// (`None` for a column without one), left to right; the result lists every column once,
/// as indices into `ids`: first the columns `order` names, in that order, then the rest
/// in their present relative order. Moving every column of the result to the end, in the
/// result's order, lays the columns out so.
pub fn reorder_columns(ids: &Vec<Option<String>>, order: &Vec<String>) -> (r: Vec<usize>)
    ensures
        r@ == restored_layout(ids@, text::string_views(order@)),
{
    let ghost os = text::string_views(order@);
    let mut m: Vec<usize> = Vec::new();
    let mut k: usize = 0;
    assert(os.take(0) =~= Seq::<Seq<char>>::empty());
    while k < order.len()
        invariant
            k <= order@.len(),
            os == text::string_views(order@),
            m@ == mentioned(ids@, os.take(k as int)),
        decreases order.len() - k,
    {
        assert(os.take(k + 1).drop_last() =~= os.take(k as int));
        assert(os.take(k + 1).last() == order@[k as int]@);
        if let Some(p) = find_column(ids, order[k].as_str()) {
            let mut rest = without_index(&m, p);
            rest.push(p);
            m = rest;
        }
        k += 1;
    }
    assert(os.take(order.len() as int) =~= os);
    let mut rest: Vec<usize> = Vec::new();
    let mut i: usize = 0;
    while i < ids.len()
        invariant
            i <= ids@.len(),
            rest@ == unmentioned(m@, i as int),
        decreases ids.len() - i,
    {
        if !holds(&m, i) {
            rest.push(i);
        }
        i += 1;
    }
    let mut out = m;
    let mut j: usize = 0;
    let ghost mv = out@;
    while j < rest.len()
        invariant
            j <= rest@.len(),
            out@ == mv + rest@.take(j as int),
        decreases rest.len() - j,
    {
        out.push(rest[j]);
        j += 1;
        assert(rest@.take(j as int) == rest@.take(j - 1).push(rest@[j - 1]));
    }
    assert(rest@.take(rest.len() as int) =~= rest@);
    out
}

// ---------------------------------------------------------------------------
// Laws
// ---------------------------------------------------------------------------

/// No entry of `s` twice.
pub open spec fn distinct(s: Seq<usize>) -> bool {
    forall|i: int, j: int| 0 <= i < j < s.len() ==> #[trigger] s[i] != #[trigger] s[j]
}

proof fn lemma_pos_of_bound(ids: Seq<Option<String>>, id: Seq<char>)
    requires
        ids.len() <= usize::MAX,
    ensures
        pos_of(ids, id) matches Some(p) ==> p < ids.len(),
    decreases ids.len(),
{
    if ids.len() > 0 {
        lemma_pos_of_bound(ids.drop_last(), id);
    }
}

proof fn lemma_remove_value(s: Seq<usize>, p: usize)
    ensures
        forall|x: usize| #[trigger] remove_value(s, p).contains(x) <==> (s.contains(x) && x != p),
        distinct(s) ==> distinct(remove_value(s, p)),
    decreases s.len(),
{
    if s.len() > 0 {
        let t = s.drop_last();
        lemma_remove_value(t, p);
        let r = remove_value(s, p);
        let rt = remove_value(t, p);
        assert forall|x: usize| r.contains(x) <==> (s.contains(x) && x != p) by {
            if r.contains(x) {
                let k = choose|k: int| 0 <= k < r.len() && r[k] == x;
                if k < rt.len() {
                    assert(rt[k] == x);
                    assert(rt.contains(x));
                    assert(t.contains(x) && x != p);
                    let q = choose|q: int| 0 <= q < t.len() && t[q] == x;
                    assert(s[q] == x);
                } else {
                    assert(s[s.len() - 1] == x);
                }
            }
            if s.contains(x) && x != p {
                let k = choose|k: int| 0 <= k < s.len() && s[k] == x;
                if k < s.len() - 1 {
                    assert(t[k] == x);
                    assert(t.contains(x));
                    assert(rt.contains(x));
                    let q = choose|q: int| 0 <= q < rt.len() && rt[q] == x;
                    assert(r[q] == x);
                } else {
                    assert(r[r.len() - 1] == x);
                }
            }
        }
        if distinct(s) {
            assert forall|i: int, j: int| 0 <= i < j < t.len() implies #[trigger] t[i]
                != #[trigger] t[j] by {
                assert(t[i] == s[i] && t[j] == s[j]);
            }
            assert forall|i: int, j: int| 0 <= i < j < r.len() implies #[trigger] r[i]
                != #[trigger] r[j] by {
                if j < rt.len() {
                    assert(r[i] == rt[i] && r[j] == rt[j]);
                } else {
                    assert(r[i] == rt[i]);
                    assert(rt.contains(rt[i]));
                    assert(t.contains(rt[i]));
                    let q = choose|q: int| 0 <= q < t.len() && t[q] == rt[i];
                    assert(s[q] == rt[i]);
                }
            }
        }
    }
}

proof fn lemma_mentioned(ids: Seq<Option<String>>, order: Seq<Seq<char>>)
    requires
        ids.len() <= usize::MAX,
    ensures
        distinct(mentioned(ids, order)),
        forall|i: int|
            0 <= i < mentioned(ids, order).len() ==> #[trigger] mentioned(ids, order)[i]
                < ids.len(),
    decreases order.len(),
{
    if order.len() > 0 {
        let m = mentioned(ids, order.drop_last());
        lemma_mentioned(ids, order.drop_last());
        lemma_pos_of_bound(ids, order.last());
        if let Some(p) = pos_of(ids, order.last()) {
            lemma_remove_value(m, p);
            let r = remove_value(m, p);
            let n = r.push(p);
            assert forall|i: int, j: int| 0 <= i < j < n.len() implies #[trigger] n[i]
                != #[trigger] n[j] by {
                if j == r.len() {
                    assert(r.contains(r[i]));
                    assert(m.contains(r[i]) && r[i] != p);
                } else {
                    assert(n[i] == r[i] && n[j] == r[j]);
                }
            }
            assert forall|i: int| 0 <= i < n.len() implies #[trigger] n[i] < ids.len() by {
                if i < r.len() {
                    assert(r.contains(r[i]));
                    assert(m.contains(r[i]));
                    let q = choose|q: int| 0 <= q < m.len() && m[q] == r[i];
                    assert(m[q] < ids.len());
                }
            }
        }
    }
}

proof fn lemma_unmentioned(m: Seq<usize>, n: int)
    requires
        0 <= n <= usize::MAX,
    ensures
        forall|i: int| 0 <= i < unmentioned(m, n).len() ==> #[trigger] unmentioned(m, n)[i] < n,
        forall|i: int|
            0 <= i < unmentioned(m, n).len() ==> !m.contains(#[trigger] unmentioned(m, n)[i]),
        distinct(unmentioned(m, n)),
        forall|x: usize| x < n && !m.contains(x) ==> unmentioned(m, n).contains(x),
    decreases n,
{
    if n > 0 {
        lemma_unmentioned(m, n - 1);
        let r = unmentioned(m, n - 1);
        let u = unmentioned(m, n);
        assert forall|i: int| 0 <= i < u.len() implies #[trigger] u[i] < n && !m.contains(u[i]) by {
            if i < r.len() {
                assert(u[i] == r[i]);
            }
        }
        assert forall|i: int, j: int| 0 <= i < j < u.len() implies #[trigger] u[i]
            != #[trigger] u[j] by {
            if j < r.len() {
                assert(u[i] == r[i] && u[j] == r[j]);
            } else {
                assert(u[i] == r[i]);
            }
        }
        assert forall|x: usize| x < n && !m.contains(x) implies u.contains(x) by {
            if x < n - 1 {
                let q = choose|q: int| 0 <= q < r.len() && r[q] == x;
                assert(u[q] == x);
            } else {
                assert(u[u.len() - 1] == x);
            }
        }
    }
}

/// The restored layout lists every column exactly once: the order it produces is a
/// rearrangement of the present columns, none lost and none doubled.
pub proof fn law_layout_is_rearrangement(ids: Seq<Option<String>>, order: Seq<Seq<char>>)
    requires
        ids.len() <= usize::MAX,
    ensures
        distinct(restored_layout(ids, order)),
        forall|i: int|
            0 <= i < restored_layout(ids, order).len() ==> #[trigger] restored_layout(ids, order)[i]
                < ids.len(),
        forall|x: usize| x < ids.len() ==> restored_layout(ids, order).contains(x),
{
    let m = mentioned(ids, order);
    let u = unmentioned(m, ids.len() as int);
    let l = restored_layout(ids, order);
    lemma_mentioned(ids, order);
    lemma_unmentioned(m, ids.len() as int);
    assert forall|i: int, j: int| 0 <= i < j < l.len() implies #[trigger] l[i] != #[trigger] l[j] by {
        if j < m.len() {
            assert(l[i] == m[i] && l[j] == m[j]);
        } else if i >= m.len() {
            assert(l[i] == u[i - m.len()] && l[j] == u[j - m.len()]);
        } else {
            assert(l[i] == m[i] && l[j] == u[j - m.len()]);
            assert(!m.contains(u[j - m.len()]));
        }
    }
    assert forall|i: int| 0 <= i < l.len() implies #[trigger] l[i] < ids.len() by {
        if i < m.len() {
            assert(l[i] == m[i]);
        } else {
            assert(l[i] == u[i - m.len()]);
        }
    }
    assert forall|x: usize| x < ids.len() implies l.contains(x) by {
        if m.contains(x) {
            let q = choose|q: int| 0 <= q < m.len() && m[q] == x;
            assert(l[q] == x);
        } else {
            let q = choose|q: int| 0 <= q < u.len() && u[q] == x;
            assert(l[m.len() + q] == x);
        }
    }
}

} // verus!
