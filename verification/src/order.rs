//! The order of `str`: lexicographic, character by character (for UTF-8 text the byte
//! order and the character order agree), and lists kept sorted without repeats in it.

use vstd::prelude::*;

use crate::text;

verus! {

/// `a` sorts strictly before `b`.
pub open spec fn text_lt(a: Seq<char>, b: Seq<char>) -> bool
    decreases a.len(),
{
    if a.len() == 0 {
        b.len() > 0
    } else if b.len() == 0 {
        false
    } else if a[0] != b[0] {
        a[0] < b[0]
    } else {
        text_lt(a.drop_first(), b.drop_first())
    }
}

/// Every entry sorts strictly before the entries after it: sorted, and nothing twice.
pub open spec fn strictly_sorted(s: Seq<Seq<char>>) -> bool {
    forall|i: int, j: int| 0 <= i < j < s.len() ==> text_lt(#[trigger] s[i], #[trigger] s[j])
}

/// `a` and `b` hold the same texts (each any number of times).
pub open spec fn same_items(a: Seq<Seq<char>>, b: Seq<Seq<char>>) -> bool {
    forall|y: Seq<char>| a.contains(y) <==> b.contains(y)
}

pub proof fn lemma_lt_irreflexive(a: Seq<char>)
    ensures
        !text_lt(a, a),
    decreases a.len(),
{
    if a.len() > 0 {
        lemma_lt_irreflexive(a.drop_first());
    }
}

pub proof fn lemma_lt_asymmetric(a: Seq<char>, b: Seq<char>)
    ensures
        text_lt(a, b) ==> !text_lt(b, a),
    decreases a.len(),
{
    if a.len() > 0 && b.len() > 0 && a[0] == b[0] {
        lemma_lt_asymmetric(a.drop_first(), b.drop_first());
    }
}

pub proof fn lemma_lt_total(a: Seq<char>, b: Seq<char>)
    ensures
        a != b ==> text_lt(a, b) || text_lt(b, a),
    decreases a.len(),
{
    if a.len() > 0 && b.len() > 0 && a[0] == b[0] {
        lemma_lt_total(a.drop_first(), b.drop_first());
        if a.drop_first() == b.drop_first() {
            assert(a =~= seq![a[0]] + a.drop_first());
            assert(b =~= seq![b[0]] + b.drop_first());
        }
    } else if a.len() == 0 && b.len() == 0 {
        assert(a =~= b);
    }
}

pub proof fn lemma_lt_transitive(a: Seq<char>, b: Seq<char>, c: Seq<char>)
    requires
        text_lt(a, b),
        text_lt(b, c),
    ensures
        text_lt(a, c),
    decreases a.len(),
{
    if a.len() > 0 && b.len() > 0 && c.len() > 0 && a[0] == b[0] && b[0] == c[0] {
        lemma_lt_transitive(a.drop_first(), b.drop_first(), c.drop_first());
    }
}

/// Whether `a` sorts strictly before `b`.
pub fn chars_less(a: &[char], b: &[char]) -> (r: bool)
    ensures
        r == text_lt(a@, b@),
{
    let mut i: usize = 0;
    assert(a@.skip(0) =~= a@);
    assert(b@.skip(0) =~= b@);
    while i < a.len() && i < b.len() && a[i] == b[i]
        invariant
            i <= a.len(),
            i <= b.len(),
            text_lt(a@, b@) == text_lt(a@.skip(i as int), b@.skip(i as int)),
        decreases a.len() - i,
    {
        assert(a@.skip(i as int).drop_first() =~= a@.skip(i + 1));
        assert(b@.skip(i as int).drop_first() =~= b@.skip(i + 1));
        i += 1;
    }
    if i == a.len() {
        i < b.len()
    } else if i == b.len() {
        false
    } else {
        assert(a@.skip(i as int)[0] == a@[i as int]);
        assert(b@.skip(i as int)[0] == b@[i as int]);
        a[i] < b[i]
    }
}

/// Whether `a` sorts strictly before `b`.
pub fn str_less(a: &str, b: &str) -> (r: bool)
    ensures
        r == text_lt(a@, b@),
{
    let x = text::chars_of(a);
    let y = text::chars_of(b);
    chars_less(&x, &y)
}

/// Adds `x` to the sorted list `v`, unless it holds it already.
pub fn insert_sorted(v: &mut Vec<String>, x: &str)
    requires
        strictly_sorted(text::string_views(old(v)@)),
    ensures
        strictly_sorted(text::string_views(final(v)@)),
        forall|y: Seq<char>|
            text::string_views(final(v)@).contains(y) <==> (text::string_views(
                old(v)@,
            ).contains(y) || y == x@),
{
    let ghost s = text::string_views(v@);
    let mut p: usize = 0;
    while p < v.len() && str_less(v[p].as_str(), x)
        invariant
            p <= v@.len(),
            s == text::string_views(v@),
            forall|j: int| 0 <= j < p ==> text_lt(#[trigger] s[j], x@),
        decreases v.len() - p,
    {
        p += 1;
    }
    if p < v.len() && text::str_eq(v[p].as_str(), x) {
        assert(s[p as int] == x@);
        return;
    }
    proof {
        if p < s.len() {
            lemma_lt_total(s[p as int], x@);
            assert(text_lt(x@, s[p as int]));
            assert forall|j: int| p <= j < s.len() implies text_lt(x@, #[trigger] s[j]) by {
                if j > p {
                    lemma_lt_transitive(x@, s[p as int], s[j]);
                }
            }
        }
    }
    v.insert(p, text::owned(x));
    let ghost t = text::string_views(v@);
    assert(t =~= s.insert(p as int, x@));
    assert forall|i: int, j: int| 0 <= i < j < t.len() implies text_lt(
        #[trigger] t[i],
        #[trigger] t[j],
    ) by {
        if j < p {
        } else if j == p {
        } else if i < p {
            lemma_lt_transitive(t[i], x@, t[j]);
        } else if i == p {
        } else {
            assert(t[i] == s[i - 1] && t[j] == s[j - 1]);
        }
    }
    assert forall|y: Seq<char>| t.contains(y) <==> (s.contains(y) || y == x@) by {
        if t.contains(y) {
            let k = choose|k: int| 0 <= k < t.len() && t[k] == y;
            if k < p {
                assert(s[k] == y);
            } else if k > p {
                assert(s[k - 1] == y);
            }
        }
        if s.contains(y) {
            let k = choose|k: int| 0 <= k < s.len() && s[k] == y;
            if k < p {
                assert(t[k] == y);
            } else {
                assert(t[k + 1] == y);
            }
        }
        if y == x@ {
            assert(t[p as int] == y);
        }
    }
}

/// The texts of `items`, sorted, each once.
pub fn sorted_unique(items: &Vec<String>) -> (r: Vec<String>)
    ensures
        strictly_sorted(text::string_views(r@)),
        same_items(text::string_views(r@), text::string_views(items@)),
{
    let ghost all = text::string_views(items@);
    let mut out: Vec<String> = Vec::new();
    let mut i: usize = 0;
    while i < items.len()
        invariant
            i <= items@.len(),
            all == text::string_views(items@),
            strictly_sorted(text::string_views(out@)),
            forall|y: Seq<char>|
                text::string_views(out@).contains(y) <==> all.take(i as int).contains(y),
        decreases items.len() - i,
    {
        let ghost before = text::string_views(out@);
        insert_sorted(&mut out, items[i].as_str());
        assert forall|y: Seq<char>| all.take(i + 1).contains(y) <==> (all.take(i as int).contains(y)
            || y == items@[i as int]@) by {
            if all.take(i + 1).contains(y) {
                let k = choose|k: int| 0 <= k < i + 1 && #[trigger] all.take(i + 1)[k] == y;
                if k < i {
                    assert(all.take(i as int)[k] == y);
                }
            }
            if all.take(i as int).contains(y) {
                let k = choose|k: int| 0 <= k < i && #[trigger] all.take(i as int)[k] == y;
                assert(all.take(i + 1)[k] == y);
            }
            if y == items@[i as int]@ {
                assert(all.take(i + 1)[i as int] == y);
            }
        }
        assert forall|y: Seq<char>| text::string_views(out@).contains(y) <==> all.take(
            i + 1,
        ).contains(y) by {
            assert(before.contains(y) <==> all.take(i as int).contains(y));
        }
        i += 1;
    }
    assert(all.take(items.len() as int) =~= all);
    out
}

/// A sorted list without repeats is fixed by what it holds: two such lists holding the
/// same texts are the same list.
pub proof fn law_sorted_unique_is_determined(a: Seq<Seq<char>>, b: Seq<Seq<char>>)
    requires
        strictly_sorted(a),
        strictly_sorted(b),
        same_items(a, b),
    ensures
        a == b,
    decreases a.len(),
{
    if a.len() == 0 {
        if b.len() > 0 {
            assert(b.contains(b[0]));
        }
        assert(a =~= b);
    } else if b.len() == 0 {
        assert(a.contains(a[0]));
    } else {
        // The first entries are the least of the common items, so they agree.
        assert(b.contains(a[0]));
        assert(a.contains(b[0]));
        let ka = choose|k: int| 0 <= k < b.len() && b[k] == a[0];
        let kb = choose|k: int| 0 <= k < a.len() && a[k] == b[0];
        if a[0] != b[0] {
            assert(ka > 0 && kb > 0);
            assert(text_lt(b[0], b[ka]));
            assert(text_lt(a[0], a[kb]));
            lemma_lt_asymmetric(a[0], b[0]);
            assert(false);
        }
        let ta = a.drop_first();
        let tb = b.drop_first();
        assert forall|i: int, j: int| 0 <= i < j < ta.len() implies text_lt(
            #[trigger] ta[i],
            #[trigger] ta[j],
        ) by {
            assert(ta[i] == a[i + 1] && ta[j] == a[j + 1]);
        }
        assert forall|i: int, j: int| 0 <= i < j < tb.len() implies text_lt(
            #[trigger] tb[i],
            #[trigger] tb[j],
        ) by {
            assert(tb[i] == b[i + 1] && tb[j] == b[j + 1]);
        }
        assert forall|y: Seq<char>| ta.contains(y) <==> tb.contains(y) by {
            if ta.contains(y) {
                let k = choose|k: int| 0 <= k < ta.len() && ta[k] == y;
                assert(a[k + 1] == y);
                assert(text_lt(a[0], y));
                lemma_lt_irreflexive(y);
                assert(b.contains(y));
                let m = choose|m: int| 0 <= m < b.len() && b[m] == y;
                assert(m != 0);
                assert(tb[m - 1] == y);
            }
            if tb.contains(y) {
                let k = choose|k: int| 0 <= k < tb.len() && tb[k] == y;
                assert(b[k + 1] == y);
                assert(text_lt(b[0], y));
                lemma_lt_irreflexive(y);
                assert(a.contains(y));
                let m = choose|m: int| 0 <= m < a.len() && a[m] == y;
                assert(m != 0);
                assert(ta[m - 1] == y);
            }
        }
        law_sorted_unique_is_determined(ta, tb);
        assert(a =~= seq![a[0]] + ta);
        assert(b =~= seq![b[0]] + tb);
    }
}

} // verus!
