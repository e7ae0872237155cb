//! The relations dialog: the targets an item can be related to, the search that filters
//! them, and the predicates offered and currently chosen for each.

use vstd::prelude::*;

use crate::entries::EntrySummary;
use crate::graph::{self, NodeType, Relation};
use crate::text;

verus! {

/// One target the dialog lists.
#[derive(Debug, Clone)]
pub struct TargetRow {
    pub id: String,
    pub label: String,
    pub sub: String,
    /// The text the search looks in: label, subtitle and id, lowercased.
    pub hay: String,
}

/// An entry's title line and subtitle in the list: its title (the key when untitled),
/// and "author · year", whichever of the two it has, or the key when it has neither.
pub open spec fn entry_lines(e: EntrySummary) -> (Seq<char>, Seq<char>) {
    let label = if e.title@.len() == 0 {
        e.key@
    } else {
        e.title@
    };
    let sub = if e.author@.len() > 0 && e.year@.len() > 0 {
        e.author@ + " · "@ + e.year@
    } else if e.author@.len() > 0 {
        e.author@
    } else if e.year@.len() > 0 {
        e.year@
    } else {
        e.key@
    };
    (label, sub)
}

/// A node's title line and subtitle: its label (the slug when unlabelled), and its type's
/// label and slug.
pub open spec fn node_lines(slug: Seq<char>, t: NodeType, label: Seq<char>) -> (Seq<char>, Seq<char>) {
    (if label.len() == 0 {
        slug
    } else {
        label
    }, graph::node_type_label(t) + " · "@ + slug)
}

/// The search text of a row.
pub open spec fn hay_of(label: Seq<char>, sub: Seq<char>, id: Seq<char>) -> Seq<char> {
    text::lower(label + seq![' '] + sub + seq![' '] + id)
}

fn make_row(id: &str, label: String, sub: String) -> (r: TargetRow)
    ensures
        r.id@ == id@,
        r.label@ == label@,
        r.sub@ == sub@,
        r.hay@ == hay_of(label@, sub@, id@),
{
    let mut h = text::owned(label.as_str());
    text::push_char(&mut h, ' ');
    text::push_str(&mut h, sub.as_str());
    text::push_char(&mut h, ' ');
    text::push_str(&mut h, id);
    assert(h@ =~= label@ + seq![' '] + sub@ + seq![' '] + id@);
    let hay = text::to_lowercase(h.as_str());
    TargetRow { id: text::owned(id), label, sub, hay }
}

/// The row for entry `e`.
pub fn entry_row(e: &EntrySummary) -> (r: TargetRow)
    ensures
        r.id@ == e.key@,
        (r.label@, r.sub@) == entry_lines(*e),
        r.hay@ == hay_of(r.label@, r.sub@, r.id@),
{
    let label = if e.title.as_str().is_empty() {
        text::owned(e.key.as_str())
    } else {
        text::owned(e.title.as_str())
    };
    let has_author = !e.author.as_str().is_empty();
    let has_year = !e.year.as_str().is_empty();
    let sub = if has_author && has_year {
        let mut s = text::owned(e.author.as_str());
        text::push_str(&mut s, " · ");
        text::push_str(&mut s, e.year.as_str());
        s
    } else if has_author {
        text::owned(e.author.as_str())
    } else if has_year {
        text::owned(e.year.as_str())
    } else {
        text::owned(e.key.as_str())
    };
    make_row(e.key.as_str(), label, sub)
}

/// The row for the node `slug` of type `t` labelled `label`.
pub fn node_row(slug: &str, t: NodeType, label: &str) -> (r: TargetRow)
    ensures
        r.id@ == slug@,
        (r.label@, r.sub@) == node_lines(slug@, t, label@),
        r.hay@ == hay_of(r.label@, r.sub@, r.id@),
{
    let l = if label.is_empty() {
        text::owned(slug)
    } else {
        text::owned(label)
    };
    let mut sub = text::owned(t.label());
    text::push_str(&mut sub, " · ");
    text::push_str(&mut sub, slug);
    make_row(slug, l, sub)
}

/// Whether the search `query` shows a row with search text `hay`: an empty query shows
/// every row, otherwise the lowercased query must occur in it.
pub fn row_matches(hay: &str, query: &str) -> (b: bool)
    ensures
        b == (text::lower(query@).len() == 0 || text::has_substring(
            hay@,
            text::lower(query@),
        )),
{
    let q = text::chars_of(text::to_lowercase(query).as_str());
    if q.len() == 0 {
        return true;
    }
    let h = text::chars_of(hay);
    text::find_from_exec(&h, &q, 0).is_some()
}

/// The predicate a target currently has: the first forward relation naming it (one
/// predicate per target).
pub open spec fn current_predicate(forward: Seq<Relation>, target: Seq<char>) -> Option<Seq<char>>
    decreases forward.len(),
{
    if forward.len() == 0 {
        None
    } else if forward[0].target@ == target {
        Some(forward[0].predicate@)
    } else {
        current_predicate(forward.drop_first(), target)
    }
}

/// The predicate `target` is currently related by, among the item's forward relations.
pub fn current_predicate_of(forward: &Vec<Relation>, target: &str) -> (r: Option<String>)
    ensures
        match current_predicate(forward@, target@) {
            Some(p) => r matches Some(q) && q@ == p,
            None => r is None,
        },
{
    let mut i: usize = 0;
    assert(forward@.skip(0) =~= forward@);
    while i < forward.len()
        invariant
            i <= forward@.len(),
            current_predicate(forward@, target@) == current_predicate(forward@.skip(i as int), target@),
        decreases forward.len() - i,
    {
        assert(forward@.skip(i as int).drop_first() =~= forward@.skip(i + 1));
        if text::str_eq(forward[i].target.as_str(), target) {
            return Some(text::owned(forward[i].predicate.as_str()));
        }
        i += 1;
    }
    None
}

/// The predicates a row offers: those suited to the target's kind, plus its current one
/// when that is not among them, so a hand-authored relation round-trips.
pub fn predicate_options(suited: &Vec<String>, current: &Option<String>) -> (r: Vec<String>)
    ensures
        match current {
            Some(c) => if text::string_views(suited@).contains(c@) {
                text::string_views(r@) == text::string_views(suited@)
            } else {
                text::string_views(r@) == text::string_views(suited@).push(c@)
            },
            None => text::string_views(r@) == text::string_views(suited@),
        },
{
    let mut r: Vec<String> = Vec::new();
    let mut found = false;
    let mut i: usize = 0;
    while i < suited.len()
        invariant
            i <= suited@.len(),
            text::string_views(r@) =~= text::string_views(suited@).take(i as int),
            match current {
                Some(c) => found == text::string_views(suited@).take(i as int).contains(c@),
                None => !found,
            },
        decreases suited.len() - i,
    {
        let ghost before = text::string_views(suited@).take(i as int);
        if let Some(c) = current {
            if text::str_eq(suited[i].as_str(), c.as_str()) {
                found = true;
                assert(text::string_views(suited@).take(i + 1)[i as int] == c@);
            }
        }
        proof {
            if let Some(c) = current {
                let t = text::string_views(suited@).take(i + 1);
                assert(t =~= before.push(suited@[i as int]@));
                if before.contains(c@) {
                    let k = choose|k: int| 0 <= k < before.len() && before[k] == c@;
                    assert(t[k] == c@);
                }
                if t.contains(c@) && suited@[i as int]@ != c@ {
                    let k = choose|k: int| 0 <= k < t.len() && t[k] == c@;
                    assert(before[k] == c@);
                }
            }
        }
        let ghost rv = text::string_views(r@);
        let o = text::owned(suited[i].as_str());
        r.push(o);
        assert(text::string_views(r@) =~= rv.push(suited@[i as int]@));
        assert(text::string_views(suited@).take(i + 1) =~= before.push(suited@[i as int]@));
        i += 1;
    }
    assert(text::string_views(suited@).take(suited.len() as int) =~= text::string_views(suited@));
    if let Some(c) = current {
        if !found {
            let ghost before = text::string_views(r@);
            r.push(text::owned(c.as_str()));
            assert(text::string_views(r@) =~= before.push(c@));
        }
    }
    r
}

} // verus!
