//! The node editor's form: a node's label, type, aliases and identifiers as typed, and
//! how they are shown.

use vstd::prelude::*;

use crate::graph::NodeType;
use crate::new_item;
use crate::order;
use crate::text;

verus! {

/// A node's curated fields as the editor saves them; the identifiers are kept sorted by
/// scheme, one value per scheme.
#[derive(Debug, Clone)]
pub struct NodeForm {
    pub label: String,
    pub node_type: NodeType,
    pub aliases: Vec<String>,
    pub identifiers: Vec<(String, String)>,
}

/// The node type the type dropdown's selection names, "Concept" past the choices.
pub open spec fn type_at(selected: u32) -> NodeType {
    if selected == 0 {
        NodeType::Person
    } else if selected == 1 {
        NodeType::Concept
    } else if selected == 2 {
        NodeType::School
    } else if selected == 3 {
        NodeType::Event
    } else if selected == 4 {
        NodeType::Place
    } else if selected == 5 {
        NodeType::WorkUncataloged
    } else {
        NodeType::Concept
    }
}

/// The `scheme: value` pair a line gives: split at its first `:`, both sides trimmed,
/// kept only when neither is empty.
pub open spec fn ident_line(line: Seq<char>) -> Option<(Seq<char>, Seq<char>)> {
    let i = text::index_of_from(line, ':', 0);
    if i < line.len() {
        let k = text::trim(line.take(i));
        let v = text::trim(line.skip(i + 1));
        if k.len() > 0 && v.len() > 0 {
            Some((k, v))
        } else {
            None
        }
    } else {
        None
    }
}

/// `m` with `k` set to `v`: an entry for `k` is replaced in place; otherwise the pair goes
/// before the first entry whose key does not sort before `k` (so a sorted `m` stays
/// sorted).
pub open spec fn put(m: Seq<(Seq<char>, Seq<char>)>, k: Seq<char>, v: Seq<char>) -> Seq<
    (Seq<char>, Seq<char>),
>
    decreases m.len(),
{
    if m.len() == 0 {
        seq![(k, v)]
    } else if m[0].0 == k {
        seq![(k, v)] + m.drop_first()
    } else if order::text_lt(m[0].0, k) {
        seq![m[0]] + put(m.drop_first(), k, v)
    } else {
        seq![(k, v)] + m
    }
}

/// The identifiers the lines give, each put in turn into a map kept sorted by scheme (a
/// later line for a scheme replaces an earlier one).
pub open spec fn idents_of(lines: Seq<Seq<char>>) -> Seq<(Seq<char>, Seq<char>)>
    decreases lines.len(),
{
    if lines.len() == 0 {
        seq![]
    } else {
        let m = idents_of(lines.drop_last());
        match ident_line(lines.last()) {
            Some(p) => put(m, p.0, p.1),
            None => m,
        }
    }
}

/// The lines of the identifiers text, trimmed and without empty ones (trimming a line
/// changes none of the pairs it gives).
pub open spec fn ident_lines(s: Seq<char>) -> Seq<Seq<char>> {
    text::nonempty_trimmed(text::split_on(s, seq!['\n']))
}

pub open spec fn pair_views(v: Seq<(String, String)>) -> Seq<(Seq<char>, Seq<char>)> {
    Seq::new(v.len(), |i: int| (v[i].0@, v[i].1@))
}

fn put_exec(m: &mut Vec<(String, String)>, k: &str, v: &str)
    ensures
        pair_views(final(m)@) == put(pair_views(old(m)@), k@, v@),
{
    let ghost mv = pair_views(m@);
    let mut p: usize = 0;
    assert(mv.skip(0) =~= mv);
    assert(mv.take(0) + put(mv.skip(0), k@, v@) =~= put(mv, k@, v@));
    while p < m.len() && !text::str_eq(m[p].0.as_str(), k) && order::str_less(m[p].0.as_str(), k)
        invariant
            p <= m@.len(),
            mv == pair_views(m@),
            put(mv, k@, v@) == mv.take(p as int) + put(mv.skip(p as int), k@, v@),
        decreases m.len() - p,
    {
        let ghost rest = mv.skip(p as int);
        assert(rest[0] == mv[p as int]);
        assert(rest.drop_first() =~= mv.skip(p + 1));
        assert(mv.take(p as int) + (seq![rest[0]] + put(rest.drop_first(), k@, v@)) =~= mv.take(
            p + 1,
        ) + put(mv.skip(p + 1), k@, v@));
        p += 1;
    }
    let ghost rest = mv.skip(p as int);
    if p < m.len() && text::str_eq(m[p].0.as_str(), k) {
        m[p] = (text::owned(k), text::owned(v));
        assert(rest.drop_first() =~= mv.skip(p + 1));
        assert(pair_views(m@) =~= mv.take(p as int) + (seq![(k@, v@)] + rest.drop_first()));
    } else {
        m.insert(p, (text::owned(k), text::owned(v)));
        proof {
            if p < mv.len() {
                assert(pair_views(m@) =~= mv.take(p as int) + (seq![(k@, v@)] + rest));
            } else {
                assert(pair_views(m@) =~= mv.take(p as int) + seq![(k@, v@)]);
            }
        }
    }
}

fn strings_of(v: &Vec<Vec<char>>) -> (r: Vec<String>)
    ensures
        text::string_views(r@) == text::views(v@),
{
    let mut r: Vec<String> = Vec::new();
    let mut k: usize = 0;
    while k < v.len()
        invariant
            k <= v@.len(),
            text::string_views(r@) =~= text::views(v@).take(k as int),
        decreases v.len() - k,
    {
        let ghost before = text::string_views(r@);
        r.push(text::string_from(&v[k]));
        assert(text::string_views(r@) =~= before.push(v@[k as int]@));
        assert(text::views(v@).take(k + 1) =~= text::views(v@).take(k as int).push(v@[k as int]@));
        k += 1;
    }
    assert(text::views(v@).take(v.len() as int) =~= text::views(v@));
    r
}

fn ident_line_exec(line: &Vec<char>) -> (r: Option<(String, String)>)
    ensures
        match ident_line(line@) {
            Some(p) => r matches Some(q) && q.0@ == p.0 && q.1@ == p.1,
            None => r is None,
        },
{
    let i = text::index_of_from_exec(line, ':', 0);
    proof {
        text::lemma_index_of_bounds(line@, ':', 0);
    }
    if i < line.len() {
        let head = text::slice_chars(line, 0, i);
        let tail = text::slice_chars(line, i + 1, line.len());
        assert(head@ =~= line@.take(i as int));
        assert(tail@ =~= line@.skip(i + 1));
        let k = text::trim_chars(&head);
        let v = text::trim_chars(&tail);
        if k.len() > 0 && v.len() > 0 {
            Some((text::string_from(&k), text::string_from(&v)))
        } else {
            None
        }
    } else {
        None
    }
}

/// What the node editor saves: the trimmed label (a blank one is refused, with the
/// sentence to show), the type of the dropdown's selection, the aliases split at `,`
/// (each trimmed, empty ones dropped), and the identifiers parsed from their text.
pub fn node_form(label: &str, selected: u32, aliases: &str, identifiers: &str) -> (r: Result<
    NodeForm,
    String,
>)
    ensures
        text::trim(label@).len() == 0 <==> r is Err,
        r matches Err(e) ==> e@ == "A node needs a label"@,
        r matches Ok(f) ==> {
            &&& f.label@ == text::trim(label@)
            &&& f.node_type == type_at(selected)
            &&& text::string_views(f.aliases@) == text::nonempty_trimmed(
                text::split_on(aliases@, seq![',']),
            )
            &&& pair_views(f.identifiers@) == idents_of(ident_lines(identifiers@))
        },
{
    let l = text::trim_chars(&text::chars_of(label));
    if l.len() == 0 {
        return Err(text::owned("A node needs a label"));
    }
    let node_type = if selected == 0 {
        NodeType::Person
    } else if selected == 1 {
        NodeType::Concept
    } else if selected == 2 {
        NodeType::School
    } else if selected == 3 {
        NodeType::Event
    } else if selected == 4 {
        NodeType::Place
    } else if selected == 5 {
        NodeType::WorkUncataloged
    } else {
        NodeType::Concept
    };
    let parts = text::split_trimmed(&text::chars_of(aliases), &[',']);
    proof {
        assert(seq![','] =~= [',']@);
        assert(seq!['\n'] =~= ['\n']@);
    }
    let alias_list = strings_of(&parts);
    let lines = text::split_trimmed(&text::chars_of(identifiers), &['\n']);
    let ghost ls = text::views(lines@);
    let mut idents: Vec<(String, String)> = Vec::new();
    let mut i: usize = 0;
    assert(ls.take(0) =~= Seq::<Seq<char>>::empty());
    assert(pair_views(idents@) =~= Seq::<(Seq<char>, Seq<char>)>::empty());
    while i < lines.len()
        invariant
            i <= lines@.len(),
            ls == text::views(lines@),
            pair_views(idents@) == idents_of(ls.take(i as int)),
        decreases lines.len() - i,
    {
        assert(ls.take(i + 1).drop_last() =~= ls.take(i as int));
        assert(ls.take(i + 1).last() == lines@[i as int]@);
        if let Some((k, v)) = ident_line_exec(&lines[i]) {
            put_exec(&mut idents, k.as_str(), v.as_str());
        }
        i += 1;
    }
    assert(ls.take(lines.len() as int) =~= ls);
    Ok(NodeForm { label: text::string_from(&l), node_type, aliases: alias_list, identifiers: idents })
}

/// The aliases field's text: the aliases joined with ", ".
pub fn aliases_text(aliases: &Vec<String>) -> (r: String)
    ensures
        r@ == new_item::joined_with(text::string_views(aliases@), ", "@),
{
    new_item::join_names(aliases, ", ")
}

/// The lines `scheme: value` of the identifiers text, one per identifier.
pub open spec fn ident_text_lines(ids: Seq<(String, String)>) -> Seq<Seq<char>> {
    Seq::new(ids.len(), |i: int| ids[i].0@ + ": "@ + ids[i].1@)
}

/// The identifiers field's text: one `scheme: value` line per identifier.
pub fn identifiers_text(ids: &Vec<(String, String)>) -> (r: String)
    ensures
        r@ == new_item::joined_with(ident_text_lines(ids@), "\n"@),
{
    let mut lines: Vec<String> = Vec::new();
    let mut i: usize = 0;
    while i < ids.len()
        invariant
            i <= ids@.len(),
            text::string_views(lines@) =~= ident_text_lines(ids@).take(i as int),
        decreases ids.len() - i,
    {
        let mut l = text::owned(ids[i].0.as_str());
        text::push_str(&mut l, ": ");
        text::push_str(&mut l, ids[i].1.as_str());
        let ghost before = text::string_views(lines@);
        lines.push(l);
        assert(text::string_views(lines@) =~= before.push(ident_text_lines(ids@)[i as int]));
        assert(ident_text_lines(ids@).take(i + 1) =~= ident_text_lines(ids@).take(i as int).push(
            ident_text_lines(ids@)[i as int],
        ));
        i += 1;
    }
    assert(ident_text_lines(ids@).take(ids.len() as int) =~= ident_text_lines(ids@));
    new_item::join_names(&lines, "\n")
}

} // verus!
