//! The creator-list editor's rules: what each row's fields become when the list is read
//! back, what switching a row between one name field and two does, and row reordering.

use vstd::prelude::*;

use crate::text;

verus! {

/// What one creator row holds: the role selected (its position in the role dropdown),
/// whether it uses one name field, the text of its Last, First and single name fields,
/// and the creator's prefix, suffix, comma-suffix flag and alias, which the editor does
/// not show but carries through unchanged.
#[derive(Debug, Clone)]
pub struct CreatorRow {
    pub role: u32,
    pub single_field: bool,
    pub family: String,
    pub given: String,
    pub single: String,
    pub prefix: Option<String>,
    pub suffix: Option<String>,
    pub comma_suffix: bool,
    pub alias: Option<String>,
}

/// A creator as read back from a row; `role` is its position in the role list.
#[derive(Debug, Clone)]
pub struct CreatorName {
    pub role: u32,
    pub family: String,
    pub given: String,
    pub single_field: bool,
    pub prefix: Option<String>,
    pub suffix: Option<String>,
    pub comma_suffix: bool,
    pub alias: Option<String>,
}

/// The role a dropdown position names, among `role_count` roles: that role, or the
/// author role (at position `author`) for a position past the list.
pub open spec fn role_at(selected: u32, role_count: u32, author: u32) -> u32 {
    if selected < role_count {
        selected
    } else {
        author
    }
}

/// The `(family, given)` names a row reads back as: the trimmed single field and an
/// empty given name for a single-field row, else the two trimmed fields.
pub open spec fn row_names(r: CreatorRow) -> (Seq<char>, Seq<char>) {
    if r.single_field {
        (text::trim(r.single@), Seq::<char>::empty())
    } else {
        (text::trim(r.family@), text::trim(r.given@))
    }
}

/// The creators a list of rows reads back as, in display order; rows with no name text
/// at all are dropped.
pub open spec fn read_back(rows: Seq<CreatorRow>, role_count: u32, author: u32) -> Seq<
    (u32, Seq<char>, Seq<char>, bool),
>
    decreases rows.len(),
{
    if rows.len() == 0 {
        seq![]
    } else {
        let rest = read_back(rows.drop_last(), role_count, author);
        let r = rows.last();
        let n = row_names(r);
        if n.0.len() == 0 && n.1.len() == 0 {
            rest
        } else {
            rest.push((role_at(r.role, role_count, author), n.0, n.1, r.single_field))
        }
    }
}

/// The rows a list of rows reads back from, in order: those with some name text.
pub open spec fn kept_rows(rows: Seq<CreatorRow>) -> Seq<CreatorRow>
    decreases rows.len(),
{
    if rows.len() == 0 {
        seq![]
    } else {
        let rest = kept_rows(rows.drop_last());
        let n = row_names(rows.last());
        if n.0.len() == 0 && n.1.len() == 0 {
            rest
        } else {
            rest.push(rows.last())
        }
    }
}

pub open spec fn name_views(v: Seq<CreatorName>) -> Seq<(u32, Seq<char>, Seq<char>, bool)> {
    Seq::new(v.len(), |i: int| (v[i].role, v[i].family@, v[i].given@, v[i].single_field))
}

/// Each creator read back carries the prefix, suffix, comma-suffix flag and alias of the
/// row it was read from.
pub open spec fn carries_passthrough(v: Seq<CreatorName>, rows: Seq<CreatorRow>) -> bool {
    &&& v.len() == rows.len()
    &&& forall|i: int|
        0 <= i < v.len() ==> (#[trigger] v[i]).prefix == rows[i].prefix && v[i].suffix
            == rows[i].suffix && v[i].comma_suffix == rows[i].comma_suffix && v[i].alias
            == rows[i].alias
}

/// The rows that are read back are exactly those with some name text after trimming (in
/// the single field for a one-field row, in Last or First otherwise), in their order.
pub proof fn law_kept_rows_have_names(rows: Seq<CreatorRow>)
    ensures
        kept_rows(rows) == rows.filter(
            |r: CreatorRow|
                if r.single_field {
                    text::trim(r.single@).len() > 0
                } else {
                    text::trim(r.family@).len() > 0 || text::trim(r.given@).len() > 0
                },
        ),
    decreases rows.len(),
{
    reveal(Seq::filter);
    if rows.len() > 0 {
        law_kept_rows_have_names(rows.drop_last());
    }
}

/// Reading rows back keeps, for each row with some name text, the role chosen in that
/// row's dropdown: the position itself when it is one of the `role_count` roles, the author
/// role only when it is past the list; and the row's trimmed names (the single field and
/// no given name for a one-field row, else Last and First) and field mode.
pub proof fn law_read_back_keeps_roles(rows: Seq<CreatorRow>, role_count: u32, author: u32)
    ensures
        read_back(rows, role_count, author).len() == kept_rows(rows).len(),
        forall|i: int|
            0 <= i < kept_rows(rows).len() ==> {
                &&& kept_rows(rows)[i].role < role_count ==> (#[trigger] read_back(
                    rows,
                    role_count,
                    author,
                )[i]).0 == kept_rows(rows)[i].role
                &&& kept_rows(rows)[i].role >= role_count ==> read_back(rows, role_count, author)[i].0
                    == author
                &&& kept_rows(rows)[i].single_field ==> read_back(rows, role_count, author)[i].1
                    == text::trim(kept_rows(rows)[i].single@) && read_back(
                    rows,
                    role_count,
                    author,
                )[i].2.len() == 0
                &&& !kept_rows(rows)[i].single_field ==> read_back(rows, role_count, author)[i].1
                    == text::trim(kept_rows(rows)[i].family@) && read_back(
                    rows,
                    role_count,
                    author,
                )[i].2 == text::trim(kept_rows(rows)[i].given@)
                &&& read_back(rows, role_count, author)[i].3 == kept_rows(rows)[i].single_field
            },
    decreases rows.len(),
{
    if rows.len() > 0 {
        law_read_back_keeps_roles(rows.drop_last(), role_count, author);
        let rb0 = read_back(rows.drop_last(), role_count, author);
        let k0 = kept_rows(rows.drop_last());
        let rb = read_back(rows, role_count, author);
        let k = kept_rows(rows);
        assert forall|i: int| 0 <= i < k.len() implies {
            &&& k[i].role < role_count ==> (#[trigger] rb[i]).0 == k[i].role
            &&& k[i].role >= role_count ==> rb[i].0 == author
            &&& k[i].single_field ==> rb[i].1 == text::trim(k[i].single@) && rb[i].2.len() == 0
            &&& !k[i].single_field ==> rb[i].1 == text::trim(k[i].family@) && rb[i].2
                == text::trim(k[i].given@)
            &&& rb[i].3 == k[i].single_field
        } by {
            if i < k0.len() {
                assert(rb[i] == rb0[i]);
                assert(k[i] == k0[i]);
            }
        }
    }
}

fn trimmed(s: &str) -> (r: String)
    ensures
        r@ == text::trim(s@),
{
    text::string_from(&text::trim_chars(&text::chars_of(s)))
}

fn clone_opt(o: &Option<String>) -> (r: Option<String>)
    ensures
        r == *o,
{
    match o {
        Some(x) => Some(x.clone()),
        None => None,
    }
}

/// The editor's creators, in display order: rows with no name text are dropped, and each
/// role position past the `role_count` roles becomes the author role (`author`).
pub fn creators(rows: &Vec<CreatorRow>, role_count: u32, author: u32) -> (v: Vec<CreatorName>)
    ensures
        name_views(v@) == read_back(rows@, role_count, author),
        carries_passthrough(v@, kept_rows(rows@)),
        v@.len() == kept_rows(rows@).len(),
        forall|i: int|
            0 <= i < v@.len() ==> (#[trigger] v@[i]).role == (if kept_rows(rows@)[i].role
                < role_count {
                kept_rows(rows@)[i].role
            } else {
                author
            }),
{
    proof {
        law_read_back_keeps_roles(rows@, role_count, author);
    }
    let mut out: Vec<CreatorName> = Vec::new();
    let mut i: usize = 0;
    assert(rows@.take(0) =~= Seq::<CreatorRow>::empty());
    while i < rows.len()
        invariant
            i <= rows@.len(),
            name_views(out@) == read_back(rows@.take(i as int), role_count, author),
            carries_passthrough(out@, kept_rows(rows@.take(i as int))),
        decreases rows.len() - i,
    {
        assert(rows@.take(i + 1).drop_last() =~= rows@.take(i as int));
        assert(rows@.take(i + 1).last() == rows@[i as int]);
        let r = &rows[i];
        let (family, given) = if r.single_field {
            (trimmed(r.single.as_str()), String::new())
        } else {
            (trimmed(r.family.as_str()), trimmed(r.given.as_str()))
        };
        if !(family.as_str().is_empty() && given.as_str().is_empty()) {
            let ghost before = name_views(out@);
            let ghost before_out = out@;
            let role = if r.role < role_count {
                r.role
            } else {
                author
            };
            out.push(
                CreatorName {
                    role,
                    family,
                    given,
                    single_field: r.single_field,
                    prefix: clone_opt(&r.prefix),
                    suffix: clone_opt(&r.suffix),
                    comma_suffix: r.comma_suffix,
                    alias: clone_opt(&r.alias),
                },
            );
            assert(name_views(out@) =~= before.push(
                (role_at(r.role, role_count, author), row_names(*r).0, row_names(*r).1, r.single_field),
            ));
            let ghost k = kept_rows(rows@.take(i + 1));
            assert(k == kept_rows(rows@.take(i as int)).push(rows@[i as int]));
            assert forall|j: int| 0 <= j < out@.len() implies (#[trigger] out@[j]).prefix
                == k[j].prefix && out@[j].suffix == k[j].suffix && out@[j].comma_suffix
                == k[j].comma_suffix && out@[j].alias == k[j].alias by {
                if j < before_out.len() {
                    assert(out@[j] == before_out[j]);
                }
            }
        }
        i += 1;
    }
    assert(rows@.take(rows.len() as int) =~= rows@);
    assert forall|i: int| 0 <= i < out@.len() implies (#[trigger] out@[i]).role == (if kept_rows(
        rows@,
    )[i].role < role_count {
        kept_rows(rows@)[i].role
    } else {
        author
    }) by {
        assert(name_views(out@)[i].0 == out@[i].role);
        assert(read_back(rows@, role_count, author)[i] == name_views(out@)[i]);
    }
    out
}

/// The role a newly added row starts with: the previous row's, so several creators of
/// one kind can be entered in a row; the author role for the first row.
pub fn new_row_role(rows: &Vec<CreatorRow>, role_count: u32, author: u32) -> (r: u32)
    ensures
        r == if rows@.len() > 0 {
            role_at(rows@.last().role, role_count, author)
        } else {
            author
        },
{
    if rows.len() > 0 {
        let last = rows[rows.len() - 1].role;
        if last < role_count {
            last
        } else {
            author
        }
    } else {
        author
    }
}

/// `given`, a space and `family`, trimmed: a two-field name joined into one field.
pub open spec fn joined_name(family: Seq<char>, given: Seq<char>) -> Seq<char> {
    text::trim(given + seq![' '] + family)
}

/// Switches a row between one name field and two. Going to two fields, the whole single
/// name goes into Last name and First is left blank (no guessing where to split); going to
/// one field, the two are joined as "First Last". The role is kept.
pub fn toggle_single_field(row: &mut CreatorRow)
    ensures
        final(row).single_field == !old(row).single_field,
        final(row).role == old(row).role,
        old(row).single_field ==> final(row).family@ == old(row).single@ && final(row).given@
            == Seq::<char>::empty() && final(row).single@ == old(row).single@,
        !old(row).single_field ==> final(row).single@ == joined_name(
            old(row).family@,
            old(row).given@,
        ) && final(row).family@ == old(row).family@ && final(row).given@ == old(row).given@,
{
    if row.single_field {
        row.family = text::owned(row.single.as_str());
        row.given = String::new();
        row.single_field = false;
    } else {
        let mut joined = text::owned(row.given.as_str());
        text::push_char(&mut joined, ' ');
        text::push_str(&mut joined, row.family.as_str());
        assert(joined@ =~= row.given@ + seq![' '] + row.family@);
        row.single = trimmed(joined.as_str());
        row.single_field = true;
    }
}

/// Swaps which of the two names is entered first.
pub fn swap_names(row: &mut CreatorRow)
    ensures
        final(row).family == old(row).given,
        final(row).given == old(row).family,
        final(row).single == old(row).single,
        final(row).single_field == old(row).single_field,
        final(row).role == old(row).role,
{
    std::mem::swap(&mut row.family, &mut row.given);
}

/// Moves row `idx` one place up (nothing happens to the first row or past the end).
pub fn move_up(rows: &mut Vec<CreatorRow>, idx: usize)
    ensures
        if 0 < idx < old(rows)@.len() {
            final(rows)@ == old(rows)@.update(idx - 1, old(rows)@[idx as int]).update(
                idx as int,
                old(rows)@[idx - 1],
            )
        } else {
            final(rows)@ == old(rows)@
        },
{
    if idx > 0 && idx < rows.len() {
        let ghost before = rows@;
        let r = rows.remove(idx);
        rows.insert(idx - 1, r);
        assert(rows@ =~= before.update(idx - 1, before[idx as int]).update(
            idx as int,
            before[idx - 1],
        ));
    }
}

/// Moves row `idx` one place down (nothing happens to the last row or past the end).
pub fn move_down(rows: &mut Vec<CreatorRow>, idx: usize)
    ensures
        if idx + 1 < old(rows)@.len() {
            final(rows)@ == old(rows)@.update(idx as int, old(rows)@[idx + 1]).update(
                idx + 1,
                old(rows)@[idx as int],
            )
        } else {
            final(rows)@ == old(rows)@
        },
{
    if idx < rows.len() && idx + 1 < rows.len() {
        let ghost before = rows@;
        let r = rows.remove(idx + 1);
        rows.insert(idx, r);
        assert(rows@ =~= before.update(idx as int, before[idx + 1]).update(
            idx + 1,
            before[idx as int],
        ));
    }
}

/// Moving a row up and then moving it down again (from its new place) gives back the list
/// as it was.
pub proof fn law_up_then_down_restores(rows: Seq<CreatorRow>, idx: int)
    requires
        0 < idx < rows.len(),
    ensures
        ({
            let up = rows.update(idx - 1, rows[idx]).update(idx, rows[idx - 1]);
            up.update(idx - 1, up[idx]).update(idx, up[idx - 1]) == rows
        }),
{
    let up = rows.update(idx - 1, rows[idx]).update(idx, rows[idx - 1]);
    assert(up.update(idx - 1, up[idx]).update(idx, up[idx - 1]) =~= rows);
}

} // verus!
