//! Library-wide custom fields: their definitions (a name and a type), how a field is
//! offered in the detail pane, and the spreadsheet column each gets.

use vstd::prelude::*;

use crate::text;

verus! {

/// What kind of value a custom field holds.
#[derive(Debug, Clone, Copy, PartialEq, Eq, Structural)]
pub enum CustomFieldType {
    Text,
    Number,
    Tag,
    Date,
}

/// One custom field definition.
#[derive(Debug, Clone)]
pub struct CustomFieldDef {
    pub name: String,
    pub field_type: CustomFieldType,
}

/// The type choices offered when defining a field, in dropdown order, with their labels.
pub fn field_type_choices() -> (v: Vec<(&'static str, CustomFieldType)>)
    ensures
        v@.len() == 4,
        v@[0].0@ == "Text"@ && v@[0].1 == CustomFieldType::Text,
        v@[1].0@ == "Number"@ && v@[1].1 == CustomFieldType::Number,
        v@[2].0@ == "Tag"@ && v@[2].1 == CustomFieldType::Tag,
        v@[3].0@ == "Date"@ && v@[3].1 == CustomFieldType::Date,
{
    let mut v: Vec<(&'static str, CustomFieldType)> = Vec::new();
    v.push(("Text", CustomFieldType::Text));
    v.push(("Number", CustomFieldType::Number));
    v.push(("Tag", CustomFieldType::Tag));
    v.push(("Date", CustomFieldType::Date));
    v
}

/// The hint a field's entry shows while empty: tags are comma-separated, dates
/// `YYYY-MM-DD`; text and number fields show none.
pub fn field_placeholder(t: CustomFieldType) -> (r: Option<&'static str>)
    ensures
        t == CustomFieldType::Tag ==> (r matches Some(p) && p@ == "comma, separated, values"@),
        t == CustomFieldType::Date ==> (r matches Some(p) && p@ == "YYYY-MM-DD"@),
        t == CustomFieldType::Text || t == CustomFieldType::Number ==> r is None,
{
    match t {
        CustomFieldType::Tag => Some("comma, separated, values"),
        CustomFieldType::Date => Some("YYYY-MM-DD"),
        _ => None,
    }
}

/// The id of the spreadsheet column of the field named `name`.
pub fn custom_column_id(name: &str) -> (r: String)
    ensures
        r@ == "custom:"@ + name@,
{
    let mut r = text::owned("custom:");
    text::push_str(&mut r, name);
    r
}

/// The names of `defs`, in order.
pub open spec fn def_names(defs: Seq<CustomFieldDef>) -> Seq<Seq<char>> {
    Seq::new(defs.len(), |i: int| defs[i].name@)
}

/// Why a field could not be added.
pub open spec fn add_error(defs: Seq<CustomFieldDef>, name: Seq<char>) -> Option<Seq<char>> {
    let n = text::trim(name);
    if n.len() == 0 {
        Some("Give the field a name"@)
    } else if def_names(defs).contains(n) {
        Some("\""@ + n + "\" already exists"@)
    } else {
        None
    }
}

/// Defines a field named `name` (trimmed) of type `t`, at the end of `defs`. A blank name
/// and a name already defined are refused, with the sentence to show.
pub fn add_field(defs: &mut Vec<CustomFieldDef>, name: &str, t: CustomFieldType) -> (r: Result<
    (),
    String,
>)
    ensures
        match add_error(old(defs)@, name@) {
            Some(e) => r matches Err(m) && m@ == e && final(defs)@ == old(defs)@,
            None => r is Ok && def_names(final(defs)@) == def_names(old(defs)@).push(
                text::trim(name@),
            ) && final(defs)@.last().field_type == t && final(defs)@.drop_last() == old(
                defs,
            )@,
        },
{
    let n = text::string_from(&text::trim_chars(&text::chars_of(name)));
    if n.as_str().is_empty() {
        return Err(text::owned("Give the field a name"));
    }
    let mut i: usize = 0;
    while i < defs.len()
        invariant
            i <= defs@.len(),
            defs@ == old(defs)@,
            n@ == text::trim(name@),
            n@.len() > 0,
            forall|j: int| 0 <= j < i ==> def_names(defs@)[j] != n@,
        decreases defs.len() - i,
    {
        if text::str_eq(defs[i].name.as_str(), n.as_str()) {
            assert(def_names(defs@)[i as int] == n@);
            assert(def_names(defs@).contains(n@));
            let mut m = text::owned("\"");
            text::push_str(&mut m, n.as_str());
            text::push_str(&mut m, "\" already exists");
            return Err(m);
        }
        i += 1;
    }
    let ghost before = defs@;
    defs.push(CustomFieldDef { name: n, field_type: t });
    assert(def_names(defs@) =~= def_names(before).push(text::trim(name@)));
    assert(defs@.drop_last() =~= before);
    Ok(())
}

/// A definition as `(name, type)`.
pub open spec fn def_views(defs: Seq<CustomFieldDef>) -> Seq<(Seq<char>, CustomFieldType)> {
    Seq::new(defs.len(), |i: int| (defs[i].name@, defs[i].field_type))
}

/// `defs` without the fields named `name`, order kept.
pub open spec fn without_field(defs: Seq<(Seq<char>, CustomFieldType)>, name: Seq<char>) -> Seq<
    (Seq<char>, CustomFieldType),
>
    decreases defs.len(),
{
    if defs.len() == 0 {
        seq![]
    } else {
        let rest = without_field(defs.drop_last(), name);
        if defs.last().0 == name {
            rest
        } else {
            rest.push(defs.last())
        }
    }
}

/// Removes the field named `name`.
pub fn remove_field(defs: &mut Vec<CustomFieldDef>, name: &str)
    ensures
        def_views(final(defs)@) == without_field(def_views(old(defs)@), name@),
{
    let ghost dv = def_views(defs@);
    let mut kept: Vec<CustomFieldDef> = Vec::new();
    let mut i: usize = 0;
    assert(dv.take(0) =~= Seq::<(Seq<char>, CustomFieldType)>::empty());
    while i < defs.len()
        invariant
            i <= defs@.len(),
            defs@ == old(defs)@,
            dv == def_views(defs@),
            def_views(kept@) == without_field(dv.take(i as int), name@),
        decreases defs.len() - i,
    {
        assert(dv.take(i + 1).drop_last() =~= dv.take(i as int));
        assert(dv.take(i + 1).last() == dv[i as int]);
        if !text::str_eq(defs[i].name.as_str(), name) {
            let ghost before = def_views(kept@);
            kept.push(CustomFieldDef { name: text::owned(defs[i].name.as_str()), field_type: defs[i].field_type });
            assert(def_views(kept@) =~= before.push(dv[i as int]));
        }
        i += 1;
    }
    assert(dv.take(defs.len() as int) =~= dv);
    *defs = kept;
}

proof fn lemma_without_absent(defs: Seq<(Seq<char>, CustomFieldType)>, name: Seq<char>)
    requires
        forall|k: int| 0 <= k < defs.len() ==> (#[trigger] defs[k]).0 != name,
    ensures
        without_field(defs, name) == defs,
    decreases defs.len(),
{
    if defs.len() > 0 {
        let d = defs.drop_last();
        assert forall|k: int| 0 <= k < d.len() implies (#[trigger] d[k]).0 != name by {
            assert(d[k] == defs[k]);
        }
        lemma_without_absent(d, name);
        assert(d.push(defs.last()) =~= defs);
    }
}

/// Adding a field and then removing it gives back the definitions as they were.
pub proof fn law_add_then_remove_restores(
    defs: Seq<CustomFieldDef>,
    added: Seq<CustomFieldDef>,
    name: Seq<char>,
)
    requires
        add_error(defs, name) is None,
        added.drop_last() == defs,
        added.len() == defs.len() + 1,
        added.last().name@ == text::trim(name),
    ensures
        without_field(def_views(added), text::trim(name)) == def_views(defs),
{
    let n = text::trim(name);
    let dv = def_views(defs);
    assert forall|k: int| 0 <= k < dv.len() implies (#[trigger] dv[k]).0 != n by {
        assert(def_names(defs)[k] == dv[k].0);
    }
    lemma_without_absent(dv, n);
    assert(def_views(added).drop_last() =~= dv);
    assert(def_views(added).last().0 == n);
}

} // verus!
