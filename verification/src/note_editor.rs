//! The note editor's form: reading progress, citation preferences and tasks as typed, and
//! what a save writes back into the note.

use vstd::prelude::*;

use crate::text;
use crate::webmeta::digits_value;

verus! {

/// `s` without one leading `+`.
pub open spec fn unsigned_part(s: Seq<char>) -> Seq<char> {
    if s.len() > 0 && s[0] == '+' {
        s.skip(1)
    } else {
        s
    }
}

/// Every character of `d` is an ASCII digit.
pub open spec fn all_digits(d: Seq<char>) -> bool {
    forall|k: int| 0 <= k < d.len() ==> text::is_digit(#[trigger] d[k])
}

/// What `str::parse::<u32>` accepts: an optional `+`, then one or more ASCII digits whose
/// value fits in a `u32`.
pub open spec fn u32_text(s: Seq<char>) -> Option<u32> {
    let d = unsigned_part(s);
    if d.len() > 0 && all_digits(d) && digits_value(d) <= u32::MAX {
        Some(digits_value(d) as u32)
    } else {
        None
    }
}

proof fn lemma_digits_step(d: Seq<char>, i: int)
    requires
        0 <= i < d.len(),
        forall|k: int| 0 <= k < d.len() ==> text::is_digit(#[trigger] d[k]),
    ensures
        digits_value(d.take(i + 1)) == 10 * digits_value(d.take(i)) + ((d[i] as int) - ('0' as int)),
        digits_value(d.take(i)) >= 0,
        digits_value(d.take(i + 1)) >= digits_value(d.take(i)),
{
    assert(d.take(i + 1).drop_last() =~= d.take(i));
    assert(text::is_digit(d[i]));
    crate::webmeta::lemma_digits_value_nonneg(d.take(i));
}

/// The number `s` spells, as `str::parse::<u32>` reads it.
pub fn parse_u32(s: &str) -> (r: Option<u32>)
    ensures
        r == u32_text(s@),
{
    let c = text::chars_of(s);
    let start: usize = if c.len() > 0 && c[0] == '+' {
        1
    } else {
        0
    };
    let ghost d = unsigned_part(s@);
    assert(d =~= c@.skip(start as int));
    if start >= c.len() {
        return None;
    }
    let mut i: usize = start;
    let mut acc: u64 = 0;
    let mut over = false;
    assert(d.take(0) =~= Seq::<char>::empty());
    while i < c.len()
        invariant
            start <= i <= c@.len(),
            d == c@.skip(start as int),
            d == unsigned_part(s@),
            forall|k: int| 0 <= k < i - start ==> text::is_digit(#[trigger] d[k]),
            over ==> digits_value(d.take(i - start)) > u32::MAX,
            !over ==> acc == digits_value(d.take(i - start)) && acc <= u32::MAX,
        decreases c.len() - i,
    {
        let ch = c[i];
        if !text::is_digit_exec(ch) {
            proof {
                let k = i - start;
                assert(d[k] == ch);
                assert(!text::is_digit(d[k]));
                assert(!all_digits(d));
            }
            return None;
        }
        proof {
            let dd = d.take(i - start + 1);
            assert forall|k: int| 0 <= k < dd.len() implies text::is_digit(#[trigger] dd[k]) by {}
            lemma_digits_step(dd, i - start);
            assert(dd.take(i - start) =~= d.take(i - start));
            assert(dd.take(i - start + 1) =~= dd);
        }
        if !over {
            let v: u64 = acc * 10 + ((ch as u32) - ('0' as u32)) as u64;
            if v > 4294967295u64 {
                over = true;
            } else {
                acc = v;
            }
        }
        i += 1;
    }
    assert(d.take(c.len() - start) =~= d);
    if over {
        None
    } else {
        Some(acc as u32)
    }
}

/// The preferred-style choices, in dropdown order; the first stands for no preference.
pub open spec fn cite_style_names() -> Seq<Seq<char>> {
    seq!["(none)"@, "sbl"@, "chicago-notes"@, "chicago-author-date"@, "apa"@]
}

/// The preferred-style choices as the dropdown lists them.
pub fn cite_styles() -> (v: Vec<&'static str>)
    ensures
        v@.len() == 5,
        forall|i: int| 0 <= i < 5 ==> (#[trigger] v@[i])@ == cite_style_names()[i],
{
    let mut v: Vec<&'static str> = Vec::new();
    v.push("(none)");
    v.push("sbl");
    v.push("chicago-notes");
    v.push("chicago-author-date");
    v.push("apa");
    v
}

/// The first choice named `p` at or after `i`, if any.
pub open spec fn style_position_from(p: Seq<char>, i: int) -> Option<int>
    decreases 5 - i,
{
    if i < 0 || i >= 5 {
        None
    } else if cite_style_names()[i] == p {
        Some(i)
    } else {
        style_position_from(p, i + 1)
    }
}

/// The choice the dropdown shows for a stored preference: its position among the choices,
/// the first ("(none)") when there is none or it is not among them.
pub open spec fn style_index_of(preferred: Option<Seq<char>>) -> int {
    match preferred {
        Some(p) => match style_position_from(p, 0) {
            Some(k) => k,
            None => 0,
        },
        None => 0,
    }
}

/// `o` with the string taken by its view.
pub open spec fn opt_view(o: Option<String>) -> Option<Seq<char>> {
    match o {
        Some(x) => Some(x@),
        None => None,
    }
}

/// The dropdown position for the stored preferred style.
pub fn style_index(preferred: &Option<String>) -> (r: u32)
    ensures
        r == style_index_of(opt_view(*preferred)),
{
    match preferred {
        None => 0,
        Some(p) => {
            let names = cite_styles();
            let mut i: usize = 0;
            while i < 5
                invariant
                    i <= 5,
                    names@.len() == 5,
                    forall|j: int| 0 <= j < 5 ==> (#[trigger] names@[j])@ == cite_style_names()[j],
                    style_position_from(p@, 0) == style_position_from(p@, i as int),
                    opt_view(*preferred) == Some(p@),
                decreases 5 - i,
            {
                assert(names@[i as int]@ == cite_style_names()[i as int]);
                if text::str_eq(names[i], p.as_str()) {
                    return i as u32;
                }
                i += 1;
            }
            0
        },
    }
}

/// The preferred style a dropdown position saves: none for the first choice or past the
/// choices, else the choice's name.
pub open spec fn style_at(selected: u32) -> Option<Seq<char>> {
    if 1 <= selected < 5 {
        Some(cite_style_names()[selected as int])
    } else {
        None
    }
}

/// One task row as typed: its text, whether it is ticked, and its due date.
#[derive(Debug, Clone)]
pub struct TaskInput {
    pub text: String,
    pub done: bool,
    pub due: String,
}

/// A task as the note stores it.
#[derive(Debug, Clone, PartialEq, Eq)]
pub struct Task {
    pub text: String,
    pub done: bool,
    pub due: Option<String>,
}

/// The task a row saves: its trimmed text (a blank row saves nothing), its tick, and its
/// trimmed due date when that is not blank.
pub open spec fn task_of(t: TaskInput) -> Option<(Seq<char>, bool, Option<Seq<char>>)> {
    let txt = text::trim(t.text@);
    let due = text::trim(t.due@);
    if txt.len() == 0 {
        None
    } else {
        Some((txt, t.done, if due.len() == 0 {
            None
        } else {
            Some(due)
        }))
    }
}

/// The tasks the rows save, in order.
pub open spec fn tasks_of(rows: Seq<TaskInput>) -> Seq<(Seq<char>, bool, Option<Seq<char>>)>
    decreases rows.len(),
{
    if rows.len() == 0 {
        seq![]
    } else {
        let rest = tasks_of(rows.drop_last());
        match task_of(rows.last()) {
            Some(t) => rest.push(t),
            None => rest,
        }
    }
}

/// Tasks by their views.
pub open spec fn task_views(v: Seq<Task>) -> Seq<(Seq<char>, bool, Option<Seq<char>>)> {
    Seq::new(v.len(), |i: int| (v[i].text@, v[i].done, opt_view(v[i].due)))
}

fn trimmed(s: &str) -> (r: String)
    ensures
        r@ == text::trim(s@),
{
    text::string_from(&text::trim_chars(&text::chars_of(s)))
}

/// The tasks the rows still in the list save.
pub fn tasks_from(rows: &Vec<TaskInput>) -> (r: Vec<Task>)
    ensures
        task_views(r@) == tasks_of(rows@),
{
    let mut out: Vec<Task> = Vec::new();
    let mut i: usize = 0;
    assert(rows@.take(0) =~= Seq::<TaskInput>::empty());
    assert(task_views(out@) =~= Seq::<(Seq<char>, bool, Option<Seq<char>>)>::empty());
    while i < rows.len()
        invariant
            i <= rows@.len(),
            task_views(out@) == tasks_of(rows@.take(i as int)),
        decreases rows.len() - i,
    {
        assert(rows@.take(i + 1).drop_last() =~= rows@.take(i as int));
        assert(rows@.take(i + 1).last() == rows@[i as int]);
        let txt = trimmed(rows[i].text.as_str());
        if !txt.as_str().is_empty() {
            let due = trimmed(rows[i].due.as_str());
            let d = if due.as_str().is_empty() {
                None
            } else {
                Some(due)
            };
            let ghost before = task_views(out@);
            out.push(Task { text: txt, done: rows[i].done, due: d });
            assert(task_views(out@) =~= before.push(task_of(rows@[i as int])->0));
        }
        i += 1;
    }
    assert(rows@.take(rows.len() as int) =~= rows@);
    out
}

/// What the note editor saves besides the note's text.
#[derive(Debug, Clone)]
pub struct NoteEditorSave {
    /// `(page, of)`, kept only when both parse.
    pub progress: Option<(u32, u32)>,
    pub cite_short: Option<String>,
    pub preferred_style: Option<String>,
    pub tasks: Vec<Task>,
    pub date_added: Option<String>,
}

/// What a save writes: the progress when both page fields hold numbers (trimmed, read as
/// `str::parse::<u32>` reads them), the trimmed short cite unless blank, the style of the
/// dropdown's position, the tasks of the rows still listed, and the note's date added,
/// set to `today` when the note had none.
pub fn note_editor_save(
    page: &str,
    of: &str,
    short: &str,
    style_selected: u32,
    rows: &Vec<TaskInput>,
    date_added: &Option<String>,
    today: &Option<String>,
) -> (r: NoteEditorSave)
    ensures
        r.progress == match (u32_text(text::trim(page@)), u32_text(text::trim(of@))) {
            (Some(p), Some(o)) => Some((p, o)),
            _ => None,
        },
        opt_view(r.cite_short) == (if text::trim(short@).len() == 0 {
            None
        } else {
            Some(text::trim(short@))
        }),
        opt_view(r.preferred_style) == style_at(style_selected),
        task_views(r.tasks@) == tasks_of(rows@),
        opt_view(r.date_added) == (if date_added is Some {
            opt_view(*date_added)
        } else {
            opt_view(*today)
        }),
{
    let p = parse_u32(trimmed(page).as_str());
    let o = parse_u32(trimmed(of).as_str());
    let progress = match (p, o) {
        (Some(a), Some(b)) => Some((a, b)),
        _ => None,
    };
    let sh = trimmed(short);
    let cite_short = if sh.as_str().is_empty() {
        None
    } else {
        Some(sh)
    };
    let preferred_style = if 1 <= style_selected && style_selected < 5 {
        let names = cite_styles();
        assert(names@[style_selected as int]@ == cite_style_names()[style_selected as int]);
        Some(text::owned(names[style_selected as usize]))
    } else {
        None
    };
    let added = match date_added {
        Some(d) => Some(text::owned(d.as_str())),
        None => match today {
            Some(t) => Some(text::owned(t.as_str())),
            None => None,
        },
    };
    NoteEditorSave { progress, cite_short, preferred_style, tasks: tasks_from(rows), date_added: added }
}

/// Saving the dropdown at the position the editor shows for a saved style gives that style
/// back: for each position, the position shown for what it saves is itself.
pub proof fn law_style_round_trip(selected: u32)
    requires
        selected < 5,
    ensures
        style_index_of(style_at(selected)) == selected,
{
    reveal_strlit("(none)");
    reveal_strlit("sbl");
    reveal_strlit("chicago-notes");
    reveal_strlit("chicago-author-date");
    reveal_strlit("apa");
    reveal_with_fuel(style_position_from, 6);
    let names = cite_style_names();
    assert(names[0].len() == 6 && names[1].len() == 3 && names[2].len() == 13);
    assert(names[3].len() == 19 && names[4].len() == 3);
    assert(names[1][0] != names[4][0]);
    assert(names[0] != names[1] && names[0] != names[2] && names[0] != names[3] && names[0] != names[4]);
    assert(names[1] != names[2] && names[1] != names[3] && names[1] != names[4]);
    assert(names[2] != names[3] && names[2] != names[4] && names[3] != names[4]);
}

} // verus!
