//! The detail pane's rules: which read action an entry offers (and where reading resumes),
//! and what the inline citation and note forms save.

use vstd::prelude::*;

use crate::entries::ReadStatus;
use crate::new_item;
use crate::text;

verus! {

// ---------------------------------------------------------------------------
// The read action
// ---------------------------------------------------------------------------

/// The primary read action of an entry.
#[derive(Debug, Clone, Copy, PartialEq, Eq, Structural)]
pub enum ReadChoice {
    /// Open the PDF reader at `page`; `resume` when that is a saved position past page 1.
    Pdf { page: u32, resume: bool },
    /// Open the EPUB reader; `resume` when a reading position is saved.
    Epub { resume: bool },
    /// Both formats are attached: offer a chooser, the PDF opening at `page`.
    Chooser { page: u32 },
    /// Nothing to read, but a DOI is known: offer to find an open-access PDF.
    FindPdf,
    /// No read action.
    Nothing,
}

/// The read action for an entry with a readable PDF and/or EPUB attached, a DOI or not,
/// and the saved reading position's page, if any. Reading resumes at the saved page, page
/// 1 when none is saved.
pub fn read_choice(has_pdf: bool, has_epub: bool, has_doi: bool, progress_page: Option<u32>) -> (c:
    ReadChoice)
    ensures
        ({
            let page: u32 = match progress_page {
                Some(p) => p,
                None => 1,
            };
            c == if has_pdf && !has_epub {
                ReadChoice::Pdf { page, resume: page > 1 }
            } else if !has_pdf && has_epub {
                ReadChoice::Epub { resume: progress_page is Some }
            } else if has_pdf && has_epub {
                ReadChoice::Chooser { page }
            } else if has_doi {
                ReadChoice::FindPdf
            } else {
                ReadChoice::Nothing
            }
        }),
{
    let page: u32 = match progress_page {
        Some(p) => p,
        None => 1,
    };
    if has_pdf && !has_epub {
        ReadChoice::Pdf { page, resume: page > 1 }
    } else if !has_pdf && has_epub {
        ReadChoice::Epub { resume: progress_page.is_some() }
    } else if has_pdf && has_epub {
        ReadChoice::Chooser { page }
    } else if has_doi {
        ReadChoice::FindPdf
    } else {
        ReadChoice::Nothing
    }
}

/// The tooltip of the read action.
pub fn read_tooltip(c: ReadChoice) -> (s: &'static str)
    ensures
        s@ == match c {
            ReadChoice::Pdf { resume, .. } => if resume {
                "Open the built-in PDF reader, resuming where you left off"@
            } else {
                "Open the built-in PDF reader"@
            },
            ReadChoice::Epub { resume } => if resume {
                "Open the built-in EPUB reader, resuming where you left off"@
            } else {
                "Open the built-in EPUB reader"@
            },
            ReadChoice::Chooser { .. } => "Both a PDF and an EPUB are attached — choose which to open"@,
            ReadChoice::FindPdf => "Search Unpaywall for an open-access PDF"@,
            ReadChoice::Nothing => ""@,
        },
{
    match c {
        ReadChoice::Pdf { resume, .. } => if resume {
            "Open the built-in PDF reader, resuming where you left off"
        } else {
            "Open the built-in PDF reader"
        },
        ReadChoice::Epub { resume } => if resume {
            "Open the built-in EPUB reader, resuming where you left off"
        } else {
            "Open the built-in EPUB reader"
        },
        ReadChoice::Chooser { .. } => "Both a PDF and an EPUB are attached — choose which to open",
        ReadChoice::FindPdf => "Search Unpaywall for an open-access PDF",
        ReadChoice::Nothing => "",
    }
}

// ---------------------------------------------------------------------------
// The citation form
// ---------------------------------------------------------------------------

/// An entry's editable citation fields; `authors` holds one name per line.
#[derive(Debug, Clone)]
pub struct CitationFields {
    pub entry_type: String,
    pub title: String,
    pub authors: String,
    pub year: String,
    pub publisher: String,
    pub doi: String,
    pub isbn: String,
}

/// The text the authors field shows: the names separated by `"; "` instead of lines.
pub fn authors_field_text(authors: &str) -> (r: String)
    ensures
        r@ == text::replace_all(authors@, "\n"@, "; "@),
{
    let c = text::chars_of(authors);
    let r = text::replace_all_exec(&c, &text::chars_of("\n"), &text::chars_of("; "));
    text::string_from(&r)
}

/// The authors the form's text names: split at `;` and line breaks, each trimmed, empty
/// ones dropped, one per line.
pub open spec fn authors_from_field(s: Seq<char>) -> Seq<char> {
    new_item::joined_with(text::nonempty_trimmed(text::split_on(s, seq![';', '\n'])), "\n"@)
}

/// The type the type dropdown's selection names: the `selected`-th choice, else the
/// current type.
pub open spec fn selected_type(choices: Seq<String>, selected: u32, current: Seq<char>) -> Seq<char> {
    if selected < choices.len() {
        choices[selected as int]@
    } else {
        current
    }
}

/// The fields are the same text.
pub open spec fn same_citation(a: CitationFields, b: CitationFields) -> bool {
    &&& a.entry_type@ == b.entry_type@
    &&& a.title@ == b.title@
    &&& a.authors@ == b.authors@
    &&& a.year@ == b.year@
    &&& a.publisher@ == b.publisher@
    &&& a.doi@ == b.doi@
    &&& a.isbn@ == b.isbn@
}

fn trimmed(s: &str) -> (r: String)
    ensures
        r@ == text::trim(s@),
{
    text::string_from(&text::trim_chars(&text::chars_of(s)))
}

fn strings_of(v: &Vec<Vec<char>>) -> (r: Vec<String>)
    ensures
        text::string_views(r@) == text::views(v@),
{
    let mut r: Vec<String> = Vec::new();
    let mut k: usize = 0;
    while k < v.len()
        invariant
            k <= v@.len(),
            text::string_views(r@) =~= text::views(v@).take(k as int),
        decreases v.len() - k,
    {
        let ghost before = text::string_views(r@);
        r.push(text::string_from(&v[k]));
        assert(text::string_views(r@) =~= before.push(v@[k as int]@));
        assert(text::views(v@).take(k + 1) =~= text::views(v@).take(k as int).push(v@[k as int]@));
        k += 1;
    }
    assert(text::views(v@).take(v.len() as int) =~= text::views(v@));
    r
}

/// What the citation form saves: the fields rebuilt from the widgets' current values
/// (the type from the dropdown, every text trimmed, the authors one per line), or `None`
/// when they equal `current`, so an unedited form writes nothing.
pub fn citation_edit(
    current: &CitationFields,
    type_choices: &Vec<String>,
    selected: u32,
    title: &str,
    authors: &str,
    year: &str,
    publisher: &str,
    doi: &str,
    isbn: &str,
) -> (r: Option<CitationFields>)
    ensures
        ({
            let edited_type = selected_type(type_choices@, selected, current.entry_type@);
            let same = edited_type == current.entry_type@ && text::trim(title@) == current.title@
                && authors_from_field(authors@) == current.authors@ && text::trim(year@)
                == current.year@ && text::trim(publisher@) == current.publisher@ && text::trim(
                doi@,
            ) == current.doi@ && text::trim(isbn@) == current.isbn@;
            &&& same <==> r is None
            &&& r matches Some(f) ==> {
                &&& f.entry_type@ == edited_type
                &&& f.title@ == text::trim(title@)
                &&& f.authors@ == authors_from_field(authors@)
                &&& f.year@ == text::trim(year@)
                &&& f.publisher@ == text::trim(publisher@)
                &&& f.doi@ == text::trim(doi@)
                &&& f.isbn@ == text::trim(isbn@)
            }
        }),
{
    let entry_type = if (selected as usize) < type_choices.len() {
        text::owned(type_choices[selected as usize].as_str())
    } else {
        text::owned(current.entry_type.as_str())
    };
    let names = text::split_trimmed(&text::chars_of(authors), &[';', '\n']);
    proof {
        assert(seq![';', '\n'] =~= [';', '\n']@);
    }
    let name_strings = strings_of(&names);
    let authors_field = new_item::join_names(&name_strings, "\n");
    let f = CitationFields {
        entry_type,
        title: trimmed(title),
        authors: authors_field,
        year: trimmed(year),
        publisher: trimmed(publisher),
        doi: trimmed(doi),
        isbn: trimmed(isbn),
    };
    if text::str_eq(f.entry_type.as_str(), current.entry_type.as_str()) && text::str_eq(
        f.title.as_str(),
        current.title.as_str(),
    ) && text::str_eq(f.authors.as_str(), current.authors.as_str()) && text::str_eq(
        f.year.as_str(),
        current.year.as_str(),
    ) && text::str_eq(f.publisher.as_str(), current.publisher.as_str()) && text::str_eq(
        f.doi.as_str(),
        current.doi.as_str(),
    ) && text::str_eq(f.isbn.as_str(), current.isbn.as_str()) {
        None
    } else {
        Some(f)
    }
}

// ---------------------------------------------------------------------------
// The note form
// ---------------------------------------------------------------------------

/// The reading status the status dropdown's selection names: (none), unread, reading,
/// read.
pub open spec fn status_at(selected: u32) -> Option<ReadStatus> {
    if selected == 1 {
        Some(ReadStatus::Unread)
    } else if selected == 2 {
        Some(ReadStatus::Reading)
    } else if selected == 3 {
        Some(ReadStatus::Read)
    } else {
        None
    }
}

/// The dropdown position showing `s`.
pub fn status_index(s: Option<ReadStatus>) -> (i: u32)
    ensures
        status_at(i) == s,
        i <= 3,
{
    match s {
        None => 0,
        Some(ReadStatus::Unread) => 1,
        Some(ReadStatus::Reading) => 2,
        Some(ReadStatus::Read) => 3,
    }
}

/// The rating the rating dropdown's selection names: (none), then 1 to 5.
pub open spec fn rating_at(selected: u32) -> Option<u8> {
    if selected == 0 {
        None
    } else {
        Some(selected as u8)
    }
}

/// The dropdown position showing `r`.
pub fn rating_index(r: Option<u8>) -> (i: u32)
    ensures
        i == match r {
            Some(n) => n as u32,
            None => 0,
        },
        r matches Some(n) && n > 0 ==> rating_at(i) == r,
        r is None ==> rating_at(i) is None,
{
    match r {
        Some(n) => n as u32,
        None => 0,
    }
}

/// A note's fields the form edits: tags, reading status, rating, and custom-field values
/// (as `(field name, value)`, each name once).
#[derive(Debug, Clone)]
pub struct NoteFields {
    pub tags: Vec<String>,
    pub status: Option<ReadStatus>,
    pub rating: Option<u8>,
    pub custom: Vec<(String, String)>,
}

pub open spec fn pair_views(v: Seq<(String, String)>) -> Seq<(Seq<char>, Seq<char>)> {
    Seq::new(v.len(), |i: int| (v[i].0@, v[i].1@))
}

/// `a` and `b` hold the same `(name, value)` pairs, in whatever order: the same map.
pub open spec fn same_pairs(a: Seq<(Seq<char>, Seq<char>)>, b: Seq<(Seq<char>, Seq<char>)>) -> bool {
    forall|p: (Seq<char>, Seq<char>)| a.contains(p) <==> b.contains(p)
}

/// The custom-field values the form holds: for each defined field, in order, its trimmed
/// value, left out when empty.
pub open spec fn custom_from_form(fields: Seq<(String, String)>) -> Seq<(Seq<char>, Seq<char>)>
    decreases fields.len(),
{
    if fields.len() == 0 {
        seq![]
    } else {
        let rest = custom_from_form(fields.drop_last());
        let v = text::trim(fields.last().1@);
        if v.len() == 0 {
            rest
        } else {
            rest.push((fields.last().0@, v))
        }
    }
}

fn holds_pair(v: &Vec<(String, String)>, a: &str, b: &str) -> (r: bool)
    ensures
        r == pair_views(v@).contains((a@, b@)),
{
    let mut i: usize = 0;
    while i < v.len()
        invariant
            i <= v@.len(),
            forall|j: int| 0 <= j < i ==> pair_views(v@)[j] != (a@, b@),
        decreases v.len() - i,
    {
        if text::str_eq(v[i].0.as_str(), a) && text::str_eq(v[i].1.as_str(), b) {
            assert(pair_views(v@)[i as int] == (a@, b@));
            return true;
        }
        i += 1;
    }
    false
}

fn within(a: &Vec<(String, String)>, b: &Vec<(String, String)>) -> (r: bool)
    ensures
        r == forall|p: (Seq<char>, Seq<char>)| pair_views(a@).contains(p) ==> pair_views(
            b@,
        ).contains(p),
{
    let mut i: usize = 0;
    while i < a.len()
        invariant
            i <= a@.len(),
            forall|j: int| 0 <= j < i ==> pair_views(b@).contains(#[trigger] pair_views(a@)[j]),
        decreases a.len() - i,
    {
        if !holds_pair(b, a[i].0.as_str(), a[i].1.as_str()) {
            assert(pair_views(a@).contains(pair_views(a@)[i as int]));
            return false;
        }
        i += 1;
    }
    assert forall|p: (Seq<char>, Seq<char>)| pair_views(a@).contains(p) implies pair_views(
        b@,
    ).contains(p) by {
        let k = choose|k: int| 0 <= k < pair_views(a@).len() && pair_views(a@)[k] == p;
    }
    true
}

fn strings_eq(a: &Vec<String>, b: &Vec<String>) -> (r: bool)
    ensures
        r == (text::string_views(a@) == text::string_views(b@)),
{
    if a.len() != b.len() {
        assert(text::string_views(a@).len() != text::string_views(b@).len());
        return false;
    }
    let mut i: usize = 0;
    while i < a.len()
        invariant
            i <= a@.len() == b@.len(),
            forall|k: int| 0 <= k < i ==> a@[k]@ == b@[k]@,
        decreases a.len() - i,
    {
        if !text::str_eq(a[i].as_str(), b[i].as_str()) {
            assert(text::string_views(a@)[i as int] != text::string_views(b@)[i as int]);
            return false;
        }
        i += 1;
    }
    assert(text::string_views(a@) =~= text::string_views(b@));
    true
}

/// What the note form saves: the tags split at `,` (each trimmed, empty ones dropped),
/// the status and rating of the dropdowns' selections, and the non-empty trimmed custom
/// values (`custom_form`: each defined field with the text its entry holds), or `None`
/// when all of that equals `current` (the custom values compared as a map), so an
/// unedited form writes nothing.
pub fn note_edit(
    current: &NoteFields,
    tags: &str,
    status_selected: u32,
    rating_selected: u32,
    custom_form: &Vec<(String, String)>,
) -> (r: Option<NoteFields>)
    ensures
        ({
            let new_tags = text::nonempty_trimmed(text::split_on(tags@, seq![',']));
            let same = new_tags == text::string_views(current.tags@) && status_at(status_selected)
                == current.status && rating_at(rating_selected) == current.rating && same_pairs(
                custom_from_form(custom_form@),
                pair_views(current.custom@),
            );
            &&& same <==> r is None
            &&& r matches Some(f) ==> {
                &&& text::string_views(f.tags@) == new_tags
                &&& f.status == status_at(status_selected)
                &&& f.rating == rating_at(rating_selected)
                &&& pair_views(f.custom@) == custom_from_form(custom_form@)
            }
        }),
{
    let parts = text::split_trimmed(&text::chars_of(tags), &[',']);
    proof {
        assert(seq![','] =~= [',']@);
    }
    let new_tags = strings_of(&parts);
    let status = if status_selected == 1 {
        Some(ReadStatus::Unread)
    } else if status_selected == 2 {
        Some(ReadStatus::Reading)
    } else if status_selected == 3 {
        Some(ReadStatus::Read)
    } else {
        None
    };
    let rating: Option<u8> = if rating_selected == 0 {
        None
    } else {
        Some(rating_selected as u8)
    };
    let mut custom: Vec<(String, String)> = Vec::new();
    let mut i: usize = 0;
    assert(custom_form@.take(0) =~= Seq::<(String, String)>::empty());
    while i < custom_form.len()
        invariant
            i <= custom_form@.len(),
            pair_views(custom@) == custom_from_form(custom_form@.take(i as int)),
        decreases custom_form.len() - i,
    {
        assert(custom_form@.take(i + 1).drop_last() =~= custom_form@.take(i as int));
        let v = trimmed(custom_form[i].1.as_str());
        if !v.as_str().is_empty() {
            let ghost before = pair_views(custom@);
            custom.push((text::owned(custom_form[i].0.as_str()), v));
            assert(pair_views(custom@) =~= before.push(
                (custom_form@[i as int].0@, text::trim(custom_form@[i as int].1@)),
            ));
        }
        i += 1;
    }
    assert(custom_form@.take(custom_form.len() as int) =~= custom_form@);
    let same_status = match (status, current.status) {
        (None, None) => true,
        (Some(ReadStatus::Unread), Some(ReadStatus::Unread)) => true,
        (Some(ReadStatus::Reading), Some(ReadStatus::Reading)) => true,
        (Some(ReadStatus::Read), Some(ReadStatus::Read)) => true,
        _ => false,
    };
    let same_rating = match (rating, current.rating) {
        (None, None) => true,
        (Some(a), Some(b)) => a == b,
        _ => false,
    };
    if strings_eq(&new_tags, &current.tags) && same_status && same_rating && within(
        &custom,
        &current.custom,
    ) && within(&current.custom, &custom) {
        None
    } else {
        Some(NoteFields { tags: new_tags, status, rating, custom })
    }
}

} // verus!
