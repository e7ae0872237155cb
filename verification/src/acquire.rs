//! The "Acquire reference" dialog: which identifier kind the dropdown names, the hint and
//! placeholder shown for it, what the Add button fetches, and the notices it ends with.
//! The fetch itself is made by the application.

use vstd::prelude::*;

use crate::new_item;
use crate::text;

verus! {

/// The kinds of identifier a reference can be fetched by.
#[derive(Debug, Clone, Copy, PartialEq, Eq, Structural)]
pub enum AcquireKind {
    Doi,
    Arxiv,
    Isbn,
}

/// The kind the dropdown's selection names: DOI, arXiv, and ISBN from the third on.
pub open spec fn kind_at(selected: u32) -> AcquireKind {
    if selected == 0 {
        AcquireKind::Doi
    } else if selected == 1 {
        AcquireKind::Arxiv
    } else {
        AcquireKind::Isbn
    }
}

/// The dropdown's labels, in order.
pub fn kind_labels() -> (v: Vec<&'static str>)
    ensures
        v@.len() == 3,
        v@[0]@ == "DOI"@,
        v@[1]@ == "arXiv"@,
        v@[2]@ == "ISBN"@,
{
    let mut v: Vec<&'static str> = Vec::new();
    v.push("DOI");
    v.push("arXiv");
    v.push("ISBN");
    v
}

/// The kind the dropdown's selection names.
pub fn kind_of_selection(selected: u32) -> (k: AcquireKind)
    ensures
        k == kind_at(selected),
{
    if selected == 0 {
        AcquireKind::Doi
    } else if selected == 1 {
        AcquireKind::Arxiv
    } else {
        AcquireKind::Isbn
    }
}

/// The plain-language hint shown under the entry for `kind`, and the entry's placeholder.
pub fn hint_and_placeholder(kind: AcquireKind) -> (r: (&'static str, &'static str))
    ensures
        kind == AcquireKind::Doi ==> r.0@ == "A DOI is a permanent ID most journal articles have — often printed near the abstract or in the URL, like 10.1000/xyz."@
            && r.1@ == "e.g. 10.1000/xyz"@,
        kind == AcquireKind::Arxiv ==> r.0@ == "For preprints from arxiv.org — the ID in the paper's URL, like 2101.00001."@
            && r.1@ == "e.g. 2101.00001"@,
        kind == AcquireKind::Isbn ==> r.0@ == "The number under the barcode on the back of a book (10 or 13 digits)."@
            && r.1@ == "e.g. 9780140449136"@,
{
    match kind {
        AcquireKind::Doi => (
            "A DOI is a permanent ID most journal articles have — often printed near the abstract or in the URL, like 10.1000/xyz.",
            "e.g. 10.1000/xyz",
        ),
        AcquireKind::Arxiv => (
            "For preprints from arxiv.org — the ID in the paper's URL, like 2101.00001.",
            "e.g. 2101.00001",
        ),
        AcquireKind::Isbn => (
            "The number under the barcode on the back of a book (10 or 13 digits).",
            "e.g. 9780140449136",
        ),
    }
}

/// What the Add button asks for: the trimmed identifier under the selected kind; nothing
/// when the identifier is blank.
pub fn acquire_request(selected: u32, identifier: &str) -> (r: Option<(AcquireKind, String)>)
    ensures
        text::trim(identifier@).len() == 0 <==> r is None,
        r matches Some((k, id)) ==> k == kind_at(selected) && id@ == text::trim(identifier@),
{
    let t = text::trim_chars(&text::chars_of(identifier));
    if t.len() == 0 {
        None
    } else {
        Some((kind_of_selection(selected), text::string_from(&t)))
    }
}

/// Whether a kind's fetch answers with BibTeX (DOI and arXiv) rather than entry YAML (ISBN).
pub fn answers_bibtex(kind: AcquireKind) -> (b: bool)
    ensures
        b == (kind != AcquireKind::Isbn),
{
    match kind {
        AcquireKind::Isbn => false,
        _ => true,
    }
}

/// The notice after the fetched reference was added: "Added " and the new keys, joined
/// with ", ".
pub fn added_notice(keys: &Vec<String>) -> (r: String)
    ensures
        r@ == "Added "@ + new_item::joined_with(text::string_views(keys@), ", "@),
{
    let mut r = text::owned("Added ");
    let joined = new_item::join_names(keys, ", ");
    text::push_str(&mut r, joined.as_str());
    r
}

/// The notice when the fetch failed with `error`.
pub fn fetch_failed_notice(error: &str) -> (r: String)
    ensures
        r@ == "Couldn't find that reference online — double-check the identifier and try again ("@
            + error@ + ")."@,
{
    let mut r = text::owned(
        "Couldn't find that reference online — double-check the identifier and try again (",
    );
    text::push_str(&mut r, error);
    text::push_str(&mut r, ").");
    r
}

/// The notice when the dialog is asked for with no library open.
pub fn no_library_notice() -> (r: &'static str)
    ensures
        r@ == "Open a library first"@,
{
    "Open a library first"
}

} // verus!
