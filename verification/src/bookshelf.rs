//! The Bookshelf view: a cover grid of the book entries, each card with a reading-status
//! badge and, where the entry has an ISBN, its cover (fetched once per session and cached).

use vstd::prelude::*;

use crate::entries::EntrySummary;
use crate::text;

verus! {

/// Whether an entry gets a card on the Bookshelf: books only.
pub fn on_bookshelf(e: &EntrySummary) -> (b: bool)
    ensures
        b == (e.entry_type@ == "book"@),
{
    text::str_eq(e.entry_type.as_str(), "book")
}

/// The badge a card shows for a reading status, as its text and style class: "Reading"
/// and "Read" get one, anything else none.
pub fn status_badge(status: &str) -> (r: Option<(&'static str, &'static str)>)
    ensures
        status@ == "reading"@ ==> (r matches Some(b) && b.0@ == "Reading"@ && b.1@
            == "bookshelf-badge-reading"@),
        status@ == "read"@ ==> (r matches Some(b) && b.0@ == "Read"@ && b.1@
            == "bookshelf-badge-read"@),
        status@ != "reading"@ && status@ != "read"@ ==> r is None,
{
    proof {
        reveal_strlit("reading");
        reveal_strlit("read");
        assert("reading"@.len() != "read"@.len());
    }
    if text::str_eq(status, "reading") {
        Some(("Reading", "bookshelf-badge-reading"))
    } else if text::str_eq(status, "read") {
        Some(("Read", "bookshelf-badge-read"))
    } else {
        None
    }
}

/// What a card does about its cover.
#[derive(Debug, Clone, Copy, PartialEq, Eq, Structural)]
pub enum CoverAction {
    /// No cover to show: no ISBN, no open library, or a fetch already tried.
    Placeholder,
    /// Show the cached cover.
    UseCached,
    /// Fetch the cover in the background (once per ISBN per session).
    Fetch,
}

/// The cover decision for a card whose entry has ISBN `isbn`: nothing without an ISBN or
/// an open library; the cached file when there is one; otherwise a fetch, unless one was
/// already tried for this ISBN (`attempted`, which a fetch is recorded in).
pub fn cover_action(isbn: &str, library_open: bool, cached: bool, attempted: &mut Vec<String>) -> (a:
    CoverAction)
    ensures
        text::trim(isbn@).len() == 0 || !library_open ==> a == CoverAction::Placeholder
            && final(attempted)@ == old(attempted)@,
        text::trim(isbn@).len() > 0 && library_open && cached ==> a == CoverAction::UseCached
            && final(attempted)@ == old(attempted)@,
        text::trim(isbn@).len() > 0 && library_open && !cached ==> if text::string_views(
            old(attempted)@,
        ).contains(isbn@) {
            a == CoverAction::Placeholder && final(attempted)@ == old(attempted)@
        } else {
            a == CoverAction::Fetch && text::string_views(final(attempted)@) == text::string_views(
                old(attempted)@,
            ).push(isbn@)
        },
{
    let t = text::trim_chars(&text::chars_of(isbn));
    if t.len() == 0 || !library_open {
        return CoverAction::Placeholder;
    }
    if cached {
        return CoverAction::UseCached;
    }
    let ghost before = text::string_views(attempted@);
    let mut i: usize = 0;
    while i < attempted.len()
        invariant
            i <= attempted@.len(),
            !cached,
            library_open,
            t@ == text::trim(isbn@),
            t@.len() > 0,
            attempted@ == old(attempted)@,
            before == text::string_views(attempted@),
            forall|j: int| 0 <= j < i ==> before[j] != isbn@,
        decreases attempted.len() - i,
    {
        if text::str_eq(attempted[i].as_str(), isbn) {
            assert(before[i as int] == isbn@);
            return CoverAction::Placeholder;
        }
        i += 1;
    }
    attempted.push(text::owned(isbn));
    assert(text::string_views(attempted@) =~= before.push(isbn@));
    CoverAction::Fetch
}

} // verus!
