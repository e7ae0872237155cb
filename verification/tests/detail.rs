use kartoteka::detail::{
    authors_field_text, citation_edit, note_edit, rating_index, read_choice, read_tooltip,
    status_index, CitationFields, NoteFields, ReadChoice,
};
use kartoteka::entries::ReadStatus;

fn s(x: &str) -> String {
    x.to_string()
}

#[test]
fn read_action_follows_attachments_and_resumes() {
    assert_eq!(read_choice(true, false, true, None), ReadChoice::Pdf { page: 1, resume: false });
    assert_eq!(read_choice(true, false, false, Some(42)), ReadChoice::Pdf { page: 42, resume: true });
    assert_eq!(read_choice(false, true, false, Some(1)), ReadChoice::Epub { resume: true });
    assert_eq!(read_choice(false, true, false, None), ReadChoice::Epub { resume: false });
    assert_eq!(read_choice(true, true, false, Some(7)), ReadChoice::Chooser { page: 7 });
    assert_eq!(read_choice(false, false, true, Some(7)), ReadChoice::FindPdf);
    assert_eq!(read_choice(false, false, false, None), ReadChoice::Nothing);
    assert_eq!(
        read_tooltip(ReadChoice::Pdf { page: 42, resume: true }),
        "Open the built-in PDF reader, resuming where you left off"
    );
    assert_eq!(read_tooltip(ReadChoice::FindPdf), "Search Unpaywall for an open-access PDF");
}

fn current() -> CitationFields {
    CitationFields {
        entry_type: s("book"),
        title: s("Title"),
        authors: s("Cone, James\nSmith, Jane"),
        year: s("1970"),
        publisher: s(""),
        doi: s(""),
        isbn: s(""),
    }
}

#[test]
fn unedited_citation_form_writes_nothing() {
    let types = vec![s("article"), s("book")];
    assert_eq!(authors_field_text("Cone, James\nSmith, Jane"), "Cone, James; Smith, Jane");
    assert!(citation_edit(&current(), &types, 1, " Title ", "Cone, James; Smith, Jane", "1970", "", "", "").is_none());
    assert!(citation_edit(&current(), &types, 9, "Title", "Cone, James;; Smith, Jane\n", "1970 ", "", "", "").is_none());
}

#[test]
fn edited_citation_form_rebuilds_every_field() {
    let types = vec![s("article"), s("book")];
    let f = citation_edit(&current(), &types, 0, "New", " A ; B\nC", "1971", " P ", "10.1/x", "").unwrap();
    assert_eq!(f.entry_type, "article");
    assert_eq!(f.title, "New");
    assert_eq!(f.authors, "A\nB\nC");
    assert_eq!(f.publisher, "P");
    assert_eq!(f.doi, "10.1/x");
}

#[test]
fn note_form_save_rule() {
    let cur = NoteFields {
        tags: vec![s("a"), s("b")],
        status: Some(ReadStatus::Reading),
        rating: Some(4),
        custom: vec![(s("Shelf"), s("B2")), (s("Loan"), s("yes"))],
    };
    assert_eq!(status_index(cur.status), 2);
    assert_eq!(rating_index(cur.rating), 4);
    let form = vec![(s("Loan"), s(" yes ")), (s("Shelf"), s("B2")), (s("Empty"), s("  "))];
    assert!(note_edit(&cur, " a, ,b ", 2, 4, &form).is_none());
    let f = note_edit(&cur, "a, b, c", 3, 0, &form).unwrap();
    assert_eq!(f.tags, vec![s("a"), s("b"), s("c")]);
    assert_eq!(f.status, Some(ReadStatus::Read));
    assert_eq!(f.rating, None);
    assert_eq!(f.custom, vec![(s("Loan"), s("yes")), (s("Shelf"), s("B2"))]);
}
