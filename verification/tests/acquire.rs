use kartoteka::acquire::{
    acquire_request, added_notice, answers_bibtex, fetch_failed_notice, hint_and_placeholder,
    kind_labels, kind_of_selection, no_library_notice, AcquireKind,
};

#[test]
fn dropdown_names_the_kinds() {
    assert_eq!(kind_labels(), vec!["DOI", "arXiv", "ISBN"]);
    assert_eq!(kind_of_selection(0), AcquireKind::Doi);
    assert_eq!(kind_of_selection(1), AcquireKind::Arxiv);
    assert_eq!(kind_of_selection(2), AcquireKind::Isbn);
    assert_eq!(kind_of_selection(7), AcquireKind::Isbn);
}

#[test]
fn hints_explain_each_kind() {
    let (hint, placeholder) = hint_and_placeholder(AcquireKind::Doi);
    assert!(hint.starts_with("A DOI is a permanent ID"));
    assert_eq!(placeholder, "e.g. 10.1000/xyz");
    assert_eq!(hint_and_placeholder(AcquireKind::Arxiv).1, "e.g. 2101.00001");
    assert_eq!(
        hint_and_placeholder(AcquireKind::Isbn).0,
        "The number under the barcode on the back of a book (10 or 13 digits)."
    );
}

#[test]
fn add_fetches_the_trimmed_identifier() {
    assert_eq!(acquire_request(0, "   "), None);
    assert_eq!(acquire_request(0, " 10.1000/xyz "), Some((AcquireKind::Doi, "10.1000/xyz".to_string())));
    assert_eq!(acquire_request(2, "9780140449136"), Some((AcquireKind::Isbn, "9780140449136".to_string())));
    assert!(answers_bibtex(AcquireKind::Doi));
    assert!(answers_bibtex(AcquireKind::Arxiv));
    assert!(!answers_bibtex(AcquireKind::Isbn));
}

#[test]
fn acquire_notices() {
    assert_eq!(added_notice(&vec!["a2020".to_string(), "b2021".to_string()]), "Added a2020, b2021");
    assert_eq!(
        fetch_failed_notice("404"),
        "Couldn't find that reference online — double-check the identifier and try again (404)."
    );
    assert_eq!(no_library_notice(), "Open a library first");
}
