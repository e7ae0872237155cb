use kartoteka::bookshelf::{cover_action, on_bookshelf, status_badge, CoverAction};
use kartoteka::entries::EntrySummary;

fn entry(ty: &str) -> EntrySummary {
    EntrySummary {
        key: "k".to_string(),
        author: String::new(),
        year: String::new(),
        title: String::new(),
        has_pdf: false,
        has_epub: false,
        tags: String::new(),
        status: String::new(),
        custom_fields: vec![],
        entry_type: ty.to_string(),
        isbn: String::new(),
    }
}

#[test]
fn only_books_are_shelved() {
    assert!(on_bookshelf(&entry("book")));
    assert!(!on_bookshelf(&entry("article")));
    assert!(!on_bookshelf(&entry("Book")));
}

#[test]
fn badges() {
    assert_eq!(status_badge("reading"), Some(("Reading", "bookshelf-badge-reading")));
    assert_eq!(status_badge("read"), Some(("Read", "bookshelf-badge-read")));
    assert_eq!(status_badge("unread"), None);
    assert_eq!(status_badge(""), None);
}

#[test]
fn covers_are_fetched_once() {
    let mut attempted = Vec::new();
    assert_eq!(cover_action("  ", true, false, &mut attempted), CoverAction::Placeholder);
    assert_eq!(cover_action("978", false, false, &mut attempted), CoverAction::Placeholder);
    assert_eq!(cover_action("978", true, true, &mut attempted), CoverAction::UseCached);
    assert!(attempted.is_empty());
    assert_eq!(cover_action("978", true, false, &mut attempted), CoverAction::Fetch);
    assert_eq!(attempted, vec!["978".to_string()]);
    assert_eq!(cover_action("978", true, false, &mut attempted), CoverAction::Placeholder);
    assert_eq!(attempted.len(), 1);
}
