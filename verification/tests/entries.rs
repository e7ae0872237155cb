use kartoteka::entries::{
    index_of_key, status_text, tags_text, typst_citation, visible_entries, EntrySummary, ReadStatus,
};

fn entry(key: &str, title: &str, author: &str) -> EntrySummary {
    EntrySummary {
        key: key.to_string(),
        author: author.to_string(),
        year: String::new(),
        title: title.to_string(),
        has_pdf: false,
        has_epub: false,
        tags: String::new(),
        status: String::new(),
        custom_fields: vec![],
        entry_type: "book".to_string(),
        isbn: String::new(),
    }
}

fn library() -> Vec<EntrySummary> {
    vec![
        entry("cone1970", "Black Theology and Black Power", "Cone, James"),
        entry("smith2020", "Gardens of the Mind", "Smith, Jane"),
        entry("arendt1958", "The Human Condition", "Arendt, Hannah"),
    ]
}

fn keys(v: &[&str]) -> Vec<String> {
    v.iter().map(|s| s.to_string()).collect()
}

#[test]
fn blank_query_shows_everything_in_order() {
    let es = library();
    assert_eq!(visible_entries(&es, &None, "", &None), vec![0, 1, 2]);
    assert_eq!(visible_entries(&es, &None, "   \t", &Some(keys(&["smith2020"]))), vec![0, 1, 2]);
}

#[test]
fn collection_order_and_unknown_keys() {
    let es = library();
    let coll = Some(keys(&["arendt1958", "nobody", "cone1970"]));
    assert_eq!(visible_entries(&es, &coll, "", &None), vec![2, 0]);
}

#[test]
fn index_hits_keep_rank_order_within_the_collection() {
    let es = library();
    let hits = Some(keys(&["smith2020", "cone1970", "ghost"]));
    assert_eq!(visible_entries(&es, &None, "theology", &hits), vec![1, 0]);
    let coll = Some(keys(&["cone1970"]));
    assert_eq!(visible_entries(&es, &coll, "theology", &hits), vec![0]);
}

#[test]
fn substring_fallback_is_case_insensitive() {
    let es = library();
    assert_eq!(visible_entries(&es, &None, "  HUMAN ", &None), vec![2]);
    assert_eq!(visible_entries(&es, &None, "jane", &None), vec![1]);
    assert_eq!(visible_entries(&es, &None, "19", &None), vec![0, 2]);
    assert_eq!(visible_entries(&es, &None, "zzz", &None), Vec::<usize>::new());
}

#[test]
fn later_entry_wins_a_duplicate_key() {
    let mut es = library();
    es.push(entry("cone1970", "Second copy", ""));
    assert_eq!(index_of_key(&es, "cone1970"), Some(3));
    assert_eq!(index_of_key(&es, "missing"), None);
    assert_eq!(visible_entries(&es, &Some(keys(&["cone1970"])), "", &None), vec![3]);
}

#[test]
fn custom_field_lookup() {
    let mut e = entry("k", "t", "a");
    e.custom_fields = vec![("Shelf".to_string(), "B2".to_string()), ("Loaned".to_string(), "yes".to_string())];
    assert_eq!(e.custom_field("Loaned"), "yes");
    assert_eq!(e.custom_field("Shelf"), "B2");
    assert_eq!(e.custom_field("shelf"), "");
}

#[test]
fn column_texts_and_citation() {
    assert_eq!(status_text(Some(ReadStatus::Reading)), "reading");
    assert_eq!(status_text(Some(ReadStatus::Unread)), "unread");
    assert_eq!(status_text(None), "");
    assert_eq!(tags_text(&vec!["theology".to_string(), "to read".to_string()]), "theology, to read");
    assert_eq!(tags_text(&vec![]), "");
    assert_eq!(typst_citation("cone1970"), "@cone1970");
}

#[test]
fn set_display_updates_the_shown_fields() {
    let mut e = entry("k", "Old", "Someone");
    e.set_display("New".to_string(), "Cone, James".to_string(), "1970".to_string());
    assert_eq!((e.title.as_str(), e.author.as_str(), e.year.as_str()), ("New", "Cone, James", "1970"));
    assert_eq!(e.key, "k");
}
