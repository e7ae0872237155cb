use kartoteka::entries::EntrySummary;
use kartoteka::graph::{NodeType, Relation};
use kartoteka::relations::{
    current_predicate_of, entry_row, node_row, predicate_options, row_matches,
};

fn s(x: &str) -> String {
    x.to_string()
}

fn entry(key: &str, title: &str, author: &str, year: &str) -> EntrySummary {
    EntrySummary {
        key: s(key),
        author: s(author),
        year: s(year),
        title: s(title),
        has_pdf: false,
        has_epub: false,
        tags: String::new(),
        status: String::new(),
        custom_fields: vec![],
        entry_type: s("book"),
        isbn: String::new(),
    }
}

fn rel(target: &str, predicate: &str) -> Relation {
    Relation { target: s(target), predicate: s(predicate), inverse: false, cites: false }
}

#[test]
fn entry_rows_show_title_and_byline() {
    let r = entry_row(&entry("arendt1958", "The Human Condition", "Arendt", "1958"));
    assert_eq!(r.id, "arendt1958");
    assert_eq!(r.label, "The Human Condition");
    assert_eq!(r.sub, "Arendt · 1958");
    assert_eq!(r.hay, "the human condition arendt · 1958 arendt1958");

    let r = entry_row(&entry("anon", "", "", "1999"));
    assert_eq!(r.label, "anon");
    assert_eq!(r.sub, "1999");
    assert_eq!(entry_row(&entry("k", "T", "A", "")).sub, "A");
    assert_eq!(entry_row(&entry("k", "T", "", "")).sub, "k");
}

#[test]
fn node_rows_show_type_and_slug() {
    let r = node_row("arendt", NodeType::Person, "Hannah Arendt");
    assert_eq!(r.label, "Hannah Arendt");
    assert_eq!(r.sub, "Person · arendt");
    assert_eq!(node_row("polis", NodeType::Concept, "").label, "polis");
}

#[test]
fn search_is_case_insensitive_and_empty_shows_all() {
    let r = node_row("arendt", NodeType::Person, "Hannah Arendt");
    assert!(row_matches(&r.hay, "HANNAH"));
    assert!(row_matches(&r.hay, "person"));
    assert!(row_matches(&r.hay, ""));
    assert!(!row_matches(&r.hay, "heidegger"));
}

#[test]
fn current_predicate_is_the_first_naming_the_target() {
    let forward = vec![rel("a", "cites"), rel("b", "critiques"), rel("b", "extends")];
    assert_eq!(current_predicate_of(&forward, "b"), Some(s("critiques")));
    assert_eq!(current_predicate_of(&forward, "c"), None);
}

#[test]
fn predicate_options_keep_a_hand_authored_predicate() {
    let suited = vec![s("cites"), s("critiques")];
    assert_eq!(predicate_options(&suited, &None), suited);
    assert_eq!(predicate_options(&suited, &Some(s("cites"))), suited);
    assert_eq!(
        predicate_options(&suited, &Some(s("answers"))),
        vec![s("cites"), s("critiques"), s("answers")]
    );
}
