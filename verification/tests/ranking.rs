use kartoteka::graph::{ItemInfo, Relation};
use kartoteka::ranking::library_graph_analytics;

fn rel(target: &str, cites: bool, inverse: bool) -> Relation {
    Relation { target: target.to_string(), predicate: if cites { "cites" } else { "related" }.to_string(), inverse, cites }
}

fn work(id: &str, title: &str) -> ItemInfo {
    ItemInfo { id: id.to_string(), entry_title: Some(title.to_string()), node: None }
}

#[test]
fn rankings_count_forward_edges_only() {
    let table = vec![work("a", "Alpha"), work("b", "Beta"), work("c", "Gamma")];
    let items = vec![
        ("a".to_string(), vec![rel("b", true, false), rel("c", true, false)]),
        ("b".to_string(), vec![rel("c", true, false), rel("a", false, true)]),
        ("c".to_string(), vec![rel("a", false, false)]),
    ];
    let (connected, cited) = library_graph_analytics(&table, &items);
    assert_eq!(
        connected,
        vec![
            ("a".to_string(), "Alpha".to_string(), 3),
            ("c".to_string(), "Gamma".to_string(), 3),
            ("b".to_string(), "Beta".to_string(), 2),
        ]
    );
    assert_eq!(
        cited,
        vec![("c".to_string(), "Gamma".to_string(), 2), ("b".to_string(), "Beta".to_string(), 1)]
    );
}

#[test]
fn rankings_keep_the_top_ten() {
    let items: Vec<(String, Vec<Relation>)> = (0..15)
        .map(|i| (format!("s{i:02}"), (0..i).map(|_| rel("hub", false, false)).collect()))
        .collect();
    let (connected, cited) = library_graph_analytics(&vec![], &items);
    assert_eq!(connected.len(), 10);
    assert_eq!(connected[0], ("hub".to_string(), "hub".to_string(), 105));
    assert_eq!(connected[1].0, "s14");
    assert_eq!(connected[9].0, "s06");
    assert!(cited.is_empty());
}

#[test]
fn self_relation_counts_twice() {
    let items = vec![("a".to_string(), vec![rel("a", true, false)])];
    let (connected, cited) = library_graph_analytics(&vec![], &items);
    assert_eq!(connected, vec![("a".to_string(), "a".to_string(), 2)]);
    assert_eq!(cited, vec![("a".to_string(), "a".to_string(), 1)]);
}
