use kartoteka::graph::{
    build_library_graph, graph_expand, graph_node_kind, group_relations_display,
    node_type_choices, target_display, ItemInfo, NodeType, Relation, LIBRARY_GRAPH_NODE_CAP,
};

fn work(id: &str, title: &str) -> ItemInfo {
    ItemInfo { id: id.to_string(), entry_title: Some(title.to_string()), node: None }
}

fn node(id: &str, t: NodeType, label: &str) -> ItemInfo {
    ItemInfo { id: id.to_string(), entry_title: None, node: Some((t, label.to_string())) }
}

fn rel(target: &str, predicate: &str, inverse: bool) -> Relation {
    Relation { target: target.to_string(), predicate: predicate.to_string(), inverse, cites: predicate == "cites" }
}

fn table() -> Vec<ItemInfo> {
    vec![
        work("cone1970", "Black Theology"),
        work("untitled", ""),
        node("barth", NodeType::Person, "Karl Barth"),
        node("blank", NodeType::Place, ""),
    ]
}

#[test]
fn node_kinds_and_labels() {
    let t = table();
    assert_eq!(graph_node_kind(&t, "cone1970"), ("Black Theology".to_string(), "work".to_string()));
    assert_eq!(graph_node_kind(&t, "untitled"), ("untitled".to_string(), "work".to_string()));
    assert_eq!(graph_node_kind(&t, "barth"), ("Karl Barth".to_string(), "person".to_string()));
    assert_eq!(graph_node_kind(&t, "blank"), ("blank".to_string(), "place".to_string()));
    assert_eq!(graph_node_kind(&t, "dangling"), ("dangling".to_string(), "other".to_string()));
}

#[test]
fn target_display_falls_back_to_the_id() {
    let t = table();
    assert_eq!(target_display(&t, "cone1970"), "Black Theology");
    assert_eq!(target_display(&t, "barth"), "Karl Barth");
    assert_eq!(target_display(&t, "untitled"), "untitled");
    assert_eq!(target_display(&t, "dangling"), "dangling");
}

#[test]
fn node_type_labels() {
    assert_eq!(NodeType::WorkUncataloged.label(), "Uncatalogued work");
    assert_eq!(NodeType::WorkUncataloged.kind_name(), "work");
    let choices = node_type_choices();
    assert_eq!(choices.len(), 6);
    assert_eq!(choices[0], ("Person", NodeType::Person));
    assert_eq!(choices[5].0, "Uncatalogued work");
}

#[test]
fn relations_grouped_sorted_and_deduplicated() {
    let t = table();
    let rs = vec![
        rel("cone1970", "influenced by", false),
        rel("barth", "cites", false),
        rel("dangling", "influenced by", false),
        rel("cone1970", "influenced by", true),
    ];
    let g = group_relations_display(&t, &rs);
    assert_eq!(
        g,
        vec![
            ("cites".to_string(), vec!["Karl Barth".to_string()]),
            ("influenced by".to_string(), vec!["Black Theology".to_string(), "dangling".to_string()]),
        ]
    );
}

#[test]
fn expand_gives_one_edge_per_target() {
    let t = table();
    let rs = vec![rel("barth", "cites", false), rel("cone1970", "cited by", true), rel("barth", "responds to", false)];
    let p = graph_expand(&t, "me", &rs);
    assert!(p.center.is_none());
    let ids: Vec<&str> = p.nodes.iter().map(|n| n.id.as_str()).collect();
    assert_eq!(ids, vec!["barth", "cone1970"]);
    assert_eq!(p.nodes[0].label, "Karl Barth");
    assert_eq!(p.edges.len(), 2);
    assert_eq!((p.edges[0].from.as_str(), p.edges[0].to.as_str(), p.edges[0].label.as_str()), ("me", "barth", "cites"));
    assert_eq!(p.edges[1].label, "cited by");
}

#[test]
fn library_graph_skips_inverse_and_duplicate_edges() {
    let t = table();
    let items = vec![
        ("cone1970".to_string(), vec![rel("barth", "cites", false), rel("barth", "responds to", false), rel("x", "cited by", true)]),
        ("barth".to_string(), vec![rel("cone1970", "cited by", true)]),
    ];
    let p = build_library_graph(&t, &items);
    let ids: Vec<&str> = p.nodes.iter().map(|n| n.id.as_str()).collect();
    assert_eq!(ids, vec!["cone1970", "barth"]);
    assert_eq!(p.edges.len(), 1);
    assert_eq!(p.edges[0].label, "cites");
}

#[test]
fn library_graph_cap_stops_new_unconnected_nodes() {
    let t: Vec<ItemInfo> = vec![];
    let mut items = Vec::new();
    for i in 0..200 {
        items.push((format!("a{i}"), vec![rel(&format!("b{i}"), "cites", false)]));
    }
    let p = build_library_graph(&t, &items);
    assert_eq!(p.nodes.len(), LIBRARY_GRAPH_NODE_CAP);
    assert_eq!(p.edges.len(), LIBRARY_GRAPH_NODE_CAP / 2);
    // Once full, even a relation touching a node already on the map adds nothing new.
    items.push(("a0".to_string(), vec![rel("late", "cites", false), rel("b0", "responds to", false)]));
    let q = build_library_graph(&t, &items);
    assert_eq!(q.nodes.len(), LIBRARY_GRAPH_NODE_CAP);
    assert!(q.nodes.iter().all(|n| n.id != "late"));
    // One short of the cap, a relation needing two new nodes is passed over, one needing
    // a single new node is taken.
    let mut near: Vec<(String, Vec<Relation>)> = (0..74)
        .map(|i| (format!("a{i}"), vec![rel(&format!("b{i}"), "cites", false)]))
        .collect();
    near.push(("solo".to_string(), vec![rel("solo", "cites", false)]));
    near.push(("x".to_string(), vec![rel("y", "cites", false), rel("a0", "cites", false)]));
    let r = build_library_graph(&t, &near);
    assert_eq!(r.nodes.len(), LIBRARY_GRAPH_NODE_CAP);
    assert_eq!(r.nodes.last().unwrap().id, "x");
}
