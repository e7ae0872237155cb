use kartoteka::collections::{order_collection_tree, Collection};

fn coll(slug: &str, name: &str, parent: Option<&str>) -> (String, Collection) {
    (
        slug.to_string(),
        Collection { name: name.to_string(), parent: parent.map(|p| p.to_string()) },
    )
}

fn rows(v: Vec<(String, String, usize)>) -> Vec<(String, usize)> {
    v.into_iter().map(|(s, _, d)| (s, d)).collect()
}

#[test]
fn children_follow_their_parent() {
    let cs = vec![
        coll("b", "B", None),
        coll("a1", "A1", Some("a")),
        coll("a", "A", None),
        coll("a1x", "A1x", Some("a1")),
        coll("a2", "A2", Some("a")),
    ];
    let out = order_collection_tree(&cs);
    assert_eq!(out[0].1, "B");
    assert_eq!(
        rows(out),
        vec![
            ("b".to_string(), 0),
            ("a".to_string(), 0),
            ("a1".to_string(), 1),
            ("a1x".to_string(), 2),
            ("a2".to_string(), 1),
        ]
    );
}

#[test]
fn unknown_or_self_parent_is_top_level() {
    let cs = vec![coll("x", "X", Some("missing")), coll("y", "Y", Some("y"))];
    assert_eq!(rows(order_collection_tree(&cs)), vec![("x".to_string(), 0), ("y".to_string(), 0)]);
}

#[test]
fn a_cycle_still_lists_every_collection() {
    let cs = vec![coll("p", "P", Some("q")), coll("q", "Q", Some("p")), coll("r", "R", None)];
    let out = rows(order_collection_tree(&cs));
    assert_eq!(out, vec![("r".to_string(), 0), ("p".to_string(), 0), ("q".to_string(), 0)]);
}

#[test]
fn empty_tree() {
    assert!(order_collection_tree(&vec![]).is_empty());
}
