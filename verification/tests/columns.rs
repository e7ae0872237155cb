use kartoteka::columns::reorder_columns;

fn ids(v: &[Option<&str>]) -> Vec<Option<String>> {
    v.iter().map(|s| s.map(|x| x.to_string())).collect()
}

fn order(v: &[&str]) -> Vec<String> {
    v.iter().map(|s| s.to_string()).collect()
}

#[test]
fn saved_order_leads_and_new_columns_trail() {
    let cols = ids(&[Some("key"), Some("title"), Some("author"), Some("custom:Shelf")]);
    let r = reorder_columns(&cols, &order(&["author", "key", "gone", "title"]));
    assert_eq!(r, vec![2, 0, 1, 3]);
}

#[test]
fn last_mention_wins_and_columns_without_ids_stay() {
    let cols = ids(&[None, Some("a"), Some("b")]);
    let r = reorder_columns(&cols, &order(&["a", "b", "a"]));
    assert_eq!(r, vec![2, 1, 0]);
    assert_eq!(reorder_columns(&cols, &vec![]), vec![0, 1, 2]);
}

#[test]
fn every_column_appears_once() {
    let cols = ids(&[Some("x"), Some("x"), Some("y"), None]);
    let mut r = reorder_columns(&cols, &order(&["x", "y", "x", "z"]));
    assert_eq!(r, vec![2, 0, 1, 3]);
    r.sort();
    assert_eq!(r, vec![0, 1, 2, 3]);
}
