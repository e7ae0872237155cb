use kartoteka::creators::{
    creators, move_down, move_up, new_row_role, swap_names, toggle_single_field, CreatorRow,
};

fn row(single: bool, family: &str, given: &str, one: &str) -> CreatorRow {
    CreatorRow {
        role: 0,
        single_field: single,
        family: family.to_string(),
        given: given.to_string(),
        single: one.to_string(),
        prefix: None,
        suffix: None,
        comma_suffix: false,
        alias: None,
    }
}

#[test]
fn read_back_trims_and_drops_empty_rows() {
    let mut rows = vec![row(false, " Cone ", "James ", ""), row(false, " ", "", "x"), row(true, "ignored", "", " ACME Corp ")];
    rows[0].prefix = Some("von".to_string());
    rows[0].comma_suffix = true;
    rows[2].alias = Some("ACME".to_string());
    rows[2].role = 9;
    let c = creators(&rows, 6, 0);
    assert_eq!(c.len(), 2);
    assert_eq!((c[0].family.as_str(), c[0].given.as_str()), ("Cone", "James"));
    assert_eq!((c[1].family.as_str(), c[1].given.as_str(), c[1].single_field), ("ACME Corp", "", true));
    assert_eq!(c[0].prefix.as_deref(), Some("von"));
    assert!(c[0].comma_suffix);
    assert_eq!(c[1].alias.as_deref(), Some("ACME"));
    // A role position past the list falls back to the author role.
    assert_eq!(c[1].role, 0);
}

#[test]
fn new_rows_take_the_previous_role() {
    let mut rows = vec![row(false, "A", "", "")];
    assert_eq!(new_row_role(&vec![], 6, 0), 0);
    rows[0].role = 3;
    assert_eq!(new_row_role(&rows, 6, 0), 3);
    rows[0].role = 40;
    assert_eq!(new_row_role(&rows, 6, 0), 0);
}

#[test]
fn toggling_single_field() {
    let mut r = row(false, "Cone", "James", "");
    toggle_single_field(&mut r);
    assert!(r.single_field);
    assert_eq!(r.single, "James Cone");
    toggle_single_field(&mut r);
    assert!(!r.single_field);
    assert_eq!((r.family.as_str(), r.given.as_str()), ("James Cone", ""));
    let mut only_last = row(false, "Plato", "", "");
    toggle_single_field(&mut only_last);
    assert_eq!(only_last.single, "Plato");
}

#[test]
fn swapping_names() {
    let mut r = row(false, "Cone", "James", "");
    swap_names(&mut r);
    assert_eq!((r.family.as_str(), r.given.as_str()), ("James", "Cone"));
}

#[test]
fn moving_up_then_down_restores() {
    let mut rows = vec![row(false, "A", "", ""), row(false, "B", "", ""), row(false, "C", "", "")];
    move_up(&mut rows, 2);
    let names: Vec<&str> = rows.iter().map(|r| r.family.as_str()).collect();
    assert_eq!(names, vec!["A", "C", "B"]);
    move_down(&mut rows, 1);
    let names: Vec<&str> = rows.iter().map(|r| r.family.as_str()).collect();
    assert_eq!(names, vec!["A", "B", "C"]);
    move_up(&mut rows, 0);
    move_down(&mut rows, 2);
    let names: Vec<&str> = rows.iter().map(|r| r.family.as_str()).collect();
    assert_eq!(names, vec!["A", "B", "C"]);
}
