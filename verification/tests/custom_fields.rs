use kartoteka::custom_fields::{
    add_field, custom_column_id, field_placeholder, field_type_choices, remove_field,
    CustomFieldDef, CustomFieldType,
};

fn names(defs: &[CustomFieldDef]) -> Vec<String> {
    defs.iter().map(|d| d.name.clone()).collect()
}

#[test]
fn field_types_are_offered_in_order() {
    let labels: Vec<&str> = field_type_choices().iter().map(|c| c.0).collect();
    assert_eq!(labels, vec!["Text", "Number", "Tag", "Date"]);
    assert_eq!(field_type_choices()[2].1, CustomFieldType::Tag);
}

#[test]
fn placeholders_guide_tags_and_dates() {
    assert_eq!(field_placeholder(CustomFieldType::Tag), Some("comma, separated, values"));
    assert_eq!(field_placeholder(CustomFieldType::Date), Some("YYYY-MM-DD"));
    assert_eq!(field_placeholder(CustomFieldType::Text), None);
    assert_eq!(field_placeholder(CustomFieldType::Number), None);
}

#[test]
fn custom_columns_are_prefixed() {
    assert_eq!(custom_column_id("Shelf"), "custom:Shelf");
}

#[test]
fn adding_trims_and_refuses_blank_or_taken_names() {
    let mut defs: Vec<CustomFieldDef> = Vec::new();
    assert_eq!(add_field(&mut defs, "  Shelf ", CustomFieldType::Text), Ok(()));
    assert_eq!(names(&defs), vec!["Shelf".to_string()]);
    assert_eq!(defs[0].field_type, CustomFieldType::Text);

    assert_eq!(add_field(&mut defs, "   ", CustomFieldType::Date), Err("Give the field a name".to_string()));
    assert_eq!(
        add_field(&mut defs, "Shelf", CustomFieldType::Number),
        Err("\"Shelf\" already exists".to_string())
    );
    assert_eq!(defs.len(), 1);

    assert_eq!(add_field(&mut defs, "Bought", CustomFieldType::Date), Ok(()));
    assert_eq!(names(&defs), vec!["Shelf".to_string(), "Bought".to_string()]);
}

#[test]
fn add_then_remove_restores_the_definitions() {
    let mut defs: Vec<CustomFieldDef> = Vec::new();
    add_field(&mut defs, "Shelf", CustomFieldType::Text).unwrap();
    let before = names(&defs);
    add_field(&mut defs, " Loaned to ", CustomFieldType::Tag).unwrap();
    remove_field(&mut defs, "Loaned to");
    assert_eq!(names(&defs), before);
    remove_field(&mut defs, "Absent");
    assert_eq!(names(&defs), before);
    remove_field(&mut defs, "Shelf");
    assert!(defs.is_empty());
}
