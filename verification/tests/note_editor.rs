use kartoteka::note_editor::{
    cite_styles, note_editor_save, parse_u32, style_index, tasks_from, Task, TaskInput,
};

fn s(x: &str) -> String {
    x.to_string()
}

fn row(text: &str, done: bool, due: &str) -> TaskInput {
    TaskInput { text: s(text), done, due: s(due) }
}

#[test]
fn numbers_parse_as_std_reads_them() {
    assert_eq!(parse_u32("42"), Some(42));
    assert_eq!(parse_u32("+7"), Some(7));
    assert_eq!(parse_u32("007"), Some(7));
    assert_eq!(parse_u32("4294967295"), Some(u32::MAX));
    assert_eq!(parse_u32("4294967296"), None);
    assert_eq!(parse_u32(""), None);
    assert_eq!(parse_u32("+"), None);
    assert_eq!(parse_u32("-1"), None);
    assert_eq!(parse_u32("12a"), None);
    for t in ["0", "1", "99", "65535", "123456789", "+5", "x", " 3"] {
        assert_eq!(parse_u32(t), t.parse::<u32>().ok());
    }
}

#[test]
fn style_dropdown_shows_the_saved_style() {
    assert_eq!(cite_styles(), vec!["(none)", "sbl", "chicago-notes", "chicago-author-date", "apa"]);
    assert_eq!(style_index(&None), 0);
    assert_eq!(style_index(&Some(s("apa"))), 4);
    assert_eq!(style_index(&Some(s("mla"))), 0);
}

#[test]
fn blank_task_rows_are_dropped() {
    let rows = vec![row("  Read ch. 2 ", false, " 2024-05-01 "), row("   ", true, "2024-01-01"), row("Quote p. 40", true, "")];
    assert_eq!(
        tasks_from(&rows),
        vec![
            Task { text: s("Read ch. 2"), done: false, due: Some(s("2024-05-01")) },
            Task { text: s("Quote p. 40"), done: true, due: None },
        ]
    );
}

#[test]
fn saving_reads_back_the_form() {
    let r = note_editor_save(" 12 ", "300", "  Cone, Black Theology ", 2, &vec![], &None, &Some(s("2024-06-01")));
    assert_eq!(r.progress, Some((12, 300)));
    assert_eq!(r.cite_short, Some(s("Cone, Black Theology")));
    assert_eq!(r.preferred_style, Some(s("chicago-notes")));
    assert!(r.tasks.is_empty());
    assert_eq!(r.date_added, Some(s("2024-06-01")));

    let r = note_editor_save("12", "", "  ", 0, &vec![], &Some(s("2020-01-01")), &Some(s("2024-06-01")));
    assert_eq!(r.progress, None);
    assert_eq!(r.cite_short, None);
    assert_eq!(r.preferred_style, None);
    assert_eq!(r.date_added, Some(s("2020-01-01")));

    let r = note_editor_save("1", "2", "", 9, &vec![], &None, &None);
    assert_eq!(r.preferred_style, None);
    assert_eq!(r.date_added, None);
}

#[test]
fn style_positions_round_trip() {
    for sel in 0u32..5 {
        let saved = note_editor_save("", "", "", sel, &vec![], &None, &None).preferred_style;
        assert_eq!(style_index(&saved), sel);
    }
}
