use kartoteka::config::{
    color_scheme, default_auto_backup_interval, same_path_exec, ColorScheme, Config,
    MAX_RECENT_LIBRARIES,
};

fn recent(c: &Config) -> Vec<&str> {
    c.recent_libraries.iter().map(|s| s.as_str()).collect()
}

#[test]
fn recording_moves_a_path_to_the_front() {
    let mut c = Config::default();
    c.record_recent_library("/a");
    c.record_recent_library("/b");
    c.record_recent_library("/c");
    assert_eq!(recent(&c), vec!["/c", "/b", "/a"]);
    c.record_recent_library("/a");
    assert_eq!(recent(&c), vec!["/a", "/c", "/b"]);
}

#[test]
fn recording_caps_the_list() {
    let mut c = Config::default();
    for i in 0..12 {
        c.record_recent_library(&format!("/lib{i}"));
    }
    assert_eq!(c.recent_libraries.len(), MAX_RECENT_LIBRARIES);
    assert_eq!(c.recent_libraries[0], "/lib11");
    assert_eq!(c.recent_libraries[7], "/lib4");
}

#[test]
fn recording_twice_is_recording_once() {
    let mut once = Config::default();
    once.record_recent_library("/x");
    once.record_recent_library("/y");
    let mut twice = once.clone();
    once.record_recent_library("/x");
    twice.record_recent_library("/x");
    twice.record_recent_library("/x");
    assert_eq!(recent(&once), recent(&twice));
    assert_eq!(recent(&once), vec!["/x", "/y"]);
}

#[test]
fn recording_drops_earlier_duplicates() {
    let mut c = Config::default();
    c.recent_libraries = vec!["/a".to_string(), "/b".to_string(), "/a".to_string()];
    c.record_recent_library("/a");
    assert_eq!(recent(&c), vec!["/a", "/b"]);
}

#[test]
fn recording_leaves_other_settings_alone() {
    let mut c = Config::default();
    c.theme = Some("dark".to_string());
    c.column_order = vec!["title".to_string()];
    c.record_recent_library("/a");
    assert_eq!(c.theme.as_deref(), Some("dark"));
    assert_eq!(c.column_order, vec!["title".to_string()]);
}

#[test]
fn default_config_is_empty_and_interval_default_is_thirty() {
    let c = Config::default();
    assert!(c.library_path.is_none());
    assert!(!c.auto_backup_enabled);
    assert_eq!(c.auto_backup_interval_mins, 0);
    assert!(c.recent_libraries.is_empty());
    assert!(c.column_visible.is_empty());
    assert_eq!(default_auto_backup_interval(), 30);
}

#[test]
fn theme_names_pick_the_colour_scheme() {
    assert_eq!(color_scheme("light"), ColorScheme::ForceLight);
    assert_eq!(color_scheme("dark"), ColorScheme::ForceDark);
    assert_eq!(color_scheme("system"), ColorScheme::Default);
    assert_eq!(color_scheme("Dark"), ColorScheme::Default);
}

#[test]
fn recording_compares_paths_not_spellings() {
    let mut c = Config::default();
    c.recent_libraries = vec!["/l/a/".to_string(), "/l/b".to_string(), "/l//a".to_string(), "/l/./a".to_string()];
    c.record_recent_library("/l/a");
    assert_eq!(recent(&c), vec!["/l/a", "/l/b"]);
    let mut d = Config::default();
    d.recent_libraries = vec!["./a".to_string(), "a".to_string(), "/a".to_string()];
    d.record_recent_library("a/");
    assert_eq!(recent(&d), vec!["a/", "./a", "/a"]);
    assert!(same_path_exec("/", "//"));
    assert!(!same_path_exec("/l/a", "/l/ab"));
    assert!(same_path_exec(".", "./"));
}

#[test]
fn window_geometry_falls_back_to_defaults() {
    let mut c = Config::default();
    let g = c.window_geometry();
    assert_eq!((g.width, g.height, g.detail_pane, g.collections_pane), (1300, 680, 780, 190));
    c.window_width = Some(900);
    c.collections_pane_position = Some(240);
    let g = c.window_geometry();
    assert_eq!((g.width, g.height, g.detail_pane, g.collections_pane), (900, 680, 780, 240));
}

#[test]
fn window_start_follows_the_settings() {
    let mut c = Config::default();
    let w = c.window_start(true);
    assert!(!w.maximized);
    assert_eq!(w.theme, "system");
    assert_eq!(w.color_scheme, ColorScheme::Default);
    assert_eq!(w.reopen, None);

    c.window_maximized = Some(true);
    c.theme = Some("dark".to_string());
    c.library_path = Some("/home/a/lib".to_string());
    let w = c.window_start(true);
    assert!(w.maximized);
    assert_eq!(c.theme_name(), "dark");
    assert_eq!(w.color_scheme, ColorScheme::ForceDark);
    assert_eq!(w.reopen, Some("/home/a/lib".to_string()));
    assert_eq!(c.window_start(false).reopen, None);

    c.window_maximized = Some(false);
    assert!(!c.window_start(true).maximized);
}
