use kartoteka::webdav::{
    collection_base, collection_urls, collections_to_make, encode_segment, library_dirs,
    library_files, mkcol_succeeded, rel_url, urlencode,
};

fn strings(v: &[&str]) -> Vec<String> {
    v.iter().map(|s| s.to_string()).collect()
}

#[test]
fn encodes_reserved_bytes_only() {
    assert_eq!(encode_segment("smith-2020_a.b~c"), "smith-2020_a.b~c");
    assert_eq!(encode_segment("a b"), "a%20b");
    assert_eq!(encode_segment("a/b"), "a%2Fb");
    assert_eq!(encode_segment("ü"), "%C3%BC");
    assert_eq!(urlencode("10.1000/xyz"), "10.1000%2Fxyz");
    assert!(!encode_segment("x/y/z").contains('/'));
}

#[test]
fn rel_url_joins_non_empty_segments() {
    assert_eq!(
        rel_url("https://dav.example/lib", &strings(&["entries", "my key.yml"])),
        "https://dav.example/lib/entries/my%20key.yml"
    );
    assert_eq!(rel_url("https://d/x", &strings(&["", "a"])), "https://d/x/a");
    assert_eq!(rel_url("https://d/x", &vec![]), "https://d/x");
}

#[test]
fn collection_urls_nest_top_down() {
    let urls = collection_urls("https://d/x", &strings(&["attachments", "ab", "cd"]));
    assert_eq!(
        urls,
        strings(&["https://d/x/attachments", "https://d/x/attachments/ab", "https://d/x/attachments/ab/cd"])
    );
    let file = rel_url("https://d/x", &strings(&["attachments", "ab", "cd", "blob"]));
    for u in &urls {
        assert!(file.starts_with(u.as_str()));
    }
}

#[test]
fn collections_are_made_once_per_upload() {
    let mut made = Vec::new();
    let first = collections_to_make(&mut made, "https://d/x", &strings(&["notes", "a"]));
    assert_eq!(first, strings(&["https://d/x/notes", "https://d/x/notes/a"]));
    let second = collections_to_make(&mut made, "https://d/x", &strings(&["notes", "b"]));
    assert_eq!(second, strings(&["https://d/x/notes/b"]));
    assert_eq!(made.len(), 3);
    let third = collections_to_make(&mut made, "https://d/x", &strings(&["notes"]));
    assert!(third.is_empty());
}

#[test]
fn collection_base_drops_trailing_slashes() {
    assert_eq!(collection_base("https://d/dav///"), "https://d/dav");
    assert_eq!(collection_base("https://d/dav"), "https://d/dav");
    assert_eq!(collection_base("///"), "");
}

#[test]
fn mkcol_statuses() {
    assert!(mkcol_succeeded(201));
    assert!(mkcol_succeeded(200));
    assert!(mkcol_succeeded(405));
    assert!(mkcol_succeeded(301));
    assert!(mkcol_succeeded(409));
    assert!(!mkcol_succeeded(403));
    assert!(!mkcol_succeeded(500));
    assert!(!mkcol_succeeded(300));
}

#[test]
fn only_library_files_are_listed() {
    assert_eq!(library_dirs(), vec!["entries", "notes", "collections", "annots", "attachments"]);
    assert_eq!(library_files(), vec!["library.yml", ".gitignore"]);
}

#[test]
fn encoding_uses_url_safe_characters_only() {
    let e = encode_segment("a b/ü?%&#");
    assert!(e.chars().all(|c| c.is_ascii_alphanumeric() || "-_.~%".contains(c)));
    assert_ne!(encode_segment("a b"), encode_segment("a%20b"));
}

#[test]
fn escapes_are_percent_and_two_upper_hex_digits() {
    for seg in ["a b/ü?%&#", "ünïcödé", "~.-_", "\u{1F600}", "%%"] {
        let e: Vec<char> = encode_segment(seg).chars().collect();
        for (i, c) in e.iter().enumerate() {
            if *c == '%' {
                assert!(i + 2 < e.len());
                assert!(e[i + 1].is_ascii_hexdigit() && !e[i + 1].is_ascii_lowercase());
                assert!(e[i + 2].is_ascii_hexdigit() && !e[i + 2].is_ascii_lowercase());
            }
        }
    }
}

#[test]
fn segments_stay_as_they_are_exactly_when_unreserved() {
    for seg in ["", "abcXYZ019", "a-b_c.d~e"] {
        assert_eq!(encode_segment(seg), seg);
    }
    for seg in ["a b", "ü", "a%b", "a+b", "x/y"] {
        assert_ne!(encode_segment(seg), seg);
    }
}
