use kartoteka::friendly::{
    bib_error, file_label, io_error, io_error_message, vault_error, BibError, IoErrorKind,
    VaultError,
};

#[test]
fn file_label_takes_the_last_component() {
    assert_eq!(file_label("/home/u/lib/entries/smith2020.yml"), "smith2020.yml");
    assert_eq!(file_label("/home/u/lib/"), "lib");
    assert_eq!(file_label("/"), "/");
    assert_eq!(file_label("/home/.."), "/home/..");
}

#[test]
fn io_error_not_found_and_permission() {
    assert_eq!(
        io_error("opening that library", "/x/entries/a.yml", IoErrorKind::NotFound, "gone"),
        "\"a.yml\" couldn't be found — it may have been moved or deleted."
    );
    assert_eq!(
        io_error("opening that library", "/x/lib", IoErrorKind::PermissionDenied, "no"),
        "Kartoteka doesn't have permission to access \"lib\"."
    );
}

#[test]
fn io_error_other_keeps_the_detail() {
    assert_eq!(
        io_error("saving", "/x/notes/n.md", IoErrorKind::Other, "disk on fire"),
        "Something went wrong saving (\"n.md\": disk on fire)."
    );
    assert_eq!(
        io_error_message("saving", "n.md", IoErrorKind::Other, "boom"),
        "Something went wrong saving (\"n.md\": boom)."
    );
}

#[test]
fn bib_error_sentences() {
    assert_eq!(
        bib_error(&BibError::NotSingleEntry { path: "/l/entries/k.yml".to_string() }),
        "The file for \"k.yml\" should contain exactly one reference, but doesn't."
    );
    assert_eq!(
        bib_error(&BibError::Yaml { path: "/l/entries/k.yml".to_string() }),
        "The file for \"k.yml\" looks like it was edited by hand and isn't valid anymore. Open it in a text editor to fix the formatting, or ask for help if you're not sure what changed."
    );
    assert_eq!(
        bib_error(&BibError::PlainYaml { path: "/l/entries/k.yml".to_string() }),
        bib_error(&BibError::Yaml { path: "/l/entries/k.yml".to_string() })
    );
    assert_eq!(
        bib_error(&BibError::KeyMismatch { path: "/l/entries/k.yml".to_string() }),
        "The file for \"k.yml\" doesn't match its own file name — it may have been renamed outside Kartoteka."
    );
    assert_eq!(
        bib_error(&BibError::Frontmatter { path: "/l/notes/k.md".to_string() }),
        "The note for \"k.md\" has a formatting problem and couldn't be read."
    );
    assert_eq!(
        bib_error(&BibError::UnkeyableEntry),
        "This reference needs at least an author or a title before it can be saved."
    );
    assert_eq!(
        bib_error(&BibError::Import { message: "bad bib".to_string() }),
        "Import failed: bad bib"
    );
    assert_eq!(
        bib_error(&BibError::Zotero),
        "Couldn't read that Zotero database — it may be open in Zotero right now, or in an unsupported version."
    );
    // The layout error names the whole folder, not just its last component.
    assert_eq!(
        bib_error(&BibError::Layout { path: "/home/u/Downloads".to_string() }),
        "\"/home/u/Downloads\" doesn't look like a Kartoteka library folder."
    );
    assert_eq!(
        bib_error(&BibError::Io {
            path: "/l/entries/k.yml".to_string(),
            kind: IoErrorKind::Other,
            detail: "short read".to_string(),
        }),
        "Something went wrong reading or writing a file (\"k.yml\": short read)."
    );
}

#[test]
fn vault_error_explains_missing_identity() {
    let s = vault_error(&VaultError::Git { message: "config value 'user.name' was not found".to_string() });
    assert!(s.starts_with("Backups need a name and email"));
    assert!(s.ends_with("git config --global user.email \"you@example.com\""));
    assert_eq!(
        vault_error(&VaultError::Git { message: "remote rejected".to_string() }),
        "Backup couldn't complete (remote rejected)."
    );
    assert_eq!(
        vault_error(&VaultError::Watch { message: "inotify limit".to_string() }),
        "Couldn't watch the library folder for changes (inotify limit)."
    );
    assert_eq!(
        vault_error(&VaultError::Io {
            path: "/l/.git".to_string(),
            kind: IoErrorKind::NotFound,
            detail: String::new(),
        }),
        "\".git\" couldn't be found — it may have been moved or deleted."
    );
}
