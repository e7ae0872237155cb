//! Plain-language translations of the errors the library and backup layers hand back,
//! for use in toasts. Anything not specifically handled falls back to the error's own
//! message, prefixed so it's still recognisable as an error.
//!
//! The errors are described here by the plain values the sentences are built from: a
//! path as text, the kind of an I/O failure, and the failure's own message.

use vstd::prelude::*;

use crate::text;

verus! {

/// The kinds of I/O failure that get a sentence of their own; every other kind is
/// `Other`.
#[derive(Debug, Clone, Copy, PartialEq, Eq)]
pub enum IoErrorKind {
    NotFound,
    PermissionDenied,
    Other,
}

/// What `Path::file_name` gives for the path `path`: its last normal component, or
/// nothing when the path ends in `..` or has no such component.
pub uninterp spec fn path_file_name(path: Seq<char>) -> Option<Seq<char>>;

/// `std::path::Path::file_name`, on a path given as text. Claimed: the result is
/// `path_file_name` of the argument.
#[verifier::external_body]
pub(crate) fn file_name_of(path: &str) -> (r: Option<String>)
    ensures
        r matches Some(n) ==> path_file_name(path@) == Some(n@),
        r is None ==> path_file_name(path@) is None,
{
    std::path::Path::new(path).file_name().map(|n| n.to_string_lossy().into_owned())
}

/// The name a path is best identified by in a sentence: its last component, else the
/// whole path.
pub open spec fn label_of(path: Seq<char>) -> Seq<char> {
    match path_file_name(path) {
        Some(n) => n,
        None => path,
    }
}

/// The file/folder name a path is best identified by in a sentence: just the last
/// component, not the full (often long, always technical-looking) path.
pub fn file_label(path: &str) -> (r: String)
    ensures
        r@ == label_of(path@),
{
    match file_name_of(path) {
        Some(n) => n,
        None => text::owned(path),
    }
}

/// The sentence for an I/O failure of `kind` while doing `doing`, on the item named
/// `label`, with the failure's own message `detail`.
pub open spec fn io_message(doing: Seq<char>, label: Seq<char>, kind: IoErrorKind, detail: Seq<
    char,
>) -> Seq<char> {
    match kind {
        IoErrorKind::NotFound => "\""@ + label + "\" couldn't be found \u{2014} it may have been moved or deleted."@,
        IoErrorKind::PermissionDenied => "Kartoteka doesn't have permission to access \""@ + label
            + "\"."@,
        IoErrorKind::Other => "Something went wrong "@ + doing + " (\""@ + label + "\": "@ + detail
            + ")."@,
    }
}

/// The sentence for an I/O failure, from its plain parts.
pub fn io_error_message(doing_what: &str, label: &str, kind: IoErrorKind, detail: &str) -> (r:
    String)
    ensures
        r@ == io_message(doing_what@, label@, kind, detail@),
{
    match kind {
        IoErrorKind::NotFound => {
            let mut s = text::owned("\"");
            text::push_str(&mut s, label);
            text::push_str(&mut s, "\" couldn't be found \u{2014} it may have been moved or deleted.");
            s
        },
        IoErrorKind::PermissionDenied => {
            let mut s = text::owned("Kartoteka doesn't have permission to access \"");
            text::push_str(&mut s, label);
            text::push_str(&mut s, "\".");
            s
        },
        IoErrorKind::Other => {
            let mut s = text::owned("Something went wrong ");
            text::push_str(&mut s, doing_what);
            text::push_str(&mut s, " (\"");
            text::push_str(&mut s, label);
            text::push_str(&mut s, "\": ");
            text::push_str(&mut s, detail);
            text::push_str(&mut s, ").");
            s
        },
    }
}

/// Translate an I/O failure encountered for `path` while doing `doing_what` (a short
/// lowercase gerund phrase, e.g. `"opening that library"`). The failure is given by its
/// kind and its own message (what `std::io::Error::kind` and its `Display` give).
pub fn io_error(doing_what: &str, path: &str, kind: IoErrorKind, detail: &str) -> (r: String)
    ensures
        r@ == io_message(doing_what@, label_of(path@), kind, detail@),
{
    let where_ = file_label(path);
    io_error_message(doing_what, where_.as_str(), kind, detail)
}

// ---------------------------------------------------------------------------
// Library and backup errors
// ---------------------------------------------------------------------------

/// A library (reference-file) error, by the plain values its sentence needs.
#[derive(Debug, Clone)]
pub enum BibError {
    /// Reading or writing a file failed.
    Io { path: String, kind: IoErrorKind, detail: String },
    /// An entry file is not valid YAML.
    Yaml { path: String },
    /// An entry file is not valid plain YAML.
    PlainYaml { path: String },
    /// An entry file does not hold exactly one reference.
    NotSingleEntry { path: String },
    /// An entry file's key does not match its file name.
    KeyMismatch { path: String },
    /// A note's front matter could not be read.
    Frontmatter { path: String },
    /// An entry has neither author nor title to derive a key from.
    UnkeyableEntry,
    /// An import failed.
    Import { message: String },
    /// A Zotero database could not be read.
    Zotero,
    /// A folder is not a library.
    Layout { path: String },
}

/// A backup error, by the plain values its sentence needs.
#[derive(Debug, Clone)]
pub enum VaultError {
    /// Git failed, with its own message.
    Git { message: String },
    /// Reading or writing a file failed.
    Io { path: String, kind: IoErrorKind, detail: String },
    /// Watching the library folder failed.
    Watch { message: String },
}

/// The sentence for a library error.
pub open spec fn bib_message(e: BibError) -> Seq<char> {
    match e {
        BibError::Io { path, kind, detail } => io_message(
            "reading or writing a file"@,
            label_of(path@),
            kind,
            detail@,
        ),
        BibError::Yaml { path } => yaml_message(label_of(path@)),
        BibError::PlainYaml { path } => yaml_message(label_of(path@)),
        BibError::NotSingleEntry { path } => "The file for \""@ + label_of(path@)
            + "\" should contain exactly one reference, but doesn't."@,
        BibError::KeyMismatch { path } => "The file for \""@ + label_of(path@)
            + "\" doesn't match its own file name \u{2014} it may have been renamed outside Kartoteka."@,
        BibError::Frontmatter { path } => "The note for \""@ + label_of(path@)
            + "\" has a formatting problem and couldn't be read."@,
        BibError::UnkeyableEntry => "This reference needs at least an author or a title before it can be saved."@,
        BibError::Import { message } => "Import failed: "@ + message@,
        BibError::Zotero => "Couldn't read that Zotero database \u{2014} it may be open in Zotero right now, or in an unsupported version."@,
        BibError::Layout { path } => "\""@ + path@ + "\" doesn't look like a Kartoteka library folder."@,
    }
}

/// The sentence for a hand-edited entry file that no longer parses.
pub open spec fn yaml_message(label: Seq<char>) -> Seq<char> {
    "The file for \""@ + label
        + "\" looks like it was edited by hand and isn't valid anymore. Open it in a text editor to fix the formatting, or ask for help if you're not sure what changed."@
}

/// The sentence for a missing git identity.
pub open spec fn identity_message() -> Seq<char> {
    "Backups need a name and email to record who made each change \u{2014} the same one-time setup git itself needs. Run this in a terminal, then try backing up again:\n\ngit config --global user.name \"Your Name\"\ngit config --global user.email \"you@example.com\""@
}

/// The sentence for a backup error.
pub open spec fn vault_message(e: VaultError) -> Seq<char> {
    match e {
        VaultError::Git { message } => if text::has_substring(message@, "user.name"@) || text::has_substring(
            message@,
            "user.email"@,
        ) {
            identity_message()
        } else {
            "Backup couldn't complete ("@ + message@ + ")."@
        },
        VaultError::Io { path, kind, detail } => io_message(
            "backing up your library"@,
            label_of(path@),
            kind,
            detail@,
        ),
        VaultError::Watch { message } => "Couldn't watch the library folder for changes ("@
            + message@ + ")."@,
    }
}

fn yaml_sentence(label: &str) -> (r: String)
    ensures
        r@ == yaml_message(label@),
{
    let mut s = text::owned("The file for \"");
    text::push_str(&mut s, label);
    text::push_str(
        &mut s,
        "\" looks like it was edited by hand and isn't valid anymore. Open it in a text editor to fix the formatting, or ask for help if you're not sure what changed.",
    );
    s
}

/// Translate a library error into a sentence a non-technical user can act on.
pub fn bib_error(e: &BibError) -> (r: String)
    ensures
        r@ == bib_message(*e),
{
    match e {
        BibError::Io { path, kind, detail } => {
            let label = file_label(path.as_str());
            io_error_message("reading or writing a file", label.as_str(), *kind, detail.as_str())
        },
        BibError::Yaml { path } => yaml_sentence(file_label(path.as_str()).as_str()),
        BibError::PlainYaml { path } => yaml_sentence(file_label(path.as_str()).as_str()),
        BibError::NotSingleEntry { path } => {
            let mut s = text::owned("The file for \"");
            text::push_str(&mut s, file_label(path.as_str()).as_str());
            text::push_str(&mut s, "\" should contain exactly one reference, but doesn't.");
            s
        },
        BibError::KeyMismatch { path } => {
            let mut s = text::owned("The file for \"");
            text::push_str(&mut s, file_label(path.as_str()).as_str());
            text::push_str(
                &mut s,
                "\" doesn't match its own file name \u{2014} it may have been renamed outside Kartoteka.",
            );
            s
        },
        BibError::Frontmatter { path } => {
            let mut s = text::owned("The note for \"");
            text::push_str(&mut s, file_label(path.as_str()).as_str());
            text::push_str(&mut s, "\" has a formatting problem and couldn't be read.");
            s
        },
        BibError::UnkeyableEntry => text::owned(
            "This reference needs at least an author or a title before it can be saved.",
        ),
        BibError::Import { message } => {
            let mut s = text::owned("Import failed: ");
            text::push_str(&mut s, message.as_str());
            s
        },
        BibError::Zotero => text::owned(
            "Couldn't read that Zotero database \u{2014} it may be open in Zotero right now, or in an unsupported version.",
        ),
        BibError::Layout { path } => {
            let mut s = text::owned("\"");
            text::push_str(&mut s, path.as_str());
            text::push_str(&mut s, "\" doesn't look like a Kartoteka library folder.");
            s
        },
    }
}

/// Translate a backup error. The one case worth a plain sentence is a missing git
/// identity; everything else keeps a short technical detail.
pub fn vault_error(e: &VaultError) -> (r: String)
    ensures
        r@ == vault_message(*e),
{
    match e {
        VaultError::Git { message } => {
            let m = text::chars_of(message.as_str());
            let name = text::find_from_exec(&m, &text::chars_of("user.name"), 0);
            let email = text::find_from_exec(&m, &text::chars_of("user.email"), 0);
            if name.is_some() || email.is_some() {
                text::owned(
                    "Backups need a name and email to record who made each change \u{2014} the same one-time setup git itself needs. Run this in a terminal, then try backing up again:\n\ngit config --global user.name \"Your Name\"\ngit config --global user.email \"you@example.com\"",
                )
            } else {
                let mut s = text::owned("Backup couldn't complete (");
                text::push_str(&mut s, message.as_str());
                text::push_str(&mut s, ").");
                s
            }
        },
        VaultError::Io { path, kind, detail } => {
            let label = file_label(path.as_str());
            io_error_message("backing up your library", label.as_str(), *kind, detail.as_str())
        },
        VaultError::Watch { message } => {
            let mut s = text::owned("Couldn't watch the library folder for changes (");
            text::push_str(&mut s, message.as_str());
            text::push_str(&mut s, ").");
            s
        },
    }
}

} // verus!
