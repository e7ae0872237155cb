//! Attachments the built-in reader can open: telling a PDF from an EPUB by its file name
//! (or, failing that, by its content), and finding an attachment's blob.

use vstd::prelude::*;

use crate::friendly;
use crate::text;

verus! {

/// The kinds of attachment the reader opens.
#[derive(Debug, Clone, Copy, PartialEq, Eq, Structural)]
pub enum ReaderAttachmentKind {
    Pdf,
    Epub,
}

/// What `Path::extension` gives for the path `path`, as std documents it: the part of
/// its file name after the last `.`; nothing when there is no file name, when the name
/// has no `.`, or when its only `.` is its first character (`.bashrc`).
pub open spec fn path_extension(path: Seq<char>) -> Option<Seq<char>> {
    match friendly::path_file_name(path) {
        None => None,
        Some(n) => match text::last_index_of(n, '.') {
            Some(k) if k > 0 => Some(n.skip(k + 1)),
            _ => None,
        },
    }
}

/// The extension of the path `path`.
pub fn extension_of(path: &str) -> (r: Option<String>)
    ensures
        r matches Some(e) ==> path_extension(path@) == Some(e@),
        r is None ==> path_extension(path@) is None,
{
    let name = match friendly::file_name_of(path) {
        Some(n) => n,
        None => return None,
    };
    let c = text::chars_of(name.as_str());
    let dot = text::last_index_of_exec(&c, '.');
    proof {
        text::lemma_last_index_of(c@, '.');
    }
    match dot {
        Some(k) => if k > 0 {
            assert(k < c@.len());
            let tail = text::slice_chars(&c, k + 1, c.len());
            assert(tail@ =~= c@.skip(k + 1));
            Some(text::string_from(&tail))
        } else {
            None
        },
        None => None,
    }
}

/// `a` and `b` are equal when ASCII letters are compared without regard to case.
pub open spec fn eq_ignore_ascii_case(a: Seq<char>, b: Seq<char>) -> bool {
    a.len() == b.len() && text::matches_ci_at(a, 0, b)
}

fn eq_ignore_case_exec(a: &str, b: &str) -> (r: bool)
    ensures
        r == eq_ignore_ascii_case(a@, b@),
{
    let x = text::chars_of(a);
    let y = text::chars_of(b);
    x.len() == y.len() && text::matches_ci_at_exec(&x, 0, &y)
}

/// The kind an extension names: `pdf` or `epub`, in any ASCII case.
pub open spec fn kind_by_extension(e: Seq<char>) -> Option<ReaderAttachmentKind> {
    if eq_ignore_ascii_case(e, "pdf"@) {
        Some(ReaderAttachmentKind::Pdf)
    } else if eq_ignore_ascii_case(e, "epub"@) {
        Some(ReaderAttachmentKind::Epub)
    } else {
        None
    }
}

/// The kind a file name's extension names.
pub open spec fn kind_by_name(filename: Seq<char>) -> Option<ReaderAttachmentKind> {
    match path_extension(filename) {
        Some(e) => kind_by_extension(e),
        None => None,
    }
}

/// The kind the extension `ext` names (`pdf`, `PDF`, `epub`, ...).
pub fn kind_of_extension(ext: &str) -> (r: Option<ReaderAttachmentKind>)
    ensures
        r == kind_by_extension(ext@),
{
    if eq_ignore_case_exec(ext, "pdf") {
        Some(ReaderAttachmentKind::Pdf)
    } else if eq_ignore_case_exec(ext, "epub") {
        Some(ReaderAttachmentKind::Epub)
    } else {
        None
    }
}

impl ReaderAttachmentKind {
    /// The kind a file name's extension names (`book.kepub.epub` is an EPUB: the
    /// extension is what follows the last dot).
    pub fn from_filename(filename: &str) -> (r: Option<ReaderAttachmentKind>)
        ensures
            r == kind_by_name(filename@),
    {
        match extension_of(filename) {
            Some(e) => kind_of_extension(e.as_str()),
            None => None,
        }
    }
}

/// An attachment's kind: by its file name's extension first; when that says nothing, by
/// what sniffing the blob's own bytes found (`looks_pdf`, `looks_epub`), PDF first.
pub fn detect_attachment_kind(filename: &str, looks_pdf: bool, looks_epub: bool) -> (r: Option<
    ReaderAttachmentKind,
>)
    ensures
        r == match kind_by_name(filename@) {
            Some(k) => Some(k),
            None => if looks_pdf {
                Some(ReaderAttachmentKind::Pdf)
            } else if looks_epub {
                Some(ReaderAttachmentKind::Epub)
            } else {
                None
            },
        },
{
    match ReaderAttachmentKind::from_filename(filename) {
        Some(k) => Some(k),
        None => if looks_pdf {
            Some(ReaderAttachmentKind::Pdf)
        } else if looks_epub {
            Some(ReaderAttachmentKind::Epub)
        } else {
            None
        },
    }
}

/// The hex digest an attachment's blob is stored under: what follows the first `:` of
/// its hash (`sha256:<hex>`), or the whole hash when it has no `:`.
pub open spec fn blob_hex(hash: Seq<char>) -> Seq<char> {
    let i = text::index_of_from(hash, ':', 0);
    if i < hash.len() {
        hash.skip(i + 1)
    } else {
        hash
    }
}

pub fn attachment_blob_hex(hash: &str) -> (r: String)
    ensures
        r@ == blob_hex(hash@),
{
    let c = text::chars_of(hash);
    let i = text::index_of_from_exec(&c, ':', 0);
    if i < c.len() {
        let tail = text::slice_chars(&c, i + 1, c.len());
        proof {
            assert(tail@ =~= hash@.skip(i + 1));
        }
        text::string_from(&tail)
    } else {
        text::owned(hash)
    }
}

/// What the application found out about one attachment of a note: its file name, whether
/// its blob is on disk, and what sniffing the blob's bytes found.
#[derive(Debug, Clone)]
pub struct AttachmentProbe {
    pub filename: String,
    pub exists: bool,
    pub looks_pdf: bool,
    pub looks_epub: bool,
}

/// The kind the reader would open a probed attachment as, if its blob is there.
pub open spec fn readable_kind(p: AttachmentProbe) -> Option<ReaderAttachmentKind> {
    if !p.exists {
        None
    } else {
        match kind_by_name(p.filename@) {
            Some(k) => Some(k),
            None => if p.looks_pdf {
                Some(ReaderAttachmentKind::Pdf)
            } else if p.looks_epub {
                Some(ReaderAttachmentKind::Epub)
            } else {
                None
            },
        }
    }
}

/// Whether a note has a readable (present-on-disk) PDF and, separately, EPUB attachment.
pub fn attachment_presence(probes: &Vec<AttachmentProbe>) -> (r: (bool, bool))
    ensures
        r.0 == exists|i: int|
            0 <= i < probes@.len() && readable_kind(#[trigger] probes@[i]) == Some(
                ReaderAttachmentKind::Pdf,
            ),
        r.1 == exists|i: int|
            0 <= i < probes@.len() && readable_kind(#[trigger] probes@[i]) == Some(
                ReaderAttachmentKind::Epub,
            ),
{
    let mut pdf = false;
    let mut epub = false;
    let mut i: usize = 0;
    while i < probes.len()
        invariant
            i <= probes@.len(),
            pdf == exists|k: int|
                0 <= k < i && readable_kind(#[trigger] probes@[k]) == Some(
                    ReaderAttachmentKind::Pdf,
                ),
            epub == exists|k: int|
                0 <= k < i && readable_kind(#[trigger] probes@[k]) == Some(
                    ReaderAttachmentKind::Epub,
                ),
        decreases probes.len() - i,
    {
        let p = &probes[i];
        if p.exists {
            let k = detect_attachment_kind(p.filename.as_str(), p.looks_pdf, p.looks_epub);
            match k {
                Some(ReaderAttachmentKind::Pdf) => {
                    pdf = true;
                },
                Some(ReaderAttachmentKind::Epub) => {
                    epub = true;
                },
                None => {},
            }
        }
        assert(readable_kind(probes@[i as int]) == (if p.exists {
            detect_spec(p.filename@, p.looks_pdf, p.looks_epub)
        } else {
            None
        }));
        i += 1;
    }
    (pdf, epub)
}

spec fn detect_spec(filename: Seq<char>, looks_pdf: bool, looks_epub: bool) -> Option<ReaderAttachmentKind> {
    match kind_by_name(filename) {
        Some(k) => Some(k),
        None => if looks_pdf {
            Some(ReaderAttachmentKind::Pdf)
        } else if looks_epub {
            Some(ReaderAttachmentKind::Epub)
        } else {
            None
        },
    }
}

} // verus!
