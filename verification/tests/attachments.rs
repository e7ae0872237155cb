use kartoteka::attachments::{
    attachment_blob_hex, attachment_presence, detect_attachment_kind, extension_of, kind_of_extension, AttachmentProbe,
    ReaderAttachmentKind,
};

#[test]
fn kind_from_extension() {
    assert_eq!(ReaderAttachmentKind::from_filename("paper.PDF"), Some(ReaderAttachmentKind::Pdf));
    assert_eq!(ReaderAttachmentKind::from_filename("book.kepub.epub"), Some(ReaderAttachmentKind::Epub));
    assert_eq!(ReaderAttachmentKind::from_filename("notes.txt"), None);
    assert_eq!(ReaderAttachmentKind::from_filename(".pdf"), None);
    assert_eq!(ReaderAttachmentKind::from_filename("raw"), None);
}

#[test]
fn sniffing_only_when_the_name_says_nothing() {
    assert_eq!(detect_attachment_kind("raw", false, true), Some(ReaderAttachmentKind::Epub));
    assert_eq!(detect_attachment_kind("raw", true, true), Some(ReaderAttachmentKind::Pdf));
    assert_eq!(detect_attachment_kind("a.epub", true, false), Some(ReaderAttachmentKind::Epub));
    assert_eq!(detect_attachment_kind("raw", false, false), None);
}

#[test]
fn blob_hex_after_the_first_colon() {
    assert_eq!(attachment_blob_hex("sha256:abc"), "abc");
    assert_eq!(attachment_blob_hex("abc"), "abc");
    assert_eq!(attachment_blob_hex("a:b:c"), "b:c");
}

#[test]
fn presence_needs_the_blob() {
    let p = |name: &str, exists: bool| AttachmentProbe {
        filename: name.to_string(),
        exists,
        looks_pdf: false,
        looks_epub: false,
    };
    assert_eq!(attachment_presence(&vec![p("a.pdf", false), p("b.epub", true)]), (false, true));
    assert_eq!(attachment_presence(&vec![p("a.pdf", true)]), (true, false));
    assert_eq!(attachment_presence(&vec![]), (false, false));
}

#[test]
fn extension_follows_the_file_name() {
    assert_eq!(extension_of("/a/foo.tar.gz").as_deref(), Some("gz"));
    assert_eq!(extension_of("/a/.bashrc"), None);
    assert_eq!(extension_of("/a/foo.").as_deref(), Some(""));
    assert_eq!(extension_of("/a/b.d/.."), None);
    assert_eq!(extension_of("noext"), None);
}

#[test]
fn extensions_name_kinds_in_any_case() {
    assert_eq!(kind_of_extension("pdf"), Some(ReaderAttachmentKind::Pdf));
    assert_eq!(kind_of_extension("EpUb"), Some(ReaderAttachmentKind::Epub));
    assert_eq!(kind_of_extension("pdfx"), None);
    assert_eq!(kind_of_extension(""), None);
}
