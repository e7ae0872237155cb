use kartoteka::new_item::{
    build_entry_yaml, checked_pdf, listed_pdf_url, looks_like_pdf, pdf_file_name, scraped_entry,
    scraped_pdf_name, unpaywall_api_url, yaml_quote, NewItemFields,
};
use kartoteka::webmeta::WebMeta;

fn fields<'a>() -> NewItemFields<'a> {
    NewItemFields {
        ty: "article",
        title: "",
        authors: "",
        date: "",
        container: "",
        publisher: "",
        doi: "",
        isbn: "",
        url: "",
        volume: "",
        issue: "",
        pages: "",
        language: "",
    }
}

#[test]
fn yaml_quote_escapes_backslashes_then_quotes() {
    assert_eq!(yaml_quote("plain"), "\"plain\"");
    assert_eq!(yaml_quote("a \"b\""), "\"a \\\"b\\\"\"");
    assert_eq!(yaml_quote("c:\\d"), "\"c:\\\\d\"");
}

#[test]
fn minimal_entry_has_only_type() {
    assert_eq!(build_entry_yaml(&fields()), "new-item:\n  type: article\n");
}

#[test]
fn full_entry_yaml() {
    let mut f = fields();
    f.title = "  A Title ";
    f.authors = "Cone, James; Smith, Jane\n  \n";
    f.date = "1970-03";
    f.container = "Journal";
    f.publisher = "Press";
    f.doi = "10.1/x";
    f.isbn = "";
    f.url = "https://e.org";
    f.volume = "12";
    f.issue = "3";
    f.pages = "45-67";
    f.language = "en";
    let expected = "new-item:\n  type: article\n  title: \"A Title\"\n  author:\n    - \"Cone, James\"\n    - \"Smith, Jane\"\n  date: 1970-03\n  publisher: \"Press\"\n  url: \"https://e.org\"\n  serial-number:\n    doi: \"10.1/x\"\n  parent:\n    type: periodical\n    title: \"Journal\"\n  volume: 12\n  issue: 3\n  page-range: \"45-67\"\n  language: en\n";
    assert_eq!(build_entry_yaml(&f), expected);
}

#[test]
fn parent_type_follows_entry_type() {
    let mut f = fields();
    f.ty = "chapter";
    f.container = "Collected Essays";
    f.isbn = "978-0";
    assert_eq!(
        build_entry_yaml(&f),
        "new-item:\n  type: chapter\n  serial-number:\n    isbn: \"978-0\"\n  parent:\n    type: anthology\n    title: \"Collected Essays\"\n"
    );
    f.ty = "conference";
    assert!(build_entry_yaml(&f).contains("    type: proceedings\n"));
}

#[test]
fn pdf_magic_and_names() {
    assert!(looks_like_pdf(b"%PDF-1.7\n..."));
    assert!(!looks_like_pdf(b"<html>"));
    assert!(!looks_like_pdf(b"%PDF"));
    assert_eq!(pdf_file_name("10.1000/a/b"), "10.1000_a_b.pdf");
    assert_eq!(scraped_pdf_name(""), "download.pdf");
    assert_eq!(scraped_pdf_name("10.1/x"), "10.1_x.pdf");
}

#[test]
fn scraped_page_becomes_an_entry() {
    let html = r#"<meta name="citation_title" content="On Things">
        <meta name="citation_author" content="Doe, J">
        <meta name="citation_author" content="Roe, R">
        <meta name="citation_pdf_url" content="/content/1.pdf">"#;
    let meta = WebMeta::from_html(html);
    let (yaml, pdf) = scraped_entry("https://example.org/articles/1/full", &meta).unwrap();
    assert_eq!(
        yaml,
        "new-item:\n  type: web\n  title: \"On Things\"\n  author:\n    - \"Doe, J\"\n    - \"Roe, R\"\n  url: \"https://example.org/articles/1/full\"\n"
    );
    assert_eq!(pdf.as_deref(), Some("https://example.org/content/1.pdf"));
}

#[test]
fn page_without_title_is_refused() {
    let meta = WebMeta::from_html("<meta name=\"citation_author\" content=\"Doe, J\">");
    assert_eq!(
        scraped_entry("https://e.org", &meta).unwrap_err(),
        "no citation metadata found on that page"
    );
    let plain = WebMeta::from_html("<meta property=\"og:title\" content=\"T\">");
    let (_, pdf) = scraped_entry("https://e.org", &plain).unwrap();
    assert!(pdf.is_none());
}

#[test]
fn unpaywall_steps() {
    assert_eq!(
        unpaywall_api_url("10.1/x y", "me@x.org"),
        "https://api.unpaywall.org/v2/10.1%2Fx%20y?email=me%40x.org"
    );
    assert_eq!(listed_pdf_url(Some("https://oa/p.pdf")), Ok("https://oa/p.pdf".to_string()));
    assert_eq!(listed_pdf_url(Some("")), Err("no open-access PDF is listed for this DOI".to_string()));
    assert_eq!(listed_pdf_url(None), Err("no open-access PDF is listed for this DOI".to_string()));
    assert_eq!(checked_pdf("10.1/x", b"%PDF-1.4"), Ok("10.1_x.pdf".to_string()));
    assert_eq!(checked_pdf("10.1/x", b"<html>"), Err("the linked file was not a PDF".to_string()));
}
