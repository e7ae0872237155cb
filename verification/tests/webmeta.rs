use kartoteka::webmeta::{
    best_effort_date, four_digit_year, html_unescape, meta_attr, meta_tags, resolve_url, WebMeta,
};

#[test]
fn parses_highwire_article() {
    let html = r#"
        <html><head>
        <meta name="citation_title" content="Black Theology &amp; Power">
        <meta name="citation_author" content="Cone, James">
        <meta name="citation_author" content="Smith, Jane">
        <meta name="citation_journal_title" content="Journal of Theology">
        <meta name="citation_publication_date" content="1970/03/01">
        <meta name="citation_doi" content="10.1000/xyz">
        <meta name="citation_volume" content="12">
        <meta name="citation_issue" content="3">
        <meta name="citation_firstpage" content="45">
        <meta name="citation_lastpage" content="67">
        <meta name="citation_language" content="en">
        <meta name="citation_pdf_url" content="/content/1/1.full.pdf">
        </head></html>
    "#;
    let m = WebMeta::from_html(html);
    assert_eq!(m.title, "Black Theology & Power");
    assert_eq!(m.authors, vec!["Cone, James", "Smith, Jane"]);
    assert_eq!(m.container, "Journal of Theology");
    // Month and day are preserved, not truncated down to the bare year.
    assert_eq!(m.date, "1970-03-01");
    assert_eq!(m.doi, "10.1000/xyz");
    assert_eq!(m.volume, "12");
    assert_eq!(m.issue, "3");
    assert_eq!(m.pages, "45-67");
    assert_eq!(m.language, "en");
    assert_eq!(m.entry_type, "article");
    assert!(m.is_usable());
}

#[test]
fn best_effort_date_captures_available_precision() {
    assert_eq!(best_effort_date("1970/03/01"), "1970-03-01");
    assert_eq!(best_effort_date("1970-03"), "1970-03");
    assert_eq!(best_effort_date("1970"), "1970");
    assert_eq!(best_effort_date("no date here"), "");
    // An out-of-range "month" (not actually a date) degrades to year-only rather than
    // producing an invalid Hayagriva date.
    assert_eq!(best_effort_date("1970/99/01"), "1970");
}

#[test]
fn falls_back_to_opengraph_web() {
    let html = r#"<meta property="og:title" content="A Blog Post"/>"#;
    let m = WebMeta::from_html(html);
    assert_eq!(m.title, "A Blog Post");
    assert_eq!(m.entry_type, "web");
}

#[test]
fn resolves_relative_pdf_urls() {
    let base = "https://example.org/articles/1/full";
    assert_eq!(
        resolve_url(base, "/content/1.pdf"),
        "https://example.org/content/1.pdf"
    );
    assert_eq!(
        resolve_url(base, "https://cdn.example.org/x.pdf"),
        "https://cdn.example.org/x.pdf"
    );
    assert_eq!(
        resolve_url(base, "1.pdf"),
        "https://example.org/articles/1/1.pdf"
    );
}

#[test]
fn resolves_scheme_relative_and_empty_links() {
    let base = "https://example.org/articles/1/full";
    assert_eq!(resolve_url(base, ""), "");
    assert_eq!(
        resolve_url(base, "//cdn.example.org/x.pdf"),
        "https://cdn.example.org/x.pdf"
    );
    assert_eq!(resolve_url("http://h.tld", "/a.pdf"), "http://h.tld/a.pdf");
    assert_eq!(resolve_url("noslash", "a.pdf"), "noslash/a.pdf");
    // A page URL without a path keeps its host.
    assert_eq!(resolve_url("https://example.org", "1.pdf"), "https://example.org/1.pdf");
    assert_eq!(resolve_url("https://example.org/", "1.pdf"), "https://example.org/1.pdf");
}

#[test]
fn date_edge_cases() {
    assert_eq!(best_effort_date("March 2021"), "2021");
    assert_eq!(best_effort_date("2021/3/1"), "2021-03-01");
    assert_eq!(best_effort_date("2021-12-32"), "2021-12");
    assert_eq!(best_effort_date("2021-0000000000003"), "2021-03");
    assert_eq!(best_effort_date("2021-256-01"), "2021");
    assert_eq!(best_effort_date("2021-00-01"), "2021");
    assert_eq!(best_effort_date("202"), "");
    assert_eq!(best_effort_date("x12345-06"), "1234-05-06");
}

#[test]
fn four_digit_year_takes_first_run() {
    assert_eq!(four_digit_year("vol 12, 1999"), "1999");
    assert_eq!(four_digit_year("12 3456"), "3456");
    assert_eq!(four_digit_year("abc"), "");
}

#[test]
fn meta_attr_reads_quoted_values() {
    assert_eq!(
        meta_attr(r#"<meta NAME = 'x' content="a &lt;b&gt;">"#, "name"),
        Some("x".to_string())
    );
    assert_eq!(
        meta_attr(r#"<meta name="x" content="a &lt;b&gt;">"#, "content"),
        Some("a <b>".to_string())
    );
    // `data-name` is not `name`: the key must start a word.
    assert_eq!(meta_attr(r#"<meta data-name="x">"#, "name"), None);
    // An unquoted value does not count.
    assert_eq!(meta_attr("<meta name=x>", "name"), None);
    // An unterminated value runs to the end of the tag.
    assert_eq!(
        meta_attr(r#"<meta content="open"#, "content"),
        Some("open".to_string())
    );
}

#[test]
fn html_unescape_decodes_each_entity_once() {
    assert_eq!(html_unescape("a &amp; b"), "a & b");
    assert_eq!(html_unescape("&quot;&#39;&#x27;&apos;&lt;&gt;"), "\"'''<>");
    // A decoded `&` does not start another entity.
    assert_eq!(html_unescape("&amp;lt;"), "&lt;");
    assert_eq!(html_unescape("&amp;amp; &unknown; &lt"), "&amp; &unknown; &lt");
}

#[test]
fn meta_tags_lowercases_names_and_skips_incomplete_tags() {
    let tags = meta_tags(
        r#"<META NAME="DC.Title" CONTENT="T"><meta name="x"><meta property="og:title" content="O">"#,
    );
    assert_eq!(
        tags,
        vec![
            ("dc.title".to_string(), "T".to_string()),
            ("og:title".to_string(), "O".to_string())
        ]
    );
}

#[test]
fn splits_single_semicolon_author_field() {
    let m = WebMeta::from_html(r#"<meta name="dc.creator" content=" A ;; B ; ">"#);
    assert_eq!(m.authors, vec!["A", "B"]);
    let two = WebMeta::from_html(
        r#"<meta name="dc.creator" content="A; B"><meta name="dc.creator" content="C">"#,
    );
    assert_eq!(two.authors, vec!["A; B", "C"]);
}

#[test]
fn doi_from_identifier_and_entry_types() {
    let m = WebMeta::from_html(r#"<meta name="dc.identifier" content="doi: 10.1/x ">"#);
    assert_eq!(m.doi, "10.1/x");
    assert_eq!(m.entry_type, "article");
    let m = WebMeta::from_html(r#"<meta name="citation_id" content="10.5/y">"#);
    assert_eq!(m.doi, "10.5/y");
    let m = WebMeta::from_html(r#"<meta name="citation_id" content="10.5y">"#);
    assert_eq!(m.doi, "");
    let m = WebMeta::from_html(r#"<meta name="citation_isbn" content="978">"#);
    assert_eq!(m.entry_type, "book");
    assert!(!m.is_usable());
}

#[test]
fn pages_fall_back_in_order() {
    let m = WebMeta::from_html(r#"<meta name="citation_firstpage" content="5">"#);
    assert_eq!(m.pages, "5");
    let m = WebMeta::from_html(
        r#"<meta name="citation_lastpage" content="9"><meta name="citation_pages" content="1-9">"#,
    );
    assert_eq!(m.pages, "1-9");
}

#[test]
fn first_nonblank_content_wins() {
    let m = WebMeta::from_html(
        r#"<meta name="og:title" content="  "><meta name="dc.title" content=" Second ">"#,
    );
    assert_eq!(m.title, "Second");
}

#[test]
fn default_web_meta_is_empty() {
    let m = WebMeta::default();
    assert!(m.title.is_empty() && m.authors.is_empty() && m.entry_type.is_empty());
    assert!(!m.is_usable());
}

#[test]
fn same_page_gives_equal_records() {
    let page = r#"<meta name="citation_title" content="On Things"><meta name="citation_author" content="Doe, Jane">"#;
    assert_eq!(WebMeta::from_html(page), WebMeta::from_html(page));
    assert_ne!(WebMeta::from_html(page), WebMeta::from_html("<html></html>"));
}
