//! The one-entry Hayagriva YAML snippet behind "New item" and "Add from URL", and the
//! checks and names applied to a downloaded PDF.

use vstd::prelude::*;

use crate::text;
use crate::webdav;
use crate::webmeta::{self, WebMeta};

verus! {

/// `s` as a double-quoted YAML scalar: backslashes doubled, then quotes escaped.
pub open spec fn quoted(s: Seq<char>) -> Seq<char> {
    "\""@ + text::replace_all(text::replace_all(s, "\\"@, "\\\\"@), "\""@, "\\\""@) + "\""@
}

/// Quote and escape a scalar for a double-quoted YAML value.
pub fn yaml_quote(s: &str) -> (r: String)
    ensures
        r@ == quoted(s@),
{
    let c = text::chars_of(s);
    let a = text::replace_all_exec(&c, &text::chars_of("\\"), &text::chars_of("\\\\"));
    let b = text::replace_all_exec(&a, &text::chars_of("\""), &text::chars_of("\\\""));
    let mut out = text::owned("\"");
    text::push_chars(&mut out, &b);
    text::push_str(&mut out, "\"");
    out
}

/// Fields for a one-entry Hayagriva YAML snippet, from either the manual "New item" form
/// or a URL scrape. `date` accepts any precision Hayagriva's date parser does (`YYYY`,
/// `YYYY-MM`, `YYYY-MM-DD`); every other field is a plain string, empty meaning absent.
#[derive(Debug, Clone, Copy)]
pub struct NewItemFields<'a> {
    pub ty: &'a str,
    pub title: &'a str,
    /// Split on `;`/newlines into individual names.
    pub authors: &'a str,
    pub date: &'a str,
    pub container: &'a str,
    pub publisher: &'a str,
    pub doi: &'a str,
    pub isbn: &'a str,
    pub url: &'a str,
    pub volume: &'a str,
    pub issue: &'a str,
    /// `firstpage-lastpage`, or just one page number.
    pub pages: &'a str,
    /// An ISO 639 language code (e.g. `en`).
    pub language: &'a str,
}

/// `key` followed by the trimmed value (quoted when `quote`) and a line break, or
/// nothing when the trimmed value is empty.
pub open spec fn opt_line(key: Seq<char>, v: Seq<char>, quote: bool) -> Seq<char> {
    let t = text::trim(v);
    if t.len() == 0 {
        seq![]
    } else {
        key + (if quote {
            quoted(t)
        } else {
            t
        }) + "\n"@
    }
}

/// One `- "name"` line per author.
pub open spec fn author_lines(names: Seq<Seq<char>>) -> Seq<char>
    decreases names.len(),
{
    if names.len() == 0 {
        seq![]
    } else {
        author_lines(names.drop_last()) + "    - "@ + quoted(names.last()) + "\n"@
    }
}

/// The author names of the field: split at `;` and line breaks, trimmed, empties dropped.
pub open spec fn author_names(authors: Seq<char>) -> Seq<Seq<char>> {
    text::nonempty_trimmed(text::split_on(authors, seq![';', '\n']))
}

/// The Hayagriva type of the parent of an entry of type `ty`.
pub open spec fn parent_type(ty: Seq<char>) -> Seq<char> {
    if ty == "chapter"@ || ty == "anthology"@ {
        "anthology"@
    } else if ty == "conference"@ {
        "proceedings"@
    } else {
        "periodical"@
    }
}

/// The `new-item:` header with the type, and the title line.
pub open spec fn head_part(ty: Seq<char>, title: Seq<char>) -> Seq<char> {
    "new-item:\n"@ + "  type: "@ + ty + "\n"@ + opt_line("  title: "@, title, true)
}

/// The `author:` list, or nothing when the field names nobody.
pub open spec fn authors_part(authors: Seq<char>) -> Seq<char> {
    let names = author_names(authors);
    if names.len() == 0 {
        seq![]
    } else {
        "  author:\n"@ + author_lines(names)
    }
}

/// The date, publisher and URL lines.
pub open spec fn link_part(date: Seq<char>, publisher: Seq<char>, url: Seq<char>) -> Seq<char> {
    opt_line("  date: "@, date, false) + opt_line("  publisher: "@, publisher, true) + opt_line(
        "  url: "@,
        url,
        true,
    )
}

/// The `serial-number:` block, or nothing when there is neither DOI nor ISBN.
pub open spec fn serial_part(doi: Seq<char>, isbn: Seq<char>) -> Seq<char> {
    if text::trim(doi).len() == 0 && text::trim(isbn).len() == 0 {
        seq![]
    } else {
        "  serial-number:\n"@ + opt_line("    doi: "@, doi, true) + opt_line(
            "    isbn: "@,
            isbn,
            true,
        )
    }
}

/// The `parent:` block, or nothing when there is no container.
pub open spec fn parent_part(ty: Seq<char>, container: Seq<char>) -> Seq<char> {
    if text::trim(container).len() == 0 {
        seq![]
    } else {
        "  parent:\n"@ + "    type: "@ + parent_type(ty) + "\n"@ + "    title: "@ + quoted(
            text::trim(container),
        ) + "\n"@
    }
}

/// The volume, issue, page-range and language lines.
pub open spec fn tail_part(volume: Seq<char>, issue: Seq<char>, pages: Seq<char>, language: Seq<
    char,
>) -> Seq<char> {
    opt_line("  volume: "@, volume, false) + opt_line("  issue: "@, issue, false) + opt_line(
        "  page-range: "@,
        pages,
        true,
    ) + opt_line("  language: "@, language, false)
}

/// The snippet for `f`: a `new-item:` entry with its type, then each non-empty field
/// (trimmed) in a fixed order: title, authors, date, publisher, URL, serial numbers (DOI,
/// ISBN), parent (typed by the entry's type), volume, issue, page range, language.
/// Free text is quoted; date, volume, issue and language are written as they are.
pub open spec fn entry_yaml(
    ty: Seq<char>,
    title: Seq<char>,
    authors: Seq<char>,
    date: Seq<char>,
    container: Seq<char>,
    publisher: Seq<char>,
    doi: Seq<char>,
    isbn: Seq<char>,
    url: Seq<char>,
    volume: Seq<char>,
    issue: Seq<char>,
    pages: Seq<char>,
    language: Seq<char>,
) -> Seq<char> {
    head_part(ty, title) + authors_part(authors) + link_part(date, publisher, url) + serial_part(
        doi,
        isbn,
    ) + parent_part(ty, container) + tail_part(volume, issue, pages, language)
}

/// `p` occurs somewhere in `s`.
pub open spec fn contains_text(s: Seq<char>, p: Seq<char>) -> bool {
    exists|k: int| 0 <= k && k + p.len() <= s.len() && #[trigger] s.subrange(k, k + p.len()) == p
}

/// The serial numbers are written independently of each other, under one
/// `  serial-number:` header: a non-blank DOI gives a `    doi: "…"` line with the trimmed
/// DOI right under the header, a non-blank ISBN an `    isbn: "…"` line with the trimmed
/// ISBN after it (right under the header when the DOI is blank), whatever the other one is;
/// and a blank DOI or ISBN leaves the snippet as if it were empty.
pub proof fn law_serial_numbers_written(
    ty: Seq<char>,
    title: Seq<char>,
    authors: Seq<char>,
    date: Seq<char>,
    container: Seq<char>,
    publisher: Seq<char>,
    doi: Seq<char>,
    isbn: Seq<char>,
    url: Seq<char>,
    volume: Seq<char>,
    issue: Seq<char>,
    pages: Seq<char>,
    language: Seq<char>,
)
    ensures
        ({
            let y = entry_yaml(ty, title, authors, date, container, publisher, doi, isbn, url, volume, issue, pages, language);
            let h = "  serial-number:\n"@;
            let d = "    doi: "@ + quoted(text::trim(doi)) + "\n"@;
            let i = "    isbn: "@ + quoted(text::trim(isbn)) + "\n"@;
            &&& text::trim(doi).len() > 0 && text::trim(isbn).len() > 0 ==> contains_text(y, h + d + i)
            &&& text::trim(doi).len() > 0 ==> contains_text(y, h + d)
            &&& text::trim(doi).len() == 0 && text::trim(isbn).len() > 0 ==> contains_text(y, h + i)
            &&& text::trim(isbn).len() > 0 ==> contains_text(y, i)
        }),
        text::trim(doi).len() == 0 ==> entry_yaml(ty, title, authors, date, container, publisher, doi, isbn, url, volume, issue, pages, language)
            == entry_yaml(ty, title, authors, date, container, publisher, seq![], isbn, url, volume, issue, pages, language),
        text::trim(isbn).len() == 0 ==> entry_yaml(ty, title, authors, date, container, publisher, doi, isbn, url, volume, issue, pages, language)
            == entry_yaml(ty, title, authors, date, container, publisher, doi, seq![], url, volume, issue, pages, language),
{
    let a = head_part(ty, title) + authors_part(authors) + link_part(date, publisher, url);
    let b = parent_part(ty, container) + tail_part(volume, issue, pages, language);
    let y = entry_yaml(ty, title, authors, date, container, publisher, doi, isbn, url, volume, issue, pages, language);
    let sp = serial_part(doi, isbn);
    assert(y =~= a + sp + b);
    let h = "  serial-number:\n"@;
    let dl = opt_line("    doi: "@, doi, true);
    let il = opt_line("    isbn: "@, isbn, true);
    let d = "    doi: "@ + quoted(text::trim(doi)) + "\n"@;
    let i = "    isbn: "@ + quoted(text::trim(isbn)) + "\n"@;
    assert(text::trim(seq![]) =~= Seq::<char>::empty());
    let k: int = a.len() as int;
    if text::trim(doi).len() > 0 || text::trim(isbn).len() > 0 {
        assert(sp =~= h + dl + il);
        if text::trim(doi).len() > 0 {
            assert(dl == d);
            assert(y.subrange(k, k + (h + d).len()) =~= h + d);
        } else {
            assert(dl.len() == 0);
        }
        if text::trim(isbn).len() > 0 {
            assert(il == i);
            let k2: int = (a.len() + h.len() + dl.len()) as int;
            assert(y.subrange(k2, k2 + i.len()) =~= i);
            if text::trim(doi).len() > 0 {
                assert(y.subrange(k, k + (h + d + i).len()) =~= h + d + i);
            } else {
                assert(y.subrange(k, k + (h + i).len()) =~= h + i);
            }
        }
    }
}

fn push_opt_line(out: &mut String, key: &str, v: &str, quote: bool)
    ensures
        final(out)@ == old(out)@ + opt_line(key@, v@, quote),
{
    let c = text::chars_of(v);
    let t = text::trim_chars(&c);
    if t.len() > 0 {
        text::push_str(out, key);
        let ts = text::string_from(&t);
        if quote {
            let q = yaml_quote(ts.as_str());
            text::push_str(out, q.as_str());
        } else {
            text::push_str(out, ts.as_str());
        }
        text::push_str(out, "\n");
    }
}

fn parent_type_exec(ty: &str) -> (r: &'static str)
    ensures
        r@ == parent_type(ty@),
{
    let t = text::chars_of(ty);
    if text::chars_eq(&t, &text::chars_of("chapter")) || text::chars_eq(
        &t,
        &text::chars_of("anthology"),
    ) {
        "anthology"
    } else if text::chars_eq(&t, &text::chars_of("conference")) {
        "proceedings"
    } else {
        "periodical"
    }
}

fn push_authors(out: &mut String, authors: &str)
    ensures
        final(out)@ == old(out)@ + authors_part(authors@),
{
    let mut seps: Vec<char> = Vec::new();
    seps.push(';');
    seps.push('\n');
    assert(seps@ =~= seq![';', '\n']);
    let names = text::split_trimmed(&text::chars_of(authors), &seps);
    let ghost ns = text::views(names@);
    if names.len() > 0 {
        text::push_str(out, "  author:\n");
        let ghost head = out@;
        let mut k: usize = 0;
        assert(ns.take(0) =~= Seq::<Seq<char>>::empty());
        while k < names.len()
            invariant
                k <= names.len(),
                ns == text::views(names@),
                out@ == head + author_lines(ns.take(k as int)),
            decreases names.len() - k,
        {
            text::push_str(out, "    - ");
            let q = yaml_quote(text::string_from(&names[k]).as_str());
            text::push_str(out, q.as_str());
            text::push_str(out, "\n");
            assert(ns.take(k + 1).drop_last() =~= ns.take(k as int));
            assert(ns.take(k + 1).last() == names@[k as int]@);
            k += 1;
        }
        assert(ns.take(names.len() as int) =~= ns);
    }
}

fn push_links(out: &mut String, date: &str, publisher: &str, url: &str)
    ensures
        final(out)@ == old(out)@ + link_part(date@, publisher@, url@),
{
    push_opt_line(out, "  date: ", date, false);
    push_opt_line(out, "  publisher: ", publisher, true);
    push_opt_line(out, "  url: ", url, true);
}

fn push_serial(out: &mut String, doi: &str, isbn: &str)
    ensures
        final(out)@ == old(out)@ + serial_part(doi@, isbn@),
{
    let d = text::trim_chars(&text::chars_of(doi));
    let i = text::trim_chars(&text::chars_of(isbn));
    if d.len() > 0 || i.len() > 0 {
        text::push_str(out, "  serial-number:\n");
        push_opt_line(out, "    doi: ", doi, true);
        push_opt_line(out, "    isbn: ", isbn, true);
    }
}

fn push_parent(out: &mut String, ty: &str, container: &str)
    ensures
        final(out)@ == old(out)@ + parent_part(ty@, container@),
{
    let c = text::trim_chars(&text::chars_of(container));
    if c.len() > 0 {
        text::push_str(out, "  parent:\n");
        text::push_str(out, "    type: ");
        text::push_str(out, parent_type_exec(ty));
        text::push_str(out, "\n");
        text::push_str(out, "    title: ");
        let q = yaml_quote(text::string_from(&c).as_str());
        text::push_str(out, q.as_str());
        text::push_str(out, "\n");
    }
}

fn push_tail(out: &mut String, volume: &str, issue: &str, pages: &str, language: &str)
    ensures
        final(out)@ == old(out)@ + tail_part(volume@, issue@, pages@, language@),
{
    push_opt_line(out, "  volume: ", volume, false);
    push_opt_line(out, "  issue: ", issue, false);
    push_opt_line(out, "  page-range: ", pages, true);
    push_opt_line(out, "  language: ", language, false);
}

/// Build a one-entry Hayagriva YAML snippet. The placeholder key is replaced with a
/// generated one when the entry is added to a library.
pub fn build_entry_yaml(f: &NewItemFields) -> (r: String)
    ensures
        r@ == entry_yaml(
            f.ty@,
            f.title@,
            f.authors@,
            f.date@,
            f.container@,
            f.publisher@,
            f.doi@,
            f.isbn@,
            f.url@,
            f.volume@,
            f.issue@,
            f.pages@,
            f.language@,
        ),
{
    let mut out = text::owned("new-item:\n");
    text::push_str(&mut out, "  type: ");
    text::push_str(&mut out, f.ty);
    text::push_str(&mut out, "\n");
    push_opt_line(&mut out, "  title: ", f.title, true);
    push_authors(&mut out, f.authors);
    push_links(&mut out, f.date, f.publisher, f.url);
    push_serial(&mut out, f.doi, f.isbn);
    push_parent(&mut out, f.ty, f.container);
    push_tail(&mut out, f.volume, f.issue, f.pages, f.language);
    out
}

// ---------------------------------------------------------------------------
// Downloaded PDFs
// ---------------------------------------------------------------------------

/// The bytes begin with the PDF magic `%PDF-`.
pub open spec fn has_pdf_magic(bytes: Seq<u8>) -> bool {
    &&& bytes.len() >= 5
    &&& bytes[0] == 37
    &&& bytes[1] == 80
    &&& bytes[2] == 68
    &&& bytes[3] == 70
    &&& bytes[4] == 45
}

/// Whether downloaded bytes are a PDF (they start with `%PDF-`).
pub fn looks_like_pdf(bytes: &[u8]) -> (b: bool)
    ensures
        b == has_pdf_magic(bytes@),
{
    bytes.len() >= 5 && bytes[0] == 37 && bytes[1] == 80 && bytes[2] == 68 && bytes[3] == 70
        && bytes[4] == 45
}

/// The file name a PDF fetched for `doi` is stored under: the DOI with every `/` turned
/// into `_`, then `.pdf`.
pub open spec fn doi_pdf_name(doi: Seq<char>) -> Seq<char> {
    text::replace_all(doi, "/"@, "_"@) + ".pdf"@
}

/// The file name for a PDF fetched for `doi`.
pub fn pdf_file_name(doi: &str) -> (r: String)
    ensures
        r@ == doi_pdf_name(doi@),
{
    let c = text::chars_of(doi);
    let replaced = text::replace_all_exec(&c, &text::chars_of("/"), &text::chars_of("_"));
    let mut out = text::string_from(&replaced);
    text::push_str(&mut out, ".pdf");
    out
}

/// The file name for a PDF a scraped page links to: named after the page's DOI when it
/// has one, else `download.pdf`.
pub fn scraped_pdf_name(doi: &str) -> (r: String)
    ensures
        doi@.len() > 0 ==> r@ == doi_pdf_name(doi@),
        doi@.len() == 0 ==> r@ == "download.pdf"@,
{
    if doi.is_empty() {
        text::owned("download.pdf")
    } else {
        pdf_file_name(doi)
    }
}

// ---------------------------------------------------------------------------
// An entry from a scraped page
// ---------------------------------------------------------------------------

/// `parts` joined with `sep` between each two.
pub open spec fn joined_with(parts: Seq<Seq<char>>, sep: Seq<char>) -> Seq<char>
    decreases parts.len(),
{
    if parts.len() == 0 {
        seq![]
    } else if parts.len() == 1 {
        parts[0]
    } else {
        joined_with(parts.drop_last(), sep) + sep + parts.last()
    }
}

/// `parts` joined with `sep` between each two.
pub fn join_names(parts: &Vec<String>, sep: &str) -> (r: String)
    ensures
        r@ == joined_with(text::string_views(parts@), sep@),
{
    let ghost ps = text::string_views(parts@);
    let mut out = String::new();
    let mut i: usize = 0;
    assert(ps.take(0) =~= Seq::<Seq<char>>::empty());
    while i < parts.len()
        invariant
            i <= parts@.len(),
            ps == text::string_views(parts@),
            out@ == joined_with(ps.take(i as int), sep@),
        decreases parts.len() - i,
    {
        assert(ps.take(i + 1).drop_last() =~= ps.take(i as int));
        assert(ps.take(i + 1).last() == parts@[i as int]@);
        if i > 0 {
            text::push_str(&mut out, sep);
        } else {
            assert(out@ =~= Seq::<char>::empty());
        }
        text::push_str(&mut out, parts[i].as_str());
        if i == 0 {
            assert(out@ =~= ps.take(1)[0]);
        }
        i += 1;
    }
    assert(ps.take(parts.len() as int) =~= ps);
    out
}

/// The entry a scraped page gives: `meta` is what the page at `url` advertises. No usable
/// metadata (no title) is an error; otherwise the entry's YAML (its authors joined with
/// `"; "`, its URL the page's) and, when the page links a PDF, that link resolved against
/// the page.
pub fn scraped_entry(url: &str, meta: &WebMeta) -> (r: Result<(String, Option<String>), String>)
    ensures
        meta.title@.len() == 0 <==> r is Err,
        r matches Err(e) ==> e@ == "no citation metadata found on that page"@,
        r matches Ok((yaml, pdf)) ==> {
            &&& yaml@ == entry_yaml(
                meta.entry_type@,
                meta.title@,
                joined_with(text::string_views(meta.authors@), "; "@),
                meta.date@,
                meta.container@,
                meta.publisher@,
                meta.doi@,
                meta.isbn@,
                url@,
                meta.volume@,
                meta.issue@,
                meta.pages@,
                meta.language@,
            )
            &&& (pdf is Some <==> meta.pdf_url@.len() > 0)
            &&& pdf matches Some(p) ==> p@ == webmeta::resolved_url(url@, meta.pdf_url@)
        },
{
    if !meta.is_usable() {
        return Err(text::owned("no citation metadata found on that page"));
    }
    let authors = join_names(&meta.authors, "; ");
    let f = NewItemFields {
        ty: meta.entry_type.as_str(),
        title: meta.title.as_str(),
        authors: authors.as_str(),
        date: meta.date.as_str(),
        container: meta.container.as_str(),
        publisher: meta.publisher.as_str(),
        doi: meta.doi.as_str(),
        isbn: meta.isbn.as_str(),
        url,
        volume: meta.volume.as_str(),
        issue: meta.issue.as_str(),
        pages: meta.pages.as_str(),
        language: meta.language.as_str(),
    };
    let yaml = build_entry_yaml(&f);
    let pdf = if meta.pdf_url.as_str().is_empty() {
        None
    } else {
        Some(webmeta::resolve_url(url, meta.pdf_url.as_str()))
    };
    Ok((yaml, pdf))
}

// ---------------------------------------------------------------------------
// Open-access PDFs from Unpaywall
// ---------------------------------------------------------------------------

/// The Unpaywall lookup for `doi`, identifying the caller by `email`.
pub fn unpaywall_api_url(doi: &str, email: &str) -> (r: String)
    ensures
        r@ == "https://api.unpaywall.org/v2/"@ + webdav::encoded_segment(doi@) + "?email="@
            + webdav::encoded_segment(email@),
{
    let mut r = text::owned("https://api.unpaywall.org/v2/");
    text::push_str(&mut r, webdav::urlencode(doi).as_str());
    text::push_str(&mut r, "?email=");
    text::push_str(&mut r, webdav::urlencode(email).as_str());
    r
}

/// The open-access PDF link Unpaywall lists (its best location's `url_for_pdf`), or the
/// error when it lists none.
pub fn listed_pdf_url(url_for_pdf: Option<&str>) -> (r: Result<String, String>)
    ensures
        match url_for_pdf {
            Some(u) if u@.len() > 0 => r matches Ok(v) && v@ == u@,
            _ => r matches Err(e) && e@ == "no open-access PDF is listed for this DOI"@,
        },
{
    match url_for_pdf {
        Some(u) => if u.is_empty() {
            Err(text::owned("no open-access PDF is listed for this DOI"))
        } else {
            Ok(text::owned(u))
        },
        None => Err(text::owned("no open-access PDF is listed for this DOI")),
    }
}

/// The file name a downloaded PDF for `doi` is kept under, or the error when the bytes
/// are not a PDF.
pub fn checked_pdf(doi: &str, bytes: &[u8]) -> (r: Result<String, String>)
    ensures
        has_pdf_magic(bytes@) <==> r is Ok,
        r matches Ok(name) ==> name@ == doi_pdf_name(doi@),
        r matches Err(e) ==> e@ == "the linked file was not a PDF"@,
{
    if looks_like_pdf(bytes) {
        Ok(pdf_file_name(doi))
    } else {
        Err(text::owned("the linked file was not a PDF"))
    }
}

} // verus!
