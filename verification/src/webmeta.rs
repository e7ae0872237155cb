//! Minimal HTML citation-metadata scraper for "Add from URL". Reads the `<meta>` tags that
//! publishers, repositories, and Google Scholar rely on (Highwire Press `citation_*`,
//! Dublin Core `DC.*`, Open Graph `og:*`) into a small struct the new-item YAML builder
//! can consume. It scans for `<meta>` tags and pulls `name`/`property` + `content`
//! attributes; there is no full HTML parser.
//!
//! Every scan here works on the page's characters. The delimiters it looks for are all
//! ASCII, so a character-level scan finds exactly what a byte-level one would.

use vstd::prelude::*;

use crate::text;

verus! {

// ---------------------------------------------------------------------------
// Entities
// ---------------------------------------------------------------------------

/// The entity decoding of `s` from position `i`, in one pass from left to right: each of
/// `&amp;`, `&quot;`, `&#39;`, `&#x27;`, `&apos;`, `&lt;`, `&gt;` becomes its character,
/// and the text a decoding produces is not decoded again (`&amp;lt;` gives `&lt;`).
pub open spec fn decode_from(s: Seq<char>, i: int) -> Seq<char>
    decreases s.len() + 8 - i,
{
    if i < 0 || i >= s.len() {
        seq![]
    } else if text::matches_at(s, i, "&amp;"@) {
        seq!['&'] + decode_from(s, i + 5)
    } else if text::matches_at(s, i, "&quot;"@) {
        seq!['"'] + decode_from(s, i + 6)
    } else if text::matches_at(s, i, "&#39;"@) {
        seq!['\''] + decode_from(s, i + 5)
    } else if text::matches_at(s, i, "&#x27;"@) {
        seq!['\''] + decode_from(s, i + 6)
    } else if text::matches_at(s, i, "&apos;"@) {
        seq!['\''] + decode_from(s, i + 6)
    } else if text::matches_at(s, i, "&lt;"@) {
        seq!['<'] + decode_from(s, i + 4)
    } else if text::matches_at(s, i, "&gt;"@) {
        seq!['>'] + decode_from(s, i + 4)
    } else {
        seq![s[i]] + decode_from(s, i + 1)
    }
}

/// The entity decoding applied to attribute values.
pub open spec fn unescape(s: Seq<char>) -> Seq<char> {
    decode_from(s, 0)
}

fn unescape_chars(s: &[char]) -> (r: Vec<char>)
    ensures
        r@ == unescape(s@),
{
    proof {
        reveal_strlit("&amp;");
        reveal_strlit("&quot;");
        reveal_strlit("&#39;");
        reveal_strlit("&#x27;");
        reveal_strlit("&apos;");
        reveal_strlit("&lt;");
        reveal_strlit("&gt;");
    }
    let amp = text::chars_of("&amp;");
    let quot = text::chars_of("&quot;");
    let n39 = text::chars_of("&#39;");
    let x27 = text::chars_of("&#x27;");
    let apos = text::chars_of("&apos;");
    let lt = text::chars_of("&lt;");
    let gt = text::chars_of("&gt;");
    let mut out: Vec<char> = Vec::new();
    let mut i: usize = 0;
    while i < s.len()
        invariant
            i <= s.len(),
            amp@ == "&amp;"@ && amp@.len() == 5,
            quot@ == "&quot;"@ && quot@.len() == 6,
            n39@ == "&#39;"@ && n39@.len() == 5,
            x27@ == "&#x27;"@ && x27@.len() == 6,
            apos@ == "&apos;"@ && apos@.len() == 6,
            lt@ == "&lt;"@ && lt@.len() == 4,
            gt@ == "&gt;"@ && gt@.len() == 4,
            decode_from(s@, 0) == out@ + decode_from(s@, i as int),
        decreases s.len() - i,
    {
        let ghost before = out@;
        let (c, step): (char, usize) = if text::matches_at_exec(s, i, &amp) {
            ('&', 5)
        } else if text::matches_at_exec(s, i, &quot) {
            ('"', 6)
        } else if text::matches_at_exec(s, i, &n39) {
            ('\'', 5)
        } else if text::matches_at_exec(s, i, &x27) {
            ('\'', 6)
        } else if text::matches_at_exec(s, i, &apos) {
            ('\'', 6)
        } else if text::matches_at_exec(s, i, &lt) {
            ('<', 4)
        } else if text::matches_at_exec(s, i, &gt) {
            ('>', 4)
        } else {
            (s[i], 1)
        };
        out.push(c);
        assert(decode_from(s@, i as int) == seq![c] + decode_from(s@, i + step));
        assert(before + (seq![c] + decode_from(s@, i + step)) =~= out@ + decode_from(s@, i + step));
        i += step;
    }
    assert(out@ + decode_from(s@, i as int) =~= out@);
    out
}

/// Decode the handful of HTML entities that show up in meta content.
pub fn html_unescape(s: &str) -> (r: String)
    ensures
        r@ == unescape(s@),
{
    let v = text::chars_of(s);
    text::string_from(&unescape_chars(&v))
}

// ---------------------------------------------------------------------------
// Attributes
// ---------------------------------------------------------------------------

/// The value of attribute `key` if its name starts at `i` in `tag`: the name (compared
/// without regard to ASCII case) stands at the start or after white space or `<`, and is
/// followed by optional white space, `=`, optional white space and a quoted value. The
/// value runs to the matching quote or to the end of the tag, entities decoded.
pub open spec fn attr_at(tag: Seq<char>, key: Seq<char>, i: int) -> Option<Seq<char>> {
    if text::matches_ci_at(tag, i, key) && (i == 0 || text::is_ascii_ws(tag[i - 1]) || tag[i - 1] == '<') {
        let j = text::skip_ascii_ws_from(tag, i + key.len());
        if j < tag.len() && tag[j] == '=' {
            let k = text::skip_ascii_ws_from(tag, j + 1);
            if k < tag.len() && (tag[k] == '"' || tag[k] == '\'') {
                Some(unescape(tag.subrange(k + 1, text::index_of_from(tag, tag[k], k + 1))))
            } else {
                None
            }
        } else {
            None
        }
    } else {
        None
    }
}

/// The value of the first well-formed occurrence of attribute `key` at or after `i`.
pub open spec fn attr_from(tag: Seq<char>, key: Seq<char>, i: int) -> Option<Seq<char>>
    decreases tag.len() + 1 - i,
{
    if i < 0 || i + key.len() > tag.len() {
        None
    } else if attr_at(tag, key, i) is Some {
        attr_at(tag, key, i)
    } else {
        attr_from(tag, key, i + 1)
    }
}

/// The value of attribute `key` in one tag.
pub open spec fn attr_value(tag: Seq<char>, key: Seq<char>) -> Option<Seq<char>> {
    attr_from(tag, key, 0)
}

fn attr_at_exec(tag: &[char], key: &[char], i: usize) -> (r: Option<Vec<char>>)
    requires
        i + key.len() <= tag.len(),
    ensures
        r matches Some(v) ==> attr_at(tag@, key@, i as int) == Some(v@),
        r is None ==> attr_at(tag@, key@, i as int) is None,
{
    if !text::matches_ci_at_exec(tag, i, key) {
        return None;
    }
    if !(i == 0 || text::is_ascii_ws_exec(tag[i - 1]) || tag[i - 1] == '<') {
        return None;
    }
    let j = text::skip_ascii_ws_exec(tag, i + key.len());
    if !(j < tag.len() && tag[j] == '=') {
        return None;
    }
    let k = text::skip_ascii_ws_exec(tag, j + 1);
    if !(k < tag.len() && (tag[k] == '"' || tag[k] == '\'')) {
        return None;
    }
    let quote = tag[k];
    let end = text::index_of_from_exec(tag, quote, k + 1);
    let raw = text::slice_chars(tag, k + 1, end);
    Some(unescape_chars(&raw))
}

fn attr_value_chars(tag: &[char], key: &[char]) -> (r: Option<Vec<char>>)
    ensures
        r matches Some(v) ==> attr_value(tag@, key@) == Some(v@),
        r is None ==> attr_value(tag@, key@) is None,
{
    if key.len() > tag.len() {
        return None;
    }
    let last = tag.len() - key.len();
    let mut i: usize = 0;
    loop
        invariant
            i <= last,
            last + key.len() == tag.len(),
            attr_value(tag@, key@) == attr_from(tag@, key@, i as int),
        decreases last - i,
    {
        let found = attr_at_exec(tag, key, i);
        if found.is_some() {
            return found;
        }
        if i == last {
            assert(attr_from(tag@, key@, i + 1) is None);
            return None;
        }
        i += 1;
    }
}

/// The value of attribute `key` (ASCII case-insensitive) inside one tag string.
pub fn meta_attr(tag: &str, key: &str) -> (r: Option<String>)
    ensures
        r matches Some(v) ==> attr_value(tag@, key@) == Some(v@),
        r is None ==> attr_value(tag@, key@) is None,
{
    let t = text::chars_of(tag);
    let k = text::chars_of(key);
    match attr_value_chars(&t, &k) {
        Some(v) => Some(text::string_from(&v)),
        None => None,
    }
}

// ---------------------------------------------------------------------------
// Meta tags
// ---------------------------------------------------------------------------

/// The name a `<meta>` tag carries: its `name` attribute, else its `property` attribute.
pub open spec fn tag_name(tag: Seq<char>) -> Option<Seq<char>> {
    match attr_value(tag, "name"@) {
        Some(n) => Some(n),
        None => attr_value(tag, "property"@),
    }
}

/// The `(lower-cased name, content)` pairs of the `<meta>` tags that start at or after
/// `i`. A tag starts where `<meta` occurs (any ASCII case) and runs to the next `>` or
/// to the end of the page; scanning resumes at that `>`. A tag lacking a name or a
/// content contributes nothing.
pub open spec fn tags_from(c: Seq<char>, i: int) -> Seq<(Seq<char>, Seq<char>)>
    decreases c.len() + 1 - i,
{
    if i < 0 || i + 5 > c.len() {
        seq![]
    } else if text::matches_ci_at(c, i, "<meta"@) {
        proof {
            text::lemma_index_of_bounds(c, '>', i + 5);
        }
        let end = text::index_of_from(c, '>', i + 5);
        let tag = c.subrange(i, end);
        let rest = if end > i {
            tags_from(c, end)
        } else {
            seq![]
        };
        match (tag_name(tag), attr_value(tag, "content"@)) {
            (Some(n), Some(v)) => seq![(text::lower(n), v)] + rest,
            _ => rest,
        }
    } else {
        tags_from(c, i + 1)
    }
}

/// All `<meta>` tags of a page, as `(name-or-property lowercased, content)`.
pub open spec fn page_tags(html: Seq<char>) -> Seq<(Seq<char>, Seq<char>)> {
    tags_from(html, 0)
}

/// The views of character-vector pairs.
pub open spec fn pair_views(v: Seq<(Vec<char>, Vec<char>)>) -> Seq<(Seq<char>, Seq<char>)> {
    Seq::new(v.len(), |i: int| (v[i].0@, v[i].1@))
}

fn meta_tags_chars(c: &[char]) -> (out: Vec<(Vec<char>, Vec<char>)>)
    ensures
        pair_views(out@) == page_tags(c@),
{
    let meta = text::chars_of("<meta");
    let name_key = text::chars_of("name");
    let property_key = text::chars_of("property");
    let content_key = text::chars_of("content");
    let mut out: Vec<(Vec<char>, Vec<char>)> = Vec::new();
    let mut i: usize = 0;
    assert(pair_views(out@) + tags_from(c@, 0) =~= tags_from(c@, 0));
    while i < c.len() && 5 <= c.len() - i
        invariant
            i <= c.len(),
            meta@ == "<meta"@,
            name_key@ == "name"@,
            property_key@ == "property"@,
            content_key@ == "content"@,
            page_tags(c@) == pair_views(out@) + tags_from(c@, i as int),
        decreases c.len() - i,
    {
        if text::matches_ci_at_exec(c, i, &meta) {
            let end = text::index_of_from_exec(c, '>', i + 5);
            let tag = text::slice_chars(c, i, end);
            let name = match attr_value_chars(&tag, &name_key) {
                Some(n) => Some(n),
                None => attr_value_chars(&tag, &property_key),
            };
            let content = attr_value_chars(&tag, &content_key);
            let ghost before = pair_views(out@);
            match (name, content) {
                (Some(n), Some(v)) => {
                    let lower = text::to_lowercase(text::string_from(&n).as_str());
                    let lower_chars = text::chars_of(lower.as_str());
                    out.push((lower_chars, v));
                    assert(pair_views(out@) =~= before.push((text::lower(n@), v@)));
                    assert(before.push((text::lower(n@), v@)) + tags_from(c@, end as int) =~= before
                        + (seq![(text::lower(n@), v@)] + tags_from(c@, end as int)));
                },
                _ => {},
            }
            i = end;
        } else {
            i += 1;
        }
    }
    assert(tags_from(c@, i as int) == Seq::<(Seq<char>, Seq<char>)>::empty());
    assert(pair_views(out@) + tags_from(c@, i as int) =~= pair_views(out@));
    out
}

/// The views of string pairs.
pub open spec fn string_pair_views(v: Seq<(String, String)>) -> Seq<(Seq<char>, Seq<char>)> {
    Seq::new(v.len(), |i: int| (v[i].0@, v[i].1@))
}

/// All `<meta>` tags as `(name-or-property lowercased, content)`.
pub fn meta_tags(html: &str) -> (out: Vec<(String, String)>)
    ensures
        string_pair_views(out@) == page_tags(html@),
{
    let c = text::chars_of(html);
    let tags = meta_tags_chars(&c);
    let mut out: Vec<(String, String)> = Vec::new();
    let mut k: usize = 0;
    while k < tags.len()
        invariant
            k <= tags.len(),
            pair_views(tags@) == page_tags(html@),
            out@.len() == k,
            string_pair_views(out@) == pair_views(tags@).take(k as int),
        decreases tags.len() - k,
    {
        let n = text::string_from(&tags[k].0);
        let v = text::string_from(&tags[k].1);
        let ghost before = out@;
        assert(n@ == tags@[k as int].0@);
        assert(v@ == tags@[k as int].1@);
        out.push((n, v));
        assert(out@ == before.push((n, v)));
        assert(string_pair_views(before) == pair_views(tags@).take(k as int));
        assert forall|j: int| 0 <= j < k implies #[trigger] string_pair_views(out@)[j]
            == string_pair_views(before)[j] by {}
        k += 1;
        assert(string_pair_views(out@) =~= pair_views(tags@).take(k as int));
    }
    assert(pair_views(tags@).take(k as int) =~= pair_views(tags@));
    out
}

} // verus!
verus! {

// ---------------------------------------------------------------------------
// Dates
// ---------------------------------------------------------------------------

/// Four ASCII digits stand at `i`.
pub open spec fn four_digits_at(s: Seq<char>, i: int) -> bool {
    &&& 0 <= i
    &&& i + 4 <= s.len()
    &&& text::is_digit(s[i])
    &&& text::is_digit(s[i + 1])
    &&& text::is_digit(s[i + 2])
    &&& text::is_digit(s[i + 3])
}

/// The first position `>= i` holding four consecutive ASCII digits.
pub open spec fn year_pos_from(s: Seq<char>, i: int) -> Option<int>
    decreases s.len() + 1 - i,
{
    if i < 0 || i + 4 > s.len() {
        None
    } else if four_digits_at(s, i) {
        Some(i)
    } else {
        year_pos_from(s, i + 1)
    }
}

/// The first four consecutive ASCII digits of `s`, or nothing.
pub open spec fn year_of(s: Seq<char>) -> Seq<char> {
    match year_pos_from(s, 0) {
        Some(p) => s.subrange(p, p + 4),
        None => seq![],
    }
}

/// The end of the run of ASCII digits starting at `i`.
pub open spec fn run_end(s: Seq<char>, i: int) -> int
    decreases s.len() - i,
{
    if 0 <= i < s.len() && text::is_digit(s[i]) {
        run_end(s, i + 1)
    } else {
        i
    }
}

/// The first position `>= i` holding an ASCII digit (or the length).
pub open spec fn skip_non_digits(s: Seq<char>, i: int) -> int
    decreases s.len() - i,
{
    if 0 <= i < s.len() && !text::is_digit(s[i]) {
        skip_non_digits(s, i + 1)
    } else {
        i
    }
}

pub proof fn lemma_run_end_bounds(s: Seq<char>, i: int)
    requires
        0 <= i <= s.len(),
    ensures
        i <= run_end(s, i) <= s.len(),
        forall|k: int| i <= k < run_end(s, i) ==> text::is_digit(#[trigger] s[k]),
        run_end(s, i) < s.len() ==> !text::is_digit(s[run_end(s, i)]),
    decreases s.len() - i,
{
    if i < s.len() && text::is_digit(s[i]) {
        lemma_run_end_bounds(s, i + 1);
    }
}

pub proof fn lemma_skip_non_digits_bounds(s: Seq<char>, i: int)
    requires
        0 <= i <= s.len(),
    ensures
        i <= skip_non_digits(s, i) <= s.len(),
        skip_non_digits(s, i) < s.len() ==> text::is_digit(s[skip_non_digits(s, i)]),
    decreases s.len() - i,
{
    if i < s.len() && !text::is_digit(s[i]) {
        lemma_skip_non_digits_bounds(s, i + 1);
    }
}

/// The maximal runs of ASCII digits in `s` from `i` on: `s` split at every other
/// character, empty pieces dropped.
pub open spec fn digit_runs_from(s: Seq<char>, i: int) -> Seq<Seq<char>>
    decreases s.len() + 1 - i,
{
    if i < 0 || i > s.len() {
        seq![]
    } else {
        let a = skip_non_digits(s, i);
        proof {
            lemma_skip_non_digits_bounds(s, i);
        }
        if a >= s.len() {
            seq![]
        } else {
            let b = run_end(s, a);
            proof {
                lemma_run_end_bounds(s, a);
                lemma_run_end_bounds(s, a + 1);
            }
            seq![s.subrange(a, b)] + digit_runs_from(s, b)
        }
    }
}

/// The decimal value of a string of ASCII digits.
pub open spec fn digits_value(r: Seq<char>) -> int
    decreases r.len(),
{
    if r.len() == 0 {
        0
    } else {
        10 * digits_value(r.drop_last()) + ((r.last() as int) - ('0' as int))
    }
}

pub proof fn lemma_digits_value_nonneg(r: Seq<char>)
    requires
        forall|k: int| 0 <= k < r.len() ==> text::is_digit(#[trigger] r[k]),
    ensures
        digits_value(r) >= 0,
    decreases r.len(),
{
    if r.len() > 0 {
        assert(text::is_digit(r[r.len() - 1]));
        lemma_digits_value_nonneg(r.drop_last());
    }
}

/// The character of decimal digit `d`.
pub open spec fn digit_char(d: int) -> char {
    (('0' as int) + d) as char
}

/// `n` (below one hundred) as two decimal digits.
pub open spec fn two_digits(n: int) -> Seq<char> {
    seq![digit_char(n / 10), digit_char(n % 10)]
}

/// A citation date at the precision it carries: the first four consecutive digits as
/// the year; then, from the digit runs after the year, a month if the first run's value
/// is 1..=12, and a day if there is such a month and the second run's value is 1..=31.
/// Gives `YYYY-MM-DD`, `YYYY-MM`, `YYYY`, or nothing when `s` has no four-digit run.
pub open spec fn date_of(s: Seq<char>) -> Seq<char> {
    match year_pos_from(s, 0) {
        None => seq![],
        Some(p) => {
            let year = s.subrange(p, p + 4);
            let runs = digit_runs_from(s, p + 4);
            if runs.len() > 0 && 1 <= digits_value(runs[0]) <= 12 {
                let month = two_digits(digits_value(runs[0]));
                if runs.len() > 1 && 1 <= digits_value(runs[1]) <= 31 {
                    year + seq!['-'] + month + seq!['-'] + two_digits(digits_value(runs[1]))
                } else {
                    year + seq!['-'] + month
                }
            } else {
                year
            }
        },
    }
}

pub proof fn lemma_year_pos(s: Seq<char>, i: int)
    requires
        0 <= i,
    ensures
        year_pos_from(s, i) matches Some(p) ==> i <= p && four_digits_at(s, p),
    decreases s.len() + 1 - i,
{
    if i + 4 <= s.len() && !four_digits_at(s, i) {
        lemma_year_pos(s, i + 1);
    }
}

proof fn lemma_two_digits(n: int)
    requires
        0 <= n < 100,
    ensures
        two_digits(n).len() == 2,
        text::is_digit(two_digits(n)[0]),
        text::is_digit(two_digits(n)[1]),
{
    assert(0 <= n / 10 < 10);
    assert(0 <= n % 10 < 10);
}

/// A date is always in a shape Hayagriva reads: empty, `YYYY`, `YYYY-MM` or
/// `YYYY-MM-DD` (digits, with dashes at the fifth and eighth places), and its year is
/// the first four-digit run of the text, the one `four_digit_year` gives.
pub proof fn law_date_is_well_shaped(s: Seq<char>)
    ensures
        date_of(s).len() == 0 || date_of(s).len() == 4 || date_of(s).len() == 7 || date_of(s).len()
            == 10,
        forall|k: int|
            0 <= k < date_of(s).len() ==> if k == 4 || k == 7 {
                #[trigger] date_of(s)[k] == '-'
            } else {
                text::is_digit(date_of(s)[k])
            },
        date_of(s).len() > 0 ==> date_of(s).take(4) == year_of(s),
{
    lemma_year_pos(s, 0);
    if let Some(p) = year_pos_from(s, 0) {
        let year = s.subrange(p, p + 4);
        let runs = digit_runs_from(s, p + 4);
        let d = date_of(s);
        if runs.len() > 0 && 1 <= digits_value(runs[0]) <= 12 {
            lemma_two_digits(digits_value(runs[0]));
            if runs.len() > 1 && 1 <= digits_value(runs[1]) <= 31 {
                lemma_two_digits(digits_value(runs[1]));
            }
        }
        assert(d.take(4) =~= year);
        assert forall|k: int| 0 <= k < d.len() implies if k == 4 || k == 7 {
            #[trigger] d[k] == '-'
        } else {
            text::is_digit(d[k])
        } by {
            if k < 4 {
                assert(d[k] == s[p + k]);
            }
        }
    }
}

fn year_pos_exec(s: &[char]) -> (r: Option<usize>)
    ensures
        r matches Some(p) ==> year_pos_from(s@, 0) == Some(p as int) && four_digits_at(s@, p as int),
        r is None ==> year_pos_from(s@, 0) is None,
{
    if s.len() < 4 {
        return None;
    }
    let last = s.len() - 4;
    let mut i: usize = 0;
    loop
        invariant
            i <= last,
            last + 4 == s.len(),
            year_pos_from(s@, 0) == year_pos_from(s@, i as int),
        decreases last - i,
    {
        if text::is_digit_exec(s[i]) && text::is_digit_exec(s[i + 1]) && text::is_digit_exec(
            s[i + 2],
        ) && text::is_digit_exec(s[i + 3]) {
            proof {
                lemma_year_pos(s@, 0);
            }
            return Some(i);
        }
        if i == last {
            assert(year_pos_from(s@, i + 1) is None);
            return None;
        }
        i += 1;
    }
}

fn digit_exec(d: u32) -> (c: char)
    requires
        d < 10,
    ensures
        c == digit_char(d as int),
{
    ((48 + d) as u8) as char
}

fn run_end_exec(s: &[char], i: usize) -> (r: usize)
    requires
        i <= s.len(),
    ensures
        r == run_end(s@, i as int),
{
    let mut j = i;
    while j < s.len() && text::is_digit_exec(s[j])
        invariant
            i <= j <= s.len(),
            run_end(s@, i as int) == run_end(s@, j as int),
        decreases s.len() - j,
    {
        j += 1;
    }
    j
}

fn skip_non_digits_exec(s: &[char], i: usize) -> (r: usize)
    requires
        i <= s.len(),
    ensures
        r == skip_non_digits(s@, i as int),
{
    let mut j = i;
    while j < s.len() && !text::is_digit_exec(s[j])
        invariant
            i <= j <= s.len(),
            skip_non_digits(s@, i as int) == skip_non_digits(s@, j as int),
        decreases s.len() - j,
    {
        j += 1;
    }
    j
}

/// The value of the digit run `s[a..b]`, or 256 when it exceeds 255.
fn capped_value(s: &[char], a: usize, b: usize) -> (v: u32)
    requires
        a <= b <= s.len(),
        forall|k: int| a <= k < b ==> text::is_digit(#[trigger] s@[k]),
    ensures
        v == (if digits_value(s@.subrange(a as int, b as int)) > 255 {
            256
        } else {
            digits_value(s@.subrange(a as int, b as int))
        }),
{
    let mut v: u32 = 0;
    let mut k = a;
    assert(s@.subrange(a as int, a as int).len() == 0);
    while k < b
        invariant
            a <= k <= b <= s.len(),
            forall|m: int| a <= m < b ==> text::is_digit(#[trigger] s@[m]),
            v == (if digits_value(s@.subrange(a as int, k as int)) > 255 {
                256
            } else {
                digits_value(s@.subrange(a as int, k as int))
            }),
            digits_value(s@.subrange(a as int, k as int)) >= 0,
        decreases b - k,
    {
        let ghost prev = s@.subrange(a as int, k as int);
        let ghost next = s@.subrange(a as int, k + 1);
        assert(next.drop_last() =~= prev);
        assert(next.last() == s@[k as int]);
        assert(text::is_digit(s@[k as int]));
        let d = (s[k] as u32) - 48;
        assert(digits_value(next) == 10 * digits_value(prev) + d);
        if v < 256 {
            let w = v * 10 + d;
            if w > 255 {
                v = 256;
            } else {
                v = w;
            }
        }
        k += 1;
    }
    v
}

/// The characters of `n` (1..=31) as two decimal digits.
fn two_digits_exec(n: u32) -> (r: Vec<char>)
    requires
        n < 100,
    ensures
        r@ == two_digits(n as int),
{
    let mut r: Vec<char> = Vec::new();
    r.push(digit_exec(n / 10));
    r.push(digit_exec(n % 10));
    r
}

fn year_of_chars(s: &[char]) -> (r: Vec<char>)
    ensures
        r@ == year_of(s@),
{
    let pos = year_pos_exec(s);
    match pos {
        Some(p) => {
            assert(four_digits_at(s@, p as int));
            let n = s.len();
            assert(p + 4 <= n);
            text::slice_chars(s, p, p + 4)
        },
        None => Vec::new(),
    }
}

/// Extract the first four consecutive ASCII digits as a year (handles `2021-03-01`,
/// `2021/3/1`, `March 2021`, `2021`).
pub fn four_digit_year(s: &str) -> (r: String)
    ensures
        r@ == year_of(s@),
{
    let c = text::chars_of(s);
    text::string_from(&year_of_chars(&c))
}

fn date_chars(s: &[char]) -> (r: Vec<char>)
    ensures
        r@ == date_of(s@),
{
    let pos = year_pos_exec(s);
    let p = match pos {
        Some(p) => p,
        None => {
            return Vec::new();
        },
    };
    assert(four_digits_at(s@, p as int));
    let n = s.len();
    assert(p + 4 <= n);
    let mut out = text::slice_chars(s, p, p + 4);
    let ghost year = out@;
    let a1 = skip_non_digits_exec(s, p + 4);
    proof {
        lemma_skip_non_digits_bounds(s@, p + 4);
    }
    if a1 >= s.len() {
        return out;
    }
    let b1 = run_end_exec(s, a1);
    proof {
        lemma_run_end_bounds(s@, a1 as int);
        lemma_run_end_bounds(s@, a1 + 1);
        lemma_digits_value_nonneg(s@.subrange(a1 as int, b1 as int));
    }
    let ghost runs = digit_runs_from(s@, p + 4);
    assert(runs =~= seq![s@.subrange(a1 as int, b1 as int)] + digit_runs_from(s@, b1 as int));
    let month = capped_value(s, a1, b1);
    if !(1 <= month && month <= 12) {
        return out;
    }
    out.push('-');
    let m = two_digits_exec(month);
    let mut mi: usize = 0;
    while mi < m.len()
        invariant
            mi <= m.len() == 2,
            out@ == year + seq!['-'] + m@.take(mi as int),
        decreases m.len() - mi,
    {
        out.push(m[mi]);
        mi += 1;
        assert(m@.take(mi as int) =~= m@.take(mi - 1).push(m@[mi - 1]));
    }
    assert(m@.take(2) =~= m@);
    let ghost with_month = out@;
    let a2 = skip_non_digits_exec(s, b1);
    proof {
        lemma_skip_non_digits_bounds(s@, b1 as int);
    }
    if a2 >= s.len() {
        assert(digit_runs_from(s@, b1 as int) =~= Seq::<Seq<char>>::empty());
        return out;
    }
    let b2 = run_end_exec(s, a2);
    proof {
        lemma_run_end_bounds(s@, a2 as int);
        lemma_run_end_bounds(s@, a2 + 1);
        lemma_digits_value_nonneg(s@.subrange(a2 as int, b2 as int));
    }
    assert(digit_runs_from(s@, b1 as int) =~= seq![s@.subrange(a2 as int, b2 as int)]
        + digit_runs_from(s@, b2 as int));
    let day = capped_value(s, a2, b2);
    if !(1 <= day && day <= 31) {
        return out;
    }
    out.push('-');
    let d = two_digits_exec(day);
    let mut di: usize = 0;
    while di < d.len()
        invariant
            di <= d.len() == 2,
            out@ == with_month + seq!['-'] + d@.take(di as int),
        decreases d.len() - di,
    {
        out.push(d[di]);
        di += 1;
        assert(d@.take(di as int) =~= d@.take(di - 1).push(d@[di - 1]));
    }
    assert(d@.take(2) =~= d@);
    out
}

/// Turn a citation-metadata date (`2021-03-01`, `2021/3/1`, `2021`, ...) into whatever
/// precision it actually carries, in the form Hayagriva's date parser accepts:
/// `YYYY-MM-DD`, `YYYY-MM`, or bare `YYYY`.
pub fn best_effort_date(s: &str) -> (r: String)
    ensures
        r@ == date_of(s@),
{
    let c = text::chars_of(s);
    text::string_from(&date_chars(&c))
}

} // verus!
verus! {

// ---------------------------------------------------------------------------
// URLs
// ---------------------------------------------------------------------------

/// Where the scheme-and-authority part of `base` ends: the first `/` after the `://`
/// (or from the start when there is no `://`), else the end of `base`.
pub open spec fn origin_end(base: Seq<char>) -> int {
    let scheme_end = match text::find_from(base, "://"@, 0) {
        Some(p) => p + "://"@.len(),
        None => 0,
    };
    text::index_of_from(base, '/', scheme_end)
}

/// A possibly relative `link` resolved against the page URL `base`: empty stays empty;
/// `http://`/`https://` links are kept; `//host/...` takes the scheme of `base` (the part
/// before its first `://`, or all of `base` when there is none); `/path` is appended to
/// the origin of `base`; anything else is appended to the directory of `base`: `base` up
/// to and including its last `/` when that `/` comes after the origin, else the origin
/// followed by `/` (a page URL without a path, such as `https://example.org`).
pub open spec fn resolved_url(base: Seq<char>, link: Seq<char>) -> Seq<char> {
    if link.len() == 0 {
        seq![]
    } else if text::starts_with(link, "http://"@) || text::starts_with(link, "https://"@) {
        link
    } else if text::starts_with(link, "//"@) {
        let scheme = match text::find_from(base, "://"@, 0) {
            Some(p) => base.take(p),
            None => base,
        };
        scheme + "://"@ + link.skip("//"@.len() as int)
    } else if link[0] == '/' {
        base.take(origin_end(base)) + link
    } else {
        match text::last_index_of(base, '/') {
            Some(p) if p >= origin_end(base) => base.take(p + 1) + link,
            _ => base.take(origin_end(base)) + seq!['/'] + link,
        }
    }
}

/// An absolute link, `http://` or `https://`, is kept exactly as it is, whatever the page
/// it was found on.
pub proof fn law_absolute_links_kept(base: Seq<char>, link: Seq<char>)
    requires
        text::starts_with(link, "http://"@) || text::starts_with(link, "https://"@),
    ensures
        resolved_url(base, link) == link,
{
    reveal_strlit("http://");
    reveal_strlit("https://");
}

proof fn lemma_origin_end_bounds(base: Seq<char>)
    ensures
        0 <= origin_end(base) <= base.len(),
{
    text::lemma_find_from(base, "://"@, 0);
    let scheme_end = match text::find_from(base, "://"@, 0) {
        Some(p) => p + "://"@.len(),
        None => 0,
    };
    text::lemma_index_of_bounds(base, '/', scheme_end);
}

/// Whatever the link, a non-empty one ends its resolved URL, and what comes before it is
/// taken from the page URL: a leading part of it (nothing for an absolute link, the
/// scheme and host for a `/path` link), or a leading part followed by `/` (the page's
/// directory, for a relative link) or by `:` (the page's scheme, for a `//host` link).
pub proof fn law_resolved_url_shape(base: Seq<char>, link: Seq<char>)
    requires
        link.len() > 0,
    ensures
        ({
            let r = resolved_url(base, link);
            let pre = r.take(r.len() - link.len());
            &&& r.len() >= link.len()
            &&& r.skip(r.len() - link.len()) == link
            &&& (text::starts_with(link, "http://"@) || text::starts_with(link, "https://"@)) ==> pre.len() == 0
            &&& link[0] == '/' && !text::starts_with(link, "//"@) ==> pre.is_prefix_of(base)
            &&& text::starts_with(link, "//"@) && !text::starts_with(link, "http://"@) && !text::starts_with(link, "https://"@)
                ==> pre.len() > 0 && pre.last() == ':' && pre.drop_last().is_prefix_of(base)
            &&& link[0] != '/' && !text::starts_with(link, "http://"@) && !text::starts_with(link, "https://"@)
                ==> pre.len() > 0 && pre.last() == '/' && (pre.is_prefix_of(base) || pre.drop_last().is_prefix_of(base))
        }),
{
    reveal_strlit("http://");
    reveal_strlit("https://");
    reveal_strlit("//");
    reveal_strlit("://");
    let r = resolved_url(base, link);
    lemma_origin_end_bounds(base);
    text::lemma_find_from(base, "://"@, 0);
    text::lemma_last_index_of(base, '/');
    if text::starts_with(link, "http://"@) || text::starts_with(link, "https://"@) {
        assert(r == link);
        assert(r.skip(0) =~= link);
    } else if text::starts_with(link, "//"@) {
        let scheme = match text::find_from(base, "://"@, 0) {
            Some(p) => base.take(p),
            None => base,
        };
        assert(link.subrange(0, 2) == "//"@);
        assert(link[0] == link.subrange(0, 2)[0] && link[1] == link.subrange(0, 2)[1]);
        assert(link[0] == '/' && link[1] == '/');
        assert(r =~= scheme + seq![':'] + link);
        assert(r.skip(r.len() - link.len()) =~= link);
        assert(r.take(r.len() - link.len()) =~= scheme + seq![':']);
        assert((scheme + seq![':']).drop_last() =~= scheme);
    } else if link[0] == '/' {
        let o = base.take(origin_end(base));
        assert(r == o + link);
        assert(r.skip(r.len() - link.len()) =~= link);
        assert(r.take(r.len() - link.len()) =~= o);
    } else {
        match text::last_index_of(base, '/') {
            Some(p) if p >= origin_end(base) => {
                let d = base.take(p + 1);
                assert(r == d + link);
                assert(r.skip(r.len() - link.len()) =~= link);
                assert(r.take(r.len() - link.len()) =~= d);
                assert(d.last() == '/');
            },
            _ => {
                let o = base.take(origin_end(base));
                assert(r == o + seq!['/'] + link);
                assert(r.skip(r.len() - link.len()) =~= link);
                assert(r.take(r.len() - link.len()) =~= o + seq!['/']);
                assert((o + seq!['/']).drop_last() =~= o);
            },
        }
    }
}

/// Resolve a possibly-relative PDF URL against the page URL.
#[verifier::spinoff_prover]
pub fn resolve_url(base: &str, link: &str) -> (r: String)
    ensures
        r@ == resolved_url(base@, link@),
        text::starts_with(link@, "http://"@) || text::starts_with(link@, "https://"@) ==> r@
            == link@,
        link@.len() == 0 ==> r@.len() == 0,
        link@.len() > 0 ==> r@.len() >= link@.len() && r@.skip(r@.len() - link@.len()) == link@,
{
    proof {
        if text::starts_with(link@, "http://"@) || text::starts_with(link@, "https://"@) {
            law_absolute_links_kept(base@, link@);
        }
        if link@.len() > 0 {
            law_resolved_url_shape(base@, link@);
        }
    }
    let b = text::chars_of(base);
    let l = text::chars_of(link);
    if l.len() == 0 {
        return String::new();
    }
    let http = text::chars_of("http://");
    let https = text::chars_of("https://");
    if text::matches_at_exec(&l, 0, &http) || text::matches_at_exec(&l, 0, &https) {
        return text::string_from(&l);
    }
    let sep = text::chars_of("://");
    let found = text::find_from_exec(&b, &sep, 0);
    proof {
        text::lemma_find_from(b@, sep@, 0);
        if let Some(p) = found {
            assert(p + sep@.len() <= b@.len());
        }
    }
    let slashes = text::chars_of("//");
    if text::matches_at_exec(&l, 0, &slashes) {
        let mut out = match found {
            Some(p) => text::slice_chars(&b, 0, p),
            None => text::slice_chars(&b, 0, b.len()),
        };
        assert(b@.subrange(0, b@.len() as int) =~= b@);
        text::append_chars(&mut out, &sep);
        let rest = text::slice_chars(&l, slashes.len(), l.len());
        text::append_chars(&mut out, &rest);
        return text::string_from(&out);
    }
    let scheme_end = match found {
        Some(p) => {
            assert(text::matches_at(b@, p as int, sep@));
            assert(p + sep.len() <= b.len());
            p + sep.len()
        },
        None => 0,
    };
    let authority_end = text::index_of_from_exec(&b, '/', scheme_end);
    proof {
        text::lemma_index_of_bounds(b@, '/', scheme_end as int);
    }
    if l[0] == '/' {
        let mut out = text::slice_chars(&b, 0, authority_end);
        text::append_chars(&mut out, &l);
        return text::string_from(&out);
    }
    let last = text::last_index_of_exec(&b, '/');
    proof {
        text::lemma_last_index_of(b@, '/');
    }
    let mut out = match last {
        Some(p) => if p >= authority_end {
            text::slice_chars(&b, 0, p + 1)
        } else {
            let mut o = text::slice_chars(&b, 0, authority_end);
            o.push('/');
            o
        },
        None => {
            let mut o = text::slice_chars(&b, 0, authority_end);
            o.push('/');
            o
        },
    };
    text::append_chars(&mut out, &l);
    text::string_from(&out)
}

} // verus!
verus! {

// ---------------------------------------------------------------------------
// Distilling the tags
// ---------------------------------------------------------------------------

/// The trimmed content of the first tag named by one of `keys` whose trimmed content is
/// not empty; empty when there is none.
pub open spec fn first_content(tags: Seq<(Seq<char>, Seq<char>)>, keys: Seq<Seq<char>>) -> Seq<
    char,
>
    decreases tags.len(),
{
    if tags.len() == 0 {
        seq![]
    } else if keys.contains(tags[0].0) && text::trim(tags[0].1).len() > 0 {
        text::trim(tags[0].1)
    } else {
        first_content(tags.drop_first(), keys)
    }
}

/// The trimmed contents, in page order, of every tag named by one of `keys` whose
/// trimmed content is not empty.
pub open spec fn all_contents(tags: Seq<(Seq<char>, Seq<char>)>, keys: Seq<Seq<char>>) -> Seq<
    Seq<char>,
>
    decreases tags.len(),
{
    if tags.len() == 0 {
        seq![]
    } else {
        let rest = all_contents(tags.drop_first(), keys);
        if keys.contains(tags[0].0) && text::trim(tags[0].1).len() > 0 {
            seq![text::trim(tags[0].1)] + rest
        } else {
            rest
        }
    }
}

pub open spec fn title_keys() -> Seq<Seq<char>> {
    seq!["citation_title"@, "dc.title"@, "og:title"@, "twitter:title"@]
}

pub open spec fn author_keys() -> Seq<Seq<char>> {
    seq!["citation_author"@, "dc.creator"@, "citation_authors"@]
}

pub open spec fn container_keys() -> Seq<Seq<char>> {
    seq![
        "citation_journal_title"@,
        "citation_conference_title"@,
        "citation_inbook_title"@,
        "og:site_name"@,
    ]
}

pub open spec fn publisher_keys() -> Seq<Seq<char>> {
    seq!["citation_publisher"@, "dc.publisher"@]
}

pub open spec fn doi_keys() -> Seq<Seq<char>> {
    seq!["citation_doi"@, "dc.identifier.doi"@]
}

pub open spec fn identifier_keys() -> Seq<Seq<char>> {
    seq!["dc.identifier"@, "citation_id"@]
}

pub open spec fn date_keys() -> Seq<Seq<char>> {
    seq![
        "citation_publication_date"@,
        "citation_date"@,
        "citation_online_date"@,
        "dc.date"@,
        "article:published_time"@,
    ]
}

pub open spec fn language_keys() -> Seq<Seq<char>> {
    seq!["citation_language"@, "dc.language"@]
}

/// A list of one key.
pub open spec fn one_key(k: Seq<char>) -> Seq<Seq<char>> {
    seq![k]
}

/// The authors: every author tag, except that a single value holding `;` is split there
/// into its trimmed, non-empty names.
pub open spec fn authors_of(tags: Seq<(Seq<char>, Seq<char>)>) -> Seq<Seq<char>> {
    let all = all_contents(tags, author_keys());
    if all.len() == 1 && all[0].contains(';') {
        text::nonempty_trimmed(text::split_on(all[0], seq![';']))
    } else {
        all
    }
}

/// `first-last` when both page tags are present, the first page alone when only it is,
/// else `citation_pages`.
pub open spec fn pages_of(tags: Seq<(Seq<char>, Seq<char>)>) -> Seq<char> {
    let first = first_content(tags, one_key("citation_firstpage"@));
    let last = first_content(tags, one_key("citation_lastpage"@));
    if first.len() > 0 && last.len() > 0 {
        first + seq!['-'] + last
    } else if first.len() > 0 {
        first
    } else {
        first_content(tags, one_key("citation_pages"@))
    }
}

/// The DOI tag; failing that, a `doi:`-prefixed identifier (prefix dropped, trimmed) or
/// an identifier that starts with `10.` and holds a `/`.
pub open spec fn doi_of(tags: Seq<(Seq<char>, Seq<char>)>) -> Seq<char> {
    let doi = first_content(tags, doi_keys());
    if doi.len() > 0 {
        doi
    } else {
        let id = first_content(tags, identifier_keys());
        if text::starts_with(id, "doi:"@) {
            text::trim(id.skip("doi:"@.len() as int))
        } else if text::starts_with(id, "10."@) && id.contains('/') {
            id
        } else {
            doi
        }
    }
}

/// A page's entry type follows from what it names: a page naming a journal, conference,
/// book or site it belongs to, or a DOI, is an article, whatever else it has; otherwise a
/// page with an ISBN is a book; any other page is a web page.
pub proof fn law_page_entry_type(html: Seq<char>)
    ensures
        ({
            let t = page_tags(html);
            let c = first_content(t, container_keys());
            let d = doi_of(t);
            let i = first_content(t, one_key("citation_isbn"@));
            let ty = entry_type_of(c, d, i);
            &&& c.len() > 0 || d.len() > 0 ==> ty == "article"@
            &&& c.len() == 0 && d.len() == 0 && i.len() > 0 ==> ty == "book"@
            &&& c.len() == 0 && d.len() == 0 && i.len() == 0 ==> ty == "web"@
        }),
{
}

/// `article` when there is a container or a DOI, else `book` when there is an ISBN,
/// else `web`.
pub open spec fn entry_type_of(container: Seq<char>, doi: Seq<char>, isbn: Seq<char>) -> Seq<
    char,
> {
    if container.len() > 0 || doi.len() > 0 {
        "article"@
    } else if isbn.len() > 0 {
        "book"@
    } else {
        "web"@
    }
}

fn push_key(r: &mut Vec<Vec<char>>, k: &str)
    ensures
        text::views(final(r)@) == text::views(old(r)@).push(k@),
{
    let ghost before = r@;
    r.push(text::chars_of(k));
    assert(text::views(r@) =~= text::views(before).push(k@));
}

fn keys_of(a: &str, b: &str, c: &str, d: &str, e: &str, n: usize) -> (r: Vec<Vec<char>>)
    requires
        1 <= n <= 5,
    ensures
        text::views(r@) == seq![a@, b@, c@, d@, e@].take(n as int),
{
    let mut r: Vec<Vec<char>> = Vec::new();
    push_key(&mut r, a);
    if n > 1 {
        push_key(&mut r, b);
    }
    if n > 2 {
        push_key(&mut r, c);
    }
    if n > 3 {
        push_key(&mut r, d);
    }
    if n > 4 {
        push_key(&mut r, e);
    }
    assert(text::views(r@) =~= seq![a@, b@, c@, d@, e@].take(n as int));
    r
}

fn first_content_exec(tags: &Vec<(Vec<char>, Vec<char>)>, keys: &Vec<Vec<char>>) -> (r: Vec<
    char,
>)
    ensures
        r@ == first_content(pair_views(tags@), text::views(keys@)),
{
    let ghost all = pair_views(tags@);
    let mut k: usize = 0;
    assert(all.skip(0) =~= all);
    while k < tags.len()
        invariant
            k <= tags.len(),
            all == pair_views(tags@),
            first_content(all, text::views(keys@)) == first_content(
                all.skip(k as int),
                text::views(keys@),
            ),
        decreases tags.len() - k,
    {
        assert(all.skip(k as int)[0] == (tags@[k as int].0@, tags@[k as int].1@));
        assert(all.skip(k as int).drop_first() =~= all.skip(k + 1));
        if text::contains_key(keys, &tags[k].0) {
            let t = text::trim_chars(&tags[k].1);
            if t.len() > 0 {
                return t;
            }
        }
        k += 1;
    }
    Vec::new()
}

fn all_contents_exec(tags: &Vec<(Vec<char>, Vec<char>)>, keys: &Vec<Vec<char>>) -> (r: Vec<
    Vec<char>,
>)
    ensures
        text::views(r@) == all_contents(pair_views(tags@), text::views(keys@)),
{
    let ghost all = pair_views(tags@);
    let mut out: Vec<Vec<char>> = Vec::new();
    let mut k: usize = 0;
    assert(all.skip(0) =~= all);
    assert(text::views(out@) + all_contents(all, text::views(keys@)) =~= all_contents(
        all,
        text::views(keys@),
    ));
    while k < tags.len()
        invariant
            k <= tags.len(),
            all == pair_views(tags@),
            all_contents(all, text::views(keys@)) == text::views(out@) + all_contents(
                all.skip(k as int),
                text::views(keys@),
            ),
        decreases tags.len() - k,
    {
        assert(all.skip(k as int)[0] == (tags@[k as int].0@, tags@[k as int].1@));
        assert(all.skip(k as int).drop_first() =~= all.skip(k + 1));
        let ghost before = text::views(out@);
        if text::contains_key(keys, &tags[k].0) {
            let t = text::trim_chars(&tags[k].1);
            if t.len() > 0 {
                out.push(t);
                assert(text::views(out@) =~= before.push(t@));
                assert(before + (seq![t@] + all_contents(all.skip(k + 1), text::views(keys@)))
                    =~= before.push(t@) + all_contents(all.skip(k + 1), text::views(keys@)));
            }
        }
        k += 1;
    }
    assert(all.skip(k as int) =~= Seq::<(Seq<char>, Seq<char>)>::empty());
    assert(text::views(out@) + Seq::<Seq<char>>::empty() =~= text::views(out@));
    out
}

} // verus!
verus! {

// ---------------------------------------------------------------------------
// The distilled record
// ---------------------------------------------------------------------------

/// Citation fields distilled from a page's `<meta>` tags.
#[derive(Debug, PartialEq)]
pub struct WebMeta {
    pub title: String,
    /// Author names, ideally "Family, Given" (as Highwire emits them).
    pub authors: Vec<String>,
    /// Whatever precision the source date actually has: `YYYY`, `YYYY-MM`, or
    /// `YYYY-MM-DD`, all of which Hayagriva's date parser accepts directly.
    pub date: String,
    /// Journal / book / site title.
    pub container: String,
    pub publisher: String,
    pub doi: String,
    pub isbn: String,
    pub volume: String,
    pub issue: String,
    /// `firstpage-lastpage`, or just `firstpage` if there's no last page.
    pub pages: String,
    /// An ISO 639 language code, which is what Hayagriva's `language` field expects.
    pub language: String,
    /// A direct PDF link advertised by the page, if any (may be relative).
    pub pdf_url: String,
    /// Hayagriva entry type inferred from the tags.
    pub entry_type: String,
}

impl Default for WebMeta {
    fn default() -> (m: WebMeta)
        ensures
            m.title@.len() == 0,
            m.authors@.len() == 0,
            m.date@.len() == 0,
            m.container@.len() == 0,
            m.publisher@.len() == 0,
            m.doi@.len() == 0,
            m.isbn@.len() == 0,
            m.volume@.len() == 0,
            m.issue@.len() == 0,
            m.pages@.len() == 0,
            m.language@.len() == 0,
            m.pdf_url@.len() == 0,
            m.entry_type@.len() == 0,
    {
        WebMeta {
            title: String::new(),
            authors: Vec::new(),
            date: String::new(),
            container: String::new(),
            publisher: String::new(),
            doi: String::new(),
            isbn: String::new(),
            volume: String::new(),
            issue: String::new(),
            pages: String::new(),
            language: String::new(),
            pdf_url: String::new(),
            entry_type: String::new(),
        }
    }
}

fn string_list(v: &Vec<Vec<char>>) -> (r: Vec<String>)
    ensures
        text::string_views(r@) == text::views(v@),
{
    let mut r: Vec<String> = Vec::new();
    let mut k: usize = 0;
    while k < v.len()
        invariant
            k <= v.len(),
            r@.len() == k,
            text::string_views(r@) == text::views(v@).take(k as int),
        decreases v.len() - k,
    {
        let s = text::string_from(&v[k]);
        let ghost before = r@;
        r.push(s);
        assert forall|i: int| 0 <= i < k implies #[trigger] text::string_views(r@)[i]
            == text::views(v@)[i] by {
            assert(r@[i] == before[i]);
            assert(text::string_views(before)[i] == text::views(v@)[i]);
        }
        k += 1;
        assert(text::string_views(r@) =~= text::views(v@).take(k as int));
    }
    assert(text::views(v@).take(k as int) =~= text::views(v@));
    r
}

impl WebMeta {
    /// Build from a page's HTML.
    pub fn from_html(html: &str) -> (m: WebMeta)
        ensures
            m.title@ == first_content(page_tags(html@), title_keys()),
            text::string_views(m.authors@) == authors_of(page_tags(html@)),
            m.date@ == date_of(first_content(page_tags(html@), date_keys())),
            m.container@ == first_content(page_tags(html@), container_keys()),
            m.publisher@ == first_content(page_tags(html@), publisher_keys()),
            m.doi@ == doi_of(page_tags(html@)),
            m.isbn@ == first_content(page_tags(html@), one_key("citation_isbn"@)),
            m.volume@ == first_content(page_tags(html@), one_key("citation_volume"@)),
            m.issue@ == first_content(page_tags(html@), one_key("citation_issue"@)),
            m.pages@ == pages_of(page_tags(html@)),
            m.language@ == first_content(page_tags(html@), language_keys()),
            m.pdf_url@ == first_content(page_tags(html@), one_key("citation_pdf_url"@)),
            m.entry_type@ == entry_type_of(
                first_content(page_tags(html@), container_keys()),
                doi_of(page_tags(html@)),
                first_content(page_tags(html@), one_key("citation_isbn"@)),
            ),
            m.container@.len() > 0 || m.doi@.len() > 0 ==> m.entry_type@ == "article"@,
            m.container@.len() == 0 && m.doi@.len() == 0 && m.isbn@.len() > 0 ==> m.entry_type@
                == "book"@,
            m.container@.len() == 0 && m.doi@.len() == 0 && m.isbn@.len() == 0 ==> m.entry_type@
                == "web"@,
    {
        proof {
            law_page_entry_type(html@);
        }
        let c = text::chars_of(html);
        let tags = meta_tags_chars(&c);
        let ghost t = page_tags(html@);

        let keys = keys_of("citation_title", "dc.title", "og:title", "twitter:title", "", 4);
        assert(text::views(keys@) =~= title_keys());
        let title = first_content_exec(&tags, &keys);

        let keys = keys_of("citation_author", "dc.creator", "citation_authors", "", "", 3);
        assert(text::views(keys@) =~= author_keys());
        let all = all_contents_exec(&tags, &keys);
        let mut semicolon: Vec<char> = Vec::new();
        semicolon.push(';');
        assert(semicolon@ =~= seq![';']);
        let authors = if all.len() == 1 && text::contains_char(&all[0], ';') {
            text::split_trimmed(&all[0], &semicolon)
        } else {
            all
        };
        assert(text::views(authors@) == authors_of(t));

        let keys = keys_of(
            "citation_journal_title",
            "citation_conference_title",
            "citation_inbook_title",
            "og:site_name",
            "",
            4,
        );
        assert(text::views(keys@) =~= container_keys());
        let container = first_content_exec(&tags, &keys);

        let keys = keys_of("citation_publisher", "dc.publisher", "", "", "", 2);
        assert(text::views(keys@) =~= publisher_keys());
        let publisher = first_content_exec(&tags, &keys);

        let keys = keys_of("citation_isbn", "", "", "", "", 1);
        assert(text::views(keys@) =~= one_key("citation_isbn"@));
        let isbn = first_content_exec(&tags, &keys);

        let keys = keys_of("citation_volume", "", "", "", "", 1);
        assert(text::views(keys@) =~= one_key("citation_volume"@));
        let volume = first_content_exec(&tags, &keys);

        let keys = keys_of("citation_issue", "", "", "", "", 1);
        assert(text::views(keys@) =~= one_key("citation_issue"@));
        let issue = first_content_exec(&tags, &keys);

        let keys = keys_of("citation_language", "dc.language", "", "", "", 2);
        assert(text::views(keys@) =~= language_keys());
        let language = first_content_exec(&tags, &keys);

        let keys = keys_of("citation_pdf_url", "", "", "", "", 1);
        assert(text::views(keys@) =~= one_key("citation_pdf_url"@));
        let pdf_url = first_content_exec(&tags, &keys);

        // Pages.
        let keys = keys_of("citation_firstpage", "", "", "", "", 1);
        assert(text::views(keys@) =~= one_key("citation_firstpage"@));
        let first_page = first_content_exec(&tags, &keys);
        let keys = keys_of("citation_lastpage", "", "", "", "", 1);
        assert(text::views(keys@) =~= one_key("citation_lastpage"@));
        let last_page = first_content_exec(&tags, &keys);
        let pages = if first_page.len() > 0 && last_page.len() > 0 {
            let mut p = first_page;
            p.push('-');
            text::append_chars(&mut p, &last_page);
            p
        } else if first_page.len() > 0 {
            first_page
        } else {
            let keys = keys_of("citation_pages", "", "", "", "", 1);
            assert(text::views(keys@) =~= one_key("citation_pages"@));
            first_content_exec(&tags, &keys)
        };
        assert(pages@ == pages_of(t));

        // Whatever precision the source date has, not just its year.
        let keys = keys_of(
            "citation_publication_date",
            "citation_date",
            "citation_online_date",
            "dc.date",
            "article:published_time",
            5,
        );
        assert(text::views(keys@) =~= date_keys());
        let raw_date = first_content_exec(&tags, &keys);
        let date = date_chars(&raw_date);

        // A bare DOI identifier sometimes hides in dc.identifier.
        let keys = keys_of("citation_doi", "dc.identifier.doi", "", "", "", 2);
        assert(text::views(keys@) =~= doi_keys());
        let mut doi = first_content_exec(&tags, &keys);
        if doi.len() == 0 {
            let keys = keys_of("dc.identifier", "citation_id", "", "", "", 2);
            assert(text::views(keys@) =~= identifier_keys());
            let id = first_content_exec(&tags, &keys);
            let doi_prefix = text::chars_of("doi:");
            let ten = text::chars_of("10.");
            if text::matches_at_exec(&id, 0, &doi_prefix) {
                let rest = text::slice_chars(&id, doi_prefix.len(), id.len());
                doi = text::trim_chars(&rest);
            } else if text::matches_at_exec(&id, 0, &ten) && text::contains_char(&id, '/') {
                doi = id;
            }
        }
        assert(doi@ == doi_of(t));

        let entry_type = if container.len() > 0 || doi.len() > 0 {
            text::chars_of("article")
        } else if isbn.len() > 0 {
            text::chars_of("book")
        } else {
            text::chars_of("web")
        };

        WebMeta {
            title: text::string_from(&title),
            authors: string_list(&authors),
            date: text::string_from(&date),
            container: text::string_from(&container),
            publisher: text::string_from(&publisher),
            doi: text::string_from(&doi),
            isbn: text::string_from(&isbn),
            volume: text::string_from(&volume),
            issue: text::string_from(&issue),
            pages: text::string_from(&pages),
            language: text::string_from(&language),
            pdf_url: text::string_from(&pdf_url),
            entry_type: text::string_from(&entry_type),
        }
    }

    /// True when there is enough to make a meaningful entry.
    pub fn is_usable(&self) -> (b: bool)
        ensures
            b == (self.title@.len() > 0),
    {
        !self.title.as_str().is_empty()
    }
}

} // verus!
