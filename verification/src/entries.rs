//! The entries list: what the window knows of each entry once a library is open, and
//! which of them the list shows for the active collection and search query.

use vstd::prelude::*;

use crate::new_item;
use crate::text;

verus! {

/// One entry as the list shows it.
#[derive(Debug, Clone)]
pub struct EntrySummary {
    pub key: String,
    pub author: String,
    pub year: String,
    pub title: String,
    /// Whether a readable (present-on-disk) PDF attachment exists.
    pub has_pdf: bool,
    /// Whether a readable EPUB attachment exists.
    pub has_epub: bool,
    /// Comma-joined, for the optional Tags column.
    pub tags: String,
    /// `""`/"unread"/"reading"/"read", for the optional Status column.
    pub status: String,
    /// This entry's custom-field values, as `(field name, value)`, each name once.
    pub custom_fields: Vec<(String, String)>,
    /// Entry type, lowercased (e.g. "book", "article").
    pub entry_type: String,
    /// ISBN as authored on the entry, or empty if none.
    pub isbn: String,
}

/// The value of the first field named `name` in `fields`, if any.
pub open spec fn field_value(fields: Seq<(String, String)>, name: Seq<char>) -> Option<Seq<char>>
    decreases fields.len(),
{
    if fields.len() == 0 {
        None
    } else if fields[0].0@ == name {
        Some(fields[0].1@)
    } else {
        field_value(fields.drop_first(), name)
    }
}

impl EntrySummary {
    /// Updates the displayed title, author and year after an edit is saved.
    pub fn set_display(&mut self, title: String, author: String, year: String)
        ensures
            final(self).title == title,
            final(self).author == author,
            final(self).year == year,
            final(self).key == old(self).key,
            final(self).has_pdf == old(self).has_pdf,
            final(self).has_epub == old(self).has_epub,
            final(self).tags == old(self).tags,
            final(self).status == old(self).status,
            final(self).custom_fields == old(self).custom_fields,
            final(self).entry_type == old(self).entry_type,
            final(self).isbn == old(self).isbn,
    {
        self.title = title;
        self.author = author;
        self.year = year;
    }

    /// The value of custom field `name`, or empty when the entry has none.
    pub fn custom_field(&self, name: &str) -> (v: String)
        ensures
            v@ == match field_value(self.custom_fields@, name@) {
                Some(x) => x,
                None => Seq::<char>::empty(),
            },
    {
        let n = self.custom_fields.len();
        let mut i: usize = 0;
        assert(self.custom_fields@.skip(0) =~= self.custom_fields@);
        while i < n
            invariant
                i <= n == self.custom_fields@.len(),
                field_value(self.custom_fields@, name@) == field_value(
                    self.custom_fields@.skip(i as int),
                    name@,
                ),
            decreases n - i,
        {
            assert(self.custom_fields@.skip(i as int).drop_first() =~= self.custom_fields@.skip(
                i + 1,
            ));
            if text::str_eq(self.custom_fields[i].0.as_str(), name) {
                return text::owned(self.custom_fields[i].1.as_str());
            }
            i += 1;
        }
        String::new()
    }
}

/// Where a reader is with an entry, as its note records it.
#[derive(Debug, Clone, Copy, PartialEq, Eq, Structural)]
pub enum ReadStatus {
    Unread,
    Reading,
    Read,
}

/// The Status column's text for a note's reading status (empty when it records none).
pub fn status_text(s: Option<ReadStatus>) -> (r: &'static str)
    ensures
        r@ == match s {
            Some(ReadStatus::Unread) => "unread"@,
            Some(ReadStatus::Reading) => "reading"@,
            Some(ReadStatus::Read) => "read"@,
            None => ""@,
        },
{
    match s {
        Some(ReadStatus::Unread) => "unread",
        Some(ReadStatus::Reading) => "reading",
        Some(ReadStatus::Read) => "read",
        None => "",
    }
}

/// The Tags column's text: a note's tags joined with ", ".
pub fn tags_text(tags: &Vec<String>) -> (r: String)
    ensures
        r@ == new_item::joined_with(text::string_views(tags@), ", "@),
{
    new_item::join_names(tags, ", ")
}

/// The Typst citation of the entry keyed `key`: `@key`.
pub fn typst_citation(key: &str) -> (r: String)
    ensures
        r@ == "@"@ + key@,
{
    let mut r = text::owned("@");
    text::push_str(&mut r, key);
    r
}

// ---------------------------------------------------------------------------
// The visible set
// ---------------------------------------------------------------------------

/// The index of the last entry whose key is `k`: the key-to-index table is built by
/// inserting every entry in order, so a later entry with the same key replaces an earlier.
pub open spec fn key_index(es: Seq<EntrySummary>, k: Seq<char>) -> Option<usize>
    decreases es.len(),
{
    if es.len() == 0 {
        None
    } else if es.last().key@ == k {
        Some((es.len() - 1) as usize)
    } else {
        key_index(es.drop_last(), k)
    }
}

/// The indices of the entries keyed by `ks`, in the order of `ks`; keys that name no
/// entry are passed over.
pub open spec fn lookup_keys(es: Seq<EntrySummary>, ks: Seq<Seq<char>>) -> Seq<usize>
    decreases ks.len(),
{
    if ks.len() == 0 {
        seq![]
    } else {
        let rest = lookup_keys(es, ks.drop_last());
        match key_index(es, ks.last()) {
            Some(i) => rest.push(i),
            None => rest,
        }
    }
}

/// Every index of `n` entries, ascending.
pub open spec fn all_indices(n: nat) -> Seq<usize> {
    Seq::new(n, |i: int| i as usize)
}

/// The entries the active collection holds, in collection order (`coll` is the
/// collection's key list), or every entry when no collection is active.
pub open spec fn base_of(es: Seq<EntrySummary>, coll: Option<Seq<Seq<char>>>) -> Seq<usize> {
    match coll {
        None => all_indices(es.len()),
        Some(ks) => lookup_keys(es, ks),
    }
}

/// The substring search's test: the lowercased title, author or key contains `q`.
pub open spec fn text_match(e: EntrySummary, q: Seq<char>) -> bool {
    ||| text::has_substring(text::lower(e.title@), q)
    ||| text::has_substring(text::lower(e.author@), q)
    ||| text::has_substring(text::lower(e.key@), q)
}

/// The indices below `n` of the entries the substring search matches, ascending.
pub open spec fn text_hits(es: Seq<EntrySummary>, q: Seq<char>, n: int) -> Seq<usize>
    decreases n,
{
    if n <= 0 {
        seq![]
    } else {
        let rest = text_hits(es, q, n - 1);
        if text_match(es[n - 1], q) {
            rest.push((n - 1) as usize)
        } else {
            rest
        }
    }
}

/// `xs` without the indices `base` lacks, order kept.
pub open spec fn keep_in(xs: Seq<usize>, base: Seq<usize>) -> Seq<usize>
    decreases xs.len(),
{
    if xs.len() == 0 {
        seq![]
    } else {
        let rest = keep_in(xs.drop_last(), base);
        if base.contains(xs.last()) {
            rest.push(xs.last())
        } else {
            rest
        }
    }
}

/// The list's rows. A blank query (after trimming) shows the base set. Otherwise the
/// search decides, limited to the base set: the search index's hits (`hits`, keys in
/// rank order) where the index answered, else the substring search with the lowercased
/// query, in entry order.
pub open spec fn visible(
    es: Seq<EntrySummary>,
    coll: Option<Seq<Seq<char>>>,
    query: Seq<char>,
    hits: Option<Seq<Seq<char>>>,
) -> Seq<usize> {
    let q = text::trim(query);
    let base = base_of(es, coll);
    if q.len() == 0 {
        base
    } else {
        let matched = match hits {
            Some(hs) => lookup_keys(es, hs),
            None => text_hits(es, text::lower(q), es.len() as int),
        };
        keep_in(matched, base)
    }
}

/// The views of an optional key list.
pub open spec fn opt_views(v: Option<Vec<String>>) -> Option<Seq<Seq<char>>> {
    match v {
        Some(ks) => Some(text::string_views(ks@)),
        None => None,
    }
}

/// The index of the last entry keyed `key`.
pub fn index_of_key(entries: &Vec<EntrySummary>, key: &str) -> (r: Option<usize>)
    ensures
        r == key_index(entries@, key@),
{
    let mut n = entries.len();
    assert(entries@.take(n as int) =~= entries@);
    while n > 0
        invariant
            n <= entries@.len(),
            key_index(entries@, key@) == key_index(entries@.take(n as int), key@),
        decreases n,
    {
        let ghost t = entries@.take(n as int);
        assert(t.drop_last() =~= entries@.take(n - 1));
        if text::str_eq(entries[n - 1].key.as_str(), key) {
            return Some(n - 1);
        }
        n -= 1;
    }
    None
}

/// The indices of the entries keyed by `keys`, in that order.
pub fn lookup_all(entries: &Vec<EntrySummary>, keys: &Vec<String>) -> (r: Vec<usize>)
    ensures
        r@ == lookup_keys(entries@, text::string_views(keys@)),
{
    let ghost ks = text::string_views(keys@);
    let mut out: Vec<usize> = Vec::new();
    let mut i: usize = 0;
    assert(ks.take(0) =~= Seq::<Seq<char>>::empty());
    while i < keys.len()
        invariant
            i <= keys@.len(),
            ks == text::string_views(keys@),
            out@ == lookup_keys(entries@, ks.take(i as int)),
        decreases keys.len() - i,
    {
        assert(ks.take(i + 1).drop_last() =~= ks.take(i as int));
        assert(ks.take(i + 1).last() == keys@[i as int]@);
        if let Some(k) = index_of_key(entries, keys[i].as_str()) {
            out.push(k);
        }
        i += 1;
    }
    assert(ks.take(keys.len() as int) =~= ks);
    out
}

/// The base set: the active collection's entries, or all of them.
pub fn base_indices(entries: &Vec<EntrySummary>, collection: &Option<Vec<String>>) -> (r: Vec<
    usize,
>)
    ensures
        r@ == base_of(entries@, opt_views(*collection)),
{
    match collection {
        Some(keys) => lookup_all(entries, keys),
        None => {
            let mut out: Vec<usize> = Vec::new();
            let mut i: usize = 0;
            while i < entries.len()
                invariant
                    i <= entries@.len(),
                    out@ =~= all_indices(i as nat),
                decreases entries.len() - i,
            {
                out.push(i);
                i += 1;
            }
            out
        },
    }
}

/// Whether `c` contains `pat` somewhere.
fn contains_text(c: &Vec<char>, pat: &Vec<char>) -> (b: bool)
    ensures
        b == text::has_substring(c@, pat@),
{
    text::find_from_exec(c, pat, 0).is_some()
}

/// The substring search's test on one entry; `q` is the lowercased query.
pub fn entry_matches(e: &EntrySummary, q: &str) -> (b: bool)
    ensures
        b == text_match(*e, q@),
{
    let pat = text::chars_of(q);
    let title = text::chars_of(text::to_lowercase(e.title.as_str()).as_str());
    if contains_text(&title, &pat) {
        return true;
    }
    let author = text::chars_of(text::to_lowercase(e.author.as_str()).as_str());
    if contains_text(&author, &pat) {
        return true;
    }
    let key = text::chars_of(text::to_lowercase(e.key.as_str()).as_str());
    contains_text(&key, &pat)
}

/// The substring search over all entries; `q` is the lowercased query.
pub fn search_text(entries: &Vec<EntrySummary>, q: &str) -> (r: Vec<usize>)
    ensures
        r@ == text_hits(entries@, q@, entries@.len() as int),
{
    let mut out: Vec<usize> = Vec::new();
    let mut i: usize = 0;
    while i < entries.len()
        invariant
            i <= entries@.len(),
            out@ == text_hits(entries@, q@, i as int),
        decreases entries.len() - i,
    {
        if entry_matches(&entries[i], q) {
            out.push(i);
        }
        i += 1;
    }
    out
}

/// Whether `v` holds `x`.
fn holds(v: &Vec<usize>, x: usize) -> (b: bool)
    ensures
        b == v@.contains(x),
{
    let mut i: usize = 0;
    while i < v.len()
        invariant
            i <= v@.len(),
            forall|j: int| 0 <= j < i ==> v@[j] != x,
        decreases v.len() - i,
    {
        if v[i] == x {
            assert(v@[i as int] == x);
            return true;
        }
        i += 1;
    }
    false
}

/// `xs` without what `base` lacks.
pub fn keep_within(xs: &Vec<usize>, base: &Vec<usize>) -> (r: Vec<usize>)
    ensures
        r@ == keep_in(xs@, base@),
{
    let mut out: Vec<usize> = Vec::new();
    let mut i: usize = 0;
    assert(xs@.take(0) =~= Seq::<usize>::empty());
    while i < xs.len()
        invariant
            i <= xs@.len(),
            out@ == keep_in(xs@.take(i as int), base@),
        decreases xs.len() - i,
    {
        assert(xs@.take(i + 1).drop_last() =~= xs@.take(i as int));
        assert(xs@.take(i + 1).last() == xs@[i as int]);
        if holds(base, xs[i]) {
            out.push(xs[i]);
        }
        i += 1;
    }
    assert(xs@.take(xs.len() as int) =~= xs@);
    out
}

/// The rows the entries list shows, as indices into `entries`, in display order.
///
/// `collection` is the key list of the active collection (`None` when no collection is
/// active); `hits` is what the search index answered for the trimmed query, as keys in
/// rank order (`None` where there is no index or it could not take the query).
pub fn visible_entries(
    entries: &Vec<EntrySummary>,
    collection: &Option<Vec<String>>,
    query: &str,
    hits: &Option<Vec<String>>,
) -> (r: Vec<usize>)
    ensures
        r@ == visible(entries@, opt_views(*collection), query@, opt_views(*hits)),
{
    let base = base_indices(entries, collection);
    let qc = text::trim_chars(&text::chars_of(query));
    if qc.len() == 0 {
        return base;
    }
    let matched = match hits {
        Some(keys) => lookup_all(entries, keys),
        None => {
            let q = text::string_from(&qc);
            let lower = text::to_lowercase(q.as_str());
            search_text(entries, lower.as_str())
        },
    };
    keep_within(&matched, &base)
}

// ---------------------------------------------------------------------------
// Laws of the visible set
// ---------------------------------------------------------------------------

proof fn lemma_key_index_bound(es: Seq<EntrySummary>, k: Seq<char>)
    requires
        es.len() <= usize::MAX,
    ensures
        key_index(es, k) matches Some(i) ==> i < es.len() && es[i as int].key@ == k,
    decreases es.len(),
{
    if es.len() > 0 && es.last().key@ != k {
        lemma_key_index_bound(es.drop_last(), k);
        if let Some(i) = key_index(es.drop_last(), k) {
            assert(es.drop_last()[i as int] == es[i as int]);
        }
    }
}

proof fn lemma_lookup_bound(es: Seq<EntrySummary>, ks: Seq<Seq<char>>)
    requires
        es.len() <= usize::MAX,
    ensures
        forall|j: int| 0 <= j < lookup_keys(es, ks).len() ==> #[trigger] lookup_keys(es, ks)[j]
            < es.len(),
    decreases ks.len(),
{
    if ks.len() > 0 {
        let rest = lookup_keys(es, ks.drop_last());
        lemma_lookup_bound(es, ks.drop_last());
        lemma_key_index_bound(es, ks.last());
        assert forall|j: int| 0 <= j < lookup_keys(es, ks).len() implies #[trigger] lookup_keys(
            es,
            ks,
        )[j] < es.len() by {
            if j < rest.len() {
                assert(lookup_keys(es, ks)[j] == rest[j]);
            }
        }
    }
}

proof fn lemma_keep_in(xs: Seq<usize>, base: Seq<usize>)
    ensures
        forall|j: int| 0 <= j < keep_in(xs, base).len() ==> base.contains(
            #[trigger] keep_in(xs, base)[j],
        ),
    decreases xs.len(),
{
    if xs.len() > 0 {
        let rest = keep_in(xs.drop_last(), base);
        lemma_keep_in(xs.drop_last(), base);
        assert forall|j: int| 0 <= j < keep_in(xs, base).len() implies base.contains(
            #[trigger] keep_in(xs, base)[j],
        ) by {
            if j < rest.len() {
                assert(keep_in(xs, base)[j] == rest[j]);
            }
        }
    }
}

/// Every row shown belongs to the base set: a search never reaches outside the active
/// collection.
pub proof fn law_visible_within_base(
    es: Seq<EntrySummary>,
    coll: Option<Seq<Seq<char>>>,
    query: Seq<char>,
    hits: Option<Seq<Seq<char>>>,
)
    ensures
        forall|j: int|
            0 <= j < visible(es, coll, query, hits).len() ==> base_of(es, coll).contains(
                #[trigger] visible(es, coll, query, hits)[j],
            ),
{
    let base = base_of(es, coll);
    if text::trim(query).len() != 0 {
        let matched = match hits {
            Some(hs) => lookup_keys(es, hs),
            None => text_hits(es, text::lower(text::trim(query)), es.len() as int),
        };
        lemma_keep_in(matched, base);
    } else {
        assert forall|j: int| 0 <= j < base.len() implies base.contains(#[trigger] base[j]) by {}
    }
}

/// Every row shown is an entry of the library.
pub proof fn law_visible_in_range(
    es: Seq<EntrySummary>,
    coll: Option<Seq<Seq<char>>>,
    query: Seq<char>,
    hits: Option<Seq<Seq<char>>>,
)
    requires
        es.len() <= usize::MAX,
    ensures
        forall|j: int|
            0 <= j < visible(es, coll, query, hits).len() ==> #[trigger] visible(
                es,
                coll,
                query,
                hits,
            )[j] < es.len(),
{
    law_visible_within_base(es, coll, query, hits);
    let base = base_of(es, coll);
    match coll {
        Some(ks) => lemma_lookup_bound(es, ks),
        None => {},
    }
    assert forall|j: int| 0 <= j < visible(es, coll, query, hits).len() implies #[trigger] visible(
        es,
        coll,
        query,
        hits,
    )[j] < es.len() by {
        let x = visible(es, coll, query, hits)[j];
        assert(base.contains(x));
        let m = choose|m: int| 0 <= m < base.len() && base[m] == x;
        assert(base[m] < es.len());
    }
}

/// A blank query (white space only) filters nothing: the list shows the whole active
/// collection, in collection order, or every entry in load order.
pub proof fn law_blank_query_shows_base(
    es: Seq<EntrySummary>,
    coll: Option<Seq<Seq<char>>>,
    query: Seq<char>,
    hits: Option<Seq<Seq<char>>>,
)
    requires
        text::trim(query).len() == 0,
    ensures
        visible(es, coll, query, hits) == base_of(es, coll),
        coll is None ==> visible(es, coll, query, hits) == all_indices(es.len()),
{
}

} // verus!
