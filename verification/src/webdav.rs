//! URL construction for backing a library up to a WebDAV server (Nextcloud, pCloud, ...):
//! percent-encoded path segments, the collections to create above a file, and which
//! answers to a collection-creation request count as success. The requests themselves are
//! sent by the application.

use vstd::prelude::*;

use crate::text;

verus! {

/// A byte that stays as it is in a path segment: ASCII letters, digits, `-`, `_`, `.`, `~`.
pub open spec fn unreserved(b: u8) -> bool {
    ||| (65 <= b <= 90)
    ||| (97 <= b <= 122)
    ||| (48 <= b <= 57)
    ||| b == 45
    ||| b == 95
    ||| b == 46
    ||| b == 126
}

/// The upper-case hexadecimal digit for `n` (below sixteen).
pub open spec fn hex_digit(n: int) -> char {
    if n < 10 {
        (('0' as int) + n) as char
    } else {
        (('A' as int) + n - 10) as char
    }
}

/// One byte of a segment: itself when unreserved, else `%` and two upper-case hex digits.
pub open spec fn encode_byte(b: u8) -> Seq<char> {
    if unreserved(b) {
        seq![b as char]
    } else {
        seq!['%', hex_digit(b as int / 16), hex_digit(b as int % 16)]
    }
}

/// The percent-encoding of a byte string, byte by byte.
pub open spec fn percent_encode(bytes: Seq<u8>) -> Seq<char>
    decreases bytes.len(),
{
    if bytes.len() == 0 {
        seq![]
    } else {
        percent_encode(bytes.drop_last()) + encode_byte(bytes.last())
    }
}

/// The encoding of a path segment given as text: of its UTF-8 bytes.
pub open spec fn encoded_segment(seg: Seq<char>) -> Seq<char> {
    percent_encode(vstd::utf8::encode_utf8(seg))
}

fn hex_exec(n: u8) -> (c: char)
    requires
        n < 16,
    ensures
        c == hex_digit(n as int),
{
    if n < 10 {
        (48 + n) as char
    } else {
        (55 + n) as char
    }
}

/// A character an encoded segment may hold: an ASCII letter or digit, `-`, `_`, `.`, `~`
/// or `%`.
pub open spec fn safe_char(c: char) -> bool {
    ||| ('A' <= c && c <= 'Z')
    ||| ('a' <= c && c <= 'z')
    ||| ('0' <= c && c <= '9')
    ||| c == '-'
    ||| c == '_'
    ||| c == '.'
    ||| c == '~'
    ||| c == '%'
}

/// The value of the hexadecimal digit `c`.
pub open spec fn hex_value(c: char) -> int {
    if '0' <= c && c <= '9' {
        c as int - '0' as int
    } else {
        c as int - 'A' as int + 10
    }
}

/// The bytes a percent-encoded text stands for: `%XX` is the byte `XX`, any other
/// character its own code.
pub open spec fn percent_decode(s: Seq<char>) -> Seq<u8>
    decreases s.len(),
{
    if s.len() == 0 {
        seq![]
    } else if s[0] == '%' && s.len() >= 3 {
        seq![(16 * hex_value(s[1]) + hex_value(s[2])) as u8] + percent_decode(s.skip(3))
    } else {
        seq![s[0] as u8] + percent_decode(s.skip(1))
    }
}

proof fn lemma_encode_byte_safe(b: u8)
    ensures
        forall|i: int| 0 <= i < encode_byte(b).len() ==> safe_char(#[trigger] encode_byte(b)[i]),
{
}

proof fn lemma_encode_byte_decodes(b: u8, rest: Seq<char>)
    ensures
        percent_decode(encode_byte(b) + rest) == seq![b] + percent_decode(rest),
{
    let e = encode_byte(b) + rest;
    if unreserved(b) {
        assert(e[0] == b as char);
        assert(e.skip(1) =~= rest);
        assert((b as char) as u8 == b);
    } else {
        assert(e[0] == '%');
        assert(e.skip(3) =~= rest);
        let hi = b as int / 16;
        let lo = b as int % 16;
        assert(hex_value(hex_digit(hi)) == hi);
        assert(hex_value(hex_digit(lo)) == lo);
        assert(16 * hi + lo == b as int);
    }
}

proof fn lemma_encode_front(b: u8, rest: Seq<u8>)
    ensures
        percent_encode(seq![b] + rest) == encode_byte(b) + percent_encode(rest),
    decreases rest.len(),
{
    if rest.len() == 0 {
        assert((seq![b] + rest).drop_last() =~= Seq::<u8>::empty());
        assert(encode_byte(b) + percent_encode(rest) =~= encode_byte(b));
        assert(percent_encode(Seq::<u8>::empty()) + encode_byte(b) =~= encode_byte(b));
    } else {
        lemma_encode_front(b, rest.drop_last());
        assert((seq![b] + rest).drop_last() =~= seq![b] + rest.drop_last());
        assert((seq![b] + rest).last() == rest.last());
        assert(encode_byte(b) + percent_encode(rest.drop_last()) + encode_byte(rest.last())
            =~= encode_byte(b) + percent_encode(rest));
    }
}

/// Percent-encoding loses nothing: decoding gives the bytes back.
pub proof fn law_encoding_decodes(bytes: Seq<u8>)
    ensures
        percent_decode(percent_encode(bytes)) == bytes,
    decreases bytes.len(),
{
    if bytes.len() > 0 {
        let rest = bytes.drop_first();
        assert(bytes =~= seq![bytes[0]] + rest);
        lemma_encode_front(bytes[0], rest);
        lemma_encode_byte_decodes(bytes[0], percent_encode(rest));
        law_encoding_decodes(rest);
    } else {
        assert(percent_encode(bytes) =~= Seq::<char>::empty());
    }
}

/// An encoded segment holds only ASCII letters, digits, `-`, `_`, `.`, `~` and `%`; in
/// particular never a `/`, so it stays one segment.
pub proof fn law_encoding_is_url_safe(bytes: Seq<u8>)
    ensures
        forall|i: int| 0 <= i < percent_encode(bytes).len() ==> safe_char(
            #[trigger] percent_encode(bytes)[i],
        ),
    decreases bytes.len(),
{
    if bytes.len() > 0 {
        law_encoding_is_url_safe(bytes.drop_last());
        lemma_encode_byte_safe(bytes.last());
        let a = percent_encode(bytes.drop_last());
        let b = encode_byte(bytes.last());
        assert forall|i: int| 0 <= i < percent_encode(bytes).len() implies safe_char(
            #[trigger] percent_encode(bytes)[i],
        ) by {
            if i < a.len() {
                assert(percent_encode(bytes)[i] == a[i]);
            } else {
                assert(percent_encode(bytes)[i] == b[i - a.len()]);
            }
        }
    }
}

/// Different segments encode differently: the URL of a file names that file alone.
pub proof fn law_encoding_is_injective(a: Seq<char>, b: Seq<char>)
    requires
        encoded_segment(a) == encoded_segment(b),
    ensures
        a == b,
{
    law_encoding_decodes(vstd::utf8::encode_utf8(a));
    law_encoding_decodes(vstd::utf8::encode_utf8(b));
    vstd::utf8::encode_utf8_decode_utf8(a);
    vstd::utf8::encode_utf8_decode_utf8(b);
}

/// An upper-case hexadecimal digit.
pub open spec fn upper_hex(c: char) -> bool {
    ('0' <= c && c <= '9') || ('A' <= c && c <= 'F')
}

/// Every `%` of an encoding opens an escape: two upper-case hexadecimal digits follow it.
pub proof fn law_encoding_escapes_are_hex(bytes: Seq<u8>)
    ensures
        forall|i: int|
            0 <= i < percent_encode(bytes).len() && #[trigger] percent_encode(bytes)[i] == '%'
                ==> i + 2 < percent_encode(bytes).len() && upper_hex(percent_encode(bytes)[i + 1])
                && upper_hex(percent_encode(bytes)[i + 2]),
    decreases bytes.len(),
{
    if bytes.len() > 0 {
        law_encoding_escapes_are_hex(bytes.drop_last());
        let a = percent_encode(bytes.drop_last());
        let b = bytes.last();
        let e = encode_byte(b);
        let r = percent_encode(bytes);
        assert(r == a + e);
        let hi = b as int / 16;
        let lo = b as int % 16;
        assert(upper_hex(hex_digit(hi)) && upper_hex(hex_digit(lo)));
        assert(hex_digit(hi) != '%' && hex_digit(lo) != '%');
        assert forall|i: int| 0 <= i < r.len() && #[trigger] r[i] == '%' implies i + 2 < r.len()
            && upper_hex(r[i + 1]) && upper_hex(r[i + 2]) by {
            if i < a.len() {
                assert(r[i] == a[i]);
                assert(r[i + 1] == a[i + 1]);
                assert(r[i + 2] == a[i + 2]);
            } else {
                assert(r[i] == e[i - a.len()]);
                if unreserved(b) {
                    assert(e[0] == b as char);
                    assert(b != 37);
                } else {
                    assert(i == a.len());
                    assert(r[i + 1] == e[1]);
                    assert(r[i + 2] == e[2]);
                }
            }
        }
    }
}

proof fn lemma_encode_concat(x: Seq<u8>, y: Seq<u8>)
    ensures
        percent_encode(x + y) == percent_encode(x) + percent_encode(y),
    decreases y.len(),
{
    if y.len() == 0 {
        assert(x + y =~= x);
        assert(percent_encode(x) + percent_encode(y) =~= percent_encode(x));
    } else {
        lemma_encode_concat(x, y.drop_last());
        assert((x + y).drop_last() =~= x + y.drop_last());
        assert((x + y).last() == y.last());
        assert(percent_encode(x) + percent_encode(y.drop_last()) + encode_byte(y.last())
            =~= percent_encode(x) + percent_encode(y));
    }
}

proof fn lemma_encode_len(bytes: Seq<u8>)
    ensures
        percent_encode(bytes).len() >= bytes.len(),
        percent_encode(bytes).len() == bytes.len() ==> forall|i: int|
            0 <= i < bytes.len() ==> unreserved(#[trigger] bytes[i]),
    decreases bytes.len(),
{
    if bytes.len() > 0 {
        let init = bytes.drop_last();
        lemma_encode_len(init);
        if percent_encode(bytes).len() == bytes.len() {
            assert forall|i: int| 0 <= i < bytes.len() implies unreserved(#[trigger] bytes[i]) by {
                if i < init.len() {
                    assert(bytes[i] == init[i]);
                }
            }
        }
    }
}

proof fn lemma_utf8_len(seg: Seq<char>)
    ensures
        vstd::utf8::encode_utf8(seg).len() >= seg.len(),
    decreases seg.len(),
{
    if seg.len() > 0 {
        lemma_utf8_len(seg.drop_first());
    }
}

proof fn lemma_wide_leading_bytes(v: u32)
    ensures
        (0xC0u8 | ((v >> 6) & 0x1F) as u8) >= 0xC0,
        (0xE0u8 | ((v >> 12) & 0x0F) as u8) >= 0xC0,
        (0xF0u8 | ((v >> 18) & 0x7) as u8) >= 0xC0,
        v <= 0x7F ==> (v & 0x7F) as u8 == v,
{
    assert((0xC0u8 | ((v >> 6) & 0x1F) as u8) >= 0xC0) by (bit_vector);
    assert((0xE0u8 | ((v >> 12) & 0x0F) as u8) >= 0xC0) by (bit_vector);
    assert((0xF0u8 | ((v >> 18) & 0x7) as u8) >= 0xC0) by (bit_vector);
    assert(v <= 0x7F ==> (v & 0x7F) as u8 == v) by (bit_vector);
}

proof fn lemma_all_unreserved_encodes_to_itself(seg: Seq<char>)
    requires
        forall|i: int|
            0 <= i < vstd::utf8::encode_utf8(seg).len() ==> unreserved(
                #[trigger] vstd::utf8::encode_utf8(seg)[i],
            ),
    ensures
        encoded_segment(seg) == seg,
    decreases seg.len(),
{
    if seg.len() == 0 {
        assert(encoded_segment(seg) =~= seg);
    } else {
        let c = seg[0];
        let v = c as u32;
        let rest = seg.drop_first();
        let head = vstd::utf8::encode_scalar(v);
        let tail = vstd::utf8::encode_utf8(rest);
        let bytes = vstd::utf8::encode_utf8(seg);
        assert(bytes == head + tail);
        lemma_wide_leading_bytes(v);
        assert(unreserved(bytes[0]));
        assert(bytes[0] == head[0]);
        assert(vstd::utf8::has_width_1_encoding(v));
        assert(head == seq![v as u8]);
        assert forall|i: int| 0 <= i < tail.len() implies unreserved(#[trigger] tail[i]) by {
            assert(bytes[i + 1] == tail[i]);
        }
        lemma_all_unreserved_encodes_to_itself(rest);
        lemma_encode_concat(head, tail);
        assert(unreserved(v as u8));
        assert(percent_encode(head) =~= encode_byte(v as u8)) by {
            assert(head.drop_last() =~= Seq::<u8>::empty());
            assert(percent_encode(Seq::<u8>::empty()) + encode_byte(v as u8) =~= encode_byte(
                v as u8,
            ));
        }
        assert((v as u8) as int == v as int);
        vstd::utf8::char_u32_cast(c, v);
        assert(((v as u8) as char) == c);
        assert(encoded_segment(seg) =~= seq![c] + rest);
        assert(seq![c] + rest =~= seg);
    }
}

/// A segment is left exactly as it is by the encoding when, and only when, every byte of
/// its UTF-8 encoding is an ASCII letter or digit, `-`, `_`, `.` or `~`.
pub proof fn law_encoding_keeps_exactly_unreserved(seg: Seq<char>)
    ensures
        encoded_segment(seg) == seg <==> forall|i: int|
            0 <= i < vstd::utf8::encode_utf8(seg).len() ==> unreserved(
                #[trigger] vstd::utf8::encode_utf8(seg)[i],
            ),
{
    let bytes = vstd::utf8::encode_utf8(seg);
    if forall|i: int| 0 <= i < bytes.len() ==> unreserved(#[trigger] bytes[i]) {
        lemma_all_unreserved_encodes_to_itself(seg);
    }
    if encoded_segment(seg) == seg {
        lemma_encode_len(bytes);
        lemma_utf8_len(seg);
    }
}

fn encode_bytes_into(out: &mut Vec<char>, bytes: &[u8])
    ensures
        final(out)@ == old(out)@ + percent_encode(bytes@),
{
    let ghost start = out@;
    let mut i: usize = 0;
    assert(bytes@.take(0) =~= Seq::<u8>::empty());
    while i < bytes.len()
        invariant
            i <= bytes.len(),
            out@ == start + percent_encode(bytes@.take(i as int)),
        decreases bytes.len() - i,
    {
        let b = bytes[i];
        let ghost prev = out@;
        if (65 <= b && b <= 90) || (97 <= b && b <= 122) || (48 <= b && b <= 57) || b == 45 || b
            == 95 || b == 46 || b == 126 {
            out.push(b as char);
        } else {
            out.push('%');
            out.push(hex_exec(b / 16));
            out.push(hex_exec(b % 16));
        }
        assert(out@ =~= prev + encode_byte(b));
        assert(bytes@.take(i + 1).drop_last() =~= bytes@.take(i as int));
        i += 1;
    }
    assert(bytes@.take(bytes.len() as int) =~= bytes@);
}

/// Percent-encode the characters that matter in a path segment: every byte of its UTF-8
/// encoding other than ASCII letters, digits, `-`, `_`, `.` and `~` becomes `%XX`.
pub fn encode_segment(seg: &str) -> (r: String)
    ensures
        r@ == encoded_segment(seg@),
{
    let mut out: Vec<char> = Vec::new();
    encode_bytes_into(&mut out, seg.as_bytes());
    text::string_from(&out)
}

/// The same percent-encoding, for a query-string value.
pub fn urlencode(s: &str) -> (r: String)
    ensures
        r@ == encoded_segment(s@),
{
    encode_segment(s)
}

/// `base` followed, for each non-empty segment, by `/` and the segment encoded.
pub open spec fn joined(base: Seq<char>, segs: Seq<Seq<char>>) -> Seq<char>
    decreases segs.len(),
{
    if segs.len() == 0 {
        base
    } else {
        let prev = joined(base, segs.drop_last());
        if segs.last().len() == 0 {
            prev
        } else {
            prev + seq!['/'] + encoded_segment(segs.last())
        }
    }
}

/// The URLs of the collections above a file whose parent folders are `segs`, top-down:
/// one per non-empty segment, each the URL of the one before plus that segment.
pub open spec fn collections(base: Seq<char>, segs: Seq<Seq<char>>) -> Seq<Seq<char>>
    decreases segs.len(),
{
    if segs.len() == 0 {
        seq![]
    } else {
        let prev = collections(base, segs.drop_last());
        if segs.last().len() == 0 {
            prev
        } else {
            prev.push(joined(base, segs))
        }
    }
}

fn join_segment(url: &mut String, seg: &str)
    ensures
        seg@.len() == 0 ==> final(url)@ == old(url)@,
        seg@.len() > 0 ==> final(url)@ == old(url)@ + seq!['/'] + encoded_segment(seg@),
{
    if !seg.is_empty() {
        text::push_char(url, '/');
        let e = encode_segment(seg);
        text::push_str(url, e.as_str());
    }
}

/// The URL of the file at the relative path `components` under the collection `base`.
pub fn rel_url(base: &str, components: &Vec<String>) -> (r: String)
    ensures
        r@ == joined(base@, text::string_views(components@)),
{
    let mut url = text::owned(base);
    let ghost segs = text::string_views(components@);
    let mut k: usize = 0;
    assert(segs.take(0) =~= Seq::<Seq<char>>::empty());
    while k < components.len()
        invariant
            k <= components.len(),
            segs == text::string_views(components@),
            url@ == joined(base@, segs.take(k as int)),
        decreases components.len() - k,
    {
        join_segment(&mut url, components[k].as_str());
        assert(segs.take(k + 1).drop_last() =~= segs.take(k as int));
        assert(segs.take(k + 1).last() == components@[k as int]@);
        k += 1;
    }
    assert(segs.take(components.len() as int) =~= segs);
    url
}

/// The collections to create, top-down, above a file whose parent folders are `parents`.
pub fn collection_urls(base: &str, parents: &Vec<String>) -> (r: Vec<String>)
    ensures
        text::string_views(r@) == collections(base@, text::string_views(parents@)),
{
    let mut url = text::owned(base);
    let mut out: Vec<String> = Vec::new();
    let ghost segs = text::string_views(parents@);
    let mut k: usize = 0;
    assert(segs.take(0) =~= Seq::<Seq<char>>::empty());
    assert(text::string_views(out@) =~= Seq::<Seq<char>>::empty());
    while k < parents.len()
        invariant
            k <= parents.len(),
            segs == text::string_views(parents@),
            url@ == joined(base@, segs.take(k as int)),
            text::string_views(out@) == collections(base@, segs.take(k as int)),
        decreases parents.len() - k,
    {
        let ghost prefix = segs.take(k + 1);
        assert(prefix.drop_last() =~= segs.take(k as int));
        assert(prefix.last() == parents@[k as int]@);
        join_segment(&mut url, parents[k].as_str());
        if !parents[k].as_str().is_empty() {
            let ghost before = text::string_views(out@);
            out.push(text::owned(url.as_str()));
            assert(text::string_views(out@) =~= before.push(url@));
        }
        k += 1;
    }
    assert(segs.take(parents.len() as int) =~= segs);
    out
}

/// `base_url` without its trailing slashes.
pub open spec fn trimmed_base(s: Seq<char>) -> Seq<char>
    decreases s.len(),
{
    if s.len() > 0 && s.last() == '/' {
        trimmed_base(s.drop_last())
    } else {
        s
    }
}

/// The collection URL the backup goes under: `base_url` with trailing slashes removed.
pub fn collection_base(base_url: &str) -> (r: String)
    ensures
        r@ == trimmed_base(base_url@),
{
    let c = text::chars_of(base_url);
    let mut n = c.len();
    assert(c@.take(n as int) =~= c@);
    while n > 0 && c[n - 1] == '/'
        invariant
            n <= c.len(),
            trimmed_base(c@) == trimmed_base(c@.take(n as int)),
        decreases n,
    {
        assert(c@.take(n as int).drop_last() =~= c@.take(n - 1));
        n -= 1;
    }
    assert(c@.take(n as int) =~= c@.subrange(0, n as int));
    proof {
        if n > 0 {
            assert(c@.take(n as int).last() == c@[n - 1]);
        }
    }
    text::string_from(&text::slice_chars(&c, 0, n))
}

/// Whether an answer to MKCOL means the collection is there: any success status, or 301,
/// 405 or 409, which commonly mean it already exists.
pub fn mkcol_succeeded(status: u16) -> (ok: bool)
    ensures
        ok == ((200 <= status <= 299) || status == 301 || status == 405 || status == 409),
{
    (200 <= status && status <= 299) || status == 301 || status == 405 || status == 409
}

/// The library subdirectories whose files get backed up (recursively); nothing else in
/// the library folder is walked.
pub fn library_dirs() -> (v: Vec<&'static str>)
    ensures
        v@.len() == 5,
        v@[0]@ == "entries"@,
        v@[1]@ == "notes"@,
        v@[2]@ == "collections"@,
        v@[3]@ == "annots"@,
        v@[4]@ == "attachments"@,
{
    let mut v: Vec<&'static str> = Vec::new();
    v.push("entries");
    v.push("notes");
    v.push("collections");
    v.push("annots");
    v.push("attachments");
    v
}

/// The top-level library files that get backed up.
pub fn library_files() -> (v: Vec<&'static str>)
    ensures
        v@.len() == 2,
        v@[0]@ == "library.yml"@,
        v@[1]@ == ".gitignore"@,
{
    let mut v: Vec<&'static str> = Vec::new();
    v.push("library.yml");
    v.push(".gitignore");
    v
}

/// The URLs of `urls` not yet in `made`, in order, each once: what still has to be
/// created when collections already created in this upload are remembered in `made`.
pub open spec fn fresh(made: Seq<Seq<char>>, urls: Seq<Seq<char>>) -> Seq<Seq<char>>
    decreases urls.len(),
{
    if urls.len() == 0 {
        seq![]
    } else if made.contains(urls[0]) {
        fresh(made, urls.drop_first())
    } else {
        seq![urls[0]] + fresh(made.push(urls[0]), urls.drop_first())
    }
}

/// Whether `v` holds `x`.
fn holds_text(v: &Vec<String>, x: &str) -> (b: bool)
    ensures
        b == text::string_views(v@).contains(x@),
{
    let mut i: usize = 0;
    while i < v.len()
        invariant
            i <= v@.len(),
            forall|j: int| 0 <= j < i ==> text::string_views(v@)[j] != x@,
        decreases v.len() - i,
    {
        if text::str_eq(v[i].as_str(), x) {
            assert(text::string_views(v@)[i as int] == x@);
            return true;
        }
        i += 1;
    }
    false
}

/// The collections to create before uploading a file whose parent folders are `parents`,
/// top-down, leaving out those this upload has created already (`made`, which they are
/// added to).
pub fn collections_to_make(made: &mut Vec<String>, base: &str, parents: &Vec<String>) -> (r: Vec<
    String,
>)
    ensures
        text::string_views(r@) == fresh(
            text::string_views(old(made)@),
            collections(base@, text::string_views(parents@)),
        ),
        text::string_views(final(made)@) == text::string_views(old(made)@) + text::string_views(
            r@,
        ),
{
    let urls = collection_urls(base, parents);
    let ghost all = text::string_views(urls@);
    let ghost made0 = text::string_views(made@);
    let mut out: Vec<String> = Vec::new();
    let mut i: usize = 0;
    assert(all.skip(0) =~= all);
    assert(made0 + text::string_views(out@) =~= made0);
    while i < urls.len()
        invariant
            i <= urls@.len(),
            all == text::string_views(urls@),
            text::string_views(made@) == made0 + text::string_views(out@),
            fresh(made0, all) == text::string_views(out@) + fresh(
                text::string_views(made@),
                all.skip(i as int),
            ),
        decreases urls.len() - i,
    {
        assert(all.skip(i as int).drop_first() =~= all.skip(i + 1));
        assert(all.skip(i as int)[0] == urls@[i as int]@);
        if !holds_text(made, urls[i].as_str()) {
            let ghost mv = text::string_views(made@);
            let ghost ov = text::string_views(out@);
            made.push(text::owned(urls[i].as_str()));
            out.push(text::owned(urls[i].as_str()));
            assert(text::string_views(made@) =~= mv.push(urls@[i as int]@));
            assert(text::string_views(out@) =~= ov.push(urls@[i as int]@));
            assert(text::string_views(made@) =~= made0 + text::string_views(out@));
            assert(ov + (seq![urls@[i as int]@] + fresh(mv.push(urls@[i as int]@), all.skip(i + 1)))
                =~= text::string_views(out@) + fresh(text::string_views(made@), all.skip(i + 1)));
        }
        i += 1;
    }
    assert(all.skip(urls.len() as int) =~= Seq::<Seq<char>>::empty());
    assert(text::string_views(out@) + Seq::<Seq<char>>::empty() =~= text::string_views(out@));
    out
}

// ---------------------------------------------------------------------------
// Laws of the collection URLs
// ---------------------------------------------------------------------------

pub proof fn lemma_joined_prefix(base: Seq<char>, segs: Seq<Seq<char>>, n: int)
    requires
        0 <= n <= segs.len(),
    ensures
        joined(base, segs.take(n)).len() <= joined(base, segs).len(),
        joined(base, segs).take(joined(base, segs.take(n)).len() as int) == joined(
            base,
            segs.take(n),
        ),
    decreases segs.len() - n,
{
    if n < segs.len() {
        let t = segs.drop_last();
        lemma_joined_prefix(base, t, n);
        assert(t.take(n) =~= segs.take(n));
        assert(segs.take(segs.len() as int) =~= segs);
        let a = joined(base, t);
        let b = joined(base, segs);
        let p = joined(base, segs.take(n));
        assert(b.take(a.len() as int) =~= a);
        assert(b.take(p.len() as int) =~= a.take(p.len() as int));
    } else {
        assert(segs.take(n) =~= segs);
        assert(joined(base, segs).take(joined(base, segs).len() as int) =~= joined(base, segs));
    }
}

/// Every collection above a file, and the file's own URL, begin with each collection
/// created before them: creating the collections in order creates each parent before
/// anything inside it.
pub proof fn law_collections_nest(base: Seq<char>, segs: Seq<Seq<char>>)
    ensures
        forall|k: int| 0 <= k < collections(base, segs).len() ==> {
            let c = #[trigger] collections(base, segs)[k];
            c.len() <= joined(base, segs).len() && joined(base, segs).take(c.len() as int) == c
        },
        forall|i: int, j: int| 0 <= i < j < collections(base, segs).len() ==> {
            let a = #[trigger] collections(base, segs)[i];
            let b = #[trigger] collections(base, segs)[j];
            a.len() < b.len() && b.take(a.len() as int) == a
        },
    decreases segs.len(),
{
    if segs.len() > 0 {
        let t = segs.drop_last();
        law_collections_nest(base, t);
        lemma_joined_prefix(base, segs, segs.len() - 1);
        assert(segs.take(segs.len() - 1) =~= t);
        let prev = collections(base, t);
        let cs = collections(base, segs);
        let jt = joined(base, t);
        let js = joined(base, segs);
        assert forall|k: int| 0 <= k < cs.len() implies {
            let c = #[trigger] cs[k];
            c.len() <= js.len() && js.take(c.len() as int) == c
        } by {
            if k < prev.len() {
                let c = cs[k];
                assert(c == prev[k]);
                assert(js.take(c.len() as int) =~= jt.take(c.len() as int));
            } else {
                assert(js.take(js.len() as int) =~= js);
            }
        }
        assert forall|i: int, j: int| 0 <= i < j < cs.len() implies {
            let a = #[trigger] cs[i];
            let b = #[trigger] cs[j];
            a.len() < b.len() && b.take(a.len() as int) == a
        } by {
            if j < prev.len() {
                assert(cs[i] == prev[i]);
                assert(cs[j] == prev[j]);
            } else {
                let a = cs[i];
                assert(a == prev[i]);
                assert(cs[j] == js);
                assert(segs.last().len() > 0);
                assert(js == jt + seq!['/'] + encoded_segment(segs.last()));
                assert(js.take(a.len() as int) =~= jt.take(a.len() as int));
            }
        }
    }
}

} // verus!
