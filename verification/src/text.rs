//! Character-level text helpers shared by the scrapers and formatters.
//!
//! Text is modelled by its view, a `Seq<char>`. The executable helpers work on
//! `&[char]`/`Vec<char>` and convert to and from `&str`/`String` at the edges.

use vstd::prelude::*;

verus! {

// ---------------------------------------------------------------------------
// Character classes
// ---------------------------------------------------------------------------

/// An ASCII decimal digit.
pub open spec fn is_digit(c: char) -> bool {
    '0' <= c && c <= '9'
}

/// `u8::is_ascii_whitespace`: space, tab, line feed, form feed, carriage return.
pub open spec fn is_ascii_ws(c: char) -> bool {
    c == ' ' || c == '\t' || c == '\n' || c == '\x0C' || c == '\r'
}

/// `char::is_whitespace`: the Unicode `White_Space` property.
pub open spec fn is_ws(c: char) -> bool {
    ||| ('\t' <= c && c <= '\r')
    ||| c == ' '
    ||| c == '\u{85}'
    ||| c == '\u{A0}'
    ||| c == '\u{1680}'
    ||| ('\u{2000}' <= c && c <= '\u{200A}')
    ||| c == '\u{2028}'
    ||| c == '\u{2029}'
    ||| c == '\u{202F}'
    ||| c == '\u{205F}'
    ||| c == '\u{3000}'
}

/// The code of `c` with ASCII upper case folded to lower case.
pub open spec fn fold(c: char) -> u32 {
    if 'A' <= c && c <= 'Z' {
        ((c as u32) + 32) as u32
    } else {
        c as u32
    }
}

pub fn is_digit_exec(c: char) -> (b: bool)
    ensures
        b == is_digit(c),
{
    '0' <= c && c <= '9'
}

pub fn is_ascii_ws_exec(c: char) -> (b: bool)
    ensures
        b == is_ascii_ws(c),
{
    c == ' ' || c == '\t' || c == '\n' || c == '\x0C' || c == '\r'
}

pub fn is_ws_exec(c: char) -> (b: bool)
    ensures
        b == is_ws(c),
{
    ('\t' <= c && c <= '\r') || c == ' ' || c == '\u{85}' || c == '\u{A0}' || c == '\u{1680}'
        || ('\u{2000}' <= c && c <= '\u{200A}') || c == '\u{2028}' || c == '\u{2029}' || c
        == '\u{202F}' || c == '\u{205F}' || c == '\u{3000}'
}

pub fn fold_exec(c: char) -> (r: u32)
    ensures
        r == fold(c),
{
    if 'A' <= c && c <= 'Z' {
        (c as u32) + 32
    } else {
        c as u32
    }
}

// ---------------------------------------------------------------------------
// Sequence predicates
// ---------------------------------------------------------------------------

/// `pat` occurs in `s` at `i`, comparing ASCII letters without regard to case.
pub open spec fn matches_ci_at(s: Seq<char>, i: int, pat: Seq<char>) -> bool {
    &&& 0 <= i
    &&& i + pat.len() <= s.len()
    &&& forall|k: int| 0 <= k < pat.len() ==> #[trigger] fold(s[i + k]) == fold(pat[k])
}

/// `pat` occurs in `s` at `i`, exactly.
pub open spec fn matches_at(s: Seq<char>, i: int, pat: Seq<char>) -> bool {
    &&& 0 <= i
    &&& i + pat.len() <= s.len()
    &&& s.subrange(i, i + pat.len()) == pat
}

pub open spec fn starts_with(s: Seq<char>, pat: Seq<char>) -> bool {
    matches_at(s, 0, pat)
}

/// The first index `>= i` at which `pat` occurs in `s`.
pub open spec fn find_from(s: Seq<char>, pat: Seq<char>, i: int) -> Option<int>
    decreases s.len() + 1 - i,
{
    if i < 0 || i + pat.len() > s.len() {
        None
    } else if matches_at(s, i, pat) {
        Some(i)
    } else {
        find_from(s, pat, i + 1)
    }
}

/// The first index `>= i` holding `c`, or `s.len()` when there is none.
pub open spec fn index_of_from(s: Seq<char>, c: char, i: int) -> int
    decreases s.len() - i,
{
    if i < 0 || i >= s.len() {
        s.len() as int
    } else if s[i] == c {
        i
    } else {
        index_of_from(s, c, i + 1)
    }
}

/// The last index holding `c`.
pub open spec fn last_index_of(s: Seq<char>, c: char) -> Option<int>
    decreases s.len(),
{
    if s.len() == 0 {
        None
    } else if s.last() == c {
        Some(s.len() - 1)
    } else {
        last_index_of(s.drop_last(), c)
    }
}

// ---------------------------------------------------------------------------
// Whitespace trimming
// ---------------------------------------------------------------------------

/// The first index `>= i` whose character is not white space (or the length).
pub open spec fn skip_ws_from(s: Seq<char>, i: int) -> int
    decreases s.len() - i,
{
    if 0 <= i < s.len() && is_ws(s[i]) {
        skip_ws_from(s, i + 1)
    } else {
        i
    }
}

/// Moving down from `j`, the first end position (not below `lo`) whose preceding
/// character is not white space.
pub open spec fn back_ws_to(s: Seq<char>, j: int, lo: int) -> int
    decreases j - lo,
{
    if lo < j && j <= s.len() && is_ws(s[j - 1]) {
        back_ws_to(s, j - 1, lo)
    } else {
        j
    }
}

/// `str::trim`: `s` without its leading and trailing white space.
pub open spec fn trim(s: Seq<char>) -> Seq<char> {
    let a = skip_ws_from(s, 0);
    s.subrange(a, back_ws_to(s, s.len() as int, a))
}

/// The first index `>= i` whose character is not ASCII white space (or the length).
pub open spec fn skip_ascii_ws_from(s: Seq<char>, i: int) -> int
    decreases s.len() - i,
{
    if 0 <= i < s.len() && is_ascii_ws(s[i]) {
        skip_ascii_ws_from(s, i + 1)
    } else {
        i
    }
}

pub proof fn lemma_skip_ws_bounds(s: Seq<char>, i: int)
    requires
        0 <= i <= s.len(),
    ensures
        i <= skip_ws_from(s, i) <= s.len(),
    decreases s.len() - i,
{
    if i < s.len() && is_ws(s[i]) {
        lemma_skip_ws_bounds(s, i + 1);
    }
}

pub proof fn lemma_back_ws_bounds(s: Seq<char>, j: int, lo: int)
    requires
        0 <= lo <= j <= s.len(),
    ensures
        lo <= back_ws_to(s, j, lo) <= j,
    decreases j - lo,
{
    if lo < j && is_ws(s[j - 1]) {
        lemma_back_ws_bounds(s, j - 1, lo);
    }
}

pub proof fn lemma_skip_ascii_ws_bounds(s: Seq<char>, i: int)
    requires
        0 <= i <= s.len(),
    ensures
        i <= skip_ascii_ws_from(s, i) <= s.len(),
    decreases s.len() - i,
{
    if i < s.len() && is_ascii_ws(s[i]) {
        lemma_skip_ascii_ws_bounds(s, i + 1);
    }
}

pub proof fn lemma_index_of_bounds(s: Seq<char>, c: char, i: int)
    requires
        0 <= i <= s.len(),
    ensures
        i <= index_of_from(s, c, i) <= s.len(),
    decreases s.len() - i,
{
    if i < s.len() && s[i] != c {
        lemma_index_of_bounds(s, c, i + 1);
    }
}

// ---------------------------------------------------------------------------
// Conversions between `str`/`String` and characters
// ---------------------------------------------------------------------------

/// The characters of `s`, in order.
pub fn chars_of(s: &str) -> (out: Vec<char>)
    ensures
        out@ == s@,
{
    let mut out: Vec<char> = Vec::new();
    for c in it: s.chars()
        invariant
            out@ == it.seq().take(it.index() as int),
    {
        out.push(c);
    }
    out
}

/// `String::push`.
#[verifier::external_body]
pub(crate) fn push_char(s: &mut String, c: char)
    ensures
        final(s)@ == old(s)@.push(c),
{
    s.push(c);
}

/// Appends `t` to `s`.
pub(crate) fn push_str(s: &mut String, t: &str)
    ensures
        final(s)@ == old(s)@ + t@,
{
    s.append(t);
}

/// Appends the characters `v` to `s`.
pub fn push_chars(s: &mut String, v: &[char])
    ensures
        final(s)@ == old(s)@ + v@,
{
    let ghost start = s@;
    let mut i: usize = 0;
    while i < v.len()
        invariant
            i <= v.len(),
            s@ == start + v@.take(i as int),
        decreases v.len() - i,
    {
        push_char(s, v[i]);
        i += 1;
        assert(v@.take(i as int) == v@.take((i - 1) as int).push(v@[i - 1]));
    }
    assert(v@.take(v.len() as int) == v@);
}

/// A `String` holding the characters `v`.
pub fn string_from(v: &[char]) -> (s: String)
    ensures
        s@ == v@,
{
    let mut s = String::new();
    push_chars(&mut s, v);
    s
}

/// A `String` holding `s`.
pub fn owned(s: &str) -> (r: String)
    ensures
        r@ == s@,
{
    s.to_owned()
}

/// What `str::to_lowercase` returns for `s` (Unicode lower-case mapping).
pub uninterp spec fn lowercase(s: Seq<char>) -> Seq<char>;

/// Every character of `s` is ASCII.
pub open spec fn all_ascii(s: Seq<char>) -> bool {
    forall|i: int| 0 <= i < s.len() ==> (s[i] as u32) < 128
}

/// `c` in ASCII lower case: `A`..`Z` become `a`..`z`, every other character stays.
pub open spec fn ascii_lower_char(c: char) -> char {
    if 65 <= (c as u32) <= 90 {
        ((c as u32) + 32) as char
    } else {
        c
    }
}

/// `s` in ASCII lower case, character by character.
pub open spec fn ascii_lower(s: Seq<char>) -> Seq<char> {
    Seq::new(s.len(), |i: int| ascii_lower_char(s[i]))
}

/// The lower case `str::to_lowercase` gives: the ASCII lower case on ASCII text,
/// `lowercase` on any other text.
pub open spec fn lower(s: Seq<char>) -> Seq<char> {
    if all_ascii(s) {
        ascii_lower(s)
    } else {
        lowercase(s)
    }
}

/// `str::to_lowercase`. Claimed: the result is `lowercase` of the argument, and on ASCII
/// text it is the ASCII lower case (Unicode maps `A`..`Z` to `a`..`z` and leaves the other
/// ASCII characters as they are). Of other text nothing more is claimed.
#[verifier::external_body]
pub(crate) fn to_lowercase(s: &str) -> (r: String)
    ensures
        r@ == lowercase(s@),
        all_ascii(s@) ==> r@ == ascii_lower(s@),
{
    s.to_lowercase()
}

/// `pat` occurs somewhere in `s`.
pub open spec fn has_substring(s: Seq<char>, pat: Seq<char>) -> bool {
    find_from(s, pat, 0) is Some
}

// ---------------------------------------------------------------------------
// Executable searches
// ---------------------------------------------------------------------------

/// The characters `s[a..b]`.
pub fn slice_chars(s: &[char], a: usize, b: usize) -> (r: Vec<char>)
    requires
        a <= b <= s.len(),
    ensures
        r@ == s@.subrange(a as int, b as int),
{
    let mut r: Vec<char> = Vec::new();
    let mut i = a;
    while i < b
        invariant
            a <= i <= b <= s.len(),
            r@ == s@.subrange(a as int, i as int),
        decreases b - i,
    {
        r.push(s[i]);
        i += 1;
    }
    r
}

/// Whether `pat` occurs in `s` at `i`, ignoring ASCII case.
pub fn matches_ci_at_exec(s: &[char], i: usize, pat: &[char]) -> (b: bool)
    ensures
        b == matches_ci_at(s@, i as int, pat@),
{
    if i > s.len() || pat.len() > s.len() - i {
        return false;
    }
    let mut k: usize = 0;
    while k < pat.len()
        invariant
            i + pat.len() <= s.len(),
            k <= pat.len(),
            forall|m: int| 0 <= m < k ==> #[trigger] fold(s@[i + m]) == fold(pat@[m]),
        decreases pat.len() - k,
    {
        if fold_exec(s[i + k]) != fold_exec(pat[k]) {
            assert(fold(s@[i + k as int]) != fold(pat@[k as int]));
            return false;
        }
        k += 1;
    }
    true
}

/// Whether `pat` occurs in `s` at `i`, exactly.
pub fn matches_at_exec(s: &[char], i: usize, pat: &[char]) -> (b: bool)
    ensures
        b == matches_at(s@, i as int, pat@),
{
    if i > s.len() || pat.len() > s.len() - i {
        return false;
    }
    let mut k: usize = 0;
    while k < pat.len()
        invariant
            i + pat.len() <= s.len(),
            k <= pat.len(),
            forall|m: int| 0 <= m < k ==> s@[i + m] == pat@[m],
        decreases pat.len() - k,
    {
        if s[i + k] != pat[k] {
            assert(s@.subrange(i as int, i + pat.len())[k as int] != pat@[k as int]);
            return false;
        }
        k += 1;
    }
    assert(s@.subrange(i as int, i + pat.len()) =~= pat@);
    true
}

/// Whether `s` and `t` are the same characters.
pub fn chars_eq(s: &[char], t: &[char]) -> (b: bool)
    ensures
        b == (s@ == t@),
{
    if s.len() != t.len() {
        return false;
    }
    let r = matches_at_exec(s, 0, t);
    assert(s@.subrange(0, t@.len() as int) =~= s@);
    r
}

/// Whether `a` and `b` hold the same characters.
pub fn str_eq(a: &str, b: &str) -> (r: bool)
    ensures
        r == (a@ == b@),
{
    let x = chars_of(a);
    let y = chars_of(b);
    chars_eq(&x, &y)
}

/// The first index `>= i` at which `pat` occurs.
pub fn find_from_exec(s: &[char], pat: &[char], i: usize) -> (r: Option<usize>)
    requires
        i <= s.len(),
    ensures
        r matches Some(p) ==> find_from(s@, pat@, i as int) == Some(p as int),
        r is None ==> find_from(s@, pat@, i as int) is None,
{
    if pat.len() > s.len() - i {
        return None;
    }
    let last = s.len() - pat.len();
    let mut j = i;
    loop
        invariant
            i <= j <= last,
            last + pat.len() == s.len(),
            find_from(s@, pat@, i as int) == find_from(s@, pat@, j as int),
        decreases last - j,
    {
        if matches_at_exec(s, j, pat) {
            return Some(j);
        }
        if j == last {
            assert(find_from(s@, pat@, j + 1) is None);
            return None;
        }
        j += 1;
    }
}

/// The first index `>= i` holding `c`, or the length.
pub fn index_of_from_exec(s: &[char], c: char, i: usize) -> (r: usize)
    requires
        i <= s.len(),
    ensures
        r == index_of_from(s@, c, i as int),
        i <= r <= s.len(),
{
    let mut j = i;
    while j < s.len() && s[j] != c
        invariant
            i <= j <= s.len(),
            index_of_from(s@, c, i as int) == index_of_from(s@, c, j as int),
        decreases s.len() - j,
    {
        j += 1;
    }
    j
}

/// Whether `c` occurs in `s`.
pub fn contains_char(s: &[char], c: char) -> (b: bool)
    ensures
        b == s@.contains(c),
{
    let mut j: usize = 0;
    while j < s.len()
        invariant
            j <= s.len(),
            forall|k: int| 0 <= k < j ==> s@[k] != c,
        decreases s.len() - j,
    {
        if s[j] == c {
            assert(s@[j as int] == c);
            return true;
        }
        j += 1;
    }
    false
}

/// The last index holding `c`.
pub fn last_index_of_exec(s: &[char], c: char) -> (r: Option<usize>)
    ensures
        r matches Some(p) ==> last_index_of(s@, c) == Some(p as int),
        r is None ==> last_index_of(s@, c) is None,
{
    let mut j = s.len();
    assert(s@.take(j as int) =~= s@);
    while j > 0
        invariant
            j <= s.len(),
            last_index_of(s@, c) == last_index_of(s@.take(j as int), c),
        decreases j,
    {
        assert(s@.take(j as int).drop_last() =~= s@.take(j - 1));
        if s[j - 1] == c {
            return Some(j - 1);
        }
        j -= 1;
    }
    None
}

/// The first index `>= i` that is not ASCII white space.
pub fn skip_ascii_ws_exec(s: &[char], i: usize) -> (r: usize)
    requires
        i <= s.len(),
    ensures
        r == skip_ascii_ws_from(s@, i as int),
        i <= r <= s.len(),
{
    let mut j = i;
    while j < s.len() && is_ascii_ws_exec(s[j])
        invariant
            i <= j <= s.len(),
            skip_ascii_ws_from(s@, i as int) == skip_ascii_ws_from(s@, j as int),
        decreases s.len() - j,
    {
        j += 1;
    }
    j
}

/// `str::trim`, on characters.
pub fn trim_chars(s: &[char]) -> (r: Vec<char>)
    ensures
        r@ == trim(s@),
{
    let mut a: usize = 0;
    while a < s.len() && is_ws_exec(s[a])
        invariant
            a <= s.len(),
            skip_ws_from(s@, 0) == skip_ws_from(s@, a as int),
        decreases s.len() - a,
    {
        a += 1;
    }
    let mut b: usize = s.len();
    while b > a && is_ws_exec(s[b - 1])
        invariant
            a <= b <= s.len(),
            back_ws_to(s@, s@.len() as int, a as int) == back_ws_to(s@, b as int, a as int),
        decreases b - a,
    {
        b -= 1;
    }
    slice_chars(s, a, b)
}

/// Appends the characters `s` to `out`.
pub fn append_chars(out: &mut Vec<char>, s: &[char])
    ensures
        final(out)@ == old(out)@ + s@,
{
    let ghost start = out@;
    let mut i: usize = 0;
    while i < s.len()
        invariant
            i <= s.len(),
            out@ == start + s@.take(i as int),
        decreases s.len() - i,
    {
        out.push(s[i]);
        i += 1;
        assert(s@.take(i as int) =~= s@.take(i - 1).push(s@[i - 1]));
    }
    assert(s@.take(s.len() as int) =~= s@);
}

pub proof fn lemma_find_from(s: Seq<char>, pat: Seq<char>, i: int)
    requires
        0 <= i,
    ensures
        find_from(s, pat, i) matches Some(p) ==> i <= p && matches_at(s, p, pat),
    decreases s.len() + 1 - i,
{
    if i + pat.len() <= s.len() && !matches_at(s, i, pat) {
        lemma_find_from(s, pat, i + 1);
    }
}

pub proof fn lemma_last_index_of(s: Seq<char>, c: char)
    ensures
        last_index_of(s, c) matches Some(p) ==> 0 <= p < s.len() && s[p] == c,
    decreases s.len(),
{
    if s.len() > 0 && s.last() != c {
        lemma_last_index_of(s.drop_last(), c);
    }
}

pub proof fn lemma_index_of_skip(s: Seq<char>, c: char, start: int, i: int)
    requires
        0 <= start <= s.len(),
        0 <= i,
    ensures
        index_of_from(s.skip(start), c, i) == index_of_from(s, c, start + i) - start,
    decreases s.len() - start - i,
{
    if i < s.len() - start && s.skip(start)[i] != c {
        lemma_index_of_skip(s, c, start, i + 1);
    }
}

/// The views of a sequence of character vectors.
pub open spec fn views(v: Seq<Vec<char>>) -> Seq<Seq<char>> {
    Seq::new(v.len(), |i: int| v[i]@)
}

/// The views of a sequence of strings.
pub open spec fn string_views(v: Seq<String>) -> Seq<Seq<char>> {
    Seq::new(v.len(), |i: int| v[i]@)
}

/// The first index `>= i` holding one of `seps`, or `s.len()` when there is none.
pub open spec fn index_of_any_from(s: Seq<char>, seps: Seq<char>, i: int) -> int
    decreases s.len() - i,
{
    if i < 0 || i >= s.len() {
        s.len() as int
    } else if seps.contains(s[i]) {
        i
    } else {
        index_of_any_from(s, seps, i + 1)
    }
}

pub proof fn lemma_index_of_any_bounds(s: Seq<char>, seps: Seq<char>, i: int)
    requires
        0 <= i <= s.len(),
    ensures
        i <= index_of_any_from(s, seps, i) <= s.len(),
    decreases s.len() - i,
{
    if i < s.len() && !seps.contains(s[i]) {
        lemma_index_of_any_bounds(s, seps, i + 1);
    }
}

pub proof fn lemma_index_of_any_skip(s: Seq<char>, seps: Seq<char>, start: int, i: int)
    requires
        0 <= start <= s.len(),
        0 <= i,
    ensures
        index_of_any_from(s.skip(start), seps, i) == index_of_any_from(s, seps, start + i) - start,
    decreases s.len() - start - i,
{
    if i < s.len() - start && !seps.contains(s.skip(start)[i]) {
        lemma_index_of_any_skip(s, seps, start, i + 1);
    }
}

/// The first index `>= i` holding one of `seps`, or the length.
pub fn index_of_any_exec(s: &[char], seps: &[char], i: usize) -> (r: usize)
    requires
        i <= s.len(),
    ensures
        r == index_of_any_from(s@, seps@, i as int),
        i <= r <= s.len(),
{
    let mut j = i;
    while j < s.len() && !contains_char(seps, s[j])
        invariant
            i <= j <= s.len(),
            index_of_any_from(s@, seps@, i as int) == index_of_any_from(s@, seps@, j as int),
        decreases s.len() - j,
    {
        j += 1;
    }
    j
}

/// `str::split` on a set of separator characters: the pieces between the separators,
/// empty ones included (`n` separators give `n + 1` pieces).
pub open spec fn split_on(s: Seq<char>, seps: Seq<char>) -> Seq<Seq<char>>
    decreases s.len(),
{
    let p = index_of_any_from(s, seps, 0);
    proof {
        lemma_index_of_any_bounds(s, seps, 0);
    }
    if p >= s.len() {
        seq![s]
    } else {
        seq![s.take(p)] + split_on(s.skip(p + 1), seps)
    }
}

/// Each piece trimmed, the pieces left empty dropped.
pub open spec fn nonempty_trimmed(parts: Seq<Seq<char>>) -> Seq<Seq<char>>
    decreases parts.len(),
{
    if parts.len() == 0 {
        seq![]
    } else {
        let t = trim(parts[0]);
        let rest = nonempty_trimmed(parts.drop_first());
        if t.len() > 0 {
            seq![t] + rest
        } else {
            rest
        }
    }
}

/// `s` split at every one of `seps`, each piece trimmed, empty pieces dropped.
pub fn split_trimmed(s: &[char], seps: &[char]) -> (r: Vec<Vec<char>>)
    ensures
        views(r@) == nonempty_trimmed(split_on(s@, seps@)),
{
    let mut out: Vec<Vec<char>> = Vec::new();
    let mut start: usize = 0;
    assert(s@.skip(0) =~= s@);
    assert(views(out@) + nonempty_trimmed(split_on(s@, seps@)) =~= nonempty_trimmed(split_on(s@, seps@)));
    loop
        invariant
            start <= s.len(),
            nonempty_trimmed(split_on(s@, seps@)) == views(out@) + nonempty_trimmed(
                split_on(s@.skip(start as int), seps@),
            ),
        decreases s.len() - start,
    {
        let ghost t = s@.skip(start as int);
        let p = index_of_any_exec(s, seps, start);
        proof {
            lemma_index_of_any_skip(s@, seps@, start as int, 0);
        }
        let field = slice_chars(s, start, p);
        assert(field@ =~= t.take(p - start));
        let trimmed = trim_chars(&field);
        let ghost before = views(out@);
        if p >= s.len() {
            assert(t.take(p - start) =~= t);
            assert(split_on(t, seps@) == seq![t]);
            assert(seq![t].drop_first() =~= Seq::<Seq<char>>::empty());
            assert(field@ == t);
            assert(nonempty_trimmed(Seq::<Seq<char>>::empty()) == Seq::<Seq<char>>::empty());
            assert(nonempty_trimmed(seq![t]) == (if trim(t).len() > 0 {
                seq![trim(t)]
            } else {
                Seq::<Seq<char>>::empty()
            }) + nonempty_trimmed(Seq::<Seq<char>>::empty()));
            if trimmed.len() > 0 {
                out.push(trimmed);
                assert(views(out@) =~= before + seq![trim(t)]);
            } else {
                assert(views(out@) =~= before + Seq::<Seq<char>>::empty());
            }
            return out;
        }
        assert(t.skip(p - start + 1) =~= s@.skip(p + 1));
        let ghost rest = split_on(s@.skip(p + 1), seps@);
        assert(split_on(t, seps@) == seq![t.take(p - start)] + rest);
        assert((seq![t.take(p - start)] + rest).drop_first() =~= rest);
        if trimmed.len() > 0 {
            out.push(trimmed);
            assert(views(out@) =~= before.push(trim(field@)));
            assert(before + (seq![trim(field@)] + nonempty_trimmed(rest)) =~= before.push(
                trim(field@),
            ) + nonempty_trimmed(rest));
        }
        start = p + 1;
    }
}

/// Whether `name` is one of `keys`.
pub fn contains_key(keys: &Vec<Vec<char>>, name: &[char]) -> (b: bool)
    ensures
        b == views(keys@).contains(name@),
{
    let mut k: usize = 0;
    while k < keys.len()
        invariant
            k <= keys.len(),
            forall|j: int| 0 <= j < k ==> views(keys@)[j] != name@,
        decreases keys.len() - k,
    {
        if chars_eq(&keys[k], name) {
            assert(views(keys@)[k as int] == name@);
            return true;
        }
        k += 1;
    }
    false
}

// ---------------------------------------------------------------------------
// Replacement
// ---------------------------------------------------------------------------

/// `str::replace`: every non-overlapping occurrence of `pat`, scanning from the left,
/// replaced by `rep`.
pub open spec fn replace_all(s: Seq<char>, pat: Seq<char>, rep: Seq<char>) -> Seq<char>
    decreases s.len(),
{
    if pat.len() == 0 || s.len() < pat.len() {
        s
    } else if s.take(pat.len() as int) == pat {
        rep + replace_all(s.skip(pat.len() as int), pat, rep)
    } else {
        seq![s[0]] + replace_all(s.drop_first(), pat, rep)
    }
}

/// `str::replace`, on characters.
pub fn replace_all_exec(s: &[char], pat: &[char], rep: &[char]) -> (r: Vec<char>)
    ensures
        r@ == replace_all(s@, pat@, rep@),
{
    let mut out: Vec<char> = Vec::new();
    if pat.len() == 0 {
        return slice_chars(s, 0, s.len());
    }
    let mut i: usize = 0;
    assert(s@.skip(0) =~= s@);
    assert(out@ + replace_all(s@, pat@, rep@) =~= replace_all(s@, pat@, rep@));
    while i < s.len() && pat.len() <= s.len() - i
        invariant
            i <= s.len(),
            pat.len() > 0,
            replace_all(s@, pat@, rep@) == out@ + replace_all(s@.skip(i as int), pat@, rep@),
        decreases s.len() - i,
    {
        let ghost t = s@.skip(i as int);
        if matches_at_exec(s, i, pat) {
            assert(t.take(pat.len() as int) =~= s@.subrange(i as int, i + pat.len()));
            assert(t.skip(pat.len() as int) =~= s@.skip(i + pat.len()));
            let mut k: usize = 0;
            let ghost before = out@;
            while k < rep.len()
                invariant
                    k <= rep.len(),
                    out@ == before + rep@.take(k as int),
                decreases rep.len() - k,
            {
                out.push(rep[k]);
                k += 1;
                assert(rep@.take(k as int) =~= rep@.take(k - 1).push(rep@[k - 1]));
            }
            assert(rep@.take(rep.len() as int) =~= rep@);
            assert(out@ + replace_all(s@.skip(i + pat.len()), pat@, rep@) =~= before + (rep@
                + replace_all(s@.skip(i + pat.len()), pat@, rep@)));
            i = i + pat.len();
        } else {
            assert(t.take(pat.len() as int) =~= s@.subrange(i as int, i + pat.len()));
            assert(t.drop_first() =~= s@.skip(i + 1));
            let ghost before = out@;
            out.push(s[i]);
            assert(out@ + replace_all(s@.skip(i + 1), pat@, rep@) =~= before + (seq![s@[i as int]]
                + replace_all(s@.skip(i + 1), pat@, rep@)));
            i = i + 1;
        }
    }
    let ghost t = s@.skip(i as int);
    assert(replace_all(t, pat@, rep@) == t);
    let mut k = i;
    let ghost before = out@;
    while k < s.len()
        invariant
            i <= k <= s.len(),
            out@ == before + s@.subrange(i as int, k as int),
        decreases s.len() - k,
    {
        out.push(s[k]);
        k += 1;
        assert(s@.subrange(i as int, k as int) =~= s@.subrange(i as int, k - 1).push(s@[k - 1]));
    }
    assert(s@.subrange(i as int, s.len() as int) =~= t);
    out
}

} // verus!
