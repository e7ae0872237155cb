//! Persisted GUI configuration: the last-opened library, window geometry, column layout
//! and the recent-libraries list. Reading and writing the file is done by the
//! application around this library; this module holds the record and its rules.
//!
//! Paths are held as text: a library path is whatever the user picked, as a string.

use std::collections::HashMap;

use vstd::prelude::*;

use crate::text;

verus! {

/// How many recently opened libraries are remembered.
pub const MAX_RECENT_LIBRARIES: usize = 8;

/// The persisted GUI configuration.
#[derive(Debug, Clone)]
pub struct Config {
    /// The library directory last opened, restored on launch.
    pub library_path: Option<String>,
    /// Colour scheme: "system" (default), "light", or "dark".
    pub theme: Option<String>,
    /// WebDAV backup target (base collection URL).
    pub webdav_url: Option<String>,
    /// WebDAV username (the password is kept in the system keyring).
    pub webdav_username: Option<String>,
    /// Whether automatic periodic backups are on. Off by default: an explicit opt-in.
    pub auto_backup_enabled: bool,
    /// Minutes between automatic backups, while a library is open.
    pub auto_backup_interval_mins: u32,
    /// Window size/maximized state, restored on launch.
    pub window_width: Option<i32>,
    pub window_height: Option<i32>,
    pub window_maximized: Option<bool>,
    /// Collections-sidebar/rest split.
    pub collections_pane_position: Option<i32>,
    /// Entries-spreadsheet/detail-pane split.
    pub detail_pane_position: Option<i32>,
    /// Optional-column visibility in the entries spreadsheet, keyed by column id
    /// ("tags", "status", or "custom:<field name>"). Absent means off.
    pub column_visible: HashMap<String, bool>,
    /// Entries-spreadsheet column display order, by id, left-to-right.
    pub column_order: Vec<String>,
    /// Whether the entries pane is showing the Bookshelf cover grid.
    pub bookshelf_view: bool,
    /// Recently opened library paths, most-recent-first, at most
    /// `MAX_RECENT_LIBRARIES` of them.
    pub recent_libraries: Vec<String>,
}

/// The automatic-backup interval a stored configuration that names none gets: 30 minutes.
pub fn default_auto_backup_interval() -> (m: u32)
    ensures
        m == 30,
{
    30
}

impl Default for Config {
    /// Everything unset, off or empty (the interval too: the 30-minute default applies
    /// only when a stored configuration is read and lacks the field).
    fn default() -> (c: Config)
        ensures
            c.library_path is None,
            c.theme is None,
            c.webdav_url is None,
            c.webdav_username is None,
            !c.auto_backup_enabled,
            c.auto_backup_interval_mins == 0,
            c.window_width is None,
            c.window_height is None,
            c.window_maximized is None,
            c.collections_pane_position is None,
            c.detail_pane_position is None,
            c.column_visible@ == Map::<String, bool>::empty(),
            c.column_order@.len() == 0,
            !c.bookshelf_view,
            c.recent_libraries@.len() == 0,
    {
        Config {
            library_path: None,
            theme: None,
            webdav_url: None,
            webdav_username: None,
            auto_backup_enabled: false,
            auto_backup_interval_mins: 0,
            window_width: None,
            window_height: None,
            window_maximized: None,
            collections_pane_position: None,
            detail_pane_position: None,
            column_visible: HashMap::new(),
            column_order: Vec::new(),
            bookshelf_view: false,
            recent_libraries: Vec::new(),
        }
    }
}

/// The colour scheme the window is given.
#[derive(Debug, Clone, Copy, PartialEq, Eq, Structural)]
pub enum ColorScheme {
    /// Follow the system.
    Default,
    ForceLight,
    ForceDark,
}

/// The colour scheme a theme setting names: "light" and "dark" force one; anything else
/// follows the system.
pub fn color_scheme(theme: &str) -> (c: ColorScheme)
    ensures
        c == (if theme@ == "light"@ {
            ColorScheme::ForceLight
        } else if theme@ == "dark"@ {
            ColorScheme::ForceDark
        } else {
            ColorScheme::Default
        }),
{
    if text::str_eq(theme, "light") {
        ColorScheme::ForceLight
    } else if text::str_eq(theme, "dark") {
        ColorScheme::ForceDark
    } else {
        ColorScheme::Default
    }
}

/// A finished path component, unless it is empty or `.` (which name nothing).
pub open spec fn flush(cur: Seq<char>) -> Seq<Seq<char>> {
    if cur.len() == 0 || cur == seq!['.'] {
        seq![]
    } else {
        seq![cur]
    }
}

/// The named components of `p` from position `i` on, `cur` being the component read so
/// far: the pieces between `/`s, empty pieces and `.` left out.
pub open spec fn components_from(p: Seq<char>, i: int, cur: Seq<char>) -> Seq<Seq<char>>
    decreases p.len() - i,
{
    if i < 0 || i >= p.len() {
        flush(cur)
    } else if p[i] == '/' {
        flush(cur) + components_from(p, i + 1, seq![])
    } else {
        components_from(p, i + 1, cur.push(p[i]))
    }
}

/// What a path starts with: the root (written `/`) for an absolute path, the current
/// directory (written `.`) for a relative path whose first piece is `.`, else nothing.
pub open spec fn path_lead(p: Seq<char>) -> Seq<Seq<char>> {
    if p.len() > 0 && p[0] == '/' {
        seq![seq!['/']]
    } else if p.len() > 0 && p[0] == '.' && (p.len() == 1 || p[1] == '/') {
        seq![seq!['.']]
    } else {
        seq![]
    }
}

/// The components `Path` compares a path by: its start, then its named components. Two
/// spellings of one path, such as `/l/a/`, `/l//a` and `/l/./a`, have the same
/// components.
pub open spec fn path_key(p: Seq<char>) -> Seq<Seq<char>> {
    path_lead(p) + components_from(p, 0, seq![])
}

/// `a` and `b` name the same path.
pub open spec fn same_path(a: Seq<char>, b: Seq<char>) -> bool {
    path_key(a) == path_key(b)
}

/// The components of `p`, as `path_key` gives them.
fn path_key_exec(p: &str) -> (r: Vec<Vec<char>>)
    ensures
        text::views(r@) == path_key(p@),
{
    let c = text::chars_of(p);
    let mut out: Vec<Vec<char>> = Vec::new();
    if c.len() > 0 && c[0] == '/' {
        let mut root: Vec<char> = Vec::new();
        root.push('/');
        out.push(root);
    } else if c.len() > 0 && c[0] == '.' && (c.len() == 1 || c[1] == '/') {
        let mut dot: Vec<char> = Vec::new();
        dot.push('.');
        out.push(dot);
    }
    assert(text::views(out@) =~= path_lead(p@));
    let mut cur: Vec<char> = Vec::new();
    let mut i: usize = 0;
    while i < c.len()
        invariant
            i <= c@.len(),
            c@ == p@,
            path_key(p@) == text::views(out@) + components_from(p@, i as int, cur@),
        decreases c.len() - i,
    {
        let ghost before = text::views(out@);
        if c[i] == '/' {
            if cur.len() > 0 && !(cur.len() == 1 && cur[0] == '.') {
                out.push(cur);
                assert(text::views(out@) =~= before + flush(cur@));
            } else {
                assert(cur@.len() == 1 ==> cur@ =~= seq!['.']);
                assert(before =~= before + flush(cur@));
            }
            cur = Vec::new();
            assert(before + (flush(cur@) + components_from(p@, i + 1, seq![]))
                =~= (before + flush(cur@)) + components_from(p@, i + 1, seq![]));
        } else {
            cur.push(c[i]);
        }
        i += 1;
    }
    let ghost before = text::views(out@);
    if cur.len() > 0 && !(cur.len() == 1 && cur[0] == '.') {
        out.push(cur);
        assert(text::views(out@) =~= before + flush(cur@));
    } else {
        assert(cur@.len() == 1 ==> cur@ =~= seq!['.']);
        assert(before =~= before + flush(cur@));
    }
    out
}

/// Whether `a` and `b` name the same path.
pub fn same_path_exec(a: &str, b: &str) -> (r: bool)
    ensures
        r == same_path(a@, b@),
{
    let x = path_key_exec(a);
    let y = path_key_exec(b);
    if x.len() != y.len() {
        return false;
    }
    let mut i: usize = 0;
    while i < x.len()
        invariant
            i <= x@.len() == y@.len(),
            text::views(x@) == path_key(a@),
            text::views(y@) == path_key(b@),
            forall|k: int| 0 <= k < i ==> x@[k]@ == y@[k]@,
        decreases x.len() - i,
    {
        if !text::chars_eq(&x[i], &y[i]) {
            assert(text::views(x@)[i as int] == x@[i as int]@);
            assert(text::views(y@)[i as int] == y@[i as int]@);
            assert(text::views(x@)[i as int] != text::views(y@)[i as int]);
            return false;
        }
        i += 1;
    }
    assert(text::views(x@) =~= text::views(y@));
    true
}

/// `list` without any entry naming the same path as `x`, order kept.
pub open spec fn without(list: Seq<Seq<char>>, x: Seq<char>) -> Seq<Seq<char>>
    decreases list.len(),
{
    if list.len() == 0 {
        seq![]
    } else {
        let rest = without(list.drop_first(), x);
        if same_path(list[0], x) {
            rest
        } else {
            seq![list[0]] + rest
        }
    }
}

/// The recent-libraries list after opening `path`: `path` first, then the earlier list
/// without the entries naming the same path, cut to `MAX_RECENT_LIBRARIES` entries.
pub open spec fn recent_after(list: Seq<Seq<char>>, path: Seq<char>) -> Seq<Seq<char>> {
    let full = seq![path] + without(list, path);
    if full.len() > MAX_RECENT_LIBRARIES {
        full.take(MAX_RECENT_LIBRARIES as int)
    } else {
        full
    }
}

/// No two entries name the same path.
pub open spec fn no_duplicates(list: Seq<Seq<char>>) -> bool {
    forall|i: int, j: int| 0 <= i < j < list.len() ==> !same_path(list[i], list[j])
}

/// Where the window opens: its size and the positions of its two pane splits.
#[derive(Debug, Clone, Copy, PartialEq, Eq, Structural)]
pub struct WindowGeometry {
    pub width: i32,
    pub height: i32,
    /// Entries-spreadsheet/detail-pane split.
    pub detail_pane: i32,
    /// Collections-sidebar/rest split.
    pub collections_pane: i32,
}

/// `v`, or `d` when unset.
pub open spec fn or_default(v: Option<i32>, d: i32) -> i32 {
    match v {
        Some(x) => x,
        None => d,
    }
}

/// What the window does as it opens, besides its geometry.
#[derive(Debug, Clone)]
pub struct WindowStart {
    /// Whether it opens maximized.
    pub maximized: bool,
    /// The theme setting it applies (and shows as chosen in the menu).
    pub theme: String,
    /// The colour scheme that setting names.
    pub color_scheme: ColorScheme,
    /// The library it reopens, if any.
    pub reopen: Option<String>,
}

/// The theme setting in force: the saved one, "system" when none was saved.
pub open spec fn theme_in_force(theme: Option<String>) -> Seq<char> {
    match theme {
        Some(t) => t@,
        None => "system"@,
    }
}

impl Config {
    /// The theme setting in force.
    pub fn theme_name(&self) -> (r: String)
        ensures
            r@ == theme_in_force(self.theme),
    {
        match &self.theme {
            Some(t) => text::owned(t.as_str()),
            None => text::owned("system"),
        }
    }

    /// How the window opens: maximized exactly when that was saved as on; with the theme
    /// in force and its colour scheme; and reopening the last library exactly when one is
    /// set and `library_is_dir` (whether that path is a directory) holds.
    pub fn window_start(&self, library_is_dir: bool) -> (w: WindowStart)
        ensures
            w.maximized == (self.window_maximized == Some(true)),
            w.theme@ == theme_in_force(self.theme),
            w.color_scheme == (if theme_in_force(self.theme) == "light"@ {
                ColorScheme::ForceLight
            } else if theme_in_force(self.theme) == "dark"@ {
                ColorScheme::ForceDark
            } else {
                ColorScheme::Default
            }),
            match self.library_path {
                Some(p) => if library_is_dir {
                    w.reopen matches Some(q) && q@ == p@
                } else {
                    w.reopen is None
                },
                None => w.reopen is None,
            },
    {
        let maximized = match self.window_maximized {
            Some(m) => m,
            None => false,
        };
        let theme = self.theme_name();
        let color_scheme = color_scheme(theme.as_str());
        let reopen = match &self.library_path {
            Some(p) => if library_is_dir {
                Some(text::owned(p.as_str()))
            } else {
                None
            },
            None => None,
        };
        WindowStart { maximized, theme, color_scheme, reopen }
    }

    /// The geometry the window is restored to: each saved value, or its default when none
    /// was saved (1300 by 680, the detail split at 780, the collections split at 190).
    pub fn window_geometry(&self) -> (g: WindowGeometry)
        ensures
            g.width == or_default(self.window_width, 1300),
            g.height == or_default(self.window_height, 680),
            g.detail_pane == or_default(self.detail_pane_position, 780),
            g.collections_pane == or_default(self.collections_pane_position, 190),
    {
        WindowGeometry {
            width: match self.window_width {
                Some(x) => x,
                None => 1300,
            },
            height: match self.window_height {
                Some(x) => x,
                None => 680,
            },
            detail_pane: match self.detail_pane_position {
                Some(x) => x,
                None => 780,
            },
            collections_pane: match self.collections_pane_position {
                Some(x) => x,
                None => 190,
            },
        }
    }

    /// Records `path` as just-opened: moves it to the front of the recent-libraries list
    /// (dropping any earlier entry naming the same path, however it is spelled, so it
    /// doesn't appear twice) and caps the list length.
    pub fn record_recent_library(&mut self, path: &str)
        ensures
            text::string_views(final(self).recent_libraries@) == recent_after(
                text::string_views(old(self).recent_libraries@),
                path@,
            ),
            final(self).library_path == old(self).library_path,
            final(self).theme == old(self).theme,
            final(self).webdav_url == old(self).webdav_url,
            final(self).webdav_username == old(self).webdav_username,
            final(self).auto_backup_enabled == old(self).auto_backup_enabled,
            final(self).auto_backup_interval_mins == old(self).auto_backup_interval_mins,
            final(self).window_width == old(self).window_width,
            final(self).window_height == old(self).window_height,
            final(self).window_maximized == old(self).window_maximized,
            final(self).collections_pane_position == old(self).collections_pane_position,
            final(self).detail_pane_position == old(self).detail_pane_position,
            final(self).column_visible == old(self).column_visible,
            final(self).column_order == old(self).column_order,
            final(self).bookshelf_view == old(self).bookshelf_view,
    {
        let ghost old_list = text::string_views(self.recent_libraries@);
        let p = text::chars_of(path);
        let mut kept: Vec<String> = Vec::new();
        let mut k: usize = 0;
        let n = self.recent_libraries.len();
        assert(old_list.skip(0) =~= old_list);
        assert(text::string_views(kept@) + without(old_list, path@) =~= without(old_list, path@));
        while k < n
            invariant
                k <= n == self.recent_libraries@.len(),
                old_list == text::string_views(self.recent_libraries@),
                p@ == path@,
                without(old_list, path@) == text::string_views(kept@) + without(
                    old_list.skip(k as int),
                    path@,
                ),
            decreases n - k,
        {
            assert(old_list.skip(k as int)[0] == self.recent_libraries@[k as int]@);
            assert(old_list.skip(k as int).drop_first() =~= old_list.skip(k + 1));
            let entry = text::chars_of(self.recent_libraries[k].as_str());
            if !same_path_exec(self.recent_libraries[k].as_str(), path) {
                let ghost before = text::string_views(kept@);
                let cloned = text::owned(self.recent_libraries[k].as_str());
                kept.push(cloned);
                assert(text::string_views(kept@) =~= before.push(entry@));
                assert(before + (seq![entry@] + without(old_list.skip(k + 1), path@))
                    =~= before.push(entry@) + without(old_list.skip(k + 1), path@));
            }
            k += 1;
        }
        assert(old_list.skip(n as int) =~= Seq::<Seq<char>>::empty());
        assert(text::string_views(kept@) + Seq::<Seq<char>>::empty() =~= text::string_views(
            kept@,
        ));
        let ghost kept_views = text::string_views(kept@);
        kept.insert(0, text::owned(path));
        assert(text::string_views(kept@) =~= seq![path@] + kept_views);
        let ghost full = text::string_views(kept@);
        kept.truncate(MAX_RECENT_LIBRARIES);
        assert(text::string_views(kept@) =~= recent_after(old_list, path@));
        self.recent_libraries = kept;
    }
}

// ---------------------------------------------------------------------------
// Laws of the recent-libraries list
// ---------------------------------------------------------------------------

pub proof fn lemma_tail_contains(list: Seq<Seq<char>>, v: Seq<char>)
    requires
        list.len() > 0,
        list.drop_first().contains(v),
    ensures
        list.contains(v),
{
    let m = choose|m: int| 0 <= m < list.drop_first().len() && list.drop_first()[m] == v;
    assert(list[m + 1] == v);
}

pub proof fn lemma_without_excludes(list: Seq<Seq<char>>, x: Seq<char>)
    ensures
        without(list, x).len() <= list.len(),
        forall|k: int|
            0 <= k < without(list, x).len() ==> !same_path(#[trigger] without(list, x)[k], x)
                && list.contains(without(list, x)[k]),
    decreases list.len(),
{
    if list.len() > 0 {
        let tail = list.drop_first();
        lemma_without_excludes(tail, x);
        let rest = without(tail, x);
        let w = without(list, x);
        assert forall|k: int| 0 <= k < w.len() implies !same_path(#[trigger] w[k], x)
            && list.contains(w[k]) by {
            if !same_path(list[0], x) {
                if k > 0 {
                    assert(w[k] == rest[k - 1]);
                    lemma_tail_contains(list, rest[k - 1]);
                } else {
                    assert(list[0] == w[0]);
                }
            } else {
                assert(w[k] == rest[k]);
                lemma_tail_contains(list, rest[k]);
            }
        }
    }
}

pub proof fn lemma_without_keeps_distinct(list: Seq<Seq<char>>, x: Seq<char>)
    requires
        no_duplicates(list),
    ensures
        no_duplicates(without(list, x)),
    decreases list.len(),
{
    if list.len() > 0 {
        let tail = list.drop_first();
        assert(no_duplicates(tail)) by {
            assert forall|i: int, j: int| 0 <= i < j < tail.len() implies !same_path(
                tail[i],
                tail[j],
            ) by {
                assert(!same_path(list[i + 1], list[j + 1]));
            }
        }
        lemma_without_keeps_distinct(tail, x);
        lemma_without_excludes(tail, x);
        let rest = without(tail, x);
        if !same_path(list[0], x) {
            let w = without(list, x);
            assert forall|i: int, j: int| 0 <= i < j < w.len() implies !same_path(w[i], w[j]) by {
                if i == 0 {
                    assert(w[j] == rest[j - 1]);
                    assert(tail.contains(rest[j - 1]));
                    let m = choose|m: int| 0 <= m < tail.len() && tail[m] == rest[j - 1];
                    assert(list[m + 1] == tail[m]);
                    assert(!same_path(list[0], list[m + 1]));
                } else {
                    assert(w[i] == rest[i - 1]);
                    assert(w[j] == rest[j - 1]);
                }
            }
        }
    }
}

/// After recording `path`, it is the most recent entry, no other entry names the same
/// path, the list holds at most `MAX_RECENT_LIBRARIES` entries, and every entry was either
/// `path` or on the list before.
pub proof fn law_recent_front_and_bounded(list: Seq<Seq<char>>, path: Seq<char>)
    ensures
        recent_after(list, path).len() > 0,
        recent_after(list, path)[0] == path,
        recent_after(list, path).len() <= MAX_RECENT_LIBRARIES,
        forall|k: int|
            0 < k < recent_after(list, path).len() ==> !same_path(
                #[trigger] recent_after(list, path)[k],
                path,
            ),
        forall|y: Seq<char>| #[trigger]
            recent_after(list, path).contains(y) ==> y == path || list.contains(y),
{
    lemma_without_excludes(list, path);
    let full = seq![path] + without(list, path);
    let r = recent_after(list, path);
    assert forall|k: int| 0 < k < r.len() implies !same_path(#[trigger] r[k], path) by {
        assert(r[k] == full[k]);
        assert(full[k] == without(list, path)[k - 1]);
    }
    assert forall|y: Seq<char>| #[trigger] r.contains(y) implies y == path || list.contains(y) by {
        let k = choose|k: int| 0 <= k < r.len() && r[k] == y;
        if k > 0 {
            assert(full[k] == without(list, path)[k - 1]);
            assert(list.contains(without(list, path)[k - 1]));
        }
    }
}

/// Recording keeps the list free of two entries naming the same path.
pub proof fn law_recent_keeps_distinct(list: Seq<Seq<char>>, path: Seq<char>)
    requires
        no_duplicates(list),
    ensures
        no_duplicates(recent_after(list, path)),
{
    lemma_without_keeps_distinct(list, path);
    lemma_without_excludes(list, path);
    let w = without(list, path);
    let full = seq![path] + w;
    assert(no_duplicates(full)) by {
        assert forall|i: int, j: int| 0 <= i < j < full.len() implies !same_path(
            full[i],
            full[j],
        ) by {
            if i == 0 {
                assert(full[j] == w[j - 1]);
                assert(!same_path(w[j - 1], path));
            } else {
                assert(full[i] == w[i - 1]);
                assert(full[j] == w[j - 1]);
            }
        }
    }
    let r = recent_after(list, path);
    assert forall|i: int, j: int| 0 <= i < j < r.len() implies !same_path(r[i], r[j]) by {
        assert(r[i] == full[i]);
        assert(r[j] == full[j]);
    }
}

/// Recording the same path twice in a row is the same as recording it once.
pub proof fn law_recent_idempotent(list: Seq<Seq<char>>, path: Seq<char>)
    ensures
        recent_after(recent_after(list, path), path) == recent_after(list, path),
{
    law_recent_front_and_bounded(list, path);
    let r = recent_after(list, path);
    let tail = r.drop_first();
    assert forall|k: int| 0 <= k < tail.len() implies !same_path(#[trigger] tail[k], path) by {
        assert(tail[k] == r[k + 1]);
    }
    lemma_without_absent(tail, path);
    assert(r =~= seq![path] + tail);
    assert(without(r, path) == without(tail, path)) by {
        assert(r[0] == path);
        assert(r.drop_first() =~= tail);
    }
    assert(seq![path] + without(r, path) =~= r);
}

pub proof fn lemma_without_absent(list: Seq<Seq<char>>, x: Seq<char>)
    requires
        forall|k: int| 0 <= k < list.len() ==> !same_path(#[trigger] list[k], x),
    ensures
        without(list, x) == list,
    decreases list.len(),
{
    if list.len() > 0 {
        let t = list.drop_first();
        assert forall|k: int| 0 <= k < t.len() implies !same_path(#[trigger] t[k], x) by {
            assert(t[k] == list[k + 1]);
        }
        lemma_without_absent(t, x);
        assert(!same_path(list[0], x));
        assert(seq![list[0]] + t =~= list);
    }
}

} // verus!
