//! The decisions of the backup features: the automatic-backup timer and its interval
//! choices, what one automatic backup does, which WebDAV settings are complete, and which
//! directories a library copy leaves out.

use vstd::prelude::*;

use crate::text;

verus! {

/// The automatic-backup interval choices offered, with their minute values.
pub fn interval_choices() -> (v: Vec<(&'static str, u32)>)
    ensures
        v@.len() == 4,
        v@[0].0@ == "Every 15 minutes"@ && v@[0].1 == 15,
        v@[1].0@ == "Every 30 minutes"@ && v@[1].1 == 30,
        v@[2].0@ == "Every hour"@ && v@[2].1 == 60,
        v@[3].0@ == "Every 4 hours"@ && v@[3].1 == 240,
{
    let mut v: Vec<(&'static str, u32)> = Vec::new();
    v.push(("Every 15 minutes", 15));
    v.push(("Every 30 minutes", 30));
    v.push(("Every hour", 60));
    v.push(("Every 4 hours", 240));
    v
}

/// The minute values of the interval choices, in order.
pub open spec fn choice_minutes() -> Seq<u32> {
    seq![15u32, 30, 60, 240]
}

/// The choice a stored interval selects in the dialog: an unset (zero) interval counts
/// as 30 minutes; a value that is not one of the choices selects the second choice.
pub open spec fn choice_index(minutes: u32) -> int {
    let m = if minutes == 0 {
        30
    } else {
        minutes
    };
    if m == 15 {
        0
    } else if m == 30 {
        1
    } else if m == 60 {
        2
    } else if m == 240 {
        3
    } else {
        1
    }
}

/// The choice the dialog shows selected for a stored interval.
pub fn interval_choice_index(minutes: u32) -> (i: usize)
    ensures
        i == choice_index(minutes),
{
    let m = if minutes == 0 {
        30
    } else {
        minutes
    };
    let choices = interval_choices();
    let mut i: usize = 0;
    while i < choices.len()
        invariant
            i <= 4,
            choices@.len() == 4,
            m == (if minutes == 0 {
                30
            } else {
                minutes
            }),
            forall|k: int| 0 <= k < 4 ==> (#[trigger] choices@[k]).1 == choice_minutes()[k],
            forall|k: int| 0 <= k < i ==> choice_minutes()[k] != m,
        decreases 4 - i,
    {
        if choices[i].1 == m {
            return i;
        }
        i += 1;
    }
    1
}

/// The interval, in minutes, of the choice at `selected` (30 minutes when there is no
/// such choice).
pub fn interval_minutes_at(selected: u32) -> (m: u32)
    ensures
        m == (if selected < 4 {
            choice_minutes()[selected as int]
        } else {
            30
        }),
{
    let choices = interval_choices();
    if selected < 4 {
        choices[selected as usize].1
    } else {
        30
    }
}

/// How often the automatic backup runs: every `interval_mins` minutes (at least one), in
/// seconds; `None` when automatic backups are off.
pub fn auto_backup_period_secs(enabled: bool, interval_mins: u32) -> (r: Option<u64>)
    ensures
        enabled <==> r is Some,
        r matches Some(s) ==> s == 60 * (if interval_mins < 1 {
            1
        } else {
            interval_mins as int
        }),
{
    if !enabled {
        return None;
    }
    let minutes: u64 = if interval_mins < 1 {
        1
    } else {
        interval_mins as u64
    };
    Some(minutes * 60)
}

/// The WebDAV target an automatic backup mirrors to: the URL, user name and password,
/// when all three are known and the URL is not empty.
pub fn webdav_credentials(
    url: Option<String>,
    user: Option<String>,
    password: Option<String>,
) -> (r: Option<(String, String, String)>)
    ensures
        r is Some <==> (url is Some && user is Some && password is Some && url->0@.len() > 0),
        r matches Some(c) ==> c.0 == url->0 && c.1 == user->0 && c.2 == password->0,
{
    match (url, user, password) {
        (Some(u), Some(n), Some(p)) => {
            if u.as_str().is_empty() {
                None
            } else {
                Some((u, n, p))
            }
        },
        _ => None,
    }
}

/// Whether a library copy leaves out a directory entry named `name` (`None` when the
/// name is not valid Unicode): when asked to, it skips `.git` and `.kartoteka`.
pub fn copy_skips(name: Option<&str>, skip_git_and_cache: bool) -> (b: bool)
    ensures
        b == (skip_git_and_cache && match name {
            Some(n) => n@ == ".git"@ || n@ == ".kartoteka"@,
            None => false,
        }),
{
    if !skip_git_and_cache {
        return false;
    }
    match name {
        Some(n) => text::str_eq(n, ".git") || text::str_eq(n, ".kartoteka"),
        None => false,
    }
}

/// What one automatic backup does, given the library's state: nothing when the working
/// tree is clean; otherwise commit, then push to GitHub when signed in and a remote is
/// configured, then mirror to WebDAV when it is configured.
#[derive(Debug, Clone, Copy, PartialEq, Eq, Structural)]
pub struct BackupSteps {
    pub commit: bool,
    pub push: bool,
    pub mirror: bool,
}

pub fn auto_backup_steps(clean: bool, signed_in: bool, has_remote: bool, has_webdav: bool) -> (s:
    BackupSteps)
    ensures
        s.commit == !clean,
        s.push == (!clean && signed_in && has_remote),
        s.mirror == (!clean && has_webdav),
{
    if clean {
        BackupSteps { commit: false, push: false, mirror: false }
    } else {
        BackupSteps { commit: true, push: signed_in && has_remote, mirror: has_webdav }
    }
}

/// The failure message when the push after an automatic commit fails with `e`.
pub fn push_failure_message(e: &str) -> (s: String)
    ensures
        s@ == "committed locally, but GitHub push failed: "@ + e@,
{
    let mut s = text::owned("committed locally, but GitHub push failed: ");
    text::push_str(&mut s, e);
    s
}

/// The failure message when the WebDAV mirror after an automatic commit fails with `e`.
pub fn mirror_failure_message(e: &str) -> (s: String)
    ensures
        s@ == "committed locally, but WebDAV backup failed: "@ + e@,
{
    let mut s = text::owned("committed locally, but WebDAV backup failed: ");
    text::push_str(&mut s, e);
    s
}

/// The notice shown when an automatic backup fails with `e`.
pub fn auto_backup_notice(e: &str) -> (s: String)
    ensures
        s@ == "Automatic backup: "@ + e@,
{
    let mut s = text::owned("Automatic backup: ");
    text::push_str(&mut s, e);
    s
}

/// What the backup wizard does once its repository step is filled in.
#[derive(Debug, Clone)]
pub struct WizardPlan {
    /// The repository name, trimmed.
    pub repo: String,
    /// Commit the library's changes first.
    pub commit: bool,
    /// Create the GitHub repository and set it as `origin`.
    pub create_repo: bool,
    /// Push to GitHub.
    pub push: bool,
    /// Stop after committing: not signed in to GitHub.
    pub not_signed_in: bool,
}

/// The backup wizard's plan for the repository name typed (`None`: the name is blank, and
/// the wizard asks for one), given whether the library has uncommitted changes, whether
/// the user is signed in, and whether the library already has an `origin` remote. The
/// repository is created only on the first backup (no `origin` yet).
pub fn backup_wizard_plan(repo_name: &str, clean: bool, signed_in: bool, has_origin: bool) -> (p:
    Option<WizardPlan>)
    ensures
        p is None <==> text::trim(repo_name@).len() == 0,
        p matches Some(w) ==> w.repo@ == text::trim(repo_name@) && w.commit == !clean
            && w.create_repo == (signed_in && !has_origin) && w.push == signed_in
            && w.not_signed_in == !signed_in,
{
    let t = text::trim_chars(&text::chars_of(repo_name));
    if t.len() == 0 {
        return None;
    }
    Some(
        WizardPlan {
            repo: text::string_from(&t),
            commit: !clean,
            create_repo: signed_in && !has_origin,
            push: signed_in,
            not_signed_in: !signed_in,
        },
    )
}

/// The notice when the backup wizard's repository name is blank.
pub fn repo_name_missing_notice() -> (s: &'static str)
    ensures
        s@ == "Enter a repository name"@,
{
    "Enter a repository name"
}

/// The failure when the wizard finds no GitHub sign-in.
pub fn not_signed_in_message() -> (s: &'static str)
    ensures
        s@ == "not signed in to GitHub"@,
{
    "not signed in to GitHub"
}

/// The notice when the wizard's backup fails with `e`.
pub fn backup_failed_notice(e: &str) -> (s: String)
    ensures
        s@ == "Backup failed: "@ + e@,
{
    let mut s = text::owned("Backup failed: ");
    text::push_str(&mut s, e);
    s
}

/// The wizard's greeting once signed in as `user`.
pub fn signed_in_intro(user: &str) -> (s: String)
    ensures
        s@ == "Signed in as "@ + user@
            + ". Choose a name for the GitHub repository that will hold your library:"@,
{
    let mut s = text::owned("Signed in as ");
    text::push_str(&mut s, user);
    text::push_str(&mut s, ". Choose a name for the GitHub repository that will hold your library:");
    s
}

/// The notice when a stored GitHub sign-in no longer works (`e`).
pub fn sign_in_expired_notice(e: &str) -> (s: String)
    ensures
        s@ == "GitHub sign-in has expired ("@ + e@ + ") — sign in again from the hamburger menu"@,
{
    let mut s = text::owned("GitHub sign-in has expired (");
    text::push_str(&mut s, e);
    text::push_str(&mut s, ") — sign in again from the hamburger menu");
    s
}

} // verus!
