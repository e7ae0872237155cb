use kartoteka::backup::{
    auto_backup_notice, auto_backup_period_secs, auto_backup_steps, backup_failed_notice,
    backup_wizard_plan, copy_skips, not_signed_in_message, repo_name_missing_notice,
    sign_in_expired_notice, signed_in_intro,
    interval_choice_index, interval_choices, interval_minutes_at, mirror_failure_message,
    push_failure_message, webdav_credentials, BackupSteps,
};

#[test]
fn interval_choices_and_selection() {
    let c = interval_choices();
    assert_eq!(c[2], ("Every hour", 60));
    assert_eq!(interval_choice_index(0), 1);
    assert_eq!(interval_choice_index(15), 0);
    assert_eq!(interval_choice_index(240), 3);
    assert_eq!(interval_choice_index(7), 1);
    assert_eq!(interval_minutes_at(3), 240);
    assert_eq!(interval_minutes_at(9), 30);
}

#[test]
fn timer_period() {
    assert_eq!(auto_backup_period_secs(false, 30), None);
    assert_eq!(auto_backup_period_secs(true, 30), Some(1800));
    assert_eq!(auto_backup_period_secs(true, 0), Some(60));
    assert_eq!(auto_backup_period_secs(true, u32::MAX), Some(u32::MAX as u64 * 60));
}

#[test]
fn webdav_needs_all_three_and_a_url() {
    let s = |x: &str| Some(x.to_string());
    assert_eq!(
        webdav_credentials(s("https://d"), s("me"), s("pw")),
        Some(("https://d".to_string(), "me".to_string(), "pw".to_string()))
    );
    assert_eq!(webdav_credentials(s(""), s("me"), s("pw")), None);
    assert_eq!(webdav_credentials(s("https://d"), None, s("pw")), None);
    assert_eq!(webdav_credentials(s("https://d"), s("me"), None), None);
}

#[test]
fn copy_filter() {
    assert!(copy_skips(Some(".git"), true));
    assert!(copy_skips(Some(".kartoteka"), true));
    assert!(!copy_skips(Some(".git"), false));
    assert!(!copy_skips(Some("entries"), true));
    assert!(!copy_skips(None, true));
}

#[test]
fn backup_steps() {
    assert_eq!(auto_backup_steps(true, true, true, true), BackupSteps { commit: false, push: false, mirror: false });
    assert_eq!(auto_backup_steps(false, true, false, true), BackupSteps { commit: true, push: false, mirror: true });
    assert_eq!(auto_backup_steps(false, true, true, false), BackupSteps { commit: true, push: true, mirror: false });
}

#[test]
fn backup_messages() {
    assert_eq!(push_failure_message("401"), "committed locally, but GitHub push failed: 401");
    assert_eq!(mirror_failure_message("x"), "committed locally, but WebDAV backup failed: x");
    assert_eq!(auto_backup_notice("y"), "Automatic backup: y");
}

#[test]
fn backup_wizard_plans() {
    assert!(backup_wizard_plan("   ", false, true, false).is_none());
    let p = backup_wizard_plan(" my-library ", false, true, false).unwrap();
    assert_eq!(p.repo, "my-library");
    assert!(p.commit && p.create_repo && p.push && !p.not_signed_in);
    let q = backup_wizard_plan("lib", true, true, true).unwrap();
    assert!(!q.commit && !q.create_repo && q.push);
    let r = backup_wizard_plan("lib", false, false, false).unwrap();
    assert!(r.commit && !r.create_repo && !r.push && r.not_signed_in);
    assert_eq!(repo_name_missing_notice(), "Enter a repository name");
    assert_eq!(not_signed_in_message(), "not signed in to GitHub");
    assert_eq!(backup_failed_notice("x"), "Backup failed: x");
    assert_eq!(
        signed_in_intro("cal"),
        "Signed in as cal. Choose a name for the GitHub repository that will hold your library:"
    );
    assert_eq!(
        sign_in_expired_notice("401"),
        "GitHub sign-in has expired (401) — sign in again from the hamburger menu"
    );
}
