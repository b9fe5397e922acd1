use annex_archiver::commands::{
    closing_log_line, follow_command, outcome_text, progress_text, unit_label, unit_text,
    CommandEvent, Unit,
};
use annex_archiver::maintain::{
    check_command, check_targets, dropunused_command, listed_targets, owns_metadata,
    preparation_commands, satisfy_command, target_text, timeout_seconds, untrack_embedded_git,
    untracked_line,
};
use annex_archiver::sync::{plan_sync_commands, sync_result, sync_succeeded, unchanged_arguments};
use annex_archiver::text::extend_texts;
use std::path::Path;

fn strings(items: &[&str]) -> Vec<String> {
    items.iter().map(|s| s.to_string()).collect()
}

#[test]
fn closing_lines() {
    assert_eq!(outcome_text(true), "ok");
    assert_eq!(outcome_text(false), "not ok");
    assert_eq!(closing_log_line("git-fsck \"/r\"", true), "git-fsck \"/r\" ok");
    assert_eq!(closing_log_line("allocate-repo-files /r", false), "allocate-repo-files /r not ok");
}

#[test]
fn units_and_progress() {
    assert_eq!(unit_text(Unit::CheckContent, "\"/r\"", Some("origin")), "git-annex-fsck \"/r\" origin");
    assert_eq!(unit_text(Unit::CheckContent, "\"/r\"", Some("here")), "git-annex-fsck \"/r\" here");
    assert_eq!(unit_text(Unit::Fsck, "\"/r\"", None), "git-fsck \"/r\"");
    assert_eq!(unit_text(Unit::AllocatePass, "/r", None), "allocate-repo-files /r");
    assert_eq!(progress_text(0, "/", 3), "1/3");
    assert_eq!(progress_text(2, " of ", 3), "3 of 3");
    assert_eq!(progress_text(9, "/", 10), "10/10");
    assert_eq!(progress_text(usize::MAX, "/", 0), format!("{}/0", usize::MAX as u128 + 1));
}

#[test]
fn a_process_is_followed_to_its_end() {
    let reaction = follow_command("git-fsck \"/r\"", CommandEvent::Line("checking".to_string()));
    assert_eq!(reaction.line.as_deref(), Some("checking"));
    assert_eq!(reaction.finished, None);

    let reaction = follow_command("git-fsck \"/r\"", CommandEvent::Exited { success: true });
    assert_eq!(reaction.line.as_deref(), Some("git-fsck \"/r\" ok"));
    assert_eq!(reaction.finished, Some(true));

    let reaction = follow_command("git-fsck \"/r\"", CommandEvent::Exited { success: false });
    assert_eq!(reaction.line.as_deref(), Some("git-fsck \"/r\" not ok"));
    assert_eq!(reaction.finished, Some(false));

    let reaction = follow_command("p", CommandEvent::ReadFailed);
    assert_eq!(reaction.line, None);
    assert_eq!(reaction.finished, Some(false));

    let reaction = follow_command("p", CommandEvent::WaitFailed);
    assert_eq!(reaction.line, None);
    assert_eq!(reaction.finished, Some(false));
}

#[test]
fn sync_commands() {
    assert_eq!(unchanged_arguments(), strings(&["ls-files", "-z", ":(attr:annex.archiver.unchanged)*"]));
    let plan = plan_sync_commands(false, &strings(&["a", "b"]), &strings(&["origin", "vault"]));
    assert_eq!(plan.hide_unchanged, Some(strings(&["update-index", "--assume-unchanged", "a", "b"])));
    assert_eq!(plan.assist, Some(strings(&["annex", "assist", "origin", "vault"])));
    assert_eq!(plan.show_unchanged, strings(&["update-index", "--no-assume-unchanged", "a", "b"]));

    let plan = plan_sync_commands(true, &strings(&["a"]), &strings(&["origin"]));
    assert_eq!(plan.hide_unchanged, None);
    assert_eq!(plan.assist, Some(strings(&["annex", "assist", "--all", "origin"])));
    assert_eq!(plan.show_unchanged, strings(&["update-index", "--no-assume-unchanged", "a"]));

    let plan = plan_sync_commands(false, &Vec::new(), &Vec::new());
    assert_eq!(plan.hide_unchanged, Some(strings(&["update-index", "--assume-unchanged"])));
    assert_eq!(plan.assist, None);
    assert_eq!(plan.show_unchanged, strings(&["update-index", "--no-assume-unchanged"]));
}

#[test]
fn sync_results() {
    assert!(sync_result(Some(true)));
    assert!(!sync_result(Some(false)));
    assert!(!sync_result(None));
    assert!(sync_succeeded(&Vec::new()));
    assert!(sync_succeeded(&vec![true]));
    assert!(!sync_succeeded(&vec![true, false]));
}

#[test]
fn lists_are_extended_in_order() {
    let mut list = strings(&["a"]);
    extend_texts(&mut list, &strings(&["b", "c"]));
    assert_eq!(list, strings(&["a", "b", "c"]));
}

#[test]
fn maintenance_commands() {
    let prepared = preparation_commands();
    assert_eq!(
        prepared,
        vec![
            (Unit::Fsck, strings(&["fsck"])),
            (Unit::Unused, strings(&["annex", "unused"])),
            (Unit::Restage, strings(&["annex", "restage"])),
        ]
    );
    assert_eq!(satisfy_command(&strings(&["a", "b"])), strings(&["annex", "satisfy", "--all", "a", "b"]));
    assert_eq!(satisfy_command(&Vec::new()), strings(&["annex", "satisfy", "--all"]));
    assert_eq!(
        check_command(&Some("vault".to_string())),
        strings(&["annex", "fsck", "--incremental-schedule=15d", "--time-limit=2h", "--all", "--from=vault"])
    );
    assert_eq!(
        check_command(&None),
        strings(&["annex", "fsck", "--incremental-schedule=15d", "--time-limit=2h", "--all"])
    );
    assert_eq!(dropunused_command(&Some("vault".to_string())), strings(&["annex", "dropunused", "all", "--from=vault"]));
    assert_eq!(dropunused_command(&None), strings(&["annex", "dropunused", "all"]));
    assert_eq!(target_text(&Some("vault".to_string())), "vault");
    assert_eq!(target_text(&None), "here");
}

#[test]
fn targets_are_the_remotes_and_here() {
    let remotes = strings(&["a", "b"]);
    assert_eq!(
        listed_targets(&remotes),
        vec![Some("a".to_string()), Some("b".to_string()), None]
    );
    assert_eq!(listed_targets(&Vec::new()), vec![None]);
}

#[test]
fn check_order_is_a_permutation_that_varies() {
    let remotes: Vec<String> = (0..40).map(|i| format!("remote{}", i)).collect();
    let mut listed = listed_targets(&remotes);
    listed.sort();
    let mut moved = false;
    for _ in 0..20 {
        let targets = check_targets(&remotes);
        if targets != listed_targets(&remotes) {
            moved = true;
        }
        let mut sorted = targets.clone();
        sorted.sort();
        assert_eq!(sorted, listed);
    }
    assert!(moved);
}

#[test]
fn timeout_in_seconds() {
    assert_eq!(timeout_seconds(0), Some(0));
    assert_eq!(timeout_seconds(120), Some(7_200));
    assert_eq!(timeout_seconds(u64::MAX / 60), Some(u64::MAX / 60 * 60));
    assert_eq!(timeout_seconds(u64::MAX / 60 + 1), None);
    assert_eq!(timeout_seconds(u64::MAX), None);
}

#[test]
fn embedded_repositories_are_untracked() {
    assert_eq!(
        untrack_embedded_git("/r", "/r/sub/.git"),
        Some(strings(&["rm", "-r", "--cached", "/r/sub/"]))
    );
    assert_eq!(
        untrack_embedded_git("/r", "/r/a/b/.git"),
        Some(strings(&["rm", "-r", "--cached", "/r/a/b/"]))
    );
    assert_eq!(untrack_embedded_git("/r", "/r/.git"), None);
    assert_eq!(untrack_embedded_git("/r/", "/r/.git"), None);
    assert_eq!(untrack_embedded_git("/r", "/r/sub/.gitignore"), None);
}

#[test]
fn own_metadata_agrees_with_path_comparison() {
    let cases = [
        ("/r", "/r/.git"),
        ("/r/", "/r/.git"),
        ("/r", "/r/sub/.git"),
        ("/r//x/.", "/r/x/.git"),
        ("r", "r/.git"),
        ("./r", "r/.git"),
        ("r", "./r/.git"),
        ("./r", "./r/.git"),
        (".", "./.git"),
        (".", ".git"),
        ("", ".git"),
        ("/", "/.git"),
        ("/r", "r/.git"),
        ("/a/..", "/a/../.git"),
        ("/a", "/a/b/../.git"),
    ];
    for (root, entry) in cases {
        let expected = Path::new(entry).parent().map(|p| p == Path::new(root)).unwrap_or(false);
        assert_eq!(owns_metadata(root, entry), expected, "{:?} {:?}", root, entry);
    }
}

#[test]
fn unit_labels() {
    let expected = [
        (Unit::ProbeRemotes, "test-available-remotes"),
        (Unit::AllocatePass, "allocate-repo-files"),
        (Unit::Mirrors, "make-embedded-git-copies"),
        (Unit::Untrack, "untracked-embedded-git"),
        (Unit::Drop, "git-annex-drop"),
        (Unit::Fetch, "git-annex-get"),
        (Unit::HideUnchanged, "git-update-index-assume-unchanged"),
        (Unit::Assist, "git-annex-assist"),
        (Unit::ShowUnchanged, "git-update-index-no-assume-unchanged"),
        (Unit::Fsck, "git-fsck"),
        (Unit::Unused, "git-annex-unused"),
        (Unit::Restage, "git-annex-restage"),
        (Unit::Satisfy, "git-annex-satisfy"),
        (Unit::CheckContent, "git-annex-fsck"),
        (Unit::DropUnused, "git-annex-dropunused"),
    ];
    for (unit, label) in expected {
        assert_eq!(unit_label(unit), label);
    }
}

#[test]
fn untracked_repository_is_reported() {
    assert_eq!(untracked_line("/r/sub/.git"), "git-rm-cached /r/sub/.git ok");
}
