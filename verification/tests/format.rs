use annex_archiver::format::{
    compose_command_log, compose_command_log_path, compose_dt, compose_latest_submenu_item_text,
    compose_latest_submenu_text, compose_next_item_text, format_command_log_path, format_dt,
    format_latest_submenu_item_text, format_latest_submenu_text, format_maintain_status_text,
    format_next_item_text, format_repo_path_display, format_repo_path_suffix,
    format_schedule_active_text, format_sync_status_text, parse_command_log_path,
    parse_status_line, starts_with_identifier,
};
use annex_archiver::paths::{join_path, path_components, path_file_name, starts_at_root, starts_with_dot};
use annex_archiver::time::CivilTime;
use annex_archiver::types::{CommandLog, CommandName};
use std::path::Path;

fn civil(year: i32, month: u32, day: u32, hour: u32, minute: u32, second: u32) -> CivilTime {
    CivilTime { year, month, day, hour, minute, second }
}

fn today() -> CivilTime {
    civil(2024, 2, 28, 9, 30, 0)
}

fn tomorrow() -> CivilTime {
    civil(2024, 2, 29, 9, 30, 0)
}

fn log(dt: CivilTime, suffix: Option<&str>, progress: Option<&str>, is_ongoing: bool, is_ok: Option<bool>) -> CommandLog {
    CommandLog {
        command_name: CommandName::Sync,
        command_dt: dt,
        suffix: suffix.map(String::from),
        progress: progress.map(String::from),
        is_ongoing,
        is_ok,
    }
}

#[test]
fn date_and_time_read_from_the_present() {
    assert_eq!(format_dt(&civil(2024, 2, 28, 7, 5, 59), &today(), &tomorrow()).as_deref(), Some("Today 07:05"));
    assert_eq!(format_dt(&civil(2024, 2, 29, 23, 0, 0), &today(), &tomorrow()).as_deref(), Some("Tomorrow 23:00"));
    assert_eq!(format_dt(&civil(2023, 12, 1, 0, 0, 0), &today(), &tomorrow()).as_deref(), Some("01/12/2023 00:00"));
    assert_eq!(format_dt(&civil(2024, 3, 1, 12, 34, 0), &today(), &tomorrow()).as_deref(), Some("01/03/2024 12:34"));
}

#[test]
fn a_date_that_does_not_exist_cannot_be_written() {
    assert_eq!(format_dt(&civil(2023, 2, 30, 7, 5, 0), &today(), &tomorrow()), None);
    assert_eq!(format_dt(&civil(2023, 2, 3, 24, 0, 0), &today(), &tomorrow()), None);
    assert_eq!(format_dt(&civil(2024, 2, 28, 7, 61, 0), &today(), &tomorrow()), None);
}

#[test]
fn day_and_time_are_joined_by_a_space() {
    assert_eq!(compose_dt(Some("Today".into()), Some("10:00".into())).as_deref(), Some("Today 10:00"));
    assert_eq!(compose_dt(None, Some("10:00".into())), None);
    assert_eq!(compose_dt(Some("Today".into()), None), None);
}

#[test]
fn next_item_texts() {
    let dt = civil(2024, 2, 28, 18, 0, 0);
    assert_eq!(
        format_next_item_text(CommandName::Sync, true, &dt, &today(), &tomorrow()).as_deref(),
        Some("Next Sync, Today 18:00")
    );
    assert_eq!(
        format_next_item_text(CommandName::Maintain, true, &dt, &today(), &tomorrow()).as_deref(),
        Some("Next Run, Today 18:00")
    );
    assert_eq!(
        format_next_item_text(CommandName::Allocate, true, &dt, &today(), &tomorrow()).as_deref(),
        Some("Next , Today 18:00")
    );
    assert_eq!(
        format_next_item_text(CommandName::Sync, false, &dt, &today(), &tomorrow()).as_deref(),
        Some("No Planned Sync")
    );
    assert_eq!(
        format_next_item_text(CommandName::Maintain, false, &dt, &today(), &tomorrow()).as_deref(),
        Some("No Planned Maintenance")
    );
    assert_eq!(
        format_next_item_text(CommandName::Allocate, false, &civil(1, 13, 1, 0, 0, 0), &today(), &tomorrow()).as_deref(),
        Some("No Planned ")
    );
    assert_eq!(compose_next_item_text(CommandName::Sync, true, None), None);
}

#[test]
fn latest_submenu_texts() {
    assert_eq!(
        format_latest_submenu_text(CommandName::Sync, None, &today(), &tomorrow()).as_deref(),
        Some("No Recorded Sync")
    );
    assert_eq!(
        format_latest_submenu_text(CommandName::Maintain, None, &today(), &tomorrow()).as_deref(),
        Some("No Recorded Maintenance")
    );
    assert_eq!(
        format_latest_submenu_text(CommandName::Allocate, None, &today(), &tomorrow()).as_deref(),
        Some("No Recorded Allocation")
    );
    let running = log(civil(2024, 2, 28, 8, 0, 0), None, Some("2 of 3"), true, None);
    assert_eq!(
        format_latest_submenu_text(CommandName::Sync, Some(&running), &today(), &tomorrow()).as_deref(),
        Some("Syncing \u{2013} 2 of 3")
    );
    let silent = log(civil(2024, 2, 28, 8, 0, 0), None, None, true, None);
    assert_eq!(
        format_latest_submenu_text(CommandName::Maintain, Some(&silent), &today(), &tomorrow()).as_deref(),
        Some("Running Maintenance")
    );
    assert_eq!(
        format_latest_submenu_text(CommandName::Allocate, Some(&silent), &today(), &tomorrow()).as_deref(),
        Some("Allocating Files")
    );
    let failed = log(civil(2024, 2, 27, 8, 0, 0), None, None, false, Some(false));
    assert_eq!(
        format_latest_submenu_text(CommandName::Sync, Some(&failed), &today(), &tomorrow()).as_deref(),
        Some("Latest Sync, 27/02/2024 08:00*")
    );
    let fine = log(civil(2024, 2, 28, 8, 0, 0), None, None, false, Some(true));
    assert_eq!(
        format_latest_submenu_text(CommandName::Maintain, Some(&fine), &today(), &tomorrow()).as_deref(),
        Some("Latest Run, Today 08:00")
    );
    let unknown = log(civil(2024, 2, 28, 8, 0, 0), None, None, false, None);
    assert_eq!(
        format_latest_submenu_text(CommandName::Allocate, Some(&unknown), &today(), &tomorrow()).as_deref(),
        Some("Latest Allocation, Today 08:00")
    );
    assert_eq!(compose_latest_submenu_text(CommandName::Sync, Some(&fine), None), None);
}

#[test]
fn latest_submenu_item_texts() {
    let plain = log(civil(2024, 2, 28, 8, 0, 0), None, None, false, Some(true));
    assert_eq!(
        format_latest_submenu_item_text(&plain, &today(), &tomorrow()).as_deref(),
        Some("Today 08:00")
    );
    let full = log(civil(2024, 2, 28, 8, 0, 0), Some("12"), None, true, Some(false));
    assert_eq!(
        format_latest_submenu_item_text(&full, &today(), &tomorrow()).as_deref(),
        Some("Today 08:00* \u{2013} 12 \u{2013} Ongoing")
    );
    let ongoing = log(civil(2024, 2, 28, 8, 0, 0), None, None, true, None);
    assert_eq!(
        format_latest_submenu_item_text(&ongoing, &today(), &tomorrow()).as_deref(),
        Some("Today 08:00 \u{2013} Ongoing")
    );
    assert_eq!(
        compose_latest_submenu_item_text(&full, Some(String::new())).as_deref(),
        Some("* \u{2013} 12 \u{2013} Ongoing")
    );
    assert_eq!(
        compose_latest_submenu_item_text(&plain, Some(String::new())).as_deref(),
        Some("")
    );
    assert_eq!(compose_latest_submenu_item_text(&plain, None), None);
}

#[test]
fn sync_status_texts() {
    assert_eq!(format_sync_status_text(&None), "Waiting for Sync");
    assert_eq!(format_sync_status_text(&Some(vec![])), "Healthy");
    assert_eq!(format_sync_status_text(&Some(vec![true, true])), "Healthy");
    assert_eq!(format_sync_status_text(&Some(vec![true, false])), "Unhealthy, 1 issue");
    assert_eq!(format_sync_status_text(&Some(vec![false, true, false])), "Unhealthy, 2 issues");
    assert_eq!(format_sync_status_text(&Some(vec![false; 12])), "Unhealthy, 12 issues");
}

#[test]
fn maintain_status_and_schedule_texts() {
    assert_eq!(format_maintain_status_text(true), "Completed Maintenance");
    assert_eq!(format_maintain_status_text(false), "Interrupted Maintenance");
    assert_eq!(format_schedule_active_text(CommandName::Sync, true), "Pause Automatic Sync");
    assert_eq!(format_schedule_active_text(CommandName::Sync, false), "Resume Automatic Sync");
    assert_eq!(format_schedule_active_text(CommandName::Maintain, true), "Pause Automatic Maintenance");
    assert_eq!(format_schedule_active_text(CommandName::Allocate, false), "Resume Automatic ");
}

#[test]
fn identifier_components() {
    assert!(starts_with_identifier("12 Photos"));
    assert!(starts_with_identifier("1\tx"));
    assert!(starts_with_identifier("007 "));
    assert!(starts_with_identifier("\u{0663} arabic digit"));
    assert!(!starts_with_identifier("12Photos"));
    assert!(!starts_with_identifier(" 12 Photos"));
    assert!(!starts_with_identifier("Photos 12 "));
    assert!(!starts_with_identifier("12"));
    assert!(!starts_with_identifier(""));
}

#[test]
fn repo_path_display_keeps_identified_components() {
    assert_eq!(format_repo_path_display("/Users/me/1 Archive/22 Photos/raw"), "1 Archive/22 Photos");
    assert_eq!(format_repo_path_display("/Users/me/plain"), "");
    assert_eq!(format_repo_path_display("3 Only"), "3 Only");
    assert_eq!(format_repo_path_display("/1 a//2 b/./3 c/"), "1 a/2 b/3 c");
    assert_eq!(format_repo_path_display(""), "");
}

#[test]
fn repo_path_suffix_is_the_identifier_of_the_last_component() {
    assert_eq!(format_repo_path_suffix("/Users/me/1 Archive/22 Photos").as_deref(), Some("22"));
    assert_eq!(format_repo_path_suffix("/Users/me/1 Archive/22 Photos/").as_deref(), Some("22"));
    assert_eq!(format_repo_path_suffix("/Users/me/1 Archive/22 Photos/.").as_deref(), Some("22"));
    assert_eq!(format_repo_path_suffix("/Users/me/plain").as_deref(), Some(""));
    assert_eq!(format_repo_path_suffix("7x").as_deref(), Some("7"));
    assert_eq!(format_repo_path_suffix("/").as_deref(), Some(""));
    assert_eq!(format_repo_path_suffix(".").as_deref(), Some(""));
    assert_eq!(format_repo_path_suffix("a/..").as_deref(), Some(""));
    assert_eq!(format_repo_path_suffix("/a/123"), None);
    assert_eq!(format_repo_path_suffix(""), None);
}

#[test]
fn repo_path_suffix_agrees_with_path_components() {
    for path in ["/a/12 b", "a/b/", "a/./", "./", ".", "/", "//", "a/..", "../9 x", "/a/b/.", "x", "./4y/."] {
        let last = Path::new(path).components().last().map(|c| c.as_os_str().to_str().unwrap().to_string());
        let expected = last.and_then(|c| c.split_once(|ch: char| !ch.is_ascii_digit()).map(|(head, _)| head.to_string()));
        assert_eq!(format_repo_path_suffix(path), expected, "{:?}", path);
    }
}

#[test]
fn file_name_agrees_with_path() {
    for path in ["/a/b.log", "a/b/", "a/./", "./", ".", "/", "", "a/..", "..", "/a/b/.", "x", "a//b", "./x/."] {
        let expected = Path::new(path).file_name().map(|n| n.to_str().unwrap().to_string());
        assert_eq!(path_file_name(path), expected, "{:?}", path);
    }
}

#[test]
fn join_agrees_with_path() {
    for (dir, rel) in [("/a", "b/c"), ("/a/", "b"), ("", "b"), ("a", "**/.git"), ("/", "x"), ("a//", "x")] {
        let expected = Path::new(dir).join(rel).to_str().unwrap().to_string();
        assert_eq!(join_path(dir, rel), expected, "{:?} {:?}", dir, rel);
    }
}

#[test]
fn log_paths() {
    let dt = civil(2024, 1, 2, 3, 4, 5);
    assert_eq!(
        format_command_log_path("/home/me/.config/git-annex/archiver", CommandName::Sync, &dt, &None).as_deref(),
        Some("/home/me/.config/git-annex/archiver/sync/sync-2024-01-02-030405.log")
    );
    assert_eq!(
        format_command_log_path("/cfg/", CommandName::Maintain, &dt, &Some("12".to_string())).as_deref(),
        Some("/cfg/maintain/maintain-2024-01-02-030405-12.log")
    );
    assert_eq!(
        format_command_log_path("", CommandName::Allocate, &dt, &Some("*".to_string())).as_deref(),
        Some("allocate/allocate-2024-01-02-030405-*.log")
    );
    assert_eq!(format_command_log_path("/cfg", CommandName::Sync, &civil(2024, 2, 31, 0, 0, 0), &None), None);
    assert_eq!(
        compose_command_log_path("/cfg", CommandName::Sync, "when", &None),
        "/cfg/sync/sync-when.log"
    );
}

#[test]
fn status_lines() {
    assert_eq!(parse_status_line("ok"), Some(true));
    assert_eq!(parse_status_line("not ok"), Some(false));
    assert_eq!(parse_status_line("ok "), None);
    assert_eq!(parse_status_line("git-fsck \"/r\" ok"), None);
    assert_eq!(parse_status_line(""), None);
}

#[test]
fn log_path_is_read_back() {
    let log = parse_command_log_path("/cfg/sync/sync-2024-01-02-030405.log", "ok").expect("reads");
    assert_eq!(log.command_name, CommandName::Sync);
    assert_eq!(log.command_dt, civil(2024, 1, 2, 3, 4, 5));
    assert_eq!(log.suffix, None);
    assert_eq!(log.progress, None);
    assert!(!log.is_ongoing);
    assert_eq!(log.is_ok, Some(true));

    let log = parse_command_log_path("maintain-2023-12-31-235959-7.log", "not ok").expect("reads");
    assert_eq!(log.command_name, CommandName::Maintain);
    assert_eq!(log.command_dt, civil(2023, 12, 31, 23, 59, 59));
    assert_eq!(log.suffix.as_deref(), Some("7"));
    assert_eq!(log.is_ok, Some(false));

    let log = parse_command_log_path("/x/allocate-2023-12-31-235959-a-b.log", "killed").expect("reads");
    assert_eq!(log.command_name, CommandName::Allocate);
    assert_eq!(log.suffix.as_deref(), Some("a"));
    assert_eq!(log.is_ok, None);

    let log = parse_command_log_path("other-2023-12-31-235959.log", "ok").expect("reads");
    assert_eq!(log.command_name, CommandName::Sync);
}

#[test]
fn log_path_round_trip() {
    let dt = civil(2031, 10, 9, 8, 7, 6);
    for command in [CommandName::Sync, CommandName::Maintain, CommandName::Allocate] {
        for suffix in [None, Some("42".to_string())] {
            let path = format_command_log_path("/cfg", command, &dt, &suffix).expect("writes");
            let log = parse_command_log_path(&path, "ok").expect("reads");
            assert_eq!(log.command_name, command);
            assert_eq!(log.command_dt, dt);
            assert_eq!(log.suffix, suffix);
        }
    }
}

#[test]
fn what_is_no_log_path_is_refused() {
    assert!(parse_command_log_path("/cfg/sync/sync-2024-01-02-030405.txt", "ok").is_none());
    assert!(parse_command_log_path("/cfg/sync/sync-2024-01-02.log", "ok").is_none());
    assert!(parse_command_log_path("/cfg/sync/sync-2024-13-02-030405.log", "ok").is_none());
    assert!(parse_command_log_path("/cfg/sync/sync-2024-01-02-0304xx.log", "ok").is_none());
    assert!(parse_command_log_path("/cfg/sync/..", "ok").is_none());
    assert!(parse_command_log_path("", "ok").is_none());
}

#[test]
fn record_from_segments() {
    let segments: Vec<String> = ["maintain", "2024", "01", "02", "030405", "9", "x"].iter().map(|s| s.to_string()).collect();
    assert!(compose_command_log(&segments, None, "ok").is_none());
    assert!(compose_command_log(&segments[..4].to_vec(), Some(civil(2024, 1, 2, 3, 4, 5)), "ok").is_none());
    let log = compose_command_log(&segments, Some(civil(2024, 1, 2, 3, 4, 5)), "not ok").expect("a record");
    assert_eq!(log.command_name, CommandName::Maintain);
    assert_eq!(log.suffix.as_deref(), Some("9"));
    assert_eq!(log.is_ok, Some(false));
    assert!(!log.is_ongoing);
}

#[test]
fn components_agree_with_path() {
    for path in ["/a/b", "a//b/", "./a/./b", "a/../b", ".", "", "/", "..", "/./x", "x/.", "./."] {
        let expected: Vec<String> = Path::new(path)
            .components()
            .filter_map(|c| match c {
                std::path::Component::Normal(name) => Some(name.to_str().unwrap().to_string()),
                std::path::Component::ParentDir => Some("..".to_string()),
                _ => None,
            })
            .collect();
        assert_eq!(path_components(path), expected, "{:?}", path);
        assert_eq!(starts_at_root(path), Path::new(path).has_root(), "{:?}", path);
        let here = matches!(Path::new(path).components().next(), Some(std::path::Component::CurDir));
        assert_eq!(starts_with_dot(path), here, "{:?}", path);
    }
}
