use annex_archiver::daemon::{
    default_schedule_text, includes_unchanged, maintain_timeout, record_end, record_progress,
    record_start, schedule_or_default, scheduled_suffix, started_log, Gate, ScheduleKind,
    DEFAULT_MAINTAIN_TIMEOUT_M, LOG_MAX_CT,
};
use annex_archiver::time::{CivilTime, Instant};
use annex_archiver::types::{CommandLog, CommandMessageType, CommandName};

fn at(secs: i64) -> Instant {
    Instant { secs, nanos: 0 }
}

fn civil(day: u32) -> CivilTime {
    CivilTime { year: 2024, month: 1, day, hour: 0, minute: 0, second: 0 }
}

fn days(logs: &[CommandLog]) -> Vec<u32> {
    logs.iter().map(|log| log.command_dt.day).collect()
}

#[test]
fn manual_start_always_runs() {
    let mut gate = Gate::new();
    assert!(gate.receive(CommandMessageType::StartByManual, &at(5)));
    gate.finished(at(100));
    assert!(gate.receive(CommandMessageType::StartByManual, &at(50)));
    assert!(!gate.receive(CommandMessageType::ScheduleDisable, &at(60)));
    assert!(gate.receive(CommandMessageType::StartByManual, &at(70)));
}

#[test]
fn scheduled_start_needs_an_enabled_schedule() {
    let mut gate = Gate::new();
    assert!(gate.receive(CommandMessageType::StartBySchedule, &at(5)));
    assert!(!gate.receive(CommandMessageType::ScheduleDisable, &at(6)));
    assert!(!gate.schedule_enabled);
    assert!(!gate.receive(CommandMessageType::StartBySchedule, &at(7)));
    assert!(!gate.receive(CommandMessageType::ScheduleEnable, &at(8)));
    assert!(gate.schedule_enabled);
    assert!(gate.receive(CommandMessageType::StartBySchedule, &at(9)));
}

#[test]
fn scheduled_start_sent_before_the_last_run_ended_is_skipped() {
    let mut gate = Gate::new();
    gate.finished(at(100));
    assert_eq!(gate.last_ended, Some(at(100)));
    assert!(!gate.receive(CommandMessageType::StartBySchedule, &at(99)));
    assert!(gate.receive(CommandMessageType::StartBySchedule, &at(100)));
    assert!(gate.receive(CommandMessageType::StartBySchedule, &at(101)));
}

#[test]
fn only_the_latest_runs_stay_on_record() {
    assert_eq!(LOG_MAX_CT, 4);
    let mut logs: Vec<CommandLog> = Vec::new();
    for day in 1..=4 {
        let dropped = record_start(&mut logs, started_log(CommandName::Sync, civil(day), None));
        assert!(dropped.is_none());
    }
    assert_eq!(days(&logs), vec![4, 3, 2, 1]);
    let dropped = record_start(&mut logs, started_log(CommandName::Sync, civil(5), None));
    assert_eq!(dropped.map(|log| log.command_dt.day), Some(1));
    assert_eq!(days(&logs), vec![5, 4, 3, 2]);
}

#[test]
fn a_longer_record_loses_one_run_at_a_time() {
    let mut logs: Vec<CommandLog> =
        (1..=6).rev().map(|day| started_log(CommandName::Maintain, civil(day), None)).collect();
    let dropped = record_start(&mut logs, started_log(CommandName::Maintain, civil(7), None));
    assert_eq!(dropped.map(|log| log.command_dt.day), Some(3));
    assert_eq!(days(&logs), vec![7, 6, 5, 4, 2, 1]);
}

#[test]
fn a_started_run_is_ongoing() {
    let log = started_log(CommandName::Allocate, civil(9), Some("12".to_string()));
    assert_eq!(log.command_name, CommandName::Allocate);
    assert_eq!(log.command_dt, civil(9));
    assert_eq!(log.suffix.as_deref(), Some("12"));
    assert_eq!(log.progress, None);
    assert!(log.is_ongoing);
    assert_eq!(log.is_ok, None);
}

#[test]
fn end_and_progress_are_noted_on_the_latest_run() {
    let mut logs: Vec<CommandLog> = Vec::new();
    assert!(!record_end(&mut logs, true));
    assert!(!record_progress(&mut logs, "1/2".to_string()));
    record_start(&mut logs, started_log(CommandName::Sync, civil(1), None));
    record_start(&mut logs, started_log(CommandName::Sync, civil(2), Some("s".to_string())));
    assert!(record_progress(&mut logs, "1/2".to_string()));
    assert_eq!(logs[0].progress.as_deref(), Some("1/2"));
    assert!(logs[0].is_ongoing);
    assert_eq!(logs[1].progress, None);
    assert!(record_end(&mut logs, false));
    assert!(!logs[0].is_ongoing);
    assert_eq!(logs[0].is_ok, Some(false));
    assert_eq!(logs[0].suffix.as_deref(), Some("s"));
    assert_eq!(logs[0].progress.as_deref(), Some("1/2"));
    assert!(logs[1].is_ongoing);
    assert_eq!(days(&logs), vec![2, 1]);
}

#[test]
fn default_schedules() {
    assert_eq!(default_schedule_text(ScheduleKind::Sync, 7), "0 7 * * * * *");
    assert_eq!(default_schedule_text(ScheduleKind::SyncUnchanged, 58), "0 58 * 1,15 * * *");
    assert_eq!(default_schedule_text(ScheduleKind::Maintain, 0), "0 0 4 * * * *");
}

#[test]
fn configured_schedule_wins() {
    assert_eq!(
        schedule_or_default(Some("0 0 * * * * *".to_string()), ScheduleKind::Sync),
        "0 0 * * * * *"
    );
}

#[test]
fn default_schedule_falls_on_one_of_the_first_fifty_nine_minutes() {
    let mut seen = std::collections::BTreeSet::new();
    for _ in 0..400 {
        let schedule = schedule_or_default(None, ScheduleKind::Maintain);
        let fields: Vec<&str> = schedule.split(' ').collect();
        assert_eq!(fields.len(), 7);
        assert_eq!(fields[0], "0");
        assert_eq!(&fields[2..], ["4", "*", "*", "*", "*"]);
        let minute: u32 = fields[1].parse().expect("a number");
        assert!(minute < 59);
        seen.insert(minute);
    }
    assert!(seen.len() > 1);
}

#[test]
fn maintenance_limit() {
    assert_eq!(DEFAULT_MAINTAIN_TIMEOUT_M, 120);
    assert_eq!(maintain_timeout(None), 120);
    assert_eq!(maintain_timeout(Some(5)), 5);
}

#[test]
fn unchanged_files_are_taken_in_when_their_schedule_comes_first() {
    assert!(includes_unchanged(&at(10), &at(11)));
    assert!(!includes_unchanged(&at(11), &at(11)));
    assert!(!includes_unchanged(&at(12), &at(11)));
    assert_eq!(scheduled_suffix(true).as_deref(), Some("*"));
    assert_eq!(scheduled_suffix(false), None);
}
