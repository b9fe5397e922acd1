//! What the daemon decides between its schedules, its menu and the tasks that run the
//! commands: whether a requested run is admitted, which runs stay on record, and which
//! schedule applies where none is configured.

use crate::text::{append_decimal, decimal};
use crate::time::{CivilTime, Instant};
use crate::types::{CommandLog, CommandMessageType, CommandName};
use vstd::prelude::*;
use vstd::string::*;

verus! {

/// How many runs of one command stay on record.
pub const LOG_MAX_CT: usize = 4;

/// How many minutes the maintenance may take where no limit is configured.
pub const DEFAULT_MAINTAIN_TIMEOUT_M: u64 = 120;

/// The commands that run on a schedule.
#[derive(Clone, Copy, Debug, PartialEq, Eq, Structural)]
pub enum ScheduleKind {
    Sync,
    SyncUnchanged,
    Maintain,
}

/// What the task that runs a command remembers between two messages: whether its schedule
/// is enabled, and when its last run ended.
pub struct Gate {
    pub schedule_enabled: bool,
    pub last_ended: Option<Instant>,
}

/// The schedule of a command where none is configured, with the minute that chance chose.
pub open spec fn default_schedule(kind: ScheduleKind, minute: nat) -> Seq<char> {
    "0 "@ + decimal(minute) + match kind {
        ScheduleKind::Sync => " * * * * *"@,
        ScheduleKind::SyncUnchanged => " * 1,15 * * *"@,
        ScheduleKind::Maintain => " 4 * * * *"@,
    }
}

/// Whether the schedule is enabled after a message of this type.
pub open spec fn enabled_after(enabled: bool, message: CommandMessageType) -> bool {
    match message {
        CommandMessageType::ScheduleDisable => false,
        CommandMessageType::ScheduleEnable => true,
        _ => enabled,
    }
}

/// Whether a message of this type, sent at `sent`, starts a run. A manual start always
/// does. A scheduled start does while the schedule is enabled, unless it was sent before
/// the last run ended.
pub open spec fn admits(gate: Gate, message: CommandMessageType, sent: Instant) -> bool {
    match message {
        CommandMessageType::StartByManual => true,
        CommandMessageType::StartBySchedule => gate.schedule_enabled && !(gate.last_ended is Some
            && gate.last_ended->0.later_than(sent)),
        _ => false,
    }
}

/// The runs on record after `started` has begun: it comes first, and where more than
/// `LOG_MAX_CT` runs would be on record, the one at that position goes.
pub open spec fn history_after_start(logs: Seq<CommandLog>, started: CommandLog) -> Seq<
    CommandLog,
> {
    let grown = seq![started] + logs;
    if grown.len() > LOG_MAX_CT {
        grown.remove(LOG_MAX_CT as int)
    } else {
        grown
    }
}

/// The run that goes off the record when `started` begins, if any.
pub open spec fn dropped_at_start(logs: Seq<CommandLog>, started: CommandLog) -> Option<
    CommandLog,
> {
    let grown = seq![started] + logs;
    if grown.len() > LOG_MAX_CT {
        Some(grown[LOG_MAX_CT as int])
    } else {
        None
    }
}

/// A number below `bound` that chance chooses: `rand`'s `Rng::gen_range` on the generator
/// of the current thread, for the range from zero up to and without `bound`.
#[verifier::external_body]
fn random_below(bound: u32) -> (n: u32)
    requires
        bound > 0,
    ensures
        n < bound,
{
    rand::Rng::gen_range(&mut rand::thread_rng(), 0..bound)
}

impl Gate {
    /// The state of a task that has not run yet: its schedule is enabled.
    pub fn new() -> (gate: Gate)
        ensures
            gate.schedule_enabled,
            gate.last_ended is None,
    {
        Gate { schedule_enabled: true, last_ended: None }
    }

    /// Takes in a message sent at `sent` and tells whether a run is to start now. Messages
    /// that enable or disable the schedule only change the state.
    pub fn receive(&mut self, message: CommandMessageType, sent: &Instant) -> (run: bool)
        ensures
            run == admits(*old(self), message, *sent),
            final(self).schedule_enabled == enabled_after(old(self).schedule_enabled, message),
            final(self).last_ended == old(self).last_ended,
    {
        match message {
            CommandMessageType::ScheduleDisable => {
                self.schedule_enabled = false;
                false
            },
            CommandMessageType::ScheduleEnable => {
                self.schedule_enabled = true;
                false
            },
            CommandMessageType::StartByManual => true,
            CommandMessageType::StartBySchedule => {
                if !self.schedule_enabled {
                    false
                } else {
                    match self.last_ended {
                        Some(ended) => !ended.is_after(sent),
                        None => true,
                    }
                }
            },
        }
    }

    /// Notes that a run has ended at `now`.
    pub fn finished(&mut self, now: Instant)
        ensures
            final(self).last_ended == Some(now),
            final(self).schedule_enabled == old(self).schedule_enabled,
    {
        self.last_ended = Some(now);
    }
}

/// The record of a run that has just begun.
pub fn started_log(command_name: CommandName, command_dt: CivilTime, suffix: Option<String>) -> (log:
    CommandLog)
    ensures
        log.command_name == command_name,
        log.command_dt == command_dt,
        log.suffix == suffix,
        log.progress is None,
        log.is_ongoing,
        log.is_ok is None,
{
    CommandLog { command_name, command_dt, suffix, progress: None, is_ongoing: true, is_ok: None }
}

/// Puts the run that has just begun on record, before the others, and hands back the run
/// that goes off the record to make room, if one does. Its log file is then due for
/// removal.
pub fn record_start(logs: &mut Vec<CommandLog>, started: CommandLog) -> (dropped: Option<
    CommandLog,
>)
    ensures
        final(logs)@ == history_after_start(old(logs)@, started),
        dropped == dropped_at_start(old(logs)@, started),
{
    logs.insert(0, started);
    assert(logs@ =~= seq![started] + old(logs)@);
    if logs.len() > LOG_MAX_CT {
        Some(logs.remove(LOG_MAX_CT))
    } else {
        None
    }
}

/// Notes on the record that the latest run has ended, and how. Tells whether there was a
/// run to note it on.
pub fn record_end(logs: &mut Vec<CommandLog>, ok: bool) -> (noted: bool)
    ensures
        noted == (old(logs).len() > 0),
        !noted ==> final(logs)@ == old(logs)@,
        noted ==> {
            &&& final(logs).len() == old(logs).len()
            &&& final(logs)@.subrange(1, final(logs).len() as int) == old(logs)@.subrange(
                1,
                old(logs).len() as int,
            )
            &&& final(logs)[0].is_ongoing == false
            &&& final(logs)[0].is_ok == Some(ok)
            &&& final(logs)[0].command_name == old(logs)[0].command_name
            &&& final(logs)[0].command_dt == old(logs)[0].command_dt
            &&& final(logs)[0].suffix == old(logs)[0].suffix
            &&& final(logs)[0].progress == old(logs)[0].progress
        },
{
    if logs.len() == 0 {
        return false;
    }
    let mut latest = logs.remove(0);
    latest.is_ongoing = false;
    latest.is_ok = Some(ok);
    logs.insert(0, latest);
    assert(logs@.subrange(1, logs.len() as int) =~= old(logs)@.subrange(
        1,
        old(logs).len() as int,
    ));
    true
}

/// Notes the progress of the latest run on the record. Tells whether there was a run to
/// note it on.
pub fn record_progress(logs: &mut Vec<CommandLog>, progress: String) -> (noted: bool)
    ensures
        noted == (old(logs).len() > 0),
        !noted ==> final(logs)@ == old(logs)@,
        noted ==> {
            &&& final(logs).len() == old(logs).len()
            &&& final(logs)@.subrange(1, final(logs).len() as int) == old(logs)@.subrange(
                1,
                old(logs).len() as int,
            )
            &&& final(logs)[0].progress == Some(progress)
            &&& final(logs)[0].is_ongoing == old(logs)[0].is_ongoing
            &&& final(logs)[0].is_ok == old(logs)[0].is_ok
            &&& final(logs)[0].command_name == old(logs)[0].command_name
            &&& final(logs)[0].command_dt == old(logs)[0].command_dt
            &&& final(logs)[0].suffix == old(logs)[0].suffix
        },
{
    if logs.len() == 0 {
        return false;
    }
    let mut latest = logs.remove(0);
    latest.progress = Some(progress);
    logs.insert(0, latest);
    assert(logs@.subrange(1, logs.len() as int) =~= old(logs)@.subrange(
        1,
        old(logs).len() as int,
    ));
    true
}

/// The schedule of a command where none is configured, at the given minute of the hour.
pub fn default_schedule_text(kind: ScheduleKind, minute: u32) -> (schedule: String)
    ensures
        schedule@ == default_schedule(kind, minute as nat),
{
    let mut schedule = String::from_str("0 ");
    append_decimal(&mut schedule, minute as u128);
    schedule.append(
        match kind {
            ScheduleKind::Sync => " * * * * *",
            ScheduleKind::SyncUnchanged => " * 1,15 * * *",
            ScheduleKind::Maintain => " 4 * * * *",
        },
    );
    schedule
}

/// The schedule of a command: the configured one, or the default one at a minute that
/// chance chooses among the first fifty-nine of the hour.
pub fn schedule_or_default(configured: Option<String>, kind: ScheduleKind) -> (schedule: String)
    ensures
        match configured {
            Some(text) => schedule@ == text@,
            None => exists|minute: nat| minute < 59 && schedule@ == default_schedule(kind, minute),
        },
{
    let minute = random_below(59);
    match configured {
        Some(text) => text,
        None => {
            let schedule = default_schedule_text(kind, minute);
            assert(minute < 59 && schedule@ == default_schedule(kind, minute as nat));
            schedule
        },
    }
}

/// The limit of the maintenance in minutes: the configured one, or the default.
pub fn maintain_timeout(configured: Option<u64>) -> (minutes: u64)
    ensures
        minutes == match configured {
            Some(limit) => limit,
            None => DEFAULT_MAINTAIN_TIMEOUT_M,
        },
{
    match configured {
        Some(limit) => limit,
        None => DEFAULT_MAINTAIN_TIMEOUT_M,
    }
}

/// Whether a scheduled sync takes in the files marked as unchanged: it does where their
/// own schedule falls due before the sync after this one.
pub fn includes_unchanged(next_unchanged: &Instant, next_sync: &Instant) -> (included: bool)
    ensures
        included == next_sync.later_than(*next_unchanged),
{
    next_unchanged.is_before(next_sync)
}

/// The suffix of a scheduled sync: a star where it takes in the files marked as unchanged.
pub fn scheduled_suffix(included: bool) -> (suffix: Option<String>)
    ensures
        match suffix {
            Some(text) => included && text@ == "*"@,
            None => !included,
        },
{
    if included {
        Some(String::from_str("*"))
    } else {
        None
    }
}

} // verus!
