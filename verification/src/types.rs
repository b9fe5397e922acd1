//! The commands that can be run, and the messages and records about them.

use crate::time::{CivilTime, Moment};
use vstd::prelude::*;

verus! {

/// A command of the archiver.
#[derive(Clone, Copy, Debug, PartialEq, Eq, Structural)]
pub enum CommandName {
    Sync,
    Maintain,
    Allocate,
}

/// What a message asks of the task that runs a command.
#[derive(Clone, Copy, Debug, PartialEq, Eq, Structural)]
pub enum CommandMessageType {
    StartByManual,
    StartBySchedule,
    ScheduleEnable,
    ScheduleDisable,
}

/// The arguments of one run of a command.
pub struct CommandArgs {
    pub repo_paths: Vec<String>,
    pub includes_unchanged: Option<bool>,
    pub suffix: Option<String>,
}

/// A message to the task that runs a command.
pub struct CommandMessage {
    pub message_type: CommandMessageType,
    pub command_dt: Moment,
    pub command_name: CommandName,
    pub command_args: CommandArgs,
}

/// The record of one run of a command.
pub struct CommandLog {
    pub command_name: CommandName,
    pub command_dt: CivilTime,
    pub suffix: Option<String>,
    pub progress: Option<String>,
    pub is_ongoing: bool,
    pub is_ok: Option<bool>,
}

} // verus!
