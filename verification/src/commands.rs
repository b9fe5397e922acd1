//! What is common to the commands: how a pass reports itself in the log, and how the run
//! of one external process is followed.
//!
//! A log holds one line per event. Each unit of work, be it one process, the pass over one
//! repository or a whole command, ends with a line that says `ok` or `not ok`.

use crate::text::{append_decimal, decimal};
use vstd::prelude::*;
use vstd::string::*;

verus! {

/// What can happen while an external process runs.
pub enum CommandEvent {
    /// The process wrote a line, to its output or to its error stream.
    Line(String),
    /// Reading from the process failed.
    ReadFailed,
    /// The process ended, successfully or not.
    Exited { success: bool },
    /// Waiting for the process failed.
    WaitFailed,
}

/// What follows from one event of a running process.
pub struct Reaction {
    /// The line to add to the log, if any.
    pub line: Option<String>,
    /// Whether the run is over, and if so, whether it counts as a success.
    pub finished: Option<bool>,
}

/// The units of work that the log names.
#[derive(Clone, Copy, Debug, PartialEq, Eq, Structural)]
pub enum Unit {
    /// The probe of the remotes of a repository.
    ProbeRemotes,
    /// The allocation pass over a repository.
    AllocatePass,
    /// The pass over the mirrors of a repository.
    Mirrors,
    /// Taking the embedded repositories of a repository out of its index.
    Untrack,
    /// Dropping the content of a file.
    Drop,
    /// Fetching the content of a file.
    Fetch,
    /// Hiding the unchanged files from the index.
    HideUnchanged,
    /// Exchanging content with the remotes.
    Assist,
    /// Showing the unchanged files to the index again.
    ShowUnchanged,
    /// Checking the integrity of the repository.
    Fsck,
    /// Looking for unused content.
    Unused,
    /// Staging pointers again.
    Restage,
    /// Satisfying the wanted content from the remotes.
    Satisfy,
    /// Checking the content at a target.
    CheckContent,
    /// Dropping the unused content at a target.
    DropUnused,
}

/// What the log calls a unit of work.
pub open spec fn label_of(unit: Unit) -> Seq<char> {
    match unit {
        Unit::ProbeRemotes => "test-available-remotes"@,
        Unit::AllocatePass => "allocate-repo-files"@,
        Unit::Mirrors => "make-embedded-git-copies"@,
        Unit::Untrack => "untracked-embedded-git"@,
        Unit::Drop => "git-annex-drop"@,
        Unit::Fetch => "git-annex-get"@,
        Unit::HideUnchanged => "git-update-index-assume-unchanged"@,
        Unit::Assist => "git-annex-assist"@,
        Unit::ShowUnchanged => "git-update-index-no-assume-unchanged"@,
        Unit::Fsck => "git-fsck"@,
        Unit::Unused => "git-annex-unused"@,
        Unit::Restage => "git-annex-restage"@,
        Unit::Satisfy => "git-annex-satisfy"@,
        Unit::CheckContent => "git-annex-fsck"@,
        Unit::DropUnused => "git-annex-dropunused"@,
    }
}

/// The word for an outcome.
pub open spec fn outcome_word(ok: bool) -> Seq<char> {
    if ok {
        "ok"@
    } else {
        "not ok"@
    }
}

/// The line that closes a unit of work named `prefix` in the log.
pub open spec fn closing_line(prefix: Seq<char>, ok: bool) -> Seq<char> {
    prefix + " "@ + outcome_word(ok)
}

/// The line to log after `event`, if any: what the process wrote, or the closing line of
/// the run once the process has ended.
pub open spec fn line_after(prefix: Seq<char>, event: CommandEvent) -> Option<Seq<char>> {
    match event {
        CommandEvent::Line(text) => Some(text@),
        CommandEvent::Exited { success } => Some(closing_line(prefix, success)),
        _ => None,
    }
}

/// Whether the run is over after `event`, and how it ended. A process whose streams cannot
/// be read or whose end cannot be awaited counts as failed.
pub open spec fn finished_after(event: CommandEvent) -> Option<bool> {
    match event {
        CommandEvent::Line(text) => None,
        CommandEvent::ReadFailed => Some(false),
        CommandEvent::Exited { success } => Some(success),
        CommandEvent::WaitFailed => Some(false),
    }
}

/// The progress of a pass that is at the repository with index `index` of `total`, with
/// `between` between the two numbers.
pub open spec fn progress_of(index: nat, between: Seq<char>, total: nat) -> Seq<char> {
    decimal(index + 1) + between + decimal(total)
}

/// The text of a unit of work in the log: its label, the repository it works on, and what
/// it is aimed at, if anything.
pub open spec fn unit_of(unit: Unit, repository: Seq<char>, target: Option<Seq<char>>) -> Seq<
    char,
> {
    label_of(unit) + " "@ + repository + match target {
        Some(name) => " "@ + name,
        None => ""@,
    }
}

/// What the log calls a unit of work.
pub fn unit_label(unit: Unit) -> (label: &'static str)
    ensures
        label@ == label_of(unit),
{
    match unit {
        Unit::ProbeRemotes => "test-available-remotes",
        Unit::AllocatePass => "allocate-repo-files",
        Unit::Mirrors => "make-embedded-git-copies",
        Unit::Untrack => "untracked-embedded-git",
        Unit::Drop => "git-annex-drop",
        Unit::Fetch => "git-annex-get",
        Unit::HideUnchanged => "git-update-index-assume-unchanged",
        Unit::Assist => "git-annex-assist",
        Unit::ShowUnchanged => "git-update-index-no-assume-unchanged",
        Unit::Fsck => "git-fsck",
        Unit::Unused => "git-annex-unused",
        Unit::Restage => "git-annex-restage",
        Unit::Satisfy => "git-annex-satisfy",
        Unit::CheckContent => "git-annex-fsck",
        Unit::DropUnused => "git-annex-dropunused",
    }
}

/// The word for an outcome: `ok` or `not ok`.
pub fn outcome_text(ok: bool) -> (word: &'static str)
    ensures
        word@ == outcome_word(ok),
{
    if ok {
        "ok"
    } else {
        "not ok"
    }
}

/// The line that closes a unit of work named `prefix` in the log.
pub fn closing_log_line(prefix: &str, ok: bool) -> (line: String)
    ensures
        line@ == closing_line(prefix@, ok),
{
    let mut line = String::from_str(prefix);
    line.append(" ");
    line.append(outcome_text(ok));
    line
}

/// The text of a unit of work in the log, where `repository` is the repository as the log
/// writes it.
pub fn unit_text(unit: Unit, repository: &str, target: Option<&str>) -> (text: String)
    ensures
        text@ == unit_of(
            unit,
            repository@,
            match target {
                Some(name) => Some(name@),
                None => None,
            },
        ),
{
    let mut text = String::from_str(unit_label(unit));
    text.append(" ");
    text.append(repository);
    match target {
        Some(name) => {
            text.append(" ");
            text.append(name);
            assert(text@ =~= label_of(unit) + " "@ + repository@ + (" "@ + name@));
        },
        None => {
            text.append("");
        },
    }
    text
}

/// The progress of a pass that is at the repository with index `index` of `total`.
pub fn progress_text(index: usize, between: &str, total: usize) -> (text: String)
    ensures
        text@ == progress_of(index as nat, between@, total as nat),
{
    let mut text = String::new();
    append_decimal(&mut text, index as u128 + 1);
    text.append(between);
    append_decimal(&mut text, total as u128);
    assert(text@ =~= progress_of(index as nat, between@, total as nat));
    text
}

/// What follows from `event` in the run of the process that the log knows as `prefix`:
/// the line to log, and whether the run is over.
pub fn follow_command(prefix: &str, event: CommandEvent) -> (reaction: Reaction)
    ensures
        match reaction.line {
            Some(line) => line_after(prefix@, event) == Some(line@),
            None => line_after(prefix@, event) is None,
        },
        reaction.finished == finished_after(event),
{
    match event {
        CommandEvent::Line(text) => Reaction { line: Some(text), finished: None },
        CommandEvent::ReadFailed => Reaction { line: None, finished: Some(false) },
        CommandEvent::Exited { success } => Reaction {
            line: Some(closing_log_line(prefix, success)),
            finished: Some(success),
        },
        CommandEvent::WaitFailed => Reaction { line: None, finished: Some(false) },
    }
}

} // verus!
