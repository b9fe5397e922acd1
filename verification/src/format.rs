//! The texts shown for commands and their runs, and the names of the files that record a
//! run.
//!
//! Dates and times are written by `chrono`; which text stands for which state is decided
//! here. The present is an argument wherever a text depends on it.

use crate::paths::{
    file_name, join_path, joined_path, last_component, path_all_components, path_file_name,
};
use crate::text::{
    append_decimal, chars_of, decimal, ends_with, is_empty_text, join, join_texts,
    lemma_texts_push, same_text, split, split_fields, strip_suffix, text_of, texts,
};
use crate::time::{chrono_parse, CivilTime};
use crate::types::{CommandLog, CommandName};
use vstd::prelude::*;
use vstd::string::*;
use vstd::utf8::encode_utf8;

verus! {

/// Whether the regular expression `pattern` matches somewhere in `haystack`, or `None`
/// where `pattern` is not one that `regex` accepts.
pub uninterp spec fn regex_bytes_match(pattern: Seq<char>, haystack: Seq<u8>) -> Option<bool>;

/// The format of the date and time in the name of a log file.
pub open spec fn log_time_pattern() -> Seq<char> {
    "%Y-%m-%d-%H%M%S"@
}

/// The expression that a path component matches if it starts with an identifier: digits
/// followed by white space.
pub open spec fn identifier_pattern() -> Seq<char> {
    "^\\d+\\s"@
}

/// Whether a path component starts with an identifier.
pub open spec fn has_identifier(component: Seq<char>) -> bool {
    regex_bytes_match(identifier_pattern(), encode_utf8(component)) == Some(true)
}

/// The components among `pieces` that start with an identifier, in order.
pub open spec fn identified(pieces: Seq<Seq<char>>) -> Seq<Seq<char>>
    decreases pieces.len(),
{
    if pieces.len() == 0 {
        Seq::<Seq<char>>::empty()
    } else if has_identifier(pieces.last()) {
        identified(pieces.drop_last()).push(pieces.last())
    } else {
        identified(pieces.drop_last())
    }
}

/// The short form of a repository's path: its components that start with an identifier.
pub open spec fn repo_path_display(path: Seq<char>) -> Seq<char> {
    join(identified(split(path, '/')), "/"@)
}

/// Whether `c` is one of the digits `0` to `9`.
pub open spec fn is_ascii_digit(c: char) -> bool {
    '0' <= c <= '9'
}

/// How many digits `s` starts with.
pub open spec fn digits_len(s: Seq<char>) -> nat
    decreases s.len(),
{
    if s.len() > 0 && is_ascii_digit(s.first()) {
        1 + digits_len(s.drop_first())
    } else {
        0
    }
}

/// The digits that `s` starts with, where something else follows them; `None` where `s`
/// holds digits only.
pub open spec fn leading_digits(s: Seq<char>) -> Option<Seq<char>> {
    if digits_len(s) < s.len() {
        Some(s.subrange(0, digits_len(s) as int))
    } else {
        None
    }
}

/// The identifier that the last component of a repository's path starts with.
pub open spec fn repo_path_suffix(path: Seq<char>) -> Option<Seq<char>> {
    match last_component(path) {
        Some(component) => leading_digits(component),
        None => None,
    }
}

/// The mark that follows the time of a run that failed.
pub open spec fn ok_mark(is_ok: Option<bool>) -> Seq<char> {
    if is_ok == Some(false) {
        "*"@
    } else {
        ""@
    }
}

/// The day and time parts put together, where both could be written.
pub open spec fn day_and_time(day: Option<Seq<char>>, time: Option<Seq<char>>) -> Option<
    Seq<char>,
> {
    match (day, time) {
        (Some(d), Some(t)) => Some(d + " "@ + t),
        _ => None,
    }
}

/// How a day reads from the present: as today, as tomorrow, or by its date.
pub open spec fn day_text(dt: CivilTime, today: CivilTime, tomorrow: CivilTime) -> Option<
    Seq<char>,
> {
    if today.same_day(dt) {
        Some("Today"@)
    } else if tomorrow.same_day(dt) {
        Some("Tomorrow"@)
    } else {
        dt.formatted("%d/%m/%Y"@)
    }
}

/// How a date and time reads from the present, where it can be written.
pub open spec fn dt_text(dt: CivilTime, today: CivilTime, tomorrow: CivilTime) -> Option<
    Seq<char>,
> {
    day_and_time(day_text(dt, today, tomorrow), dt.formatted("%H:%M"@))
}

/// What a scheduled run of the command is called.
pub open spec fn next_noun(command: CommandName) -> Seq<char> {
    match command {
        CommandName::Sync => "Sync"@,
        CommandName::Maintain => "Run"@,
        CommandName::Allocate => ""@,
    }
}

/// What the command is called where its schedule is spoken of.
pub open spec fn schedule_noun(command: CommandName) -> Seq<char> {
    match command {
        CommandName::Sync => "Sync"@,
        CommandName::Maintain => "Maintenance"@,
        CommandName::Allocate => ""@,
    }
}

/// What the command is called where no run of it is on record.
pub open spec fn record_noun(command: CommandName) -> Seq<char> {
    match command {
        CommandName::Sync => "Sync"@,
        CommandName::Maintain => "Maintenance"@,
        CommandName::Allocate => "Allocation"@,
    }
}

/// What the command is called while it runs.
pub open spec fn ongoing_noun(command: CommandName) -> Seq<char> {
    match command {
        CommandName::Sync => "Syncing"@,
        CommandName::Maintain => "Running Maintenance"@,
        CommandName::Allocate => "Allocating Files"@,
    }
}

/// What the latest run of the command is called.
pub open spec fn latest_noun(command: CommandName) -> Seq<char> {
    match command {
        CommandName::Sync => "Sync"@,
        CommandName::Maintain => "Run"@,
        CommandName::Allocate => "Allocation"@,
    }
}

/// The name of the command in the paths of log files.
pub open spec fn file_noun(command: CommandName) -> Seq<char> {
    match command {
        CommandName::Sync => "sync"@,
        CommandName::Maintain => "maintain"@,
        CommandName::Allocate => "allocate"@,
    }
}

/// The text for the next run of a command, where `when` is how its time reads.
pub open spec fn next_item_text(command: CommandName, enabled: bool, when: Option<Seq<char>>)
    -> Option<Seq<char>> {
    if enabled {
        match when {
            Some(text) => Some("Next "@ + next_noun(command) + ", "@ + text),
            None => None,
        }
    } else {
        Some("No Planned "@ + schedule_noun(command))
    }
}

/// The view of an optional string.
pub open spec fn optional_text(s: Option<String>) -> Option<Seq<char>> {
    match s {
        Some(text) => Some(text@),
        None => None,
    }
}

/// The text for the latest run of a command, where `when` is how the time of the run
/// reads.
pub open spec fn latest_submenu_text(
    command: CommandName,
    log: Option<CommandLog>,
    when: Option<Seq<char>>,
) -> Option<Seq<char>> {
    match log {
        None => Some("No Recorded "@ + record_noun(command)),
        Some(run) => if run.is_ongoing {
            Some(
                ongoing_noun(command) + match run.progress {
                    None => ""@,
                    Some(progress) => " \u{2013} "@ + progress@,
                },
            )
        } else {
            match when {
                Some(text) => Some(
                    "Latest "@ + latest_noun(command) + ", "@ + text + ok_mark(run.is_ok),
                ),
                None => None,
            }
        },
    }
}

/// The pieces among `fragments` that are not empty, in order.
pub open spec fn filled(fragments: Seq<Seq<char>>) -> Seq<Seq<char>>
    decreases fragments.len(),
{
    if fragments.len() == 0 {
        Seq::<Seq<char>>::empty()
    } else if fragments.last().len() > 0 {
        filled(fragments.drop_last()).push(fragments.last())
    } else {
        filled(fragments.drop_last())
    }
}

/// The text for one run in the list of the latest runs, where `when` is how the time of the
/// run reads.
pub open spec fn latest_item_text(log: CommandLog, when: Option<Seq<char>>) -> Option<Seq<char>> {
    match when {
        Some(text) => Some(
            join(
                filled(
                    seq![
                        text + ok_mark(log.is_ok),
                        match log.suffix {
                            None => ""@,
                            Some(suffix) => suffix@,
                        },
                        if log.is_ongoing {
                            "Ongoing"@
                        } else {
                            ""@
                        },
                    ],
                ),
                " \u{2013} "@,
            ),
        ),
        None => None,
    }
}

/// How many of the results are failures.
pub open spec fn failures(results: Seq<bool>) -> nat
    decreases results.len(),
{
    if results.len() == 0 {
        0
    } else if results.last() {
        failures(results.drop_last())
    } else {
        failures(results.drop_last()) + 1
    }
}

/// The text for the state of the repositories after a sync.
pub open spec fn sync_status_text(status: Option<Seq<bool>>) -> Seq<char> {
    match status {
        None => "Waiting for Sync"@,
        Some(results) => if failures(results) == 0 {
            "Healthy"@
        } else {
            "Unhealthy, "@ + decimal(failures(results)) + " "@ + if failures(results) > 1 {
                "issues"@
            } else {
                "issue"@
            }
        },
    }
}

/// The path of the log file of a run, relative to the directory of the logs, where
/// `when` is the time of the run as the name holds it.
pub open spec fn log_file_name(command: CommandName, when: Seq<char>, suffix: Option<Seq<char>>)
    -> Seq<char> {
    file_noun(command) + "/"@ + file_noun(command) + "-"@ + when + match suffix {
        Some(text) => "-"@ + text,
        None => ""@,
    } + ".log"@
}

/// The command that the first segment of a log file's name stands for.
pub open spec fn command_of_segment(segment: Seq<char>) -> CommandName {
    if segment == "maintain"@ {
        CommandName::Maintain
    } else if segment == "allocate"@ {
        CommandName::Allocate
    } else {
        CommandName::Sync
    }
}

/// What the last line of a log tells of the run's outcome.
pub open spec fn status_of_line(line: Seq<char>) -> Option<bool> {
    if line == "not ok"@ {
        Some(false)
    } else if line == "ok"@ {
        Some(true)
    } else {
        None
    }
}

/// The text between the dashes of a log file's name that holds the time of the run.
pub open spec fn time_segments(segments: Seq<Seq<char>>) -> Seq<char> {
    join(segments.subrange(1, 5), "-"@)
}

/// The segments of the name of the log file at `path`: the file's name without its
/// extension, cut at the dashes. `None` where the path names no log file with at least five
/// segments.
pub open spec fn log_segments(path: Seq<char>) -> Option<Seq<Seq<char>>> {
    match file_name(path) {
        Some(name) => if ends_with(name, ".log"@) {
            let segments = split(name.subrange(0, name.len() - 4), '-');
            if segments.len() >= 5 {
                Some(segments)
            } else {
                None
            }
        } else {
            None
        },
        None => None,
    }
}

/// Calls `regex::bytes::Regex::new` on `pattern` and `is_match` on the result: whether the
/// expression matches somewhere in `haystack`, or `None` where the expression is refused.
#[verifier::external_body]
fn regex_is_match(pattern: &str, haystack: &[u8]) -> (found: Option<bool>)
    ensures
        found == regex_bytes_match(pattern@, haystack@),
{
    match regex::bytes::Regex::new(pattern) {
        Ok(expression) => Some(expression.is_match(haystack)),
        Err(_) => None,
    }
}

/// Whether the path component starts with an identifier.
pub fn starts_with_identifier(component: &str) -> (b: bool)
    ensures
        b == has_identifier(component@),
{
    match regex_is_match("^\\d+\\s", component.as_bytes()) {
        Some(found) => found,
        None => false,
    }
}

/// The short form of a repository's path: its components that start with an identifier,
/// joined as a path.
pub fn format_repo_path_display(path: &str) -> (shown: String)
    ensures
        shown@ == repo_path_display(path@),
{
    let pieces = split_fields(path, '/');
    let mut kept: Vec<String> = Vec::new();
    let mut i: usize = 0;
    assert(texts(pieces@).take(0) =~= Seq::<Seq<char>>::empty());
    assert(texts(kept@) =~= Seq::<Seq<char>>::empty());
    while i < pieces.len()
        invariant
            i <= pieces.len(),
            texts(kept@) == identified(texts(pieces@).take(i as int)),
        decreases pieces.len() - i,
    {
        proof {
            let now = texts(pieces@).take(i + 1);
            assert(now.drop_last() =~= texts(pieces@).take(i as int));
            assert(now.last() == pieces@[i as int]@);
        }
        if starts_with_identifier(pieces[i].as_str()) {
            let piece = pieces[i].clone();
            proof {
                lemma_texts_push(kept@, piece);
            }
            kept.push(piece);
        }
        i += 1;
    }
    assert(texts(pieces@).take(pieces.len() as int) =~= texts(pieces@));
    join_texts(&kept, "/")
}

fn count_digits(chars: &Vec<char>) -> (n: usize)
    ensures
        n <= chars.len(),
        n == digits_len(chars@),
{
    let mut n: usize = 0;
    assert(chars@.subrange(0, chars.len() as int) =~= chars@);
    while n < chars.len() && '0' <= chars[n] && chars[n] <= '9'
        invariant
            n <= chars.len(),
            digits_len(chars@) == n + digits_len(chars@.subrange(n as int, chars.len() as int)),
        decreases chars.len() - n,
    {
        proof {
            let rest = chars@.subrange(n as int, chars.len() as int);
            assert(rest.first() == chars@[n as int]);
            assert(rest.drop_first() =~= chars@.subrange(n + 1, chars.len() as int));
        }
        n += 1;
    }
    proof {
        let rest = chars@.subrange(n as int, chars.len() as int);
        if n < chars.len() {
            assert(rest.first() == chars@[n as int]);
        }
    }
    n
}

/// The identifier that the last component of a repository's path starts with: its leading
/// digits. `None` where the path is empty or that component holds digits only.
pub fn format_repo_path_suffix(path: &str) -> (suffix: Option<String>)
    ensures
        optional_text(suffix) == repo_path_suffix(path@),
{
    let all = path_all_components(path);
    if all.len() == 0 {
        return None;
    }
    let chars = chars_of(all[all.len() - 1].as_str());
    assert(texts(all@).last() == all@[all.len() - 1]@);
    let n = count_digits(&chars);
    if n < chars.len() {
        Some(text_of(&chars, 0, n))
    } else {
        None
    }
}

fn format_is_ok(is_ok: &Option<bool>) -> (mark: &'static str)
    ensures
        mark@ == ok_mark(*is_ok),
{
    match is_ok {
        Some(false) => "*",
        _ => "",
    }
}

/// How a date and time reads from the present, given the two parts as they were written:
/// the day, then a space, then the time of day.
pub fn compose_dt(day: Option<String>, time: Option<String>) -> (text: Option<String>)
    ensures
        optional_text(text) == day_and_time(optional_text(day), optional_text(time)),
{
    match (day, time) {
        (Some(d), Some(t)) => {
            let mut text = d;
            text.append(" ");
            text.append(t.as_str());
            Some(text)
        },
        _ => None,
    }
}

/// How the date and time `dt` reads on the day `today`, the day after which is `tomorrow`:
/// the day as "Today", "Tomorrow" or its date, then the hour and minute. `None` where `dt`
/// cannot be written.
pub fn format_dt(dt: &CivilTime, today: &CivilTime, tomorrow: &CivilTime) -> (text: Option<
    String,
>)
    ensures
        optional_text(text) == dt_text(*dt, *today, *tomorrow),
{
    let day = if today.is_same_day(dt) {
        Some(String::from_str("Today"))
    } else if tomorrow.is_same_day(dt) {
        Some(String::from_str("Tomorrow"))
    } else {
        dt.format("%d/%m/%Y")
    };
    let time = dt.format("%H:%M");
    compose_dt(day, time)
}

/// The text for the next run of a command, given how its time reads.
pub fn compose_next_item_text(command: CommandName, enabled: bool, when: Option<String>) -> (text:
    Option<String>)
    ensures
        optional_text(text) == next_item_text(command, enabled, optional_text(when)),
{
    if enabled {
        match when {
            Some(at) => {
                let mut text = String::from_str("Next ");
                text.append(
                    match command {
                        CommandName::Sync => "Sync",
                        CommandName::Maintain => "Run",
                        CommandName::Allocate => "",
                    },
                );
                text.append(", ");
                text.append(at.as_str());
                Some(text)
            },
            None => None,
        }
    } else {
        let mut text = String::from_str("No Planned ");
        text.append(
            match command {
                CommandName::Sync => "Sync",
                CommandName::Maintain => "Maintenance",
                CommandName::Allocate => "",
            },
        );
        Some(text)
    }
}

/// The text for the next run of a command: when it is due while its schedule is enabled,
/// and that none is planned while it is not.
pub fn format_next_item_text(
    command_name: CommandName,
    is_schedule_enabled: bool,
    dt: &CivilTime,
    today: &CivilTime,
    tomorrow: &CivilTime,
) -> (text: Option<String>)
    ensures
        optional_text(text) == next_item_text(
            command_name,
            is_schedule_enabled,
            dt_text(*dt, *today, *tomorrow),
        ),
{
    if is_schedule_enabled {
        compose_next_item_text(command_name, true, format_dt(dt, today, tomorrow))
    } else {
        compose_next_item_text(command_name, false, None)
    }
}

/// The text for the latest run of a command, given how the time of the run reads.
pub fn compose_latest_submenu_text(
    command: CommandName,
    log: Option<&CommandLog>,
    when: Option<String>,
) -> (text: Option<String>)
    ensures
        optional_text(text) == latest_submenu_text(
            command,
            match log {
                Some(run) => Some(*run),
                None => None,
            },
            optional_text(when),
        ),
{
    match log {
        None => {
            let mut text = String::from_str("No Recorded ");
            text.append(
                match command {
                    CommandName::Sync => "Sync",
                    CommandName::Maintain => "Maintenance",
                    CommandName::Allocate => "Allocation",
                },
            );
            Some(text)
        },
        Some(run) => {
            if run.is_ongoing {
                let mut text = String::from_str(
                    match command {
                        CommandName::Sync => "Syncing",
                        CommandName::Maintain => "Running Maintenance",
                        CommandName::Allocate => "Allocating Files",
                    },
                );
                match &run.progress {
                    None => {
                        text.append("");
                    },
                    Some(progress) => {
                        text.append(" \u{2013} ");
                        text.append(progress.as_str());
                        assert(text@ =~= ongoing_noun(command) + (" \u{2013} "@ + progress@));
                    },
                }
                Some(text)
            } else {
                match when {
                    Some(at) => {
                        let mut text = String::from_str("Latest ");
                        text.append(
                            match command {
                                CommandName::Sync => "Sync",
                                CommandName::Maintain => "Run",
                                CommandName::Allocate => "Allocation",
                            },
                        );
                        text.append(", ");
                        text.append(at.as_str());
                        text.append(format_is_ok(&run.is_ok));
                        Some(text)
                    },
                    None => None,
                }
            }
        },
    }
}

/// The text for the latest run of a command: that none is on record, what is going on
/// while it runs, or when it ran, with a mark if it failed.
pub fn format_latest_submenu_text(
    command_name: CommandName,
    log: Option<&CommandLog>,
    today: &CivilTime,
    tomorrow: &CivilTime,
) -> (text: Option<String>)
    ensures
        optional_text(text) == latest_submenu_text(
            command_name,
            match log {
                Some(run) => Some(*run),
                None => None,
            },
            match log {
                Some(run) => dt_text(run.command_dt, *today, *tomorrow),
                None => None,
            },
        ),
{
    match log {
        None => compose_latest_submenu_text(command_name, None, None),
        Some(run) => {
            if run.is_ongoing {
                compose_latest_submenu_text(command_name, log, None)
            } else {
                compose_latest_submenu_text(
                    command_name,
                    log,
                    format_dt(&run.command_dt, today, tomorrow),
                )
            }
        },
    }
}

/// The text for one run in the list of the latest runs, given how its time reads: the
/// time with a mark if the run failed, the suffix of the run, and that it is going on,
/// leaving out what is empty.
pub fn compose_latest_submenu_item_text(log: &CommandLog, when: Option<String>) -> (text: Option<
    String,
>)
    ensures
        optional_text(text) == latest_item_text(*log, optional_text(when)),
{
    match when {
        Some(at) => {
            let ghost written = at@;
            let mut head = at;
            head.append(format_is_ok(&log.is_ok));
            let middle = match &log.suffix {
                None => String::new(),
                Some(suffix) => suffix.clone(),
            };
            let tail = if log.is_ongoing {
                String::from_str("Ongoing")
            } else {
                String::new()
            };
            let ghost fragments = seq![head@, middle@, tail@];
            assert(fragments =~= seq![
                written + ok_mark(log.is_ok),
                match log.suffix {
                    None => ""@,
                    Some(suffix) => suffix@,
                },
                if log.is_ongoing {
                    "Ongoing"@
                } else {
                    ""@
                },
            ]) by {
                reveal_strlit("");
                assert(""@ =~= Seq::<char>::empty());
                assert(fragments[0] == written + ok_mark(log.is_ok));
                assert(fragments[1] =~= match log.suffix {
                    None => ""@,
                    Some(suffix) => suffix@,
                });
                assert(fragments[2] =~= if log.is_ongoing {
                    "Ongoing"@
                } else {
                    ""@
                });
            }
            let mut kept: Vec<String> = Vec::new();
            assert(texts(kept@) =~= filled(fragments.take(0))) by {
                assert(fragments.take(0) =~= Seq::<Seq<char>>::empty());
            }
            if !is_empty_text(head.as_str()) {
                proof {
                    lemma_texts_push(kept@, head);
                }
                kept.push(head);
            }
            assert(texts(kept@) == filled(fragments.take(1))) by {
                assert(fragments.take(1).drop_last() =~= fragments.take(0));
                assert(fragments.take(0) =~= Seq::<Seq<char>>::empty());
            }
            if !is_empty_text(middle.as_str()) {
                proof {
                    lemma_texts_push(kept@, middle);
                }
                kept.push(middle);
            }
            assert(texts(kept@) == filled(fragments.take(2))) by {
                assert(fragments.take(2).drop_last() =~= fragments.take(1));
            }
            if !is_empty_text(tail.as_str()) {
                proof {
                    lemma_texts_push(kept@, tail);
                }
                kept.push(tail);
            }
            assert(texts(kept@) == filled(fragments)) by {
                assert(fragments.drop_last() =~= fragments.take(2));
            }
            Some(join_texts(&kept, " \u{2013} "))
        },
        None => None,
    }
}

/// The text for one run in the list of the latest runs.
pub fn format_latest_submenu_item_text(log: &CommandLog, today: &CivilTime, tomorrow: &CivilTime)
    -> (text: Option<String>)
    ensures
        optional_text(text) == latest_item_text(*log, dt_text(log.command_dt, *today, *tomorrow)),
{
    compose_latest_submenu_item_text(log, format_dt(&log.command_dt, today, tomorrow))
}

fn count_failures(results: &Vec<bool>) -> (count: usize)
    ensures
        count == failures(results@),
{
    let mut count: usize = 0;
    let mut i: usize = 0;
    assert(results@.take(0) =~= Seq::<bool>::empty());
    while i < results.len()
        invariant
            i <= results.len(),
            count <= i,
            count == failures(results@.take(i as int)),
        decreases results.len() - i,
    {
        proof {
            let now = results@.take(i + 1);
            assert(now.drop_last() =~= results@.take(i as int));
            assert(now.last() == results@[i as int]);
        }
        if !results[i] {
            count += 1;
        }
        i += 1;
    }
    assert(results@.take(results.len() as int) =~= results@);
    count
}

/// The text for the state of the repositories: that no sync has reported yet, that all
/// are healthy, or how many are not.
pub fn format_sync_status_text(status_repo_ok: &Option<Vec<bool>>) -> (text: String)
    ensures
        text@ == sync_status_text(
            match *status_repo_ok {
                Some(results) => Some(results@),
                None => None,
            },
        ),
{
    match status_repo_ok {
        None => String::from_str("Waiting for Sync"),
        Some(results) => {
            let count = count_failures(results);
            if count == 0 {
                String::from_str("Healthy")
            } else {
                let mut text = String::from_str("Unhealthy, ");
                append_decimal(&mut text, count as u128);
                text.append(" ");
                if count > 1 {
                    text.append("issues");
                } else {
                    text.append("issue");
                }
                text
            }
        },
    }
}

/// The text for the state of the maintenance.
pub fn format_maintain_status_text(status_ok: bool) -> (text: String)
    ensures
        text@ == if status_ok {
            "Completed Maintenance"@
        } else {
            "Interrupted Maintenance"@
        },
{
    if status_ok {
        String::from_str("Completed Maintenance")
    } else {
        String::from_str("Interrupted Maintenance")
    }
}

/// The text of the item that pauses or resumes the schedule of a command.
pub fn format_schedule_active_text(command_name: CommandName, is_schedule_enabled: bool) -> (text:
    String)
    ensures
        text@ == (if is_schedule_enabled {
            "Pause"@
        } else {
            "Resume"@
        }) + " Automatic "@ + schedule_noun(command_name),
{
    let mut text = if is_schedule_enabled {
        String::from_str("Pause")
    } else {
        String::from_str("Resume")
    };
    text.append(" Automatic ");
    text.append(
        match command_name {
            CommandName::Sync => "Sync",
            CommandName::Maintain => "Maintenance",
            CommandName::Allocate => "",
        },
    );
    text
}

fn file_noun_text(command: CommandName) -> (noun: &'static str)
    ensures
        noun@ == file_noun(command),
{
    match command {
        CommandName::Sync => "sync",
        CommandName::Maintain => "maintain",
        CommandName::Allocate => "allocate",
    }
}

/// The path of the log file of a run below the directory `config_dir_path`, given the
/// time of the run as the name holds it.
pub fn compose_command_log_path(
    config_dir_path: &str,
    command_name: CommandName,
    when: &str,
    suffix: &Option<String>,
) -> (path: String)
    ensures
        path@ == joined_path(
            config_dir_path@,
            log_file_name(command_name, when@, optional_text(*suffix)),
        ),
{
    let mut name = String::from_str(file_noun_text(command_name));
    name.append("/");
    name.append(file_noun_text(command_name));
    name.append("-");
    name.append(when);
    match suffix {
        Some(text) => {
            name.append("-");
            name.append(text.as_str());
        },
        None => {
            name.append("");
        },
    }
    name.append(".log");
    assert(name@ =~= log_file_name(command_name, when@, optional_text(*suffix)));
    join_path(config_dir_path, name.as_str())
}

/// The path of the log file of the run of a command at `dt`, below the directory
/// `config_dir_path`. `None` where `dt` cannot be written.
pub fn format_command_log_path(
    config_dir_path: &str,
    command_name: CommandName,
    dt: &CivilTime,
    suffix: &Option<String>,
) -> (path: Option<String>)
    ensures
        match dt.formatted(log_time_pattern()) {
            Some(when) => optional_text(path) == Some(
                joined_path(
                    config_dir_path@,
                    log_file_name(command_name, when, optional_text(*suffix)),
                ),
            ),
            None => path is None,
        },
{
    match dt.format("%Y-%m-%d-%H%M%S") {
        Some(when) => Some(
            compose_command_log_path(config_dir_path, command_name, when.as_str(), suffix),
        ),
        None => None,
    }
}

/// What the last line of a log tells of the run's outcome.
pub fn parse_status_line(line: &str) -> (status: Option<bool>)
    ensures
        status == status_of_line(line@),
{
    if same_text(line, "not ok") {
        Some(false)
    } else if same_text(line, "ok") {
        Some(true)
    } else {
        None
    }
}

/// The record of a finished run, given the segments of the name of its log file, the time
/// that was read from them, and the last line of the log. `None` where there are fewer than
/// five segments or no time could be read.
pub fn compose_command_log(
    segments: &Vec<String>,
    command_dt: Option<CivilTime>,
    last_line: &str,
) -> (log: Option<CommandLog>)
    ensures
        log is Some <==> segments.len() >= 5 && command_dt is Some,
        log is Some ==> {
            &&& log->0.command_name == command_of_segment(segments@[0]@)
            &&& log->0.command_dt == command_dt->0
            &&& optional_text(log->0.suffix) == if segments.len() == 5 {
                None
            } else {
                Some(segments@[5]@)
            }
            &&& log->0.progress is None
            &&& !log->0.is_ongoing
            &&& log->0.is_ok == status_of_line(last_line@)
        },
{
    if segments.len() < 5 {
        return None;
    }
    let command_dt = match command_dt {
        Some(read) => read,
        None => {
            return None;
        },
    };
    let command_name = if same_text(segments[0].as_str(), "maintain") {
        CommandName::Maintain
    } else if same_text(segments[0].as_str(), "allocate") {
        CommandName::Allocate
    } else {
        CommandName::Sync
    };
    let suffix = if segments.len() == 5 {
        None
    } else {
        Some(segments[5].clone())
    };
    Some(
        CommandLog {
            command_name,
            command_dt,
            suffix,
            progress: None,
            is_ongoing: false,
            is_ok: parse_status_line(last_line),
        },
    )
}

fn time_text(segments: &Vec<String>) -> (text: String)
    requires
        segments.len() >= 5,
    ensures
        text@ == time_segments(texts(segments@)),
{
    let mut middle: Vec<String> = Vec::new();
    let mut i: usize = 1;
    assert(texts(middle@) =~= texts(segments@).subrange(1, 1));
    while i < 5
        invariant
            1 <= i <= 5 <= segments.len(),
            texts(middle@) == texts(segments@).subrange(1, i as int),
        decreases 5 - i,
    {
        let piece = segments[i].clone();
        proof {
            lemma_texts_push(middle@, piece);
            assert(texts(segments@).subrange(1, i + 1) =~= texts(segments@).subrange(
                1,
                i as int,
            ).push(piece@));
        }
        middle.push(piece);
        i += 1;
    }
    join_texts(&middle, "-")
}

/// The record of the finished run whose log file lies at `log_path` and ends with the
/// line `last_line`. The file's name tells the command, the time and the suffix of the run.
/// `None` where the name is not that of a log file or holds no time.
pub fn parse_command_log_path(log_path: &str, last_line: &str) -> (log: Option<CommandLog>)
    ensures
        match log_segments(log_path@) {
            None => log is None,
            Some(segments) => match chrono_parse(time_segments(segments), log_time_pattern()) {
                None => log is None,
                Some(fields) => {
                    &&& log is Some
                    &&& log->0.command_name == command_of_segment(segments[0])
                    &&& log->0.command_dt.fields() == fields
                    &&& optional_text(log->0.suffix) == if segments.len() == 5 {
                        None
                    } else {
                        Some(segments[5])
                    }
                    &&& log->0.progress is None
                    &&& !log->0.is_ongoing
                    &&& log->0.is_ok == status_of_line(last_line@)
                },
            },
        },
{
    let name = match path_file_name(log_path) {
        Some(name) => name,
        None => {
            return None;
        },
    };
    proof {
        reveal_strlit(".log");
    }
    let stem = match strip_suffix(name.as_str(), ".log") {
        Some(stem) => stem,
        None => {
            return None;
        },
    };
    let segments = split_fields(stem.as_str(), '-');
    if segments.len() < 5 {
        return None;
    }
    let when = time_text(&segments);
    compose_command_log(&segments, CivilTime::parse(when.as_str(), "%Y-%m-%d-%H%M%S"), last_line)
}

} // verus!
