//! Content allocation: which tracked files keep their content on this machine, and which
//! give it up.
//!
//! A pass over one repository has two parts. The first only updates drop markers, so that
//! they agree with what the content store reports for the files that are meant to stay.
//! The second reconciles every other tracked file: where the marker and the store
//! disagree, content is dropped or fetched, unless the file carries an edit that has not
//! been committed, in which case only the marker is corrected.
//!
//! Commands, markers and clocks belong to the caller. This module decides what to run and
//! what each outcome leads to; `Reconciler` is the state of the second part between two
//! commands.

use crate::paths::{
    common, distinct, lemma_common, lemma_contains_last, lemma_without, lemma_without_self,
    without, PathSet,
};
use crate::text::{
    append_decimal, decimal, lemma_texts_push, split_terminator, terminated_fields, texts, trim,
};
use crate::time::{CivilTime, Instant};
use vstd::prelude::*;
use vstd::string::*;

verus! {

/// How often the content of one file is asked for before the pass gives up on it.
pub const FETCH_ATTEMPTS: u8 = 4;

/// A tracked path and when the file there was last modified.
pub struct StampedPath {
    pub path: String,
    pub mtime: Instant,
}

/// One change of a drop marker.
pub struct MarkerOp {
    pub path: String,
    /// `true` to set the marker, `false` to clear it.
    pub set: bool,
}

/// What a pass knows of one file when it reconciles it.
#[derive(Clone, Copy, Debug, PartialEq, Eq, Structural)]
pub struct FileFacts {
    /// The drop marker is set: the file was last held to be dropped.
    pub has_marker: bool,
    /// The content store reports the file's content as absent.
    pub is_dropped: bool,
    /// The file was modified after the last commit.
    pub uncommitted: bool,
}

/// A file to reconcile.
pub struct FileRecord {
    pub path: String,
    pub facts: FileFacts,
}

/// What reconciling one file comes to.
#[derive(Clone, Copy, Debug, PartialEq, Eq, Structural)]
pub enum FileAction {
    /// Marker and store agree: the file is left alone.
    Keep,
    /// Marked as dropped but present, with an uncommitted edit: clear the marker.
    RevertToPresent,
    /// Marked as present but dropped, with an uncommitted edit: set the marker.
    RevertToDropped,
    /// Marked as dropped but present: drop the content, then set the marker.
    Evict,
    /// Marked as present but dropped: fetch the content, then clear the marker.
    Fetch,
}

/// Where a reconciliation stands between two steps.
#[derive(Clone, Copy, Debug, PartialEq, Eq, Structural)]
pub enum Phase {
    /// Looking for the next file that needs anything.
    Scanning,
    /// The remotes are being probed on behalf of the file under the cursor.
    Probing,
    /// The content of the file under the cursor is being dropped.
    Evicting,
    /// The content of the file under the cursor is being fetched, for the `attempts`-th time.
    Fetching { attempts: u8 },
    /// Every file has been dealt with.
    Finished,
}

/// What the caller has to do next. Files are named by their position in the list that the
/// reconciliation was started with.
#[derive(Clone, Copy, Debug, PartialEq, Eq, Structural)]
pub enum Step {
    /// Probe the repository's remotes.
    ProbeRemotes,
    /// Drop the content of the file, and report whether that succeeded.
    Evict { file: usize },
    /// Fetch the content of the file, and report whether that succeeded.
    Fetch { file: usize },
    /// Set the file's drop marker. `reverted` says that this stands in for a fetch that an
    /// uncommitted edit ruled out.
    SetMarker { file: usize, reverted: bool },
    /// Clear the file's drop marker. `reverted` says that this stands in for a drop that an
    /// uncommitted edit ruled out.
    ClearMarker { file: usize, reverted: bool },
    /// Nothing is left to do; `healthy` is false if any drop or fetch failed for good.
    Finished { healthy: bool },
}

/// The state of a reconciliation, as specifications see it.
pub struct PassState {
    pub files: Seq<FileFacts>,
    pub cursor: int,
    pub phase: Phase,
    pub probed: bool,
    pub healthy: bool,
}

/// The paths among `files` that were modified after `mark`, in order.
pub open spec fn modified_after(files: Seq<StampedPath>, mark: Instant) -> Seq<Seq<char>>
    decreases files.len(),
{
    if files.len() == 0 {
        Seq::<Seq<char>>::empty()
    } else if files.last().mtime.later_than(mark) {
        modified_after(files.drop_last(), mark).push(files.last().path@)
    } else {
        modified_after(files.drop_last(), mark)
    }
}

/// The arguments of the query for the files whose content arrived since `since`, asked
/// about the paths in `modified`.
pub open spec fn history_arguments(since: Seq<char>, modified: Seq<Seq<char>>) -> Seq<Seq<char>> {
    seq![
        "annex"@,
        "log"@,
        "--json"@,
        "--since"@,
        since,
        "--in=here"@,
        "--or"@,
        "--in"@,
        "here@"@ + since,
    ] + modified
}

/// The paths that are meant to stay on this machine. A full pass keeps every tracked file.
/// A pass since a watermark keeps what the history reports for the files modified since
/// then, and nothing if none was modified.
pub open spec fn received_of(
    versioned: Seq<Seq<char>>,
    full_pass: bool,
    modified: Seq<Seq<char>>,
    history: Seq<Seq<char>>,
) -> Seq<Seq<char>> {
    if full_pass {
        versioned
    } else if modified.len() == 0 {
        Seq::<Seq<char>>::empty()
    } else {
        distinct(history)
    }
}

/// The marker change `set` for each of `paths`, in order.
pub open spec fn mark_all(paths: Seq<Seq<char>>, set: bool) -> Seq<(Seq<char>, bool)> {
    paths.map_values(|p: Seq<char>| (p, set))
}

/// The marker changes that make the markers of the received paths agree with the store:
/// first the marker is set on those that the store reports dropped, then cleared on the
/// others.
pub open spec fn bookkeeping_of(received: Seq<Seq<char>>, dropped: Seq<Seq<char>>) -> Seq<
    (Seq<char>, bool),
> {
    mark_all(common(received, dropped), true) + mark_all(without(received, dropped), false)
}

/// The views of a list of marker changes.
pub open spec fn op_views(ops: Seq<MarkerOp>) -> Seq<(Seq<char>, bool)> {
    ops.map_values(|op: MarkerOp| (op.path@, op.set))
}

/// The set of marked paths after one marker change.
pub open spec fn apply_op(marked: Set<Seq<char>>, op: (Seq<char>, bool)) -> Set<Seq<char>> {
    if op.1 {
        marked.insert(op.0)
    } else {
        marked.remove(op.0)
    }
}

/// The set of marked paths after the marker changes `ops`, made in order.
pub open spec fn apply_ops(marked: Set<Seq<char>>, ops: Seq<(Seq<char>, bool)>) -> Set<
    Seq<char>,
>
    decreases ops.len(),
{
    if ops.len() == 0 {
        marked
    } else {
        apply_op(apply_ops(marked, ops.drop_last()), ops.last())
    }
}

/// What reconciling a file with these facts comes to.
pub open spec fn action_for(facts: FileFacts) -> FileAction {
    if facts.has_marker && !facts.is_dropped {
        if facts.uncommitted {
            FileAction::RevertToPresent
        } else {
            FileAction::Evict
        }
    } else if !facts.has_marker && facts.is_dropped {
        if facts.uncommitted {
            FileAction::RevertToDropped
        } else {
            FileAction::Fetch
        }
    } else {
        FileAction::Keep
    }
}

/// The facts of each record, in order.
pub open spec fn facts_of(files: Seq<FileRecord>) -> Seq<FileFacts> {
    files.map_values(|r: FileRecord| r.facts)
}

/// The state in which the reconciliation of `files` starts.
pub open spec fn initial_state(files: Seq<FileFacts>) -> PassState {
    PassState { files, cursor: 0, phase: Phase::Scanning, probed: false, healthy: true }
}

/// Whether `s` is a state that a reconciliation can be in.
pub open spec fn well_formed(s: PassState) -> bool {
    &&& 0 <= s.cursor <= s.files.len()
    &&& s.files.len() <= usize::MAX
    &&& match s.phase {
        Phase::Scanning => true,
        Phase::Finished => s.cursor == s.files.len(),
        Phase::Probing => {
            &&& s.probed
            &&& s.cursor < s.files.len()
            &&& (action_for(s.files[s.cursor]) == FileAction::Evict || action_for(
                s.files[s.cursor],
            ) == FileAction::Fetch)
        },
        Phase::Evicting => {
            &&& s.probed
            &&& s.cursor < s.files.len()
            &&& action_for(s.files[s.cursor]) == FileAction::Evict
        },
        Phase::Fetching { attempts } => {
            &&& s.probed
            &&& s.cursor < s.files.len()
            &&& action_for(s.files[s.cursor]) == FileAction::Fetch
            &&& 1 <= attempts <= FETCH_ATTEMPTS
        },
    }
}

/// The first drop or fetch of the file under the cursor, which needs one of the two.
pub open spec fn begin_transfer(s: PassState) -> (PassState, Step) {
    if action_for(s.files[s.cursor]) == FileAction::Evict {
        (PassState { phase: Phase::Evicting, ..s }, Step::Evict { file: s.cursor as usize })
    } else {
        (
            PassState { phase: Phase::Fetching { attempts: 1 }, ..s },
            Step::Fetch { file: s.cursor as usize },
        )
    }
}

/// The step that the files from the cursor on call for first. Files on which marker and
/// store agree are passed over. The remotes are probed before the first drop or fetch of
/// the pass, and not again.
pub open spec fn scan_from(s: PassState) -> (PassState, Step)
    decreases s.files.len() - s.cursor,
{
    if s.cursor < 0 || s.cursor >= s.files.len() {
        (PassState { phase: Phase::Finished, ..s }, Step::Finished { healthy: s.healthy })
    } else {
        match action_for(s.files[s.cursor]) {
            FileAction::Keep => scan_from(PassState { cursor: s.cursor + 1, ..s }),
            FileAction::RevertToPresent => (
                PassState { cursor: s.cursor + 1, ..s },
                Step::ClearMarker { file: s.cursor as usize, reverted: true },
            ),
            FileAction::RevertToDropped => (
                PassState { cursor: s.cursor + 1, ..s },
                Step::SetMarker { file: s.cursor as usize, reverted: true },
            ),
            _ => if s.probed {
                begin_transfer(s)
            } else {
                (PassState { phase: Phase::Probing, probed: true, ..s }, Step::ProbeRemotes)
            },
        }
    }
}

/// The state after the file under the cursor has been dealt with.
pub open spec fn past_file(s: PassState, healthy: bool) -> PassState {
    PassState { cursor: s.cursor + 1, phase: Phase::Scanning, healthy, ..s }
}

/// The next state and step, where `succeeded` tells how the drop or fetch of the step
/// before ended. After any other step `succeeded` is not looked at.
pub open spec fn next(s: PassState, succeeded: bool) -> (PassState, Step) {
    match s.phase {
        Phase::Scanning => scan_from(s),
        Phase::Probing => begin_transfer(s),
        Phase::Evicting => if succeeded {
            (
                past_file(s, s.healthy),
                Step::SetMarker { file: s.cursor as usize, reverted: false },
            )
        } else {
            scan_from(past_file(s, false))
        },
        Phase::Fetching { attempts } => if succeeded {
            (
                past_file(s, s.healthy),
                Step::ClearMarker { file: s.cursor as usize, reverted: false },
            )
        } else if attempts < FETCH_ATTEMPTS {
            (
                PassState { phase: Phase::Fetching { attempts: (attempts + 1) as u8 }, ..s },
                Step::Fetch { file: s.cursor as usize },
            )
        } else {
            scan_from(past_file(s, false))
        },
        Phase::Finished => (s, Step::Finished { healthy: s.healthy }),
    }
}

/// Whether `step` is in order for the files of a pass: it names a file of the pass; content
/// is dropped or fetched only where marker and store disagree and no uncommitted edit
/// stands in the way; and a marker is corrected in place of a transfer only where there is
/// such an edit.
pub open spec fn step_respects(files: Seq<FileFacts>, step: Step) -> bool {
    match step {
        Step::ProbeRemotes => true,
        Step::Finished { healthy } => true,
        Step::Evict { file } => {
            &&& file < files.len()
            &&& !files[file as int].uncommitted
            &&& files[file as int].has_marker
            &&& !files[file as int].is_dropped
        },
        Step::Fetch { file } => {
            &&& file < files.len()
            &&& !files[file as int].uncommitted
            &&& !files[file as int].has_marker
            &&& files[file as int].is_dropped
        },
        Step::SetMarker { file, reverted } => {
            &&& file < files.len()
            &&& reverted == files[file as int].uncommitted
            &&& files[file as int].has_marker != files[file as int].is_dropped
        },
        Step::ClearMarker { file, reverted } => {
            &&& file < files.len()
            &&& reverted == files[file as int].uncommitted
            &&& files[file as int].has_marker != files[file as int].is_dropped
        },
    }
}

/// Scanning keeps the state well formed and the files unchanged, never moves the cursor
/// back, and yields a step that is in order.
pub proof fn lemma_scan(s: PassState)
    requires
        well_formed(s),
        s.phase == Phase::Scanning,
    ensures
        well_formed(scan_from(s).0),
        scan_from(s).0.files == s.files,
        scan_from(s).0.cursor >= s.cursor,
        scan_from(s).0.healthy == s.healthy,
        step_respects(s.files, scan_from(s).1),
        scan_from(s).1 matches Step::Fetch { file } ==> file >= s.cursor,
        scan_from(s).1 matches Step::Evict { file } ==> file >= s.cursor,
    decreases s.files.len() - s.cursor,
{
    if s.cursor < s.files.len() && action_for(s.files[s.cursor]) == FileAction::Keep {
        lemma_scan(PassState { cursor: s.cursor + 1, ..s });
    }
}

/// Every step keeps the state well formed and the files unchanged, and is in order. In
/// particular no file with an uncommitted edit ever has its content dropped or fetched:
/// for such a file the pass only corrects the marker.
pub proof fn lemma_next(s: PassState, succeeded: bool)
    requires
        well_formed(s),
    ensures
        well_formed(next(s, succeeded).0),
        next(s, succeeded).0.files == s.files,
        next(s, succeeded).0.cursor >= s.cursor,
        step_respects(s.files, next(s, succeeded).1),
        next(s, succeeded).0.healthy ==> s.healthy,
{
    match s.phase {
        Phase::Scanning => {
            lemma_scan(s);
        },
        Phase::Probing => {},
        Phase::Evicting => {
            if !succeeded {
                lemma_scan(past_file(s, false));
            }
        },
        Phase::Fetching { attempts } => {
            if !succeeded && attempts >= FETCH_ATTEMPTS {
                lemma_scan(past_file(s, false));
            }
        },
        Phase::Finished => {},
    }
}

/// Giving up on a fetch. From the state in which the content of a file has been asked for
/// once, three further failures each ask for it again, at once; the fourth failure marks
/// the pass unhealthy and moves on to the files behind it, and the step that follows is no
/// fetch of that file.
pub proof fn lemma_fetch_gives_up(s: PassState)
    requires
        well_formed(s),
        s.phase == (Phase::Fetching { attempts: 1 }),
    ensures
        ({
            let file = s.cursor as usize;
            let (s2, step2) = next(s, false);
            let (s3, step3) = next(s2, false);
            let (s4, step4) = next(s3, false);
            let (s5, step5) = next(s4, false);
            &&& step2 == Step::Fetch { file }
            &&& step3 == Step::Fetch { file }
            &&& step4 == Step::Fetch { file }
            &&& step5 != Step::Fetch { file }
            &&& !s5.healthy
            &&& s5.cursor > s.cursor
        }),
{
    let (s2, step2) = next(s, false);
    let (s3, step3) = next(s2, false);
    let (s4, step4) = next(s3, false);
    assert(s4.phase == Phase::Fetching { attempts: 4 });
    lemma_scan(past_file(s4, false));
}

/// The state that a reconciliation reaches from `s`, and the steps that it takes, when it
/// is advanced once for each of `outcomes`, in order.
pub open spec fn run(s: PassState, outcomes: Seq<bool>) -> (PassState, Seq<Step>)
    decreases outcomes.len(),
{
    if outcomes.len() == 0 {
        (s, Seq::<Step>::empty())
    } else {
        let (middle, steps) = run(s, outcomes.drop_last());
        let (end, step) = next(middle, outcomes.last());
        (end, steps.push(step))
    }
}

/// How often `steps` asks for the content of the file at position `file`.
pub open spec fn fetches_of(steps: Seq<Step>, file: int) -> nat
    decreases steps.len(),
{
    if steps.len() == 0 {
        0
    } else {
        fetches_of(steps.drop_last(), file) + if steps.last() == (Step::Fetch {
            file: file as usize,
        }) {
            1nat
        } else {
            0nat
        }
    }
}

/// How often the content of the file at position `file` can still be asked for from the
/// state `s` on.
pub open spec fn fetches_left(s: PassState, file: int) -> nat {
    if file < 0 || file >= s.files.len() || action_for(s.files[file]) != FileAction::Fetch {
        0
    } else if s.cursor < file {
        FETCH_ATTEMPTS as nat
    } else if s.cursor > file {
        0
    } else {
        match s.phase {
            Phase::Fetching { attempts } => (FETCH_ATTEMPTS - attempts) as nat,
            Phase::Finished => 0,
            Phase::Evicting => 0,
            _ => FETCH_ATTEMPTS as nat,
        }
    }
}

/// One for a step that asks for the content of the file at position `file`, zero for any
/// other step.
pub open spec fn fetch_count(step: Step, file: int) -> nat {
    if step == (Step::Fetch { file: file as usize }) {
        1
    } else {
        0
    }
}

proof fn lemma_scan_fetches(s: PassState, file: int)
    requires
        well_formed(s),
        s.phase == Phase::Scanning,
        0 <= file < s.files.len(),
    ensures
        fetch_count(scan_from(s).1, file) + fetches_left(scan_from(s).0, file) == fetches_left(
            s,
            file,
        ),
    decreases s.files.len() - s.cursor,
{
    if s.cursor < s.files.len() && action_for(s.files[s.cursor]) == FileAction::Keep {
        lemma_scan_fetches(PassState { cursor: s.cursor + 1, ..s }, file);
    }
}

proof fn lemma_next_fetches(s: PassState, succeeded: bool, file: int)
    requires
        well_formed(s),
        0 <= file < s.files.len(),
    ensures
        fetch_count(next(s, succeeded).1, file) + fetches_left(next(s, succeeded).0, file)
            <= fetches_left(s, file),
        !succeeded ==> fetch_count(next(s, succeeded).1, file) + fetches_left(
            next(s, succeeded).0,
            file,
        ) == fetches_left(s, file),
{
    match s.phase {
        Phase::Scanning => {
            lemma_scan_fetches(s, file);
        },
        Phase::Probing => {},
        Phase::Evicting => {
            if !succeeded {
                lemma_scan_fetches(past_file(s, false), file);
            }
        },
        Phase::Fetching { attempts } => {
            if !succeeded && attempts >= FETCH_ATTEMPTS {
                lemma_scan_fetches(past_file(s, false), file);
            }
        },
        Phase::Finished => {},
    }
}

/// Along any run, the fetches of a file that were made and those that can still be made
/// never come to more than could be made at the start; and while every drop and fetch
/// fails, they come to exactly that many.
pub proof fn lemma_run_fetches(s: PassState, outcomes: Seq<bool>, file: int)
    requires
        well_formed(s),
        0 <= file < s.files.len(),
    ensures
        well_formed(run(s, outcomes).0),
        run(s, outcomes).0.files == s.files,
        fetches_of(run(s, outcomes).1, file) + fetches_left(run(s, outcomes).0, file)
            <= fetches_left(s, file),
        (forall|k: int| 0 <= k < outcomes.len() ==> !outcomes[k]) ==> fetches_of(
            run(s, outcomes).1,
            file,
        ) + fetches_left(run(s, outcomes).0, file) == fetches_left(s, file),
    decreases outcomes.len(),
{
    if outcomes.len() > 0 {
        let before = outcomes.drop_last();
        lemma_run_fetches(s, before, file);
        let (middle, steps) = run(s, before);
        lemma_next(middle, outcomes.last());
        lemma_next_fetches(middle, outcomes.last(), file);
        let (end, step) = next(middle, outcomes.last());
        assert(steps.push(step).drop_last() =~= steps);
        if forall|k: int| 0 <= k < outcomes.len() ==> !outcomes[k] {
            assert forall|k: int| 0 <= k < before.len() implies !before[k] by {
                assert(before[k] == outcomes[k]);
            }
            assert(!outcomes[outcomes.len() - 1]);
        }
    }
}

/// Along any run, every step is in order for the files of the pass. So a file with an
/// uncommitted edit never has its content dropped or fetched, whatever the commands of
/// the pass come to: the pass only corrects its marker.
pub proof fn lemma_run_respects(s: PassState, outcomes: Seq<bool>, k: int)
    requires
        well_formed(s),
        0 <= k < outcomes.len(),
    ensures
        run(s, outcomes).1.len() == outcomes.len(),
        well_formed(run(s, outcomes).0),
        run(s, outcomes).0.files == s.files,
        step_respects(s.files, run(s, outcomes).1[k]),
    decreases outcomes.len(),
{
    let before = outcomes.drop_last();
    lemma_run_keeps(s, before);
    let (middle, steps) = run(s, before);
    lemma_next(middle, outcomes.last());
    if k < before.len() {
        lemma_run_respects(s, before, k);
    }
}

proof fn lemma_run_keeps(s: PassState, outcomes: Seq<bool>)
    requires
        well_formed(s),
    ensures
        run(s, outcomes).1.len() == outcomes.len(),
        well_formed(run(s, outcomes).0),
        run(s, outcomes).0.files == s.files,
    decreases outcomes.len(),
{
    if outcomes.len() > 0 {
        lemma_run_keeps(s, outcomes.drop_last());
        lemma_next(run(s, outcomes.drop_last()).0, outcomes.last());
    }
}

/// How often `steps` asks for a probe of the remotes.
pub open spec fn probes_of(steps: Seq<Step>) -> nat
    decreases steps.len(),
{
    if steps.len() == 0 {
        0
    } else {
        probes_of(steps.drop_last()) + if steps.last() == Step::ProbeRemotes {
            1nat
        } else {
            0nat
        }
    }
}

/// How often the remotes can still be probed from the state `s` on.
pub open spec fn probes_left(s: PassState) -> nat {
    if s.probed {
        0
    } else {
        1
    }
}

proof fn lemma_scan_probes(s: PassState)
    requires
        well_formed(s),
        s.phase == Phase::Scanning,
    ensures
        probes_left(scan_from(s).0) + (if scan_from(s).1 == Step::ProbeRemotes {
            1nat
        } else {
            0nat
        }) == probes_left(s),
        scan_from(s).1 == Step::ProbeRemotes ==> scan_from(s).0.phase == Phase::Probing,
    decreases s.files.len() - s.cursor,
{
    if s.cursor < s.files.len() && action_for(s.files[s.cursor]) == FileAction::Keep {
        lemma_scan_probes(PassState { cursor: s.cursor + 1, ..s });
    }
}

proof fn lemma_next_probes(s: PassState, succeeded: bool)
    requires
        well_formed(s),
    ensures
        probes_left(next(s, succeeded).0) + (if next(s, succeeded).1 == Step::ProbeRemotes {
            1nat
        } else {
            0nat
        }) == probes_left(s),
        next(s, succeeded).1 == Step::ProbeRemotes ==> next(s, succeeded).0.phase
            == Phase::Probing,
        s.phase == Phase::Probing ==> next(s, succeeded).1 is Evict || next(s, succeeded).1 is Fetch,
{
    match s.phase {
        Phase::Scanning => {
            lemma_scan_probes(s);
        },
        Phase::Probing => {},
        Phase::Evicting => {
            if !succeeded {
                lemma_scan_probes(past_file(s, false));
            }
        },
        Phase::Fetching { attempts } => {
            if !succeeded && attempts >= FETCH_ATTEMPTS {
                lemma_scan_probes(past_file(s, false));
            }
        },
        Phase::Finished => {},
    }
}

/// Whether reconciling one of `files` calls for a drop or a fetch.
pub open spec fn moves_content(files: Seq<FileFacts>) -> bool {
    exists|i: int|
        0 <= i < files.len() && (action_for(#[trigger] files[i]) == FileAction::Evict
            || action_for(files[i]) == FileAction::Fetch)
}

/// The remotes are probed at most once in a pass, and only when content is about to move:
/// along any run there is at most one probe, the step that follows a probe is the drop or
/// the fetch that it was made for, and a pass over files of which none calls for a drop or
/// a fetch never probes.
pub proof fn lemma_probe_once(files: Seq<FileFacts>, outcomes: Seq<bool>)
    requires
        files.len() <= usize::MAX,
    ensures
        probes_of(run(initial_state(files), outcomes).1) <= 1,
        forall|k: int|
            0 <= k < outcomes.len() - 1 && #[trigger] run(initial_state(files), outcomes).1[k]
                == Step::ProbeRemotes ==> run(initial_state(files), outcomes).1[k + 1] is Evict
                || run(initial_state(files), outcomes).1[k + 1] is Fetch,
        !moves_content(files) ==> probes_of(run(initial_state(files), outcomes).1) == 0,
{
    lemma_run_probes(initial_state(files), outcomes);
}

proof fn lemma_run_probes(s: PassState, outcomes: Seq<bool>)
    requires
        well_formed(s),
    ensures
        run(s, outcomes).1.len() == outcomes.len(),
        well_formed(run(s, outcomes).0),
        probes_of(run(s, outcomes).1) + probes_left(run(s, outcomes).0) == probes_left(s),
        outcomes.len() > 0 && run(s, outcomes).1.last() == Step::ProbeRemotes ==> run(
            s,
            outcomes,
        ).0.phase == Phase::Probing,
        forall|k: int|
            0 <= k < outcomes.len() - 1 && #[trigger] run(s, outcomes).1[k] == Step::ProbeRemotes
                ==> run(s, outcomes).1[k + 1] is Evict || run(s, outcomes).1[k + 1] is Fetch,
        run(s, outcomes).0.files == s.files,
        !moves_content(s.files) ==> probes_of(run(s, outcomes).1) == 0,
    decreases outcomes.len(),
{
    if outcomes.len() > 0 {
        let before = outcomes.drop_last();
        lemma_run_probes(s, before);
        let (middle, steps) = run(s, before);
        lemma_next(middle, outcomes.last());
        lemma_next_probes(middle, outcomes.last());
        let (end, step) = next(middle, outcomes.last());
        let all = steps.push(step);
        assert(all.drop_last() =~= steps);
        if step == Step::ProbeRemotes {
            assert(end.phase == Phase::Probing);
            assert(action_for(end.files[end.cursor]) == FileAction::Evict || action_for(
                end.files[end.cursor],
            ) == FileAction::Fetch);
            assert(moves_content(s.files));
        }
        assert forall|k: int|
            0 <= k < outcomes.len() - 1 && #[trigger] all[k] == Step::ProbeRemotes implies all[k
                + 1] is Evict || all[k + 1] is Fetch by {
            if k < steps.len() - 1 {
                assert(all[k] == steps[k]);
                assert(all[k + 1] == steps[k + 1]);
            } else {
                assert(all[k] == steps.last());
                assert(middle.phase == Phase::Probing);
            }
        }
    }
}

/// The retry bound. Whatever the commands of a pass come to, the content of one file is
/// asked for at most four times. And in a pass that runs to its end while every drop and
/// fetch fails, the content of each file that is marked as present but dropped, and
/// carries no uncommitted edit, is asked for exactly four times.
pub proof fn lemma_fetch_attempts(files: Seq<FileFacts>, outcomes: Seq<bool>, file: int)
    requires
        files.len() <= usize::MAX,
        0 <= file < files.len(),
    ensures
        fetches_of(run(initial_state(files), outcomes).1, file) <= FETCH_ATTEMPTS,
        (forall|k: int| 0 <= k < outcomes.len() ==> !outcomes[k]) && run(
            initial_state(files),
            outcomes,
        ).0.phase == Phase::Finished && action_for(files[file]) == FileAction::Fetch
            ==> fetches_of(run(initial_state(files), outcomes).1, file) == FETCH_ATTEMPTS,
{
    lemma_run_fetches(initial_state(files), outcomes, file);
}

/// The marker changes of `a` followed by those of `b` have the effect of `a`, then `b`.
pub proof fn lemma_apply_ops_concat(
    marked: Set<Seq<char>>,
    a: Seq<(Seq<char>, bool)>,
    b: Seq<(Seq<char>, bool)>,
)
    ensures
        apply_ops(marked, a + b) == apply_ops(apply_ops(marked, a), b),
    decreases b.len(),
{
    if b.len() == 0 {
        assert(a + b =~= a);
    } else {
        assert((a + b).drop_last() =~= a + b.drop_last());
        assert((a + b).last() == b.last());
        lemma_apply_ops_concat(marked, a, b.drop_last());
    }
}

/// After the same change has been made to each of `paths`, a path among them is marked
/// exactly if the change was to set the marker, and every other path is as it was.
pub proof fn lemma_apply_mark_all(marked: Set<Seq<char>>, paths: Seq<Seq<char>>, set: bool)
    ensures
        forall|p: Seq<char>| #[trigger]
            apply_ops(marked, mark_all(paths, set)).contains(p) <==> if paths.contains(p) {
                set
            } else {
                marked.contains(p)
            },
    decreases paths.len(),
{
    let ops = mark_all(paths, set);
    if paths.len() > 0 {
        let rest = paths.drop_last();
        assert(ops.drop_last() =~= mark_all(rest, set));
        assert(ops.last() == (paths.last(), set));
        lemma_apply_mark_all(marked, rest, set);
        assert forall|p: Seq<char>| #[trigger]
            apply_ops(marked, ops).contains(p) <==> if paths.contains(p) {
                set
            } else {
                marked.contains(p)
            } by {
            lemma_contains_last(paths, p);
            assert(apply_ops(marked, mark_all(rest, set)).contains(p) <==> if rest.contains(p) {
                set
            } else {
                marked.contains(p)
            });
        }
    }
}

/// After a full pass the marker of every tracked file is set exactly if the store
/// reports the file as dropped. This holds whatever the markers were before; the pass
/// keeps every tracked file, so no file is left whose content would change, and the files
/// outside version control whose markers the pass clears are none of the tracked ones.
pub proof fn lemma_full_pass_settles_markers(
    versioned: Seq<Seq<char>>,
    dropped: Seq<Seq<char>>,
    untracked: Seq<Seq<char>>,
    before: Set<Seq<char>>,
)
    requires
        forall|p: Seq<char>| untracked.contains(p) ==> !versioned.contains(p),
    ensures
        ({
            let received = received_of(versioned, true, Seq::empty(), Seq::empty());
            let after = apply_ops(
                before,
                bookkeeping_of(received, dropped) + mark_all(untracked, false),
            );
            &&& without(versioned, received).len() == 0
            &&& forall|p: Seq<char>|
                versioned.contains(p) ==> (#[trigger] after.contains(p) <==> dropped.contains(p))
        }),
{
    let sets = mark_all(common(versioned, dropped), true);
    let clears = mark_all(without(versioned, dropped), false);
    let cleanup = mark_all(untracked, false);
    let after_sets = apply_ops(before, sets);
    let after_clears = apply_ops(after_sets, clears);
    let after = apply_ops(before, sets + clears + cleanup);
    lemma_without_self(versioned);
    lemma_apply_ops_concat(before, sets, clears);
    lemma_apply_ops_concat(before, sets + clears, cleanup);
    lemma_apply_mark_all(before, common(versioned, dropped), true);
    lemma_apply_mark_all(after_sets, without(versioned, dropped), false);
    lemma_apply_mark_all(after_clears, untracked, false);
    lemma_common(versioned, dropped);
    lemma_without(versioned, dropped);
    assert forall|p: Seq<char>| versioned.contains(p) implies (#[trigger] after.contains(p)
        <==> dropped.contains(p)) by {
        assert(after == apply_ops(after_clears, cleanup));
        assert(after.contains(p) <==> after_clears.contains(p));
        assert(after_clears.contains(p) <==> if without(versioned, dropped).contains(p) {
            false
        } else {
            after_sets.contains(p)
        });
        assert(after_sets.contains(p) <==> if common(versioned, dropped).contains(p) {
            true
        } else {
            before.contains(p)
        });
    }
}

/// The paths in the output of a command that ends each path with a NUL character.
pub fn parse_path_list(output: &str) -> (paths: Vec<String>)
    ensures
        texts(paths@) == split_terminator(trim(output@), '\0'),
{
    terminated_fields(output, '\0')
}

/// The lines of the history query's output, one record each.
pub fn history_lines(output: &str) -> (lines: Vec<String>)
    ensures
        texts(lines@) == split_terminator(trim(output@), '\n'),
{
    terminated_fields(output, '\n')
}

/// The paths among `files` that were modified after `watermark`, in order.
pub fn modified_since(files: &Vec<StampedPath>, watermark: &Instant) -> (modified: Vec<String>)
    ensures
        texts(modified@) == modified_after(files@, *watermark),
{
    let mut modified: Vec<String> = Vec::new();
    let mut i: usize = 0;
    assert(files@.take(0) =~= Seq::<StampedPath>::empty());
    assert(texts(modified@) =~= Seq::<Seq<char>>::empty());
    while i < files.len()
        invariant
            i <= files.len(),
            texts(modified@) == modified_after(files@.take(i as int), *watermark),
        decreases files.len() - i,
    {
        proof {
            let now = files@.take(i + 1);
            assert(now.drop_last() =~= files@.take(i as int));
            assert(now.last() == files@[i as int]);
        }
        if files[i].mtime.is_after(watermark) {
            let path = files[i].path.clone();
            proof {
                lemma_texts_push(modified@, path);
            }
            modified.push(path);
        }
        i += 1;
    }
    assert(files@.take(files.len() as int) =~= files@);
    modified
}

/// The query for the files whose content arrived since the watermark, written `since` as
/// the query wants it, or `None` where no file was modified: then nothing is asked.
pub fn history_query(since: &str, modified: &Vec<String>) -> (query: Option<Vec<String>>)
    ensures
        modified.len() == 0 ==> query is None,
        modified.len() > 0 ==> query is Some && texts(query->0@) == history_arguments(
            since@,
            texts(modified@),
        ),
{
    if modified.len() == 0 {
        return None;
    }
    let mut here_since = String::from_str("here@");
    here_since.append(since);
    let mut args: Vec<String> = Vec::new();
    args.push(String::from_str("annex"));
    args.push(String::from_str("log"));
    args.push(String::from_str("--json"));
    args.push(String::from_str("--since"));
    args.push(String::from_str(since));
    args.push(String::from_str("--in=here"));
    args.push(String::from_str("--or"));
    args.push(String::from_str("--in"));
    args.push(here_since);
    let ghost head = texts(args@);
    assert(head =~= seq![
        "annex"@,
        "log"@,
        "--json"@,
        "--since"@,
        since@,
        "--in=here"@,
        "--or"@,
        "--in"@,
        "here@"@ + since@,
    ]);
    let mut i: usize = 0;
    while i < modified.len()
        invariant
            i <= modified.len(),
            texts(args@) == head + texts(modified@).take(i as int),
        decreases modified.len() - i,
    {
        let path = modified[i].clone();
        proof {
            lemma_texts_push(args@, path);
            assert(texts(modified@).take(i + 1) =~= texts(modified@).take(i as int).push(path@));
        }
        args.push(path);
        i += 1;
    }
    assert(texts(modified@).take(modified.len() as int) =~= texts(modified@));
    Some(args)
}

/// The paths that are meant to stay on this machine: see `received_of`. `history` holds the
/// files that the history query reported, and is not looked at where no query was due.
pub fn received_paths(
    versioned: &PathSet,
    full_pass: bool,
    modified: &Vec<String>,
    history: Vec<String>,
) -> (received: PathSet)
    ensures
        received@ == received_of(versioned@, full_pass, texts(modified@), texts(history@)),
        received@.no_duplicates(),
{
    if full_pass {
        versioned.duplicate()
    } else if modified.len() == 0 {
        PathSet::new()
    } else {
        PathSet::from_list(history)
    }
}

fn push_ops(ops: &mut Vec<MarkerOp>, paths: &PathSet, set: bool)
    ensures
        op_views(final(ops)@) == op_views(old(ops)@) + mark_all(paths@, set),
{
    let mut i: usize = 0;
    assert(op_views(ops@) =~= op_views(old(ops)@) + mark_all(paths@, set).take(0));
    while i < paths.len()
        invariant
            i <= paths@.len(),
            op_views(ops@) == op_views(old(ops)@) + mark_all(paths@, set).take(i as int),
        decreases paths@.len() - i,
    {
        let path = match paths.get(i) {
            Some(path) => path.clone(),
            None => String::new(),
        };
        let op = MarkerOp { path, set };
        proof {
            assert(op_views(ops@.push(op)) =~= op_views(ops@).push((op.path@, set)));
            assert(mark_all(paths@, set).take(i + 1) =~= mark_all(paths@, set).take(
                i as int,
            ).push((op.path@, set)));
        }
        ops.push(op);
        i += 1;
    }
    assert(mark_all(paths@, set).take(paths@.len() as int) =~= mark_all(paths@, set));
}

/// The marker changes that make the markers of the received paths agree with the store.
/// No content is touched on their account.
pub fn bookkeeping(received: &PathSet, dropped: &PathSet) -> (ops: Vec<MarkerOp>)
    ensures
        op_views(ops@) == bookkeeping_of(received@, dropped@),
{
    let mut ops: Vec<MarkerOp> = Vec::new();
    assert(op_views(ops@) =~= Seq::<(Seq<char>, bool)>::empty());
    push_ops(&mut ops, &received.intersection(dropped), true);
    push_ops(&mut ops, &received.difference(dropped), false);
    assert(op_views(ops@) =~= bookkeeping_of(received@, dropped@));
    ops
}

/// The marker changes of a full pass for the files outside version control: the marker of
/// each is cleared.
pub fn untracked_cleanup(untracked: &PathSet) -> (ops: Vec<MarkerOp>)
    ensures
        op_views(ops@) == mark_all(untracked@, false),
{
    let mut ops: Vec<MarkerOp> = Vec::new();
    assert(op_views(ops@) =~= Seq::<(Seq<char>, bool)>::empty());
    push_ops(&mut ops, untracked, false);
    assert(op_views(ops@) =~= mark_all(untracked@, false));
    ops
}

/// The tracked paths that are not meant to stay: the files whose content may have to change
/// place.
pub fn send_paths(versioned: &PathSet, received: &PathSet) -> (send: PathSet)
    ensures
        send@ == without(versioned@, received@),
        send@.no_duplicates(),
{
    versioned.difference(received)
}

/// What a pass over one repository sets out to do.
pub struct Allocation {
    /// The marker changes that make the markers of the files that are meant to stay agree
    /// with the store. No content is touched on their account.
    pub bookkeeping: Vec<MarkerOp>,
    /// The files that are not meant to stay and are left to reconcile.
    pub send: PathSet,
}

/// Allocates the files of one repository: those that are meant to stay get their markers
/// put right, the others are left to reconcile one by one.
///
/// `versioned` are the files under version control that exist, `dropped` those whose
/// content the store reports as absent, and `received` those that are meant to stay.
pub fn allocate(versioned: &PathSet, dropped: &PathSet, received: &PathSet) -> (plan: Allocation)
    ensures
        op_views(plan.bookkeeping@) == bookkeeping_of(received@, dropped@),
        plan.send@ == without(versioned@, received@),
        plan.send@.no_duplicates(),
{
    Allocation { bookkeeping: bookkeeping(received, dropped), send: send_paths(versioned, received) }
}

/// What a pass knows of the file at `path`: whether its marker is set, whether the store
/// reports it dropped, and whether it was modified after the last commit.
pub fn inspect(
    path: &String,
    has_marker: bool,
    mtime: &Instant,
    dropped: &PathSet,
    last_commit: &Instant,
) -> (record: FileRecord)
    ensures
        record.path@ == path@,
        record.facts == (FileFacts {
            has_marker,
            is_dropped: dropped@.contains(path@),
            uncommitted: mtime.later_than(*last_commit),
        }),
{
    FileRecord {
        path: path.clone(),
        facts: FileFacts {
            has_marker,
            is_dropped: dropped.contains(path),
            uncommitted: mtime.is_after(last_commit),
        },
    }
}

/// What reconciling a file with these facts comes to.
pub fn decide(facts: FileFacts) -> (action: FileAction)
    ensures
        action == action_for(facts),
        facts.uncommitted ==> action != FileAction::Evict && action != FileAction::Fetch,
{
    if facts.has_marker && !facts.is_dropped {
        if facts.uncommitted {
            FileAction::RevertToPresent
        } else {
            FileAction::Evict
        }
    } else if !facts.has_marker && facts.is_dropped {
        if facts.uncommitted {
            FileAction::RevertToDropped
        } else {
            FileAction::Fetch
        }
    } else {
        FileAction::Keep
    }
}

/// The arguments that drop the content of `path`.
pub fn drop_arguments(path: &str) -> (args: Vec<String>)
    ensures
        texts(args@) == seq!["annex"@, "drop"@, path@],
{
    let mut args: Vec<String> = Vec::new();
    args.push(String::from_str("annex"));
    args.push(String::from_str("drop"));
    args.push(String::from_str(path));
    assert(texts(args@) =~= seq!["annex"@, "drop"@, path@]);
    args
}

/// The arguments that fetch the content of `path`.
pub fn fetch_arguments(path: &str) -> (args: Vec<String>)
    ensures
        texts(args@) == seq!["annex"@, "get"@, path@],
{
    let mut args: Vec<String> = Vec::new();
    args.push(String::from_str("annex"));
    args.push(String::from_str("get"));
    args.push(String::from_str(path));
    assert(texts(args@) =~= seq!["annex"@, "get"@, path@]);
    args
}

/// Whether every repository of a pass came out healthy.
pub fn all_healthy(results: &Vec<bool>) -> (ok: bool)
    ensures
        ok == forall|i: int| 0 <= i < results.len() ==> results[i],
{
    let mut i: usize = 0;
    while i < results.len()
        invariant
            i <= results.len(),
            forall|k: int| 0 <= k < i ==> results[k],
        decreases results.len() - i,
    {
        if !results[i] {
            return false;
        }
        i += 1;
    }
    true
}

/// The format in which the history query takes the watermark.
pub open spec fn since_pattern() -> Seq<char> {
    "%Y-%m-%d %H:%M:%S"@
}

/// The watermark as the history query takes it, or `None` where it cannot be written.
pub fn since_argument(watermark: &CivilTime) -> (since: Option<String>)
    ensures
        match since {
            Some(text) => watermark.formatted(since_pattern()) == Some(text@),
            None => watermark.formatted(since_pattern()) is None,
        },
{
    watermark.format("%Y-%m-%d %H:%M:%S")
}

/// The arguments that list the files under version control, each ended by a NUL character.
pub fn versioned_arguments() -> (args: Vec<String>)
    ensures
        texts(args@) == seq!["ls-files"@, "-z"@],
{
    let mut args: Vec<String> = Vec::new();
    args.push(String::from_str("ls-files"));
    args.push(String::from_str("-z"));
    assert(texts(args@) =~= seq!["ls-files"@, "-z"@]);
    args
}

/// The arguments that list the files outside version control, each ended by a NUL
/// character; `None` in a pass since a watermark, which leaves those files alone.
pub fn untracked_query(full_pass: bool) -> (query: Option<Vec<String>>)
    ensures
        query is Some <==> full_pass,
        query is Some ==> texts(query->0@) == seq!["ls-files"@, "-z"@, "-o"@],
{
    if !full_pass {
        return None;
    }
    let mut args: Vec<String> = Vec::new();
    args.push(String::from_str("ls-files"));
    args.push(String::from_str("-z"));
    args.push(String::from_str("-o"));
    assert(texts(args@) =~= seq!["ls-files"@, "-z"@, "-o"@]);
    Some(args)
}

/// The arguments that list the files whose content is not here, each ended by a NUL
/// character.
pub fn dropped_arguments() -> (args: Vec<String>)
    ensures
        texts(args@) == seq!["annex"@, "find"@, "--not"@, "--in=here"@, "--print0"@],
{
    let mut args: Vec<String> = Vec::new();
    args.push(String::from_str("annex"));
    args.push(String::from_str("find"));
    args.push(String::from_str("--not"));
    args.push(String::from_str("--in=here"));
    args.push(String::from_str("--print0"));
    assert(texts(args@) =~= seq!["annex"@, "find"@, "--not"@, "--in=here"@, "--print0"@]);
    args
}

/// The arguments that print the time of the last commit as an RFC 3339 date and time;
/// `None` where no file is left to reconcile, and with it nothing to ask or to probe.
pub fn commit_time_query(send: &PathSet) -> (query: Option<Vec<String>>)
    ensures
        query is Some <==> send@.len() > 0,
        query is Some ==> texts(query->0@) == seq!["log"@, "-1"@, "--format=%aI"@],
{
    if send.len() == 0 {
        return None;
    }
    let mut args: Vec<String> = Vec::new();
    args.push(String::from_str("log"));
    args.push(String::from_str("-1"));
    args.push(String::from_str("--format=%aI"));
    assert(texts(args@) =~= seq!["log"@, "-1"@, "--format=%aI"@]);
    Some(args)
}

/// The stages of a pass that the log reports as done.
#[derive(Clone, Copy, Debug, PartialEq, Eq, Structural)]
pub enum Stage {
    /// The files under version control have been listed.
    Versioned,
    /// The files whose content is not here have been listed.
    Dropped,
    /// The files that are meant to stay have been determined.
    Received,
}

/// The line that reports a number of files under `label`.
pub open spec fn count_line(label: Seq<char>, count: nat) -> Seq<char> {
    label + " ("@ + decimal(count) + ")"@
}

/// The line that reports a stage of the pass as done.
pub fn stage_line(stage: Stage) -> (line: &'static str)
    ensures
        line@ == match stage {
            Stage::Versioned => "tracked paths ok"@,
            Stage::Dropped => "tracked dropped paths ok"@,
            Stage::Received => "received paths ok"@,
        },
{
    match stage {
        Stage::Versioned => "tracked paths ok",
        Stage::Dropped => "tracked dropped paths ok",
        Stage::Received => "received paths ok",
    }
}

fn count_text(label: &str, count: usize) -> (line: String)
    ensures
        line@ == count_line(label@, count as nat),
{
    let mut line = String::from_str(label);
    line.append(" (");
    append_decimal(&mut line, count as u128);
    line.append(")");
    line
}

/// The line that reports how many files are meant to stay.
pub fn received_line(received: &PathSet) -> (line: String)
    ensures
        line@ == count_line("moved files"@, received@.len()),
{
    count_text("moved files", received.len())
}

/// The line that reports how many files are left to reconcile.
pub fn send_line(send: &PathSet) -> (line: String)
    ensures
        line@ == count_line("files to move"@, send@.len()),
{
    count_text("files to move", send.len())
}

/// The line that follows a marker that was corrected in place of a transfer.
pub fn revert_line() -> (line: &'static str)
    ensures
        line@ == "revert-drop-attribute, uncommited"@,
{
    "revert-drop-attribute, uncommited"
}

/// The reconciliation of the files of one repository that are not meant to stay.
pub struct Reconciler {
    files: Vec<FileRecord>,
    cursor: usize,
    phase: Phase,
    probed: bool,
    healthy: bool,
}

impl View for Reconciler {
    type V = PassState;

    closed spec fn view(&self) -> PassState {
        PassState {
            files: facts_of(self.files@),
            cursor: self.cursor as int,
            phase: self.phase,
            probed: self.probed,
            healthy: self.healthy,
        }
    }
}

impl Reconciler {
    #[verifier::type_invariant]
    spec fn holds_together(self) -> bool {
        well_formed(self@)
    }

    /// The paths of the files, in order.
    pub closed spec fn paths(&self) -> Seq<Seq<char>> {
        self.files@.map_values(|r: FileRecord| r.path@)
    }

    /// Starts the reconciliation of `files`. Nothing has been probed, dropped or fetched yet.
    pub fn new(files: Vec<FileRecord>) -> (pass: Reconciler)
        ensures
            pass@ == initial_state(facts_of(files@)),
            well_formed(pass@),
            pass.paths() == files@.map_values(|r: FileRecord| r.path@),
    {
        let count = files.len();
        assert(facts_of(files@).len() == count);
        Reconciler { files, cursor: 0, phase: Phase::Scanning, probed: false, healthy: true }
    }

    /// The path of the file at position `file`, if there is one.
    pub fn path(&self, file: usize) -> (path: Option<&String>)
        ensures
            file < self@.files.len() ==> path is Some && path->0@ == self.paths()[file as int],
            file >= self@.files.len() ==> path is None,
    {
        if file < self.files.len() {
            Some(&self.files[file].path)
        } else {
            None
        }
    }

    fn begin(&mut self) -> (step: Step)
        requires
            old(self)@.phase == Phase::Scanning || old(self)@.phase == Phase::Probing,
            old(self)@.cursor < old(self)@.files.len(),
            old(self)@.probed,
            action_for(old(self)@.files[old(self)@.cursor]) == FileAction::Evict || action_for(
                old(self)@.files[old(self)@.cursor],
            ) == FileAction::Fetch,
        ensures
            (final(self)@, step) == begin_transfer(old(self)@),
            final(self).paths() == old(self).paths(),
    {
        proof {
            use_type_invariant(&*self);
        }
        let file = self.cursor;
        assert(self@.files[file as int] == self.files@[file as int].facts);
        match decide(self.files[file].facts) {
            FileAction::Evict => {
                self.phase = Phase::Evicting;
                Step::Evict { file }
            },
            _ => {
                self.phase = Phase::Fetching { attempts: 1 };
                Step::Fetch { file }
            },
        }
    }

    fn scan(&mut self) -> (step: Step)
        requires
            old(self)@.phase == Phase::Scanning,
        ensures
            (final(self)@, step) == scan_from(old(self)@),
            final(self).paths() == old(self).paths(),
    {
        let ghost start = self@;
        let ghost names = self.paths();
        proof {
            use_type_invariant(&*self);
        }
        while self.cursor < self.files.len()
            invariant
                start == old(self)@,
                names == old(self).paths(),
                well_formed(self@),
                self@.phase == Phase::Scanning,
                self@.files == start.files,
                self.paths() == names,
                scan_from(self@) == scan_from(start),
            decreases self.files.len() - self.cursor,
        {
            let file = self.cursor;
            let ghost here = self@;
            assert(here.files[file as int] == self.files@[file as int].facts);
            assert(scan_from(here) == scan_from(start));
            match decide(self.files[file].facts) {
                FileAction::Keep => {
                    self.cursor = file + 1;
                },
                FileAction::RevertToPresent => {
                    self.cursor = file + 1;
                    return Step::ClearMarker { file, reverted: true };
                },
                FileAction::RevertToDropped => {
                    self.cursor = file + 1;
                    return Step::SetMarker { file, reverted: true };
                },
                _ => {
                    if self.probed {
                        return self.begin();
                    }
                    self.probed = true;
                    self.phase = Phase::Probing;
                    return Step::ProbeRemotes;
                },
            }
        }
        self.phase = Phase::Finished;
        Step::Finished { healthy: self.healthy }
    }

    /// Moves the reconciliation on by one step and says what to do next. `succeeded` tells
    /// how the drop or fetch of the step before ended; after any other step, and at the
    /// start, it is not looked at.
    ///
    /// Content is dropped or fetched only for a file whose marker and store disagree and
    /// that carries no uncommitted edit; with such an edit only the marker is corrected.
    pub fn advance(&mut self, succeeded: bool) -> (step: Step)
        ensures
            (final(self)@, step) == next(old(self)@, succeeded),
            well_formed(old(self)@),
            well_formed(final(self)@),
            final(self).paths() == old(self).paths(),
            final(self)@.files == old(self)@.files,
            step_respects(old(self)@.files, step),
    {
        proof {
            use_type_invariant(&*self);
            lemma_next(self@, succeeded);
        }
        match self.phase {
            Phase::Scanning => {},
            Phase::Probing => {
                return self.begin();
            },
            Phase::Evicting => {
                let file = self.cursor;
                self.phase = Phase::Scanning;
                self.cursor = file + 1;
                if succeeded {
                    return Step::SetMarker { file, reverted: false };
                }
                self.healthy = false;
            },
            Phase::Fetching { attempts } => {
                if !succeeded && attempts < FETCH_ATTEMPTS {
                    self.phase = Phase::Fetching { attempts: attempts + 1 };
                    return Step::Fetch { file: self.cursor };
                }
                let file = self.cursor;
                self.phase = Phase::Scanning;
                self.cursor = file + 1;
                if succeeded {
                    return Step::ClearMarker { file, reverted: false };
                }
                self.healthy = false;
            },
            Phase::Finished => {
                return Step::Finished { healthy: self.healthy };
            },
        }
        self.scan()
    }
}

} // verus!
