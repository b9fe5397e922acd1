use annex_archiver::allocate::{
    all_healthy, allocate, bookkeeping, commit_time_query, decide, drop_arguments, dropped_arguments,
    fetch_arguments, history_lines, history_query, inspect, modified_since, parse_path_list,
    received_line, received_paths, revert_line, send_line, send_paths, since_argument,
    stage_line, untracked_cleanup, untracked_query, versioned_arguments, FileAction, FileFacts,
    FileRecord, MarkerOp, Reconciler, Stage, StampedPath, Step, FETCH_ATTEMPTS,
};
use annex_archiver::time::CivilTime;
use annex_archiver::paths::PathSet;
use annex_archiver::time::Instant;

fn strings(items: &[&str]) -> Vec<String> {
    items.iter().map(|s| s.to_string()).collect()
}

fn set_of(items: &[&str]) -> PathSet {
    PathSet::from_list(strings(items))
}

fn ops_of(ops: &[MarkerOp]) -> Vec<(String, bool)> {
    ops.iter().map(|op| (op.path.clone(), op.set)).collect()
}

fn record(path: &str, has_marker: bool, is_dropped: bool, uncommitted: bool) -> FileRecord {
    FileRecord { path: path.to_string(), facts: FileFacts { has_marker, is_dropped, uncommitted } }
}

fn at(secs: i64) -> Instant {
    Instant { secs, nanos: 0 }
}

#[test]
fn full_pass_marks_by_store_state_and_moves_nothing() {
    let versioned = set_of(&["a.txt", "b.txt"]);
    let dropped = set_of(&["b.txt"]);
    let received = received_paths(&versioned, true, &Vec::new(), Vec::new());
    assert_eq!(received.to_list(), strings(&["a.txt", "b.txt"]));
    let ops = bookkeeping(&received, &dropped);
    assert_eq!(
        ops_of(&ops),
        vec![("b.txt".to_string(), true), ("a.txt".to_string(), false)]
    );
    let send = send_paths(&versioned, &received);
    assert_eq!(send.len(), 0);
    let mut pass = Reconciler::new(Vec::new());
    assert_eq!(pass.advance(true), Step::Finished { healthy: true });
}

#[test]
fn uncommitted_dropped_file_only_gets_its_marker_set() {
    let dropped = set_of(&["c.txt"]);
    let file = inspect(&"c.txt".to_string(), false, &at(200), &dropped, &at(100));
    assert_eq!(
        file.facts,
        FileFacts { has_marker: false, is_dropped: true, uncommitted: true }
    );
    assert_eq!(decide(file.facts), FileAction::RevertToDropped);
    let mut pass = Reconciler::new(vec![file]);
    assert_eq!(pass.advance(true), Step::SetMarker { file: 0, reverted: true });
    assert_eq!(pass.advance(true), Step::Finished { healthy: true });
}

#[test]
fn uncommitted_present_file_only_gets_its_marker_cleared() {
    let mut pass = Reconciler::new(vec![record("d.txt", true, false, true)]);
    assert_eq!(pass.advance(false), Step::ClearMarker { file: 0, reverted: true });
    assert_eq!(pass.advance(false), Step::Finished { healthy: true });
}

#[test]
fn decision_table() {
    let facts = |has_marker, is_dropped, uncommitted| FileFacts { has_marker, is_dropped, uncommitted };
    assert_eq!(decide(facts(false, false, false)), FileAction::Keep);
    assert_eq!(decide(facts(false, false, true)), FileAction::Keep);
    assert_eq!(decide(facts(true, true, false)), FileAction::Keep);
    assert_eq!(decide(facts(true, true, true)), FileAction::Keep);
    assert_eq!(decide(facts(true, false, false)), FileAction::Evict);
    assert_eq!(decide(facts(true, false, true)), FileAction::RevertToPresent);
    assert_eq!(decide(facts(false, true, false)), FileAction::Fetch);
    assert_eq!(decide(facts(false, true, true)), FileAction::RevertToDropped);
}

#[test]
fn failing_fetch_is_tried_four_times() {
    assert_eq!(FETCH_ATTEMPTS, 4);
    let mut pass = Reconciler::new(vec![record("x.bin", false, true, false)]);
    assert_eq!(pass.advance(true), Step::ProbeRemotes);
    let mut fetches = 0;
    let mut step = pass.advance(true);
    while step == (Step::Fetch { file: 0 }) {
        fetches += 1;
        step = pass.advance(false);
    }
    assert_eq!(fetches, 4);
    assert_eq!(step, Step::Finished { healthy: false });
}

#[test]
fn fetch_that_succeeds_on_the_third_try_clears_the_marker() {
    let mut pass = Reconciler::new(vec![record("x.bin", false, true, false)]);
    assert_eq!(pass.advance(true), Step::ProbeRemotes);
    assert_eq!(pass.advance(true), Step::Fetch { file: 0 });
    assert_eq!(pass.advance(false), Step::Fetch { file: 0 });
    assert_eq!(pass.advance(false), Step::Fetch { file: 0 });
    assert_eq!(pass.advance(true), Step::ClearMarker { file: 0, reverted: false });
    assert_eq!(pass.advance(true), Step::Finished { healthy: true });
}

#[test]
fn eviction_sets_the_marker_on_success_and_flags_failure() {
    let mut pass = Reconciler::new(vec![
        record("keep.txt", false, false, false),
        record("one.bin", true, false, false),
        record("two.bin", true, false, false),
    ]);
    assert_eq!(pass.path(1).map(|p| p.as_str()), Some("one.bin"));
    assert_eq!(pass.path(3), None);
    assert_eq!(pass.advance(true), Step::ProbeRemotes);
    assert_eq!(pass.advance(true), Step::Evict { file: 1 });
    assert_eq!(pass.advance(true), Step::SetMarker { file: 1, reverted: false });
    assert_eq!(pass.advance(true), Step::Evict { file: 2 });
    assert_eq!(pass.advance(false), Step::Finished { healthy: false });
    assert_eq!(pass.advance(true), Step::Finished { healthy: false });
}

#[test]
fn remotes_are_probed_once_and_only_for_a_transfer() {
    let mut pass = Reconciler::new(vec![
        record("a", true, false, true),
        record("b", true, true, false),
        record("c", false, true, false),
        record("d", true, false, false),
    ]);
    let mut probes = 0;
    let mut steps = Vec::new();
    let mut step = pass.advance(true);
    while !matches!(step, Step::Finished { .. }) {
        if step == Step::ProbeRemotes {
            probes += 1;
        }
        steps.push(step);
        step = pass.advance(true);
    }
    assert_eq!(probes, 1);
    assert_eq!(
        steps,
        vec![
            Step::ClearMarker { file: 0, reverted: true },
            Step::ProbeRemotes,
            Step::Fetch { file: 2 },
            Step::ClearMarker { file: 2, reverted: false },
            Step::Evict { file: 3 },
            Step::SetMarker { file: 3, reverted: false },
        ]
    );
    assert_eq!(step, Step::Finished { healthy: true });
}

#[test]
fn pass_without_disagreement_does_not_probe() {
    let mut pass = Reconciler::new(vec![
        record("a", true, true, false),
        record("b", false, false, true),
    ]);
    assert_eq!(pass.advance(true), Step::Finished { healthy: true });
}

#[test]
fn path_lists_end_each_path_with_nul() {
    assert_eq!(parse_path_list("a.txt\0dir/b c.txt\0"), strings(&["a.txt", "dir/b c.txt"]));
    assert_eq!(parse_path_list("a.txt\0b.txt"), strings(&["a.txt", "b.txt"]));
    assert_eq!(parse_path_list("a\0\0b\0"), strings(&["a", "", "b"]));
    assert!(parse_path_list("").is_empty());
    assert!(parse_path_list("\n").is_empty());
    assert_eq!(parse_path_list("\0"), strings(&[""]));
}

#[test]
fn history_lines_are_split_at_line_ends() {
    assert_eq!(history_lines("{\"file\":\"a\"}\n{\"file\":\"b\"}\n"), strings(&["{\"file\":\"a\"}", "{\"file\":\"b\"}"]));
    assert!(history_lines("\n\n").is_empty());
}

#[test]
fn modified_files_are_those_after_the_watermark() {
    let files = vec![
        StampedPath { path: "old".to_string(), mtime: at(10) },
        StampedPath { path: "same".to_string(), mtime: at(20) },
        StampedPath { path: "new".to_string(), mtime: at(21) },
        StampedPath { path: "nanos".to_string(), mtime: Instant { secs: 20, nanos: 1 } },
    ];
    assert_eq!(modified_since(&files, &at(20)), strings(&["new", "nanos"]));
}

#[test]
fn history_query_is_skipped_when_nothing_was_modified() {
    assert_eq!(history_query("2024-01-02 03:04:05", &Vec::new()), None);
    assert_eq!(
        history_query("2024-01-02 03:04:05", &strings(&["a", "b"])),
        Some(strings(&[
            "annex",
            "log",
            "--json",
            "--since",
            "2024-01-02 03:04:05",
            "--in=here",
            "--or",
            "--in",
            "here@2024-01-02 03:04:05",
            "a",
            "b",
        ]))
    );
}

#[test]
fn received_paths_since_a_watermark() {
    let versioned = set_of(&["a", "b", "c"]);
    let none = received_paths(&versioned, false, &Vec::new(), strings(&["a"]));
    assert_eq!(none.len(), 0);
    let some = received_paths(&versioned, false, &strings(&["a", "b"]), strings(&["b", "b", "a"]));
    assert_eq!(some.to_list(), strings(&["b", "a"]));
    let send = send_paths(&versioned, &some);
    assert_eq!(send.to_list(), strings(&["c"]));
}

#[test]
fn untracked_files_lose_their_marker() {
    let ops = untracked_cleanup(&set_of(&["tmp", "notes"]));
    assert_eq!(ops_of(&ops), vec![("tmp".to_string(), false), ("notes".to_string(), false)]);
}

#[test]
fn transfer_arguments() {
    assert_eq!(drop_arguments("dir/a b"), strings(&["annex", "drop", "dir/a b"]));
    assert_eq!(fetch_arguments("dir/a b"), strings(&["annex", "get", "dir/a b"]));
}

#[test]
fn overall_result_is_the_conjunction() {
    assert!(all_healthy(&Vec::new()));
    assert!(all_healthy(&vec![true, true]));
    assert!(!all_healthy(&vec![true, false, true]));
}

#[test]
fn path_sets_keep_first_occurrences() {
    let set = set_of(&["b", "a", "b", "c", "a"]);
    assert_eq!(set.to_list(), strings(&["b", "a", "c"]));
    assert!(set.contains(&"c".to_string()));
    assert!(!set.contains(&"d".to_string()));
    assert_eq!(set.get(1).map(|p| p.as_str()), Some("a"));
    assert_eq!(set.get(3), None);
    let other = set_of(&["c", "x"]);
    assert_eq!(set.intersection(&other).to_list(), strings(&["c"]));
    assert_eq!(set.difference(&other).to_list(), strings(&["b", "a"]));
    assert_eq!(set.duplicate().to_list(), set.to_list());
    assert_eq!(PathSet::new().len(), 0);
}

#[test]
fn listing_arguments() {
    assert_eq!(versioned_arguments(), strings(&["ls-files", "-z"]));
    assert_eq!(
        dropped_arguments(),
        strings(&["annex", "find", "--not", "--in=here", "--print0"])
    );
}

#[test]
fn untracked_files_are_listed_in_a_full_pass_only() {
    assert_eq!(untracked_query(true), Some(strings(&["ls-files", "-z", "-o"])));
    assert_eq!(untracked_query(false), None);
}

#[test]
fn commit_time_is_asked_only_when_files_are_left() {
    assert_eq!(commit_time_query(&PathSet::new()), None);
    assert_eq!(
        commit_time_query(&set_of(&["a"])),
        Some(strings(&["log", "-1", "--format=%aI"]))
    );
}

#[test]
fn watermark_is_written_for_the_history_query() {
    let watermark = CivilTime { year: 2024, month: 1, day: 2, hour: 3, minute: 4, second: 5 };
    assert_eq!(since_argument(&watermark).as_deref(), Some("2024-01-02 03:04:05"));
    let never = CivilTime { year: 2024, month: 2, day: 30, hour: 3, minute: 4, second: 5 };
    assert_eq!(since_argument(&never), None);
}

#[test]
fn pass_log_lines() {
    assert_eq!(stage_line(Stage::Versioned), "tracked paths ok");
    assert_eq!(stage_line(Stage::Dropped), "tracked dropped paths ok");
    assert_eq!(stage_line(Stage::Received), "received paths ok");
    assert_eq!(received_line(&set_of(&["a", "b"])), "moved files (2)");
    assert_eq!(send_line(&PathSet::new()), "files to move (0)");
    assert_eq!(revert_line(), "revert-drop-attribute, uncommited");
}

#[test]
fn every_step_of_any_pass_spares_uncommitted_files() {
    let combos: Vec<FileRecord> = (0..8)
        .map(|bits| record(&format!("f{}", bits), bits & 1 != 0, bits & 2 != 0, bits & 4 != 0))
        .collect();
    for pattern in 0..64u32 {
        let files: Vec<FileRecord> = combos
            .iter()
            .map(|r| FileRecord { path: r.path.clone(), facts: r.facts })
            .collect();
        let mut pass = Reconciler::new(files);
        let mut turn = 0;
        let mut outcome = true;
        let mut fetches = vec![0u32; combos.len()];
        loop {
            let step = pass.advance(outcome);
            outcome = (pattern >> (turn % 6)) & 1 == 1;
            turn += 1;
            match step {
                Step::Evict { file } => {
                    assert!(!combos[file].facts.uncommitted);
                    assert!(combos[file].facts.has_marker && !combos[file].facts.is_dropped);
                }
                Step::Fetch { file } => {
                    assert!(!combos[file].facts.uncommitted);
                    assert!(!combos[file].facts.has_marker && combos[file].facts.is_dropped);
                    fetches[file] += 1;
                    assert!(fetches[file] <= 4);
                }
                Step::SetMarker { file, reverted } | Step::ClearMarker { file, reverted } => {
                    assert_eq!(reverted, combos[file].facts.uncommitted);
                }
                Step::ProbeRemotes => {}
                Step::Finished { .. } => break,
            }
            assert!(turn < 200);
        }
    }
}

#[test]
fn allocation_of_a_repository() {
    let versioned = set_of(&["a", "b", "c", "d"]);
    let dropped = set_of(&["b", "d"]);
    let received = set_of(&["b", "a"]);
    let plan = allocate(&versioned, &dropped, &received);
    assert_eq!(
        ops_of(&plan.bookkeeping),
        vec![("b".to_string(), true), ("a".to_string(), false)]
    );
    assert_eq!(plan.send.to_list(), strings(&["c", "d"]));
}
