use annex_archiver::format::format_repo_path_suffix;
use annex_archiver::maintain::owns_metadata;
use annex_archiver::mirror::{depth_of, is_root_metadata, mirror_place};
use annex_archiver::paths::{
    join_path, path_all_components, path_components, path_file_name, starts_at_root,
    starts_with_dot,
};
use annex_archiver::text::{split_fields, split_whitespace, strip_suffix, terminated_fields, trimmed};
use std::path::{Component, Path};

/// Every text of up to `len` characters over `alphabet`.
fn texts_over(alphabet: &[char], len: usize) -> Vec<String> {
    let mut all = vec![String::new()];
    let mut last = vec![String::new()];
    for _ in 0..len {
        let mut next = Vec::new();
        for text in &last {
            for c in alphabet {
                let mut longer = text.clone();
                longer.push(*c);
                next.push(longer);
            }
        }
        all.extend(next.iter().cloned());
        last = next;
    }
    all
}

#[test]
fn path_functions_agree_with_std_on_all_short_paths() {
    for path in texts_over(&['/', '.', 'a', '1', ' '], 6) {
        let std_path = Path::new(&path);
        let named: Vec<String> = std_path
            .components()
            .filter_map(|c| match c {
                Component::Normal(name) => Some(name.to_str().unwrap().to_string()),
                Component::ParentDir => Some("..".to_string()),
                _ => None,
            })
            .collect();
        assert_eq!(path_components(&path), named, "{:?}", path);
        let all: Vec<String> = std_path
            .components()
            .map(|c| c.as_os_str().to_str().unwrap().to_string())
            .collect();
        assert_eq!(path_all_components(&path), all, "{:?}", path);
        assert_eq!(starts_at_root(&path), std_path.has_root(), "{:?}", path);
        assert_eq!(
            starts_with_dot(&path),
            matches!(std_path.components().next(), Some(Component::CurDir)),
            "{:?}",
            path
        );
        assert_eq!(
            path_file_name(&path),
            std_path.file_name().map(|n| n.to_str().unwrap().to_string()),
            "{:?}",
            path
        );
        let last = std_path.components().last().map(|c| c.as_os_str().to_str().unwrap().to_string());
        let suffix = last.and_then(|c| {
            c.split_once(|ch: char| !ch.is_ascii_digit()).map(|(head, _)| head.to_string())
        });
        assert_eq!(format_repo_path_suffix(&path), suffix, "{:?}", path);
        let name = std_path
            .parent()
            .and_then(|p| p.file_name())
            .map(|n| format!("{}.git", n.to_str().unwrap()));
        let place = mirror_place(&path);
        assert_eq!(place.as_ref().map(|p| p.name.clone()), name, "{:?}", path);
        if let Some(place) = place {
            let expected = std_path.join(format!("../../Copies/{}", place.name));
            assert_eq!(place.path, expected.to_str().unwrap(), "{:?}", path);
        }
        assert_eq!(depth_of(&path), path.matches('/').count(), "{:?}", path);
    }
}

#[test]
fn path_pairs_agree_with_std() {
    let paths = texts_over(&['/', '.', 'a'], 4);
    for root in &paths {
        for entry in &paths {
            let expected = Path::new(entry)
                .parent()
                .map(|p| p == Path::new(root))
                .unwrap_or(false);
            assert_eq!(owns_metadata(root, entry), expected, "{:?} {:?}", root, entry);
            let joined = Path::new(root).join(".git");
            assert_eq!(
                is_root_metadata(root, entry),
                entry.as_str() == joined.to_str().unwrap(),
                "{:?} {:?}",
                root,
                entry
            );
        }
    }
    for dir in &paths {
        for relative in ["x", "a/b", "**/.git", ".git"] {
            let expected = Path::new(dir).join(relative);
            assert_eq!(join_path(dir, relative), expected.to_str().unwrap(), "{:?}", dir);
        }
    }
}

#[test]
fn text_functions_agree_with_std_on_all_short_texts() {
    for text in texts_over(&['a', ' ', '\n', '\0', '-', '\u{a0}'], 5) {
        assert_eq!(trimmed(&text), text.trim(), "{:?}", text);
        let words: Vec<String> = text.split_whitespace().map(String::from).collect();
        assert_eq!(split_whitespace(&text), words, "{:?}", text);
        for sep in ['\0', '\n', '-'] {
            let fields: Vec<String> = text.trim().split_terminator(sep).map(String::from).collect();
            assert_eq!(terminated_fields(&text, sep), fields, "{:?} {:?}", text, sep);
            let pieces: Vec<String> = text.split(sep).map(String::from).collect();
            assert_eq!(split_fields(&text, sep), pieces, "{:?} {:?}", text, sep);
        }
        for suffix in ["", "a", "-a", "\n"] {
            assert_eq!(
                strip_suffix(&text, suffix),
                text.strip_suffix(suffix).map(String::from),
                "{:?} {:?}",
                text,
                suffix
            );
        }
    }
}

use annex_archiver::format::{
    format_command_log_path, format_dt, format_repo_path_display, parse_command_log_path,
};
use annex_archiver::time::CivilTime;
use annex_archiver::types::CommandName;
use chrono::{Datelike, NaiveDate, NaiveDateTime, Timelike};
use std::path::PathBuf;

#[test]
fn repo_path_display_agrees_with_matching_the_components() {
    let identifier = regex::bytes::Regex::new(r"^\d+\s").unwrap();
    for path in texts_over(&['/', '1', ' ', 'a'], 4) {
        let mut kept = PathBuf::new();
        for component in Path::new(&path)
            .components()
            .filter(|c| identifier.is_match(c.as_os_str().to_str().unwrap().as_bytes()))
        {
            kept.push(component.as_os_str());
        }
        assert_eq!(format_repo_path_display(&path), format!("{}", kept.display()), "{:?}", path);
    }
}

#[test]
fn dates_are_written_as_chrono_writes_them() {
    let today = CivilTime { year: 2024, month: 2, day: 28, hour: 0, minute: 0, second: 0 };
    let tomorrow = CivilTime { year: 2024, month: 2, day: 29, hour: 0, minute: 0, second: 0 };
    for year in [-1, 0, 1, 999, 1970, 2023, 2024, 9999, 10000] {
        for month in [0, 1, 2, 12, 13] {
            for day in [0, 1, 28, 29, 30, 31, 32] {
                for (hour, minute, second) in [(0, 0, 0), (9, 5, 7), (23, 59, 59), (24, 0, 0), (1, 60, 0)] {
                    let dt = CivilTime { year, month, day, hour, minute, second };
                    let stamp = NaiveDate::from_ymd_opt(year, month, day)
                        .and_then(|d| d.and_hms_opt(hour, minute, second));
                    let expected = stamp.map(|s| {
                        if year == 2024 && month == 2 && day == 28 {
                            format!("Today {}", s.format("%H:%M"))
                        } else if year == 2024 && month == 2 && day == 29 {
                            format!("Tomorrow {}", s.format("%H:%M"))
                        } else {
                            format!("{} {}", s.format("%d/%m/%Y"), s.format("%H:%M"))
                        }
                    });
                    assert_eq!(format_dt(&dt, &today, &tomorrow), expected, "{:?}", dt);
                    let name = stamp.map(|s| format!("/cfg/sync/sync-{}.log", s.format("%Y-%m-%d-%H%M%S")));
                    assert_eq!(
                        format_command_log_path("/cfg", CommandName::Sync, &dt, &None),
                        name,
                        "{:?}",
                        dt
                    );
                }
            }
        }
    }
}

#[test]
fn log_names_are_read_as_chrono_reads_them() {
    let names = [
        "sync-2024-01-02-030405.log",
        "sync-2024-1-2-030405.log",
        "sync-2024-01-02-30405.log",
        "sync-24-01-02-030405.log",
        "sync-2024-01-02-0304.log",
        "sync-2024-01-02-030405-x.log",
        "sync-2024-01-02-030460.log",
        "sync-2024-02-30-030405.log",
        "sync-+2024-01-02-030405.log",
        "sync--2024-01-02-030405.log",
        "sync-2024-01-02- 30405.log",
        "maintain-0001-01-01-000000.log",
        "allocate-9999-12-31-235959-s.log",
        "sync-2024-01-02-030405",
        "-2024-01-02-030405.log",
        "2024-01-02-030405.log",
    ];
    for name in names {
        let expected = name.strip_suffix(".log").and_then(|stem| {
            let segments: Vec<&str> = stem.split('-').collect();
            if segments.len() < 5 {
                return None;
            }
            NaiveDateTime::parse_from_str(&segments[1..5].join("-"), "%Y-%m-%d-%H%M%S")
                .ok()
                .map(|dt| {
                    (
                        CivilTime {
                            year: dt.year(),
                            month: dt.month(),
                            day: dt.day(),
                            hour: dt.hour(),
                            minute: dt.minute(),
                            second: dt.second(),
                        },
                        if segments.len() == 5 { None } else { Some(segments[5].to_string()) },
                    )
                })
        });
        let read = parse_command_log_path(&format!("/cfg/{}", name), "ok")
            .map(|log| (log.command_dt, log.suffix));
        assert_eq!(read, expected, "{:?}", name);
    }
}
