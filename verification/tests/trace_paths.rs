use gurukul::trace::paths::{
    after_attempt, candidate_name, file_name, file_path, newest, trace_root, Attempt, Entry, Step,
};
use gurukul::trace::wallclock::{civil_from_unix, launch_stamp, stamp_at};
use std::path::{Path, PathBuf};

/// A directory of traces, kept as a list of entries.
struct Root {
    entries: Vec<Entry>,
}

impl Root {
    fn new() -> Root {
        Root { entries: vec![] }
    }

    fn holds(&self, name: &str) -> bool {
        self.entries
            .iter()
            .any(|e| e.name.as_deref() == Some(name))
    }

    fn add(&mut self, name: &str, is_file: bool) {
        self.entries.push(Entry {
            is_file,
            name: Some(name.to_string()),
        });
    }

    /// Creates a file of a free name for a stamp.
    fn create_new_file(&mut self, stamp: &str) -> String {
        let mut n = 0u32;
        loop {
            let attempt = if self.holds(&candidate_name(stamp, n)) {
                Attempt::Taken
            } else {
                Attempt::Created
            };
            match after_attempt(stamp, n, attempt) {
                Step::Keep(name) => {
                    self.add(&name, true);
                    return name;
                }
                Step::Retry(next) => n = next,
                other => panic!("{other:?}"),
            }
        }
    }

    fn newest(&self) -> Option<&str> {
        newest(&self.entries).and_then(|i| self.entries[i].name.as_deref())
    }
}

#[test]
fn tiebreaker_sorts_after_primary() {
    let mut root = Root::new();
    let stamp = "2026-06-12-004623-767";

    // First create takes the primary, second collides onto `.001`.
    let primary = root.create_new_file(stamp);
    let second = root.create_new_file(stamp);
    assert_eq!(primary, file_name(stamp), "first wins the bare name");
    assert_eq!(
        second, "2026-06-12-004623-767.001-ux.jsonl.gz",
        "collision uses the `.NNN` tie-breaker"
    );
    assert_eq!(
        root.newest(),
        Some(second.as_str()),
        "newest must return the collision file, not the older primary"
    );
    // And a genuinely later stamp must still outrank a tie-broken earlier one.
    let later = root.create_new_file("2026-06-12-004623-768");
    assert_eq!(root.newest(), Some(later.as_str()));
}

#[test]
fn newest_ignores_subdirs() {
    let mut root = Root::new();
    root.add("2026-06-12-000000-000", false);
    assert_eq!(root.newest(), None, "a bare subdir is not a trace");
    root.add("2026-06-13-000000-000-ux.jsonl.gz", false);
    assert_eq!(root.newest(), None, "a directory is never a trace");
    let file = root.create_new_file("2026-06-12-010000-000");
    assert_eq!(root.newest(), Some(file.as_str()));
}

#[test]
fn newest_picks_greatest_file() {
    let mut root = Root::new();
    for stamp in [
        "2026-06-10-090000-000",
        "2026-06-10-143212-000",
        "2026-06-09-235959-000",
    ] {
        root.add(&file_name(stamp), true);
    }
    root.add("2026-06-11-000000-000", false);
    root.add("2027-notes.txt", true);
    assert_eq!(
        root.newest(),
        Some(file_name("2026-06-10-143212-000").as_str())
    );
}

#[test]
fn a_search_for_a_name_ends() {
    assert_eq!(
        after_attempt("s", 998, Attempt::Taken),
        Step::Retry(999)
    );
    assert_eq!(
        after_attempt("a\"b", 999, Attempt::Taken),
        Step::GiveUp(format!(
            "could not find a free trace filename for stamp {:?} after 999 tries",
            "a\"b"
        ))
    );
    assert_eq!(after_attempt("s", 3, Attempt::Failed), Step::Fail);
    assert_eq!(candidate_name("s", 7), "s.007-ux.jsonl.gz");
    assert_eq!(candidate_name("s", 999), "s.999-ux.jsonl.gz");
}

#[test]
fn paths_are_put_together() {
    assert_eq!(trace_root(), PathBuf::from("traces"));
    assert_eq!(
        file_path(Path::new("some/root"), "run"),
        Path::new("some/root").join("run-ux.jsonl.gz")
    );
}

#[test]
fn an_entry_without_a_readable_name_is_no_trace() {
    let entries = vec![Entry {
        is_file: true,
        name: None,
    }];
    assert_eq!(newest(&entries), None);
}

#[test]
fn known_epochs_convert() {
    // 0 → 1970-01-01 00:00:00
    assert_eq!(civil_from_unix(0), (1970, 1, 1, 0, 0, 0));
    // 1_700_000_000 → 2023-11-14 22:13:20 UTC (a known reference).
    assert_eq!(civil_from_unix(1_700_000_000), (2023, 11, 14, 22, 13, 20));
}

#[test]
fn run_dir_is_sortable_and_shaped() {
    let (dir, label) = launch_stamp();
    // YYYY-MM-DD-HHMMSS = 17 chars, all the separators where expected.
    assert_eq!(dir.len(), 17, "got {dir}");
    assert!(label.ends_with(" UTC"));
    let (epoch, _) = stamp_at(0);
    assert!(dir > epoch, "the clock runs");
}

#[test]
fn leap_days_and_year_ends_convert() {
    assert_eq!(civil_from_unix(951_782_400), (2000, 2, 29, 0, 0, 0));
    assert_eq!(civil_from_unix(4_107_542_399), (2100, 2, 28, 23, 59, 59));
    assert_eq!(civil_from_unix(4_107_542_400), (2100, 3, 1, 0, 0, 0));
    assert_eq!(civil_from_unix(1_735_689_599), (2024, 12, 31, 23, 59, 59));
}

#[test]
fn stamps_sort_as_their_times() {
    assert_eq!(
        stamp_at(1_700_000_000),
        (
            "2023-11-14-221320".to_string(),
            "2023-11-14 22:13:20 UTC".to_string()
        )
    );
    let times = [0u64, 59, 60, 86_399, 86_400, 951_782_399, 951_782_400, 4_107_542_400];
    for pair in times.windows(2) {
        assert!(stamp_at(pair[0]).0 < stamp_at(pair[1]).0);
    }
}

/// What a search ends with, and how many candidates it opened.
fn search(stamp: &str, outcome: impl Fn(&str) -> Attempt) -> (Step, u32) {
    let mut n = 0;
    loop {
        match after_attempt(stamp, n, outcome(&candidate_name(stamp, n))) {
            Step::Retry(next) => n = next,
            end => return (end, n + 1),
        }
    }
}

#[test]
fn a_search_keeps_the_first_free_name() {
    let taken = ["s-ux.jsonl.gz", "s.001-ux.jsonl.gz", "s.003-ux.jsonl.gz"];
    let outcome = |name: &str| {
        if taken.contains(&name) {
            Attempt::Taken
        } else {
            Attempt::Created
        }
    };
    assert_eq!(
        search("s", outcome),
        (Step::Keep("s.002-ux.jsonl.gz".to_string()), 3)
    );
    assert_eq!(
        search("s", |name| if name == "s.999-ux.jsonl.gz" {
            Attempt::Created
        } else {
            Attempt::Taken
        }),
        (Step::Keep("s.999-ux.jsonl.gz".to_string()), 1000)
    );
}

#[test]
fn a_search_gives_up_when_all_are_taken_and_stops_at_a_failure() {
    assert_eq!(
        search("s", |_| Attempt::Taken),
        (
            Step::GiveUp(
                "could not find a free trace filename for stamp \"s\" after 999 tries".to_string()
            ),
            1000
        )
    );
    assert_eq!(
        search("s", |name| if name == "s.004-ux.jsonl.gz" {
            Attempt::Failed
        } else {
            Attempt::Taken
        }),
        (Step::Fail, 5)
    );
}
