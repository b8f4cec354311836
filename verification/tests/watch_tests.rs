use filewatcher::watch::{
    FileWatcher, FsReply, HandleError, HandleOutcome, HandleState, MovePlan, ScanEntry, WatchEvent,
    WatchEventKind,
};

fn watcher(target: &str) -> FileWatcher {
    FileWatcher::new(String::from(target))
}

/// Drives the per-file protocol the way a caller with a real filesystem
/// would, against a scripted sequence of replies.
fn drive(plan: MovePlan, replies: &[FsReply]) -> HandleOutcome {
    let mut state = HandleState::CheckDir(plan);
    let mut i = 0;
    loop {
        match state {
            HandleState::Done(outcome) => return outcome,
            s => {
                assert!(i < replies.len(), "protocol asked for more replies than scripted");
                state = filewatcher::watch::handle_step(s, replies[i]);
                i += 1;
            }
        }
    }
}

#[test]
fn test_handle_file_errors_on_non_existent_extension() {
    let stupid_file = "a silly file";
    let fw = watcher("foo");
    let result = fw.handle_file(stupid_file);
    assert!(result.is_err());
}

#[test]
fn test_handle_event_executes_on_create_file_event() {
    let mock_event = WatchEvent {
        kind: WatchEventKind::FileCreated,
        paths: Vec::new(),
    };
    let fw = watcher("foo");
    let result = fw.handle_event(&mock_event);
    assert!(result.is_empty());
}

#[test]
fn handle_file_plans_exact_destination() {
    let fw = watcher("/tank");
    let plan = fw.handle_file("/tank/report.pdf").unwrap();
    assert_eq!(plan.source, "/tank/report.pdf");
    assert_eq!(plan.bucket_dir, "/tank/pdf");
    assert_eq!(plan.destination, "/tank/pdf/report.pdf");
}

#[test]
fn backload_moves_report_and_notes() {
    let fw = watcher("/tank");
    let entries = vec![
        ScanEntry {
            path: String::from("/tank/report.pdf"),
            is_regular_file: true,
        },
        ScanEntry {
            path: String::from("/tank/notes.txt"),
            is_regular_file: true,
        },
    ];
    let candidates = fw.backload_candidates(&entries);
    assert_eq!(candidates, vec!["/tank/report.pdf", "/tank/notes.txt"]);

    let mut destinations = Vec::new();
    for path in &candidates {
        let plan = fw.handle_file(path).unwrap();
        assert_ne!(plan.destination, plan.source);
        let outcome = drive(
            plan.clone(),
            &[
                FsReply::DirExists(false),
                FsReply::Created(true),
                FsReply::SourceIsFile(true),
                FsReply::Renamed(true),
            ],
        );
        assert_eq!(outcome, HandleOutcome::Moved);
        destinations.push(plan.destination);
    }
    assert_eq!(
        destinations,
        vec!["/tank/pdf/report.pdf", "/tank/txt/notes.txt"]
    );
}

#[test]
fn backload_leaves_archive_without_extension() {
    let fw = watcher("/tank");
    let entries = vec![ScanEntry {
        path: String::from("/tank/archive"),
        is_regular_file: true,
    }];
    let candidates = fw.backload_candidates(&entries);
    assert_eq!(candidates, vec!["/tank/archive"]);
    let result = fw.handle_file(&candidates[0]);
    assert_eq!(result.unwrap_err(), HandleError::UnclassifiableFile);
}

#[test]
fn backload_candidates_skip_directories() {
    let fw = watcher("/tank");
    let entries = vec![
        ScanEntry {
            path: String::from("/tank/pdf"),
            is_regular_file: false,
        },
        ScanEntry {
            path: String::from("/tank/a.txt"),
            is_regular_file: true,
        },
        ScanEntry {
            path: String::from("/tank/txt"),
            is_regular_file: false,
        },
    ];
    let candidates = fw.backload_candidates(&entries);
    assert_eq!(candidates, vec!["/tank/a.txt"]);
}

#[test]
fn live_event_moves_new_photo() {
    let fw = watcher("/tank");
    let event = WatchEvent {
        kind: WatchEventKind::FileCreated,
        paths: vec![String::from("/tank/photo.png")],
    };
    let results = fw.handle_event(&event);
    assert_eq!(results.len(), 1);
    let plan = results[0].clone().unwrap();
    assert_eq!(plan.destination, "/tank/png/photo.png");
    let outcome = drive(
        plan,
        &[
            FsReply::DirExists(false),
            FsReply::Created(true),
            FsReply::SourceIsFile(true),
            FsReply::Renamed(true),
        ],
    );
    assert_eq!(outcome, HandleOutcome::Moved);
}

#[test]
fn event_paths_are_handled_independently() {
    let fw = watcher("/tank");
    let event = WatchEvent {
        kind: WatchEventKind::FileCreated,
        paths: vec![
            String::from("/tank/a.png"),
            String::from("/tank/no_extension"),
            String::from("/tank/b.txt"),
        ],
    };
    let results = fw.handle_event(&event);
    assert_eq!(results.len(), 3);
    assert_eq!(results[0].as_ref().unwrap().destination, "/tank/png/a.png");
    assert_eq!(
        results[1].as_ref().unwrap_err(),
        &HandleError::UnclassifiableFile
    );
    assert_eq!(results[2].as_ref().unwrap().destination, "/tank/txt/b.txt");
}

#[test]
fn other_event_kinds_are_discarded() {
    let fw = watcher("/tank");
    let event = WatchEvent {
        kind: WatchEventKind::Other,
        paths: vec![String::from("/tank/a.png")],
    };
    let results = fw.handle_event(&event);
    assert!(results.is_empty());
}

#[test]
fn vanished_source_is_skipped_without_error() {
    let fw = watcher("/tank");
    let plan = fw.handle_file("/tank/looks_like_a_file.d").unwrap();
    let outcome = drive(plan, &[FsReply::DirExists(true), FsReply::SourceIsFile(false)]);
    assert_eq!(outcome, HandleOutcome::SkippedNotFile);
    assert_eq!(outcome.as_result(), Ok(false));
}

#[test]
fn existing_bucket_skips_creation() {
    let fw = watcher("/tank");
    let plan = fw.handle_file("/tank/report.pdf").unwrap();
    let state = HandleState::CheckDir(plan);
    let state = filewatcher::watch::handle_step(state, FsReply::DirExists(true));
    assert!(matches!(state, HandleState::CheckSource(_)));
    match state {
        HandleState::CheckSource(p) => assert_eq!(p.bucket_dir, "/tank/pdf"),
        _ => unreachable!(),
    }
}

#[test]
fn failed_creation_reports_directory_create_error() {
    let fw = watcher("/tank");
    let plan = fw.handle_file("/tank/report.pdf").unwrap();
    let outcome = drive(plan, &[FsReply::DirExists(false), FsReply::Created(false)]);
    assert_eq!(
        outcome,
        HandleOutcome::Failed(HandleError::DirectoryCreateError)
    );
    assert_eq!(outcome.as_result(), Err(HandleError::DirectoryCreateError));
}

#[test]
fn failed_rename_reports_move_error() {
    let fw = watcher("/tank");
    let plan = fw.handle_file("/tank/report.pdf").unwrap();
    let outcome = drive(
        plan,
        &[
            FsReply::DirExists(true),
            FsReply::SourceIsFile(true),
            FsReply::Renamed(false),
        ],
    );
    assert_eq!(outcome, HandleOutcome::Failed(HandleError::MoveError));
    assert_eq!(outcome.as_result(), Err(HandleError::MoveError));
}

#[test]
fn same_name_twice_targets_same_destination() {
    let fw = watcher("/tank");
    let first = fw.handle_file("/tank/invoice.pdf").unwrap();
    let second = fw.handle_file("/tank/invoice.pdf").unwrap();
    assert_eq!(first.destination, second.destination);
    assert_eq!(first.destination, "/tank/pdf/invoice.pdf");
}

#[test]
fn expand_path_keeps_absolute_target() {
    let mut fw = watcher("/var/downloads");
    fw.expand_path("/home/me");
    assert_eq!(fw.target_dir(), "/var/downloads");
}

#[test]
fn expand_path_resolves_relative_target_under_home() {
    let mut fw = watcher("downloads");
    fw.expand_path("/home/me");
    assert_eq!(fw.target_dir(), "/home/me/downloads");
}
