use game_launcher::archive::ExtractStep;
use game_launcher::backup::BackupEntry;
use game_launcher::layout::{install_request, update_request, DirectoryLayout};
use game_launcher::locator::MarkerSet;
use game_launcher::pipeline::{http_error_text, Action, Installer, Phase, Reaction, Signal};
use game_launcher::progress::ProgressStatus;

fn install() -> Installer {
    Installer::new(
        install_request(
            DirectoryLayout::MultiVersion,
            "/l/games",
            "p1".to_string(),
            Some("1.0".to_string()),
            "https://example.org/p1.zip".to_string(),
            Some("Mirror".to_string()),
        ),
        MarkerSet::windows(),
    )
}

fn update(current: Option<&str>) -> Installer {
    Installer::new(
        update_request(
            DirectoryLayout::MultiVersion,
            "/l/games",
            "p1".to_string(),
            Some("1.1".to_string()),
            "https://example.org/p1.zip".to_string(),
            current.map(|c| c.to_string()),
            1_700_000_000,
        ),
        MarkerSet::windows(),
    )
}

fn strings(list: &[&str]) -> Vec<String> {
    list.iter().map(|s| s.to_string()).collect()
}

fn failed(message: &str) -> Signal {
    Signal::Failed { message: message.to_string() }
}

fn responded(status: u16, total: Option<u64>) -> Signal {
    Signal::Responded { status, total, now_ms: 0 }
}

fn backups(times: &[u64]) -> Signal {
    Signal::Backups {
        entries: times
            .iter()
            .enumerate()
            .map(|(i, t)| BackupEntry { name: format!("backup_{}", i), created: *t })
            .collect(),
    }
}

fn entries() -> Signal {
    Signal::Entries { names: strings(&["bin/", "bin/p1.exe", "readme.txt"]) }
}

fn walked() -> Signal {
    Signal::Walked { files: strings(&["readme.txt", "bin/p1.exe", "unins000.exe"]) }
}

/// The signals of an install that goes well, up to the given phase.
fn signals_to(phase: Phase) -> Vec<Signal> {
    let all = vec![
        (Phase::Preparing, Signal::Start),
        (Phase::Downloading, Signal::Done),
        (Phase::Downloading, responded(200, Some(4096))),
        (Phase::Downloading, Signal::Chunk { len: 4096, now_ms: 40 }),
        (Phase::Extracting, Signal::BodyEnded),
        (Phase::Extracting, entries()),
        (Phase::Locating, Signal::Done),
        (Phase::Registering, walked()),
        (Phase::Completed, Signal::Done),
    ];
    let order = [
        Phase::Idle,
        Phase::Preparing,
        Phase::Downloading,
        Phase::Extracting,
        Phase::Locating,
        Phase::Registering,
        Phase::Completed,
    ];
    let place = |p: Phase| order.iter().position(|q| *q == p).unwrap();
    all.into_iter().filter(|(p, _)| place(*p) <= place(phase)).map(|(_, s)| s).collect()
}

fn advanced_to(mut op: Installer, phase: Phase) -> Installer {
    for signal in signals_to(phase) {
        op.advance(signal);
    }
    assert_eq!(op.phase(), phase);
    op
}

fn statuses(reaction: &Reaction) -> Vec<ProgressStatus> {
    reaction.events.iter().map(|e| e.status).collect()
}

fn finish_of(reaction: Reaction) -> Result<String, String> {
    match reaction.action {
        Action::Finish { result } => result,
        other => panic!("unexpected {:?}", other),
    }
}

#[test]
fn new_operation_is_idle() {
    let op = install();
    assert_eq!(op.phase(), Phase::Idle);
    assert!(!op.is_finished());
    assert_eq!(op.request().package_id, "p1");
}

#[test]
fn install_walks_through_every_phase() {
    let mut op = install();

    let r = op.advance(Signal::Start);
    assert_eq!(op.phase(), Phase::Preparing);
    assert!(r.events.is_empty());
    match r.action {
        Action::Prepare { install_dir } => assert_eq!(install_dir, "/l/games/p1.v1.0"),
        other => panic!("unexpected {:?}", other),
    }

    let r = op.advance(Signal::Done);
    assert_eq!(op.phase(), Phase::Downloading);
    assert_eq!(r.events.len(), 1);
    let started = &r.events[0];
    assert_eq!(started.status, ProgressStatus::Started);
    assert_eq!(started.package_id, "p1");
    assert_eq!(started.source_name, "Mirror");
    assert_eq!(started.percent, Some(0));
    assert_eq!(started.downloaded_bytes, 0);
    assert_eq!(started.total_bytes, None);
    assert_eq!(started.bytes_per_second, 0);
    assert_eq!(started.message, None);
    assert_eq!(started.install_dir, None);
    assert_eq!(started.executable_path, None);
    match r.action {
        Action::Download { url, archive_path } => {
            assert_eq!(url, "https://example.org/p1.zip");
            assert_eq!(archive_path, "/l/games/p1.v1.0/download.zip");
        },
        other => panic!("unexpected {:?}", other),
    }

    let r = op.advance(responded(200, Some(4096)));
    assert_eq!(op.phase(), Phase::Downloading);
    assert!(r.events.is_empty());
    assert!(matches!(r.action, Action::ReadChunk));

    let r = op.advance(Signal::Chunk { len: 1024, now_ms: 100 });
    assert_eq!(op.phase(), Phase::Downloading);
    assert!(r.events.is_empty());
    assert!(matches!(r.action, Action::ReadChunk));

    let r = op.advance(Signal::Chunk { len: 1024, now_ms: 400 });
    assert!(matches!(r.action, Action::ReadChunk));
    assert_eq!(r.events.len(), 1);
    let progress = &r.events[0];
    assert_eq!(progress.status, ProgressStatus::Progress);
    assert_eq!(progress.package_id, "p1");
    assert_eq!(progress.source_name, "Mirror");
    assert_eq!(progress.percent, Some(50));
    assert_eq!(progress.downloaded_bytes, 2048);
    assert_eq!(progress.total_bytes, Some(4096));
    assert_eq!(progress.bytes_per_second, 5120);
    assert_eq!(progress.install_dir, Some("/l/games/p1.v1.0".to_string()));

    let r = op.advance(Signal::Chunk { len: 2048, now_ms: 500 });
    assert!(matches!(r.action, Action::ReadChunk));
    assert_eq!(statuses(&r), vec![ProgressStatus::Progress]);
    assert_eq!(r.events[0].percent, Some(100));
    assert_eq!(r.events[0].downloaded_bytes, 4096);
    assert_eq!(r.events[0].bytes_per_second, 20480);

    let r = op.advance(Signal::BodyEnded);
    assert_eq!(op.phase(), Phase::Extracting);
    assert_eq!(r.events.len(), 1);
    let extracting = &r.events[0];
    assert_eq!(extracting.status, ProgressStatus::Extracting);
    assert_eq!(extracting.percent, Some(100));
    assert_eq!(extracting.downloaded_bytes, 4096);
    assert_eq!(extracting.total_bytes, Some(4096));
    assert_eq!(extracting.install_dir, Some("/l/games/p1.v1.0".to_string()));
    assert_eq!(extracting.executable_path, None);
    match r.action {
        Action::ListArchive { archive_path } => {
            assert_eq!(archive_path, "/l/games/p1.v1.0/download.zip");
        },
        other => panic!("unexpected {:?}", other),
    }

    let r = op.advance(entries());
    assert_eq!(op.phase(), Phase::Extracting);
    assert!(r.events.is_empty());
    match r.action {
        Action::Unpack { archive_path, install_dir, steps } => {
            assert_eq!(archive_path, "/l/games/p1.v1.0/download.zip");
            assert_eq!(install_dir, "/l/games/p1.v1.0");
            assert_eq!(steps.len(), 4);
            match &steps[0] {
                ExtractStep::CreateDirectory { path } => assert_eq!(path, &strings(&["bin"])),
                other => panic!("unexpected {:?}", other),
            }
            match &steps[1] {
                ExtractStep::WriteFile { path } => assert_eq!(path, &strings(&["bin", "p1.exe"])),
                other => panic!("unexpected {:?}", other),
            }
            match &steps[2] {
                ExtractStep::WriteFile { path } => assert_eq!(path, &strings(&["readme.txt"])),
                other => panic!("unexpected {:?}", other),
            }
            assert!(matches!(steps[3], ExtractStep::RemoveArchive));
        },
        other => panic!("unexpected {:?}", other),
    }

    let r = op.advance(Signal::Done);
    assert_eq!(op.phase(), Phase::Locating);
    assert!(r.events.is_empty());
    match r.action {
        Action::Walk { install_dir } => assert_eq!(install_dir, "/l/games/p1.v1.0"),
        other => panic!("unexpected {:?}", other),
    }

    let r = op.advance(walked());
    assert_eq!(op.phase(), Phase::Registering);
    assert!(r.events.is_empty());
    match r.action {
        Action::Register { record } => {
            assert_eq!(record.package_id, "p1");
            assert_eq!(record.version, "1.0");
            assert_eq!(record.install_dir, "/l/games/p1.v1.0");
            assert_eq!(record.executable_rel_path, "bin/p1.exe");
        },
        other => panic!("unexpected {:?}", other),
    }

    let r = op.advance(Signal::Done);
    assert_eq!(op.phase(), Phase::Completed);
    assert!(op.is_finished());
    assert_eq!(r.events.len(), 1);
    let completed = &r.events[0];
    assert_eq!(completed.status, ProgressStatus::Completed);
    assert_eq!(completed.percent, Some(100));
    assert_eq!(completed.downloaded_bytes, 4096);
    assert_eq!(completed.total_bytes, Some(4096));
    assert_eq!(completed.install_dir, Some("/l/games/p1.v1.0".to_string()));
    assert_eq!(completed.executable_path, Some("/l/games/p1.v1.0/bin/p1.exe".to_string()));
    assert_eq!(finish_of(r), Ok("/l/games/p1.v1.0".to_string()));
}

#[test]
fn http_error_ends_the_operation_with_one_error_event() {
    let mut op = install();
    let mut seen = Vec::new();
    let mut registered = false;
    let mut result = None;
    for signal in [Signal::Start, Signal::Done, responded(404, None)] {
        let r = op.advance(signal);
        seen.extend(statuses(&r));
        registered = registered || matches!(r.action, Action::Register { .. });
        if let Action::Finish { result: end } = r.action {
            let message = r.events[0].message.clone().unwrap();
            assert!(message.contains("404"));
            assert!(message.contains("Mirror"));
            result = Some(end);
        }
    }
    assert_eq!(seen, vec![ProgressStatus::Started, ProgressStatus::Error]);
    assert_eq!(result, Some(Err("HTTP error 404 from Mirror".to_string())));
    assert!(!registered);
    assert_eq!(op.phase(), Phase::Error);
    assert!(op.is_finished());
}

#[test]
fn only_statuses_from_200_to_299_are_success() {
    for status in [200u16, 201, 204, 206, 299] {
        let mut op = advanced_to(install(), Phase::Preparing);
        op.advance(Signal::Done);
        let r = op.advance(responded(status, None));
        assert!(matches!(r.action, Action::ReadChunk), "{status}");
        assert_eq!(op.phase(), Phase::Downloading);
    }
    for status in [0u16, 100, 199, 300, 301, 304, 400, 404, 500, 503, 999, u16::MAX] {
        let mut op = advanced_to(install(), Phase::Preparing);
        op.advance(Signal::Done);
        let r = op.advance(responded(status, Some(10)));
        assert_eq!(op.phase(), Phase::Error, "{status}");
        assert_eq!(finish_of(r), Err(format!("HTTP error {} from Mirror", status)));
    }
}

#[test]
fn http_error_message_names_status_and_source() {
    assert_eq!(http_error_text(404, "Mirror"), "HTTP error 404 from Mirror");
    assert_eq!(http_error_text(500, "Unknown"), "HTTP error 500 from Unknown");
    assert_eq!(http_error_text(0, ""), "HTTP error 0 from ");
}

#[test]
fn download_without_announced_length_reports_no_percent() {
    let mut op = advanced_to(install(), Phase::Preparing);
    op.advance(Signal::Done);
    op.advance(responded(200, None));
    let r = op.advance(Signal::Chunk { len: 10, now_ms: 100 });
    assert!(r.events.is_empty());
    let r = op.advance(Signal::Chunk { len: 10, now_ms: 300 });
    assert_eq!(statuses(&r), vec![ProgressStatus::Progress]);
    assert_eq!(r.events[0].percent, None);
    assert_eq!(r.events[0].total_bytes, None);
    assert_eq!(r.events[0].downloaded_bytes, 20);
    let r = op.advance(Signal::BodyEnded);
    assert_eq!(statuses(&r), vec![ProgressStatus::Extracting]);
    assert_eq!(r.events[0].percent, Some(100));
    assert_eq!(r.events[0].downloaded_bytes, 20);
    assert_eq!(r.events[0].total_bytes, None);
}

#[test]
fn body_longer_than_can_be_counted_fails_the_download() {
    let mut op = advanced_to(install(), Phase::Preparing);
    op.advance(Signal::Done);
    op.advance(responded(200, None));
    op.advance(Signal::Chunk { len: u64::MAX, now_ms: 1 });
    assert_eq!(op.phase(), Phase::Downloading);
    let r = op.advance(Signal::Chunk { len: 1, now_ms: 2 });
    assert_eq!(op.phase(), Phase::Error);
    assert_eq!(finish_of(r), Err("Download is too large".to_string()));
}

#[test]
fn chunks_need_an_answered_request() {
    let mut op = advanced_to(install(), Phase::Preparing);
    op.advance(Signal::Done);
    let r = op.advance(Signal::Chunk { len: 1, now_ms: 2 });
    assert_eq!(op.phase(), Phase::Error);
    assert_eq!(finish_of(r), Err("Unexpected signal for the current phase".to_string()));

    let mut op = advanced_to(install(), Phase::Preparing);
    op.advance(Signal::Done);
    let r = op.advance(Signal::BodyEnded);
    assert_eq!(op.phase(), Phase::Error);
    assert_eq!(finish_of(r), Err("Unexpected signal for the current phase".to_string()));

    let mut op = advanced_to(install(), Phase::Preparing);
    op.advance(Signal::Done);
    op.advance(responded(200, None));
    let r = op.advance(responded(200, None));
    assert_eq!(op.phase(), Phase::Error);
    assert_eq!(finish_of(r), Err("Unexpected signal for the current phase".to_string()));
}

#[test]
fn error_event_carries_the_failure() {
    let mut op = advanced_to(install(), Phase::Preparing);
    op.advance(Signal::Done);
    let r = op.advance(failed("Failed to start download: connection refused"));
    assert_eq!(op.phase(), Phase::Error);
    assert_eq!(r.events.len(), 1);
    let e = &r.events[0];
    assert_eq!(e.status, ProgressStatus::Error);
    assert_eq!(e.message, Some("Failed to start download: connection refused".to_string()));
    assert_eq!(e.percent, Some(0));
    assert_eq!(e.downloaded_bytes, 0);
    assert_eq!(e.total_bytes, None);
    assert_eq!(e.install_dir, None);
    assert_eq!(finish_of(r), Err("Failed to start download: connection refused".to_string()));
}

#[test]
fn every_phase_under_way_can_fail() {
    for phase in [
        Phase::Idle,
        Phase::Preparing,
        Phase::Downloading,
        Phase::Extracting,
        Phase::Locating,
        Phase::Registering,
    ] {
        let mut op = advanced_to(install(), phase);
        let r = op.advance(failed("disk full"));
        assert_eq!(op.phase(), Phase::Error, "from {:?}", phase);
        assert_eq!(statuses(&r), vec![ProgressStatus::Error]);
        assert_eq!(r.events[0].message, Some("disk full".to_string()));
        assert_eq!(finish_of(r), Err("disk full".to_string()));
    }
    let mut op = advanced_to(update(Some("1.0")), Phase::Idle);
    op.advance(Signal::Start);
    assert_eq!(op.phase(), Phase::BackingUp);
    op.advance(failed("disk full"));
    assert_eq!(op.phase(), Phase::Error);
}

#[test]
fn install_without_executable_fails() {
    let mut op = advanced_to(install(), Phase::Locating);
    let r = op.advance(Signal::Walked { files: strings(&["readme.txt", "data/asset.bin"]) });
    assert_eq!(op.phase(), Phase::Error);
    assert_eq!(statuses(&r), vec![ProgressStatus::Error]);
    assert_eq!(
        r.events[0].message,
        Some("No executable found in /l/games/p1.v1.0".to_string())
    );
    assert_eq!(finish_of(r), Err("No executable found in /l/games/p1.v1.0".to_string()));
}

#[test]
fn signal_that_does_not_fit_the_phase_fails_the_operation() {
    let mut op = advanced_to(install(), Phase::Preparing);
    let r = op.advance(Signal::Walked { files: strings(&["x.exe"]) });
    assert_eq!(op.phase(), Phase::Error);
    assert_eq!(
        r.events[0].message,
        Some("Unexpected signal for the current phase".to_string())
    );

    let mut op = install();
    let r = op.advance(Signal::Done);
    assert_eq!(op.phase(), Phase::Error);
    assert_eq!(statuses(&r), vec![ProgressStatus::Error]);

    let mut op = advanced_to(install(), Phase::Preparing);
    op.advance(Signal::Start);
    assert_eq!(op.phase(), Phase::Error);

    let mut op = advanced_to(install(), Phase::Preparing);
    let r = op.advance(responded(200, None));
    assert_eq!(
        r.events[0].message,
        Some("Unexpected signal for the current phase".to_string())
    );
}

#[test]
fn nothing_follows_the_end() {
    let mut op = advanced_to(install(), Phase::Preparing);
    op.advance(failed("boom"));
    assert!(op.is_finished());
    for s in [
        Signal::Start,
        Signal::Done,
        failed("again"),
        responded(200, None),
        Signal::Chunk { len: 1, now_ms: 1 },
        Signal::BodyEnded,
        Signal::Walked { files: Vec::new() },
        Signal::Entries { names: Vec::new() },
    ] {
        let r = op.advance(s);
        assert!(r.events.is_empty());
        assert_eq!(op.phase(), Phase::Error);
        assert_eq!(finish_of(r), Err("boom".to_string()));
    }
}

#[test]
fn completed_operation_keeps_its_result() {
    let mut op = advanced_to(install(), Phase::Completed);
    let r = op.advance(failed("late"));
    assert!(r.events.is_empty());
    assert_eq!(op.phase(), Phase::Completed);
    assert_eq!(finish_of(r), Ok("/l/games/p1.v1.0".to_string()));
}

#[test]
fn update_backs_up_before_preparing() {
    let mut op = update(Some("1.0"));
    let r = op.advance(Signal::Start);
    assert_eq!(op.phase(), Phase::BackingUp);
    assert!(r.events.is_empty());
    match r.action {
        Action::BackUp { source_dir, backup_dir } => {
            assert_eq!(source_dir, "/l/games/p1.v1.0");
            assert_eq!(backup_dir, "/l/games/backups/p1/backup_1700000000");
        },
        other => panic!("unexpected {:?}", other),
    }
    let r = op.advance(Signal::Done);
    assert_eq!(op.phase(), Phase::Preparing);
    match r.action {
        Action::Prepare { install_dir } => assert_eq!(install_dir, "/l/games/p1.v1.1"),
        other => panic!("unexpected {:?}", other),
    }
}

#[test]
fn update_without_known_version_skips_the_backup() {
    let mut op = update(None);
    let r = op.advance(Signal::Start);
    assert_eq!(op.phase(), Phase::Preparing);
    assert!(matches!(r.action, Action::Prepare { .. }));
}

#[test]
fn failed_backup_ends_the_update_without_pruning() {
    let mut op = update(Some("1.0"));
    op.advance(Signal::Start);
    let r = op.advance(failed("copy failed"));
    assert_eq!(op.phase(), Phase::Error);
    assert!(op.is_finished());
    assert_eq!(statuses(&r), vec![ProgressStatus::Error]);
    assert_eq!(finish_of(r), Err("copy failed".to_string()));
}

#[test]
fn update_prunes_backups_after_completion() {
    let mut op = advanced_to(update(None), Phase::Registering);
    let r = op.advance(Signal::Done);
    assert_eq!(op.phase(), Phase::Completed);
    assert!(!op.is_finished());
    assert_eq!(statuses(&r), vec![ProgressStatus::Completed]);
    assert_eq!(r.events[0].source_name, "Update");
    match r.action {
        Action::ListBackups { backup_root } => assert_eq!(backup_root, "/l/games/backups/p1"),
        other => panic!("unexpected {:?}", other),
    }
    let r = op.advance(backups(&[500, 100, 400, 200, 300]));
    assert_eq!(op.phase(), Phase::Completed);
    assert!(!op.is_finished());
    assert!(r.events.is_empty());
    match r.action {
        Action::RemoveBackups { backup_root, names } => {
            assert_eq!(backup_root, "/l/games/backups/p1");
            assert_eq!(names, strings(&["backup_1", "backup_3"]));
        },
        other => panic!("unexpected {:?}", other),
    }
    let r = op.advance(Signal::Done);
    assert!(op.is_finished());
    assert!(r.events.is_empty());
    assert_eq!(finish_of(r), Ok("/l/games/p1.v1.1".to_string()));
}

#[test]
fn update_with_few_backups_removes_none() {
    let mut op = advanced_to(update(None), Phase::Completed);
    let r = op.advance(backups(&[3, 1, 2]));
    match r.action {
        Action::RemoveBackups { names, .. } => assert!(names.is_empty()),
        other => panic!("unexpected {:?}", other),
    }
    let mut op = advanced_to(update(None), Phase::Completed);
    let r = op.advance(backups(&[]));
    match r.action {
        Action::RemoveBackups { names, .. } => assert!(names.is_empty()),
        other => panic!("unexpected {:?}", other),
    }
}

#[test]
fn update_prunes_backups_after_failure() {
    let mut op = update(Some("1.0"));
    for s in [Signal::Start, Signal::Done, Signal::Done] {
        op.advance(s);
    }
    assert_eq!(op.phase(), Phase::Downloading);
    let r = op.advance(responded(503, None));
    assert_eq!(op.phase(), Phase::Error);
    assert!(!op.is_finished());
    assert_eq!(statuses(&r), vec![ProgressStatus::Error]);
    assert!(matches!(r.action, Action::ListBackups { .. }));
    let r = op.advance(backups(&[1, 2, 3, 4]));
    assert!(!op.is_finished());
    match r.action {
        Action::RemoveBackups { names, .. } => assert_eq!(names, strings(&["backup_0"])),
        other => panic!("unexpected {:?}", other),
    }
    let r = op.advance(Signal::Done);
    assert!(op.is_finished());
    assert!(r.events.is_empty());
    assert_eq!(finish_of(r), Err("HTTP error 503 from Update".to_string()));
}

#[test]
fn failed_pruning_is_the_result_of_the_update() {
    let mut op = advanced_to(update(None), Phase::Completed);
    op.advance(backups(&[1, 2, 3, 4]));
    let r = op.advance(failed("cannot delete backup_0"));
    assert!(r.events.is_empty());
    assert!(op.is_finished());
    assert_eq!(finish_of(r), Err("cannot delete backup_0".to_string()));
    let r = op.advance(Signal::Done);
    assert_eq!(finish_of(r), Err("cannot delete backup_0".to_string()));

    let mut op = advanced_to(update(None), Phase::Completed);
    let r = op.advance(failed("cannot read the backup directory"));
    assert!(op.is_finished());
    assert_eq!(finish_of(r), Err("cannot read the backup directory".to_string()));

    let mut op = advanced_to(update(None), Phase::Completed);
    let r = op.advance(Signal::Done);
    assert!(op.is_finished());
    assert_eq!(finish_of(r), Err("Unexpected signal for the current phase".to_string()));
}

#[test]
fn archive_with_refused_entry_is_never_unpacked() {
    let mut op = advanced_to(install(), Phase::Downloading);
    op.advance(Signal::BodyEnded);
    let r = op.advance(Signal::Entries { names: strings(&["p1.exe", "a/../../evil.dll", "x"]) });
    assert_eq!(op.phase(), Phase::Error);
    assert_eq!(statuses(&r), vec![ProgressStatus::Error]);
    assert_eq!(
        r.events[0].message,
        Some("Archive entry 1 is refused: its path holds a parent-directory segment".to_string())
    );
    assert!(matches!(r.action, Action::Finish { result: Err(_) }));
}

#[test]
fn launch_target_is_picked_by_score() {
    let mut op = advanced_to(install(), Phase::Locating);
    let r = op.advance(Signal::Walked {
        files: strings(&["unins000.exe", "setup.exe", "app/game.exe", "app/other.exe"]),
    });
    match r.action {
        Action::Register { record } => assert_eq!(record.executable_rel_path, "app/game.exe"),
        other => panic!("unexpected {:?}", other),
    }
}

#[test]
fn extraction_is_planned_once() {
    let mut op = advanced_to(install(), Phase::Extracting);
    let r = op.advance(entries());
    assert_eq!(op.phase(), Phase::Error);
    assert_eq!(
        r.events[0].message,
        Some("Unexpected signal for the current phase".to_string())
    );

    let mut op = advanced_to(install(), Phase::Downloading);
    op.advance(Signal::BodyEnded);
    assert_eq!(op.phase(), Phase::Extracting);
    op.advance(Signal::Done);
    assert_eq!(op.phase(), Phase::Error);
}
