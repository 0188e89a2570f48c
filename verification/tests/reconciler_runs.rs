use file_backup::change::{ChangeEntry, ChangeType};
use file_backup::error::{BackendFailure, ReconcileError, TargetProblem};
use file_backup::history::{BackupRecord, History};
use file_backup::model::{Mode, Outcome, Phase};
use file_backup::oracle::{dataset_root, head, ToolOutput};
use file_backup::reconciler::{determine_mode, Action, Event, Reconciler};
use file_backup::source::{SourceConfig, SourceKind};

fn dataset(name: &str) -> SourceConfig {
    SourceConfig {
        kind: SourceKind::DatasetLike,
        name: name.to_string(),
        target_dir: "/backup".to_string(),
    }
}

fn repository(name: &str) -> SourceConfig {
    SourceConfig {
        kind: SourceKind::ContentRepo,
        name: name.to_string(),
        target_dir: "/backup".to_string(),
    }
}

fn printed(stdout: &str) -> ToolOutput {
    ToolOutput { success: true, stdout: stdout.to_string(), stderr: String::new() }
}

fn texts(raw: &[&str]) -> Vec<String> {
    raw.iter().map(|s| s.to_string()).collect()
}

fn change(change_type: ChangeType, path: &str) -> ChangeEntry {
    ChangeEntry { change_type, path: path.to_string(), rename_target: None }
}

/// Feeds the events to a reconciler one by one and returns what it asked for,
/// the first action included.
fn drive(source: SourceConfig, events: Vec<Event>) -> (Reconciler, Vec<Action>) {
    let (mut machine, first) = Reconciler::start(source);
    let mut asked = vec![first];
    for event in events {
        let action = machine.step(event).expect("the reconciler waits for this event");
        asked.push(action);
    }
    (machine, asked)
}

fn ready_dataset_with_history(history: &[&str]) -> Vec<Event> {
    vec![
        Event::TargetChecked { exists: true, is_dir: true },
        Event::ReadinessChecked(true),
        Event::HistoryListed(texts(history)),
    ]
}

#[test]
fn first_backup_of_a_dataset_is_full_and_recorded() {
    let source = dataset("pool/ds");
    let mut log = History::new();
    let (mut machine, first) = Reconciler::start(source.clone());
    assert_eq!(first, Action::CheckTarget);
    assert_eq!(
        machine.step(Event::TargetChecked { exists: true, is_dir: true }),
        Some(Action::CheckReadiness)
    );
    assert_eq!(machine.step(Event::ReadinessChecked(true)), Some(Action::ListHistory));
    let recorded = log.snapshots_of(source.kind, &source.name);
    assert!(recorded.is_empty());
    assert_eq!(machine.step(Event::HistoryListed(recorded)), Some(Action::ListHead));
    let listing = printed("pool/ds@2024-01-01\n");
    let asked = machine.step(head(SourceKind::DatasetLike, Some(&listing)));
    assert_eq!(asked, Some(Action::ResolveRoot("pool/ds@2024-01-01".to_string())));
    let mountpoint = printed("/mnt/pool/ds\n");
    let resolved = dataset_root("pool/ds@2024-01-01", Some(&mountpoint));
    assert_eq!(
        resolved,
        Event::RootResolved("/mnt/pool/ds/.zfs/snapshot/2024-01-01".to_string())
    );
    assert_eq!(
        machine.step(resolved),
        Some(Action::MirrorRoot("/mnt/pool/ds/.zfs/snapshot/2024-01-01".to_string()))
    );
    let asked = machine.step(Event::Transferred);
    assert_eq!(asked, Some(Action::Record("pool/ds@2024-01-01".to_string())));
    let added = log.append(BackupRecord {
        source_kind: source.kind,
        source_name: source.name.clone(),
        snapshot_id: "pool/ds@2024-01-01".to_string(),
        target_dir: source.target_dir.clone(),
        recorded_at: 1_704_067_200,
    });
    assert!(added);
    assert_eq!(machine.step(Event::Recorded), Some(Action::Finish(Outcome::FullBackup)));
    assert!(machine.is_done());
    assert_eq!(log.len(), 1);
    assert_eq!(
        log.snapshots_of(SourceKind::DatasetLike, "pool/ds"),
        vec!["pool/ds@2024-01-01".to_string()]
    );
}

#[test]
fn head_that_is_the_baseline_is_skipped() {
    let mut events = ready_dataset_with_history(&["S1"]);
    events.push(Event::ExistenceChecked(true));
    events.push(Event::HeadListed(Some("S1".to_string())));
    let (machine, asked) = drive(dataset("pool/ds"), events);
    assert_eq!(
        asked,
        vec![
            Action::CheckTarget,
            Action::CheckReadiness,
            Action::ListHistory,
            Action::CheckExistence("S1".to_string()),
            Action::ListHead,
            Action::Finish(Outcome::UpToDate),
        ]
    );
    assert!(machine.is_done());
    assert!(!asked.iter().any(|a| matches!(a, Action::Record(_))));
    assert!(!asked
        .iter()
        .any(|a| matches!(a, Action::MirrorRoot(_) | Action::MirrorFileList { .. })));
}

#[test]
fn baseline_that_is_gone_degrades_to_a_full_backup() {
    let mut events = ready_dataset_with_history(&["S1"]);
    events.push(Event::ExistenceChecked(false));
    events.push(Event::HeadListed(Some("S2".to_string())));
    events.push(Event::RootResolved("/mnt/.zfs/snapshot/S2".to_string()));
    events.push(Event::Transferred);
    events.push(Event::Recorded);
    let (machine, asked) = drive(dataset("pool/ds"), events);
    assert_eq!(
        asked,
        vec![
            Action::CheckTarget,
            Action::CheckReadiness,
            Action::ListHistory,
            Action::CheckExistence("S1".to_string()),
            Action::ListHead,
            Action::ResolveRoot("S2".to_string()),
            Action::MirrorRoot("/mnt/.zfs/snapshot/S2".to_string()),
            Action::Record("S2".to_string()),
            Action::Finish(Outcome::FullBackup),
        ]
    );
    assert!(machine.is_done());
    let records = asked.iter().filter(|a| matches!(a, Action::Record(_))).count();
    assert_eq!(records, 1);
}

#[test]
fn walk_stops_at_the_first_snapshot_that_exists() {
    let mut events = ready_dataset_with_history(&["S3", "S2", "S1"]);
    events.push(Event::ExistenceChecked(false));
    events.push(Event::ExistenceChecked(false));
    events.push(Event::ExistenceChecked(true));
    events.push(Event::HeadListed(Some("S4".to_string())));
    events.push(Event::RootResolved("/root/S4".to_string()));
    let (_, asked) = drive(dataset("pool/ds"), events);
    let checks: Vec<&Action> =
        asked.iter().filter(|a| matches!(a, Action::CheckExistence(_))).collect();
    assert_eq!(
        checks,
        vec![
            &Action::CheckExistence("S3".to_string()),
            &Action::CheckExistence("S2".to_string()),
            &Action::CheckExistence("S1".to_string()),
        ]
    );
    assert_eq!(
        asked.last(),
        Some(&Action::ListChanges {
            baseline: "S1".to_string(),
            head: "S4".to_string(),
            baseline_root: None,
            head_root: "/root/S4".to_string(),
        })
    );
}

#[test]
fn check_that_fails_widens_the_search() {
    let mut events = ready_dataset_with_history(&["S2", "S1"]);
    events.push(Event::Failed(BackendFailure::Transport));
    events.push(Event::ExistenceChecked(true));
    events.push(Event::HeadListed(Some("S1".to_string())));
    let (machine, asked) = drive(dataset("pool/ds"), events);
    assert_eq!(asked[3], Action::CheckExistence("S2".to_string()));
    assert_eq!(asked[4], Action::CheckExistence("S1".to_string()));
    assert_eq!(asked[5], Action::ListHead);
    assert_eq!(asked[6], Action::Finish(Outcome::UpToDate));
    assert!(machine.is_done());
}

#[test]
fn history_that_cannot_be_read_means_no_baseline() {
    let events = vec![
        Event::TargetChecked { exists: true, is_dir: true },
        Event::ReadinessChecked(true),
        Event::Failed(BackendFailure::Logic),
        Event::HeadListed(Some("S1".to_string())),
    ];
    let (_, asked) = drive(dataset("pool/ds"), events);
    assert_eq!(asked[3], Action::ListHead);
    assert_eq!(asked[4], Action::ResolveRoot("S1".to_string()));
}

#[test]
fn mode_follows_baseline_and_head() {
    assert_eq!(determine_mode(None, "S1"), Mode::Full);
    assert_eq!(determine_mode(Some("S1"), "S1"), Mode::Skip);
    assert_eq!(determine_mode(Some("S1"), "S2"), Mode::Incremental);
    assert_eq!(determine_mode(Some(""), ""), Mode::Skip);
}

#[test]
fn deletions_are_asked_for_before_the_transfer() {
    let mut events = ready_dataset_with_history(&["S1"]);
    events.push(Event::ExistenceChecked(true));
    events.push(Event::HeadListed(Some("S2".to_string())));
    events.push(Event::RootResolved("/mnt/.zfs/snapshot/S2".to_string()));
    events.push(Event::ChangesListed {
        entries: vec![
            change(ChangeType::Added, "/mnt/a"),
            change(ChangeType::Removed, "/mnt/c"),
            change(ChangeType::Modified, "/mnt/b"),
        ],
        mount_root: "/mnt".to_string(),
    });
    let (mut machine, asked) = drive(dataset("pool/ds"), events);
    assert_eq!(asked.last(), Some(&Action::DeletePaths(texts(&["c"]))));
    assert_eq!(machine.phase(), Phase::Delete);
    assert_eq!(machine.step(Event::Transferred), None);
    assert_eq!(machine.phase(), Phase::Delete);
    assert_eq!(
        machine.step(Event::PathsDeleted { deleted: 1, errors: 0 }),
        Some(Action::MirrorFileList {
            source_root: "/mnt/.zfs/snapshot/S2".to_string(),
            files: texts(&["a", "b"]),
        })
    );
    assert_eq!(machine.step(Event::Transferred), Some(Action::Record("S2".to_string())));
    assert_eq!(
        machine.step(Event::Recorded),
        Some(Action::Finish(Outcome::IncrementalBackup))
    );
}

#[test]
fn failed_deletion_ends_the_run_without_transfer_or_record() {
    let mut events = ready_dataset_with_history(&["S1"]);
    events.push(Event::ExistenceChecked(true));
    events.push(Event::HeadListed(Some("S2".to_string())));
    events.push(Event::RootResolved("/r".to_string()));
    events.push(Event::ChangesListed {
        entries: vec![change(ChangeType::Added, "a"), change(ChangeType::Removed, "c")],
        mount_root: String::new(),
    });
    events.push(Event::PathsDeleted { deleted: 0, errors: 1 });
    let (machine, asked) = drive(dataset("pool/ds"), events);
    assert_eq!(
        asked.last(),
        Some(&Action::Finish(Outcome::Failed(ReconcileError::PartialDeleteFailure(1))))
    );
    assert!(machine.is_done());
    assert!(!asked.iter().any(|a| matches!(a, Action::MirrorFileList { .. })));
    assert!(!asked.iter().any(|a| matches!(a, Action::Record(_))));
}

#[test]
fn deletions_alone_are_a_backup() {
    let mut events = ready_dataset_with_history(&["S1"]);
    events.push(Event::ExistenceChecked(true));
    events.push(Event::HeadListed(Some("S2".to_string())));
    events.push(Event::RootResolved("/r".to_string()));
    events.push(Event::ChangesListed {
        entries: vec![change(ChangeType::Removed, "gone")],
        mount_root: String::new(),
    });
    events.push(Event::PathsDeleted { deleted: 1, errors: 0 });
    events.push(Event::Recorded);
    let (_, asked) = drive(dataset("pool/ds"), events);
    let n = asked.len();
    assert_eq!(asked[n - 3], Action::DeletePaths(texts(&["gone"])));
    assert_eq!(asked[n - 2], Action::Record("S2".to_string()));
    assert_eq!(asked[n - 1], Action::Finish(Outcome::IncrementalBackup));
}

#[test]
fn change_list_that_asks_for_nothing_is_not_recorded() {
    let mut events = ready_dataset_with_history(&["S1"]);
    events.push(Event::ExistenceChecked(true));
    events.push(Event::HeadListed(Some("S2".to_string())));
    events.push(Event::RootResolved("/r".to_string()));
    events.push(Event::ChangesListed {
        entries: vec![change(ChangeType::Modified, "/mnt/"), change(ChangeType::Modified, "/mnt")],
        mount_root: "/mnt".to_string(),
    });
    let (machine, asked) = drive(dataset("pool/ds"), events);
    assert_eq!(asked.last(), Some(&Action::Finish(Outcome::Unchanged)));
    assert!(machine.is_done());
    assert!(!asked.iter().any(|a| matches!(a, Action::Record(_))));
}

#[test]
fn repository_roots_are_released_after_a_failed_transfer() {
    let events = vec![
        Event::TargetChecked { exists: true, is_dir: true },
        Event::HistoryListed(vec![]),
        Event::HeadListed(Some("abc123".to_string())),
        Event::RootResolved("/tmp/mount-latest".to_string()),
        Event::Failed(BackendFailure::Logic),
        Event::RootReleased,
    ];
    let (machine, asked) = drive(repository("/srv/repo"), events);
    assert_eq!(
        asked,
        vec![
            Action::CheckTarget,
            Action::ListHistory,
            Action::ListHead,
            Action::ResolveRoot("abc123".to_string()),
            Action::MirrorRoot("/tmp/mount-latest".to_string()),
            Action::ReleaseRoot("/tmp/mount-latest".to_string()),
            Action::Finish(Outcome::Failed(ReconcileError::BackendLogicError)),
        ]
    );
    assert!(machine.is_done());
    let releases = asked.iter().filter(|a| matches!(a, Action::ReleaseRoot(_))).count();
    assert_eq!(releases, 1);
}

#[test]
fn repository_increment_resolves_and_releases_both_roots() {
    let events = vec![
        Event::TargetChecked { exists: true, is_dir: true },
        Event::HistoryListed(texts(&["old"])),
        Event::ExistenceChecked(true),
        Event::HeadListed(Some("new".to_string())),
        Event::RootResolved("/tmp/new".to_string()),
        Event::RootResolved("/tmp/old".to_string()),
        Event::ChangesListed {
            entries: vec![change(ChangeType::Modified, "etc/motd")],
            mount_root: String::new(),
        },
        Event::Transferred,
        Event::RootReleased,
        Event::RootReleased,
        Event::Recorded,
    ];
    let (machine, asked) = drive(repository("/srv/repo"), events);
    assert_eq!(
        asked,
        vec![
            Action::CheckTarget,
            Action::ListHistory,
            Action::CheckExistence("old".to_string()),
            Action::ListHead,
            Action::ResolveRoot("new".to_string()),
            Action::ResolveRoot("old".to_string()),
            Action::ListChanges {
                baseline: "old".to_string(),
                head: "new".to_string(),
                baseline_root: Some("/tmp/old".to_string()),
                head_root: "/tmp/new".to_string(),
            },
            Action::MirrorFileList {
                source_root: "/tmp/new".to_string(),
                files: texts(&["etc/motd"]),
            },
            Action::ReleaseRoot("/tmp/old".to_string()),
            Action::ReleaseRoot("/tmp/new".to_string()),
            Action::Record("new".to_string()),
            Action::Finish(Outcome::IncrementalBackup),
        ]
    );
    assert!(machine.is_done());
}

#[test]
fn mount_that_times_out_releases_what_is_held() {
    let events = vec![
        Event::TargetChecked { exists: true, is_dir: true },
        Event::HistoryListed(texts(&["old"])),
        Event::ExistenceChecked(true),
        Event::HeadListed(Some("new".to_string())),
        Event::RootResolved("/tmp/new".to_string()),
        Event::Failed(BackendFailure::MountTimeout),
        Event::RootReleased,
    ];
    let (_, asked) = drive(repository("/srv/repo"), events);
    let n = asked.len();
    assert_eq!(asked[n - 2], Action::ReleaseRoot("/tmp/new".to_string()));
    assert_eq!(asked[n - 1], Action::Finish(Outcome::Failed(ReconcileError::MountTimeout)));
}

#[test]
fn target_that_is_missing_fails_the_source() {
    let (machine, asked) = drive(
        dataset("pool/ds"),
        vec![Event::TargetChecked { exists: false, is_dir: false }],
    );
    assert_eq!(
        asked[1],
        Action::Finish(Outcome::Failed(ReconcileError::TargetUnavailable(
            TargetProblem::Missing
        )))
    );
    assert!(machine.is_done());
}

#[test]
fn target_that_is_a_file_fails_the_source() {
    let (_, asked) =
        drive(dataset("pool/ds"), vec![Event::TargetChecked { exists: true, is_dir: false }]);
    assert_eq!(
        asked[1],
        Action::Finish(Outcome::Failed(ReconcileError::TargetUnavailable(
            TargetProblem::NotADirectory
        )))
    );
}

#[test]
fn dataset_that_is_not_mounted_fails_the_source() {
    let (_, asked) = drive(
        dataset("pool/ds"),
        vec![Event::TargetChecked { exists: true, is_dir: true }, Event::ReadinessChecked(false)],
    );
    assert_eq!(asked[2], Action::Finish(Outcome::Failed(ReconcileError::SourceNotReady)));
}

#[test]
fn source_without_snapshots_fails() {
    let mut events = ready_dataset_with_history(&[]);
    events.push(Event::HeadListed(None));
    let (_, asked) = drive(dataset("pool/ds"), events);
    assert_eq!(
        asked.last(),
        Some(&Action::Finish(Outcome::Failed(ReconcileError::NoSnapshotsAvailable)))
    );
}

#[test]
fn tool_that_cannot_be_run_is_a_transport_error() {
    let mut events = ready_dataset_with_history(&[]);
    events.push(Event::Failed(BackendFailure::Transport));
    let (_, asked) = drive(dataset("pool/ds"), events);
    assert_eq!(
        asked.last(),
        Some(&Action::Finish(Outcome::Failed(ReconcileError::BackendTransportError)))
    );
}

#[test]
fn record_that_cannot_be_written_fails_the_source() {
    let mut events = ready_dataset_with_history(&[]);
    events.push(Event::HeadListed(Some("S1".to_string())));
    events.push(Event::RootResolved("/r".to_string()));
    events.push(Event::Transferred);
    events.push(Event::Failed(BackendFailure::Logic));
    let (_, asked) = drive(dataset("pool/ds"), events);
    assert_eq!(
        asked.last(),
        Some(&Action::Finish(Outcome::Failed(ReconcileError::BackendLogicError)))
    );
}

#[test]
fn event_out_of_turn_changes_nothing() {
    let (mut machine, _) = Reconciler::start(dataset("pool/ds"));
    assert_eq!(machine.step(Event::Recorded), None);
    assert_eq!(machine.step(Event::HeadListed(None)), None);
    assert_eq!(machine.phase(), Phase::CheckTarget);
    assert_eq!(machine.source(), &dataset("pool/ds"));
    assert_eq!(
        machine.step(Event::TargetChecked { exists: true, is_dir: true }),
        Some(Action::CheckReadiness)
    );
}

#[test]
fn nothing_is_asked_once_the_run_has_ended() {
    let (mut machine, _) = drive(
        dataset("pool/ds"),
        vec![Event::TargetChecked { exists: false, is_dir: false }],
    );
    assert!(machine.is_done());
    assert_eq!(machine.step(Event::TargetChecked { exists: true, is_dir: true }), None);
    assert_eq!(machine.step(Event::Recorded), None);
    assert!(machine.is_done());
}

#[test]
fn reconciler_tells_what_it_decided() {
    let mut events = ready_dataset_with_history(&["S2", "S1"]);
    events.push(Event::ExistenceChecked(false));
    let (mut machine, _) = drive(dataset("pool/ds"), events);
    assert_eq!(machine.baseline(), None);
    assert_eq!(machine.head(), None);
    assert!(machine.plan().is_none());
    assert_eq!(machine.outcome(), None);
    machine.step(Event::ExistenceChecked(true));
    assert_eq!(machine.baseline(), Some(&"S1".to_string()));
    machine.step(Event::HeadListed(Some("S3".to_string())));
    assert_eq!(machine.head(), Some(&"S3".to_string()));
    machine.step(Event::RootResolved("/r".to_string()));
    machine.step(Event::ChangesListed {
        entries: vec![
            change(ChangeType::Added, "/mnt/new"),
            change(ChangeType::Removed, "/mnt/old"),
        ],
        mount_root: "/mnt".to_string(),
    });
    let plan = machine.plan().expect("the changes make a plan");
    assert!(!plan.sync_all());
    assert_eq!(plan.sync_files(), &texts(&["new"]));
    assert_eq!(plan.deletions(), &texts(&["old"]));
    assert_eq!(plan.source_root(), "/r");
    machine.step(Event::PathsDeleted { deleted: 1, errors: 0 });
    machine.step(Event::Failed(BackendFailure::Transport));
    assert_eq!(machine.outcome(), Some(Outcome::Failed(ReconcileError::BackendTransportError)));
}
