use file_backup::history::{BackupRecord, History};
use file_backup::oracle::history_listed;
use file_backup::reconciler::Event;
use file_backup::source::{SourceConfig, SourceKind};

fn record(kind: SourceKind, source: &str, snapshot: &str, at: u64) -> BackupRecord {
    BackupRecord {
        source_kind: kind,
        source_name: source.to_string(),
        snapshot_id: snapshot.to_string(),
        target_dir: "/backup".to_string(),
        recorded_at: at,
    }
}

#[test]
fn recording_a_snapshot_twice_changes_nothing() {
    let mut log = History::new();
    assert!(log.append(record(SourceKind::DatasetLike, "pool/ds", "S1", 10)));
    let mut again = record(SourceKind::DatasetLike, "pool/ds", "S1", 99);
    again.target_dir = "/elsewhere".to_string();
    assert!(!log.append(again));
    assert_eq!(log.len(), 1);
    assert_eq!(log.get(0), Some(&record(SourceKind::DatasetLike, "pool/ds", "S1", 10)));
    assert_eq!(log.get(1), None);
}

#[test]
fn key_is_kind_source_and_snapshot() {
    let mut log = History::new();
    assert!(log.append(record(SourceKind::DatasetLike, "a", "S1", 1)));
    assert!(log.append(record(SourceKind::ContentRepo, "a", "S1", 2)));
    assert!(log.append(record(SourceKind::DatasetLike, "b", "S1", 3)));
    assert!(log.append(record(SourceKind::DatasetLike, "a", "S2", 4)));
    assert_eq!(log.len(), 4);
    assert!(log.contains(SourceKind::ContentRepo, "a", "S1"));
    assert!(!log.contains(SourceKind::ContentRepo, "b", "S1"));
    assert!(!log.contains(SourceKind::DatasetLike, "a", "S3"));
}

#[test]
fn records_of_a_source_come_most_recent_first() {
    let mut log = History::new();
    log.append(record(SourceKind::DatasetLike, "pool/ds", "S2", 20));
    log.append(record(SourceKind::DatasetLike, "other", "X", 25));
    log.append(record(SourceKind::DatasetLike, "pool/ds", "S1", 10));
    log.append(record(SourceKind::ContentRepo, "pool/ds", "R", 40));
    log.append(record(SourceKind::DatasetLike, "pool/ds", "S3", 30));
    assert_eq!(
        log.snapshots_of(SourceKind::DatasetLike, "pool/ds"),
        vec!["S3".to_string(), "S2".to_string(), "S1".to_string()]
    );
    let listed = log.list_by_source(SourceKind::DatasetLike, "pool/ds");
    let times: Vec<u64> = listed.iter().map(|r| r.recorded_at).collect();
    assert_eq!(times, vec![30, 20, 10]);
    assert_eq!(log.snapshots_of(SourceKind::ContentRepo, "pool/ds"), vec!["R".to_string()]);
    assert!(log.snapshots_of(SourceKind::ContentRepo, "nowhere").is_empty());
}

#[test]
fn of_two_records_made_at_once_the_later_comes_first() {
    let mut log = History::new();
    log.append(record(SourceKind::DatasetLike, "pool/ds", "A", 5));
    log.append(record(SourceKind::DatasetLike, "pool/ds", "B", 5));
    log.append(record(SourceKind::DatasetLike, "pool/ds", "C", 5));
    assert_eq!(
        log.snapshots_of(SourceKind::DatasetLike, "pool/ds"),
        vec!["C".to_string(), "B".to_string(), "A".to_string()]
    );
}

#[test]
fn empty_log_lists_nothing() {
    let log = History::new();
    assert_eq!(log.len(), 0);
    assert!(log.list_by_source(SourceKind::DatasetLike, "pool/ds").is_empty());
    assert!(!log.contains(SourceKind::DatasetLike, "pool/ds", "S1"));
}

#[test]
fn record_copy_is_equal_to_the_record() {
    let r = record(SourceKind::ContentRepo, "/srv/repo", "abc", 7);
    assert_eq!(r.clone(), r);
    assert!(r.has_key(SourceKind::ContentRepo, "/srv/repo", "abc"));
    assert!(!r.has_key(SourceKind::DatasetLike, "/srv/repo", "abc"));
    assert!(r.is_of_source(SourceKind::ContentRepo, "/srv/repo"));
    assert!(!r.is_of_source(SourceKind::ContentRepo, "/srv/repo2"));
}

#[test]
fn history_is_reported_for_one_source() {
    let source = SourceConfig {
        kind: SourceKind::DatasetLike,
        name: "pool/ds".to_string(),
        target_dir: "/backup".to_string(),
    };
    let mut log = History::new();
    assert!(log.record(&source, "S1", 10));
    assert!(log.record(&source, "S2", 20));
    assert!(!log.record(&source, "S1", 30));
    log.append(record(SourceKind::ContentRepo, "pool/ds", "R1", 40));
    assert_eq!(log.get(1), Some(&record(SourceKind::DatasetLike, "pool/ds", "S2", 20)));
    assert_eq!(
        history_listed(&log, &source),
        Event::HistoryListed(vec!["S2".to_string(), "S1".to_string()])
    );
}
