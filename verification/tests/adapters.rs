use file_backup::change::{ChangeEntry, ChangeType};
use file_backup::dataset::{
    get_dataset_mountpoint, get_latest_snapshot, get_snapshot_diff, get_snapshot_mountpoint,
    is_dataset_mounted, split_snapshot_name,
};
use file_backup::error::BackendFailure;
use file_backup::oracle::{
    dataset_changes, dataset_root, deletions, existence, head, readiness, repo_changes,
    snapshot_exists, transferred, ToolOutput,
};
use file_backup::reconciler::Event;
use file_backup::repo::{
    get_latest_restic_snapshot, get_restic_diff_via_rsync, judge_mount, parse_itemized_deletion,
    parse_itemized_path, repo_snapshot_exists,
};
use file_backup::source::SourceKind;

fn ok(stdout: &str) -> ToolOutput {
    ToolOutput { success: true, stdout: stdout.to_string(), stderr: String::new() }
}

fn failed(stderr: &str) -> ToolOutput {
    ToolOutput { success: false, stdout: String::new(), stderr: stderr.to_string() }
}

fn entry(change_type: ChangeType, path: &str) -> ChangeEntry {
    ChangeEntry { change_type, path: path.to_string(), rename_target: None }
}

#[test]
fn mounted_property_is_read_from_the_third_field() {
    assert_eq!(is_dataset_mounted(true, "pool/ds\tmounted\tyes\t-\n"), Ok(true));
    assert_eq!(is_dataset_mounted(true, "pool/ds\tmounted\tno\t-\n"), Ok(false));
    assert_eq!(is_dataset_mounted(true, "pool/ds\tmounted\t yes \t-\n"), Ok(true));
    assert_eq!(is_dataset_mounted(true, "pool/ds\tmounted"), Ok(false));
    assert_eq!(is_dataset_mounted(true, ""), Ok(false));
    assert_eq!(is_dataset_mounted(false, "pool/ds\tmounted\tyes\t-\n"), Err(BackendFailure::Logic));
}

#[test]
fn newest_snapshot_is_the_last_line_that_is_not_empty() {
    assert_eq!(
        get_latest_snapshot(true, "pool/ds@a\npool/ds@b\n\n"),
        Ok(Some("pool/ds@b".to_string()))
    );
    assert_eq!(get_latest_snapshot(true, ""), Ok(None));
    assert_eq!(get_latest_snapshot(true, "\n\n"), Ok(None));
    assert_eq!(get_latest_snapshot(false, "pool/ds@a\n"), Err(BackendFailure::Logic));
}

#[test]
fn diff_output_is_split_into_its_records() {
    assert_eq!(
        get_snapshot_diff(true, "M\t/mnt/a\n\n+\t/mnt/b\n"),
        Ok(vec!["M\t/mnt/a".to_string(), "+\t/mnt/b".to_string()])
    );
    assert_eq!(get_snapshot_diff(true, ""), Ok(vec![]));
    assert_eq!(get_snapshot_diff(false, "M\t/mnt/a\n"), Err(BackendFailure::Logic));
}

#[test]
fn mountpoint_is_the_trimmed_answer() {
    assert_eq!(get_dataset_mountpoint(true, "/mnt/pool/ds\n"), Ok("/mnt/pool/ds".to_string()));
    assert_eq!(get_dataset_mountpoint(false, "/mnt/pool/ds\n"), Err(BackendFailure::Logic));
}

#[test]
fn snapshot_root_is_below_the_hidden_directory() {
    assert_eq!(
        get_snapshot_mountpoint("pool/ds@2024-01-01", "/mnt/pool/ds"),
        Ok("/mnt/pool/ds/.zfs/snapshot/2024-01-01".to_string())
    );
    assert_eq!(get_snapshot_mountpoint("pool/ds@", "/m"), Ok("/m/.zfs/snapshot/".to_string()));
    assert_eq!(get_snapshot_mountpoint("pool/ds", "/m"), Err(BackendFailure::Logic));
    assert_eq!(get_snapshot_mountpoint("pool@ds@x", "/m"), Err(BackendFailure::Logic));
    assert_eq!(get_snapshot_mountpoint("", "/m"), Err(BackendFailure::Logic));
    assert_eq!(
        split_snapshot_name("pool/ds@snap"),
        Some(("pool/ds".to_string(), "snap".to_string()))
    );
    assert_eq!(split_snapshot_name("@"), Some((String::new(), String::new())));
    assert_eq!(split_snapshot_name("a@b@c"), None);
}

#[test]
fn dataset_snapshot_exists_where_the_listing_succeeds() {
    assert!(snapshot_exists(SourceKind::DatasetLike, &ok("")));
    assert!(!snapshot_exists(SourceKind::DatasetLike, &failed("dataset does not exist")));
}

#[test]
fn repository_snapshot_exists_where_it_is_listed() {
    assert!(repo_snapshot_exists(true, "[{\"id\":\"abc\"}]\n", ""));
    assert!(!repo_snapshot_exists(true, "[]\n", ""));
    assert!(!repo_snapshot_exists(true, "  \n", ""));
    assert!(!repo_snapshot_exists(false, "[{\"id\":\"abc\"}]", ""));
    assert!(!repo_snapshot_exists(true, "[{\"id\":\"abc\"}]", "Ignoring \"abc\": no such id"));
    assert!(!repo_snapshot_exists(true, "[{\"id\":\"abc\"}]", "error: no matching ID found"));
    assert!(snapshot_exists(SourceKind::ContentRepo, &ok("[{\"id\":\"abc\"}]")));
    assert!(!snapshot_exists(SourceKind::ContentRepo, &ok("[]")));
}

#[test]
fn newest_repository_snapshot_is_the_first_identifier() {
    let listing = "[{\"time\":\"2024\",\"tree\":\"t\",\"id\":\"abc123\",\"short_id\":\"abc\"}]\n";
    assert_eq!(get_latest_restic_snapshot(true, listing, ""), Ok(Some("abc123".to_string())));
    assert_eq!(get_latest_restic_snapshot(true, "null\n", ""), Ok(None));
    assert_eq!(get_latest_restic_snapshot(true, "", ""), Ok(None));
    assert_eq!(get_latest_restic_snapshot(true, "[]", ""), Ok(None));
    assert_eq!(get_latest_restic_snapshot(true, "[{\"id\":\"open", ""), Ok(None));
    assert_eq!(
        get_latest_restic_snapshot(
            false,
            "",
            "Fatal: unable to open config file\nIs there a repository at the following location?\n"
        ),
        Ok(None)
    );
    assert_eq!(
        get_latest_restic_snapshot(false, "", "Fatal: wrong password"),
        Err(BackendFailure::Logic)
    );
}

#[test]
fn itemized_lines_name_paths() {
    assert_eq!(parse_itemized_path(">f+++++++++  etc/motd"), Some("etc/motd".to_string()));
    assert_eq!(parse_itemized_path(">f.st......  a  b"), Some("a  b".to_string()));
    assert_eq!(parse_itemized_path(".d..t......  etc/"), None);
    assert_eq!(parse_itemized_path("sending incremental file list"), None);
    assert_eq!(parse_itemized_path(""), None);
    assert_eq!(parse_itemized_deletion("*deleting   old/file"), Some("old/file".to_string()));
    assert_eq!(parse_itemized_deletion("*deleting  old/file"), None);
    assert_eq!(parse_itemized_deletion(">f+++++++++  etc/motd"), None);
}

#[test]
fn two_dry_runs_make_one_change_list() {
    let forward = ">f+++++++++  etc/motd\n.d..t......  etc/\n\ncd+++++++++  new/\n";
    let reverse = "*deleting   gone.txt\n>f+++++++++  etc/motd\n*deleting   old/\n";
    assert_eq!(
        get_restic_diff_via_rsync(forward, reverse),
        vec![
            entry(ChangeType::Modified, "etc/motd"),
            entry(ChangeType::Modified, "new/"),
            entry(ChangeType::Removed, "gone.txt"),
            entry(ChangeType::Removed, "old/"),
        ]
    );
    assert_eq!(get_restic_diff_via_rsync("", ""), vec![]);
}

#[test]
fn mount_is_judged_by_start_and_readiness() {
    assert_eq!(judge_mount(true, true), Ok(()));
    assert_eq!(judge_mount(true, false), Err(BackendFailure::MountTimeout));
    assert_eq!(judge_mount(false, false), Err(BackendFailure::Transport));
    assert_eq!(judge_mount(false, true), Err(BackendFailure::Transport));
}

#[test]
fn tool_that_cannot_be_run_is_a_transport_failure() {
    let transport = Event::Failed(BackendFailure::Transport);
    assert_eq!(readiness(None), transport);
    assert_eq!(existence(SourceKind::ContentRepo, None), transport);
    assert_eq!(head(SourceKind::DatasetLike, None), transport);
    assert_eq!(dataset_root("pool/ds@s", None), transport);
    assert_eq!(dataset_changes(None, "/mnt"), transport);
    assert_eq!(repo_changes(None, Some(&ok(""))), transport);
    assert_eq!(repo_changes(Some(&ok("")), None), transport);
    assert_eq!(transferred(None), transport);
}

#[test]
fn tool_that_finds_nothing_gives_a_clean_answer() {
    assert_eq!(existence(SourceKind::DatasetLike, Some(&failed("no such snapshot"))),
        Event::ExistenceChecked(false));
    assert_eq!(existence(SourceKind::ContentRepo, Some(&ok("[]"))), Event::ExistenceChecked(false));
    assert_eq!(head(SourceKind::DatasetLike, Some(&ok(""))), Event::HeadListed(None));
    assert_eq!(head(SourceKind::ContentRepo, Some(&ok("null"))), Event::HeadListed(None));
    assert_eq!(
        head(
            SourceKind::ContentRepo,
            Some(&failed("Is there a repository at the following location?"))
        ),
        Event::HeadListed(None)
    );
}

#[test]
fn tool_that_fails_is_a_logic_failure() {
    let logic = Event::Failed(BackendFailure::Logic);
    assert_eq!(readiness(Some(&failed("cannot open"))), logic);
    assert_eq!(head(SourceKind::DatasetLike, Some(&failed("cannot open"))), logic);
    assert_eq!(head(SourceKind::ContentRepo, Some(&failed("wrong password"))), logic);
    assert_eq!(dataset_root("pool/ds@s", Some(&failed("x"))), logic);
    assert_eq!(dataset_root("no-label", Some(&ok("/mnt"))), logic);
    assert_eq!(dataset_root("no-label", None), logic);
    assert_eq!(dataset_changes(Some(&failed("x")), "/mnt"), logic);
    assert_eq!(transferred(Some(&failed("rsync error"))), logic);
}

#[test]
fn answers_become_events() {
    assert_eq!(readiness(Some(&ok("ds\tmounted\tyes\t-\n"))), Event::ReadinessChecked(true));
    assert_eq!(readiness(Some(&ok("ds\tmounted\tno\t-\n"))), Event::ReadinessChecked(false));
    assert_eq!(
        head(SourceKind::DatasetLike, Some(&ok("p@a\np@b\n"))),
        Event::HeadListed(Some("p@b".to_string()))
    );
    assert_eq!(
        head(SourceKind::ContentRepo, Some(&ok("[{\"id\":\"ff00\"}]"))),
        Event::HeadListed(Some("ff00".to_string()))
    );
    assert_eq!(
        dataset_root("pool/ds@s1", Some(&ok("/mnt/pool/ds\n"))),
        Event::RootResolved("/mnt/pool/ds/.zfs/snapshot/s1".to_string())
    );
    assert_eq!(
        dataset_changes(Some(&ok("+\t/mnt/a\nR\t/mnt/b -> /mnt/c\n?\t/mnt/d\n")), "/mnt"),
        Event::ChangesListed {
            entries: vec![
                entry(ChangeType::Added, "/mnt/a"),
                ChangeEntry {
                    change_type: ChangeType::Renamed,
                    path: "/mnt/b".to_string(),
                    rename_target: Some("/mnt/c".to_string()),
                },
            ],
            mount_root: "/mnt".to_string(),
        }
    );
    assert_eq!(
        repo_changes(Some(&ok(">f+++++++++  a\n")), Some(&failed(""))),
        Event::ChangesListed {
            entries: vec![entry(ChangeType::Modified, "a")],
            mount_root: String::new(),
        }
    );
    assert_eq!(transferred(Some(&ok("sent 10 bytes"))), Event::Transferred);
    assert_eq!(
        deletions(&[true, false, true, true]),
        Event::PathsDeleted { deleted: 3, errors: 1 }
    );
    assert_eq!(deletions(&[]), Event::PathsDeleted { deleted: 0, errors: 0 });
}
