use file_backup::change::{
    extract_files_for_deletion, extract_files_for_sync, files_to_delete, files_to_sync,
    parse_changes, parse_zfs_diff_line, relativize, strip_mountpoint, strip_mountpoint_prefix,
    ChangeEntry, ChangeType,
};

fn lines(raw: &[&str]) -> Vec<String> {
    raw.iter().map(|l| l.to_string()).collect()
}

fn cs(s: &str) -> Vec<char> {
    s.chars().collect()
}

fn relative(path: &str, root: &str) -> String {
    relativize(&cs(path), &cs(root)).iter().collect()
}

#[test]
fn partition_of_a_mixed_change_list() {
    let changes = lines(&["+\t/a", "M\t/b", "-\t/c", "R\t/d -> /e"]);
    assert_eq!(extract_files_for_sync(&changes, "/mnt"), vec!["a", "b", "e"]);
    assert_eq!(extract_files_for_deletion(&changes, "/mnt"), vec!["c"]);
}

#[test]
fn partition_does_not_depend_on_the_order_of_the_list() {
    let mut forward = lines(&["+\t/mnt/a", "-\t/mnt/c", "M\t/mnt/b", "R\t/mnt/d -> /mnt/e"]);
    let mut sync = extract_files_for_sync(&forward, "/mnt");
    let mut delete = extract_files_for_deletion(&forward, "/mnt");
    forward.reverse();
    let mut sync_reversed = extract_files_for_sync(&forward, "/mnt");
    let mut delete_reversed = extract_files_for_deletion(&forward, "/mnt");
    sync.sort();
    sync_reversed.sort();
    delete.sort();
    delete_reversed.sort();
    assert_eq!(sync, sync_reversed);
    assert_eq!(sync, vec!["a", "b", "e"]);
    assert_eq!(delete, delete_reversed);
    assert_eq!(delete, vec!["c"]);
}

#[test]
fn paths_below_the_mount_point_lose_it() {
    let changes = lines(&["+\t/mnt/pool/dir/file", "-\t/mnt/pool/old", "M\t/mnt/pool/x y"]);
    assert_eq!(extract_files_for_sync(&changes, "/mnt/pool"), vec!["dir/file", "x y"]);
    assert_eq!(extract_files_for_deletion(&changes, "/mnt/pool"), vec!["old"]);
}

#[test]
fn root_itself_is_discarded() {
    let changes = lines(&["M\t/mnt/pool/", "M\t/mnt/pool", "-\t/mnt/pool/", "-\t/mnt/pool"]);
    assert!(extract_files_for_sync(&changes, "/mnt/pool").is_empty());
    assert!(extract_files_for_deletion(&changes, "/mnt/pool").is_empty());
}

#[test]
fn directories_are_listed_like_files() {
    let changes = lines(&["M\t/mnt/dir/", "+\t/mnt/dir/new", "-\t/mnt/gone/"]);
    assert_eq!(extract_files_for_sync(&changes, "/mnt"), vec!["dir/", "dir/new"]);
    assert_eq!(extract_files_for_deletion(&changes, "/mnt"), vec!["gone/"]);
}

#[test]
fn lines_that_say_nothing_are_passed_over() {
    let changes = lines(&["", "garbage", "?\t/mnt/a", "\t/mnt/b", "R\t/mnt/c", "+\t/mnt/d"]);
    assert_eq!(extract_files_for_sync(&changes, "/mnt"), vec!["d"]);
    assert!(extract_files_for_deletion(&changes, "/mnt").is_empty());
    assert_eq!(
        parse_changes(&changes),
        vec![
            ChangeEntry {
                change_type: ChangeType::Renamed,
                path: "/mnt/c".to_string(),
                rename_target: None,
            },
            ChangeEntry {
                change_type: ChangeType::Added,
                path: "/mnt/d".to_string(),
                rename_target: None,
            },
        ]
    );
}

#[test]
fn rename_is_parted_at_its_arrows() {
    assert_eq!(
        ChangeEntry::from_diff('R', "/a -> /b"),
        Some(ChangeEntry {
            change_type: ChangeType::Renamed,
            path: "/a".to_string(),
            rename_target: Some("/b".to_string()),
        })
    );
    assert_eq!(
        ChangeEntry::from_diff('R', "/a -> /b -> /c"),
        Some(ChangeEntry {
            change_type: ChangeType::Renamed,
            path: "/a".to_string(),
            rename_target: Some("/b".to_string()),
        })
    );
    assert_eq!(
        ChangeEntry::from_diff('R', "/a -> "),
        Some(ChangeEntry {
            change_type: ChangeType::Renamed,
            path: "/a".to_string(),
            rename_target: Some(String::new()),
        })
    );
    assert_eq!(ChangeEntry::from_diff('x', "/a"), None);
    assert_eq!(
        ChangeEntry::from_line("-\t/gone"),
        Some(ChangeEntry {
            change_type: ChangeType::Removed,
            path: "/gone".to_string(),
            rename_target: None,
        })
    );
    assert_eq!(ChangeEntry::from_line("-"), None);
}

#[test]
fn entries_name_their_targets() {
    let renamed = ChangeEntry {
        change_type: ChangeType::Renamed,
        path: "/mnt/a".to_string(),
        rename_target: Some("/mnt/b".to_string()),
    };
    let removed = ChangeEntry {
        change_type: ChangeType::Removed,
        path: "/mnt/c".to_string(),
        rename_target: None,
    };
    let root = cs("/mnt");
    assert_eq!(renamed.sync_target(&root), Some("b".to_string()));
    assert_eq!(renamed.deletion_target(&root), None);
    assert_eq!(removed.sync_target(&root), None);
    assert_eq!(removed.deletion_target(&root), Some("c".to_string()));
    assert_eq!(removed.clone(), removed);
    let entries = vec![renamed, removed];
    assert_eq!(files_to_sync(&entries, "/mnt"), vec!["b"]);
    assert_eq!(files_to_delete(&entries, "/mnt"), vec!["c"]);
}

#[test]
fn diff_line_needs_a_code_and_a_path() {
    assert_eq!(parse_zfs_diff_line("M\t/tank/a"), Some(('M', "/tank/a".to_string())));
    assert_eq!(parse_zfs_diff_line("M"), None);
    assert_eq!(parse_zfs_diff_line(""), None);
    assert_eq!(parse_zfs_diff_line("\t/tank/a"), None);
    assert_eq!(parse_zfs_diff_line("+\t/x\textra"), Some(('+', "/x".to_string())));
    assert_eq!(parse_zfs_diff_line("MF\t/x"), Some(('M', "/x".to_string())));
    assert_eq!(parse_zfs_diff_line("M\t"), Some(('M', String::new())));
}

#[test]
fn mountpoint_is_stripped_with_its_slash() {
    assert_eq!(strip_mountpoint_prefix("/mnt/pool/a/b", "/mnt/pool"), "a/b");
    assert_eq!(strip_mountpoint_prefix("/mnt/poolx/a", "/mnt/pool"), "/mnt/poolx/a");
    assert_eq!(strip_mountpoint_prefix("/mnt/pool", "/mnt/pool"), "/mnt/pool");
    assert_eq!(strip_mountpoint_prefix("/mnt/pool/", "/mnt/pool"), "");
    assert_eq!(strip_mountpoint_prefix("/other/a", "/mnt/pool"), "/other/a");
    assert_eq!(strip_mountpoint_prefix("/a", "/"), "/a");
    assert_eq!(strip_mountpoint_prefix("/a", ""), "a");
    let stripped: String = strip_mountpoint(&cs("/m/x"), &cs("/m")).iter().collect();
    assert_eq!(stripped, "x");
}

#[test]
fn relative_paths_never_begin_with_a_slash() {
    assert_eq!(relative("/mnt/a", "/mnt"), "a");
    assert_eq!(relative("/a", "/mnt"), "a");
    assert_eq!(relative("/mnt//a", "/mnt"), "a");
    assert_eq!(relative("//a", "/mnt"), "a");
    assert_eq!(relative("/mnt", "/mnt"), "");
    assert_eq!(relative("/mnt/", "/mnt"), "");
    assert_eq!(relative("a/b", ""), "a/b");
    assert_eq!(relative("", ""), "");
    assert_eq!(relative("/", "/"), "");
    assert_eq!(relative("/a", "/"), "a");
}

/// What the standard library makes of a diff line, written as plainly as can
/// be.
fn plain_diff_line(line: &str) -> Option<(char, String)> {
    let parts: Vec<&str> = line.split('\t').collect();
    if parts.len() >= 2 {
        Some((parts[0].chars().next()?, parts[1].to_string()))
    } else {
        None
    }
}

fn plain_strip(file_path: &str, mountpoint: &str) -> String {
    file_path
        .strip_prefix(mountpoint)
        .and_then(|s| s.strip_prefix('/'))
        .unwrap_or(file_path)
        .to_string()
}

#[test]
fn parsing_agrees_with_a_plain_reading() {
    let alphabet = ['+', 'M', '-', 'R', '\t', '/', 'm', 'n', 't', ' ', '>', 'x'];
    let mut state: u64 = 0x9e37_79b9_7f4a_7c15;
    for _ in 0..4000 {
        state ^= state << 13;
        state ^= state >> 7;
        state ^= state << 17;
        let len = (state % 10) as usize;
        let mut text = String::new();
        let mut pick = state >> 5;
        for _ in 0..len {
            text.push(alphabet[(pick % alphabet.len() as u64) as usize]);
            pick = pick / 12 + (state >> 11);
        }
        assert_eq!(parse_zfs_diff_line(&text), plain_diff_line(&text), "{:?}", text);
        for mountpoint in ["/mnt", "/m", "", "/", "/mnt/"] {
            assert_eq!(
                strip_mountpoint_prefix(&text, mountpoint),
                plain_strip(&text, mountpoint),
                "{:?} below {:?}",
                text,
                mountpoint
            );
            let rel = relative(&text, mountpoint);
            assert!(!rel.starts_with('/'));
        }
    }
}
