use asphinx::history::{ChangeKind, CommitRecord, FileChange, GitInfo};

fn change(path: &str, kind: ChangeKind) -> FileChange {
    FileChange { path: path.to_string(), kind }
}

fn commit(time: i64, changes: Vec<FileChange>) -> CommitRecord {
    CommitRecord { time, changes }
}

#[test]
fn two_commits_scenario() {
    // newest first: C2 at 200 added y.md; C1 at 100 is the oldest and added x.md
    let walk = vec![
        commit(200, vec![change("y.md", ChangeKind::Added)]),
        commit(100, vec![]),
    ];
    let info = GitInfo::new(walk).unwrap();
    assert_eq!(info.get_last_modified("x.md"), 100);
    assert_eq!(info.get_last_modified("y.md"), 200);
    assert_eq!(info.get_last_modified("z.md"), 100);
}

#[test]
fn newest_touch_wins() {
    let walk = vec![
        commit(300, vec![change("a.md", ChangeKind::Modified)]),
        commit(200, vec![change("a.md", ChangeKind::Modified), change("b.md", ChangeKind::Modified)]),
        commit(150, vec![change("b.md", ChangeKind::Added)]),
        commit(50, vec![]),
    ];
    let info = GitInfo::new(walk).unwrap();
    assert_eq!(info.get_last_modified("a.md"), 300);
    assert_eq!(info.get_last_modified("b.md"), 200);
}

#[test]
fn untouched_files_share_fallback() {
    let walk = vec![
        commit(300, vec![change("a.md", ChangeKind::Modified)]),
        commit(120, vec![change("b.md", ChangeKind::Added)]),
        commit(90, vec![change("c.md", ChangeKind::Added)]),
    ];
    let info = GitInfo::new(walk).unwrap();
    assert_eq!(info.get_last_modified("never.md"), 90);
    assert_eq!(info.get_last_modified("other/never.md"), 90);
    // the oldest commit's own changes are not looked at
    assert_eq!(info.get_last_modified("c.md"), 90);
}

#[test]
fn removed_paths_are_not_recorded() {
    let walk = vec![
        commit(500, vec![change("gone.md", ChangeKind::Removed)]),
        commit(400, vec![change("gone.md", ChangeKind::Modified)]),
        commit(10, vec![]),
    ];
    let info = GitInfo::new(walk).unwrap();
    assert_eq!(info.get_last_modified("gone.md"), 400);
}

#[test]
fn empty_walk_gives_no_scanner() {
    assert!(GitInfo::new(vec![]).is_none());
}

#[test]
fn single_commit_walk_uses_its_time() {
    let info = GitInfo::new(vec![commit(1431648000, vec![change("a.md", ChangeKind::Added)])]).unwrap();
    assert_eq!(info.get_last_modified("a.md"), 1431648000);
}

#[test]
fn last_commit_time_is_shown_in_utc() {
    let walk = vec![
        commit(1431648000, vec![change("a.md", ChangeKind::Modified)]),
        commit(100, vec![]),
    ];
    let info = GitInfo::new(walk).unwrap();
    assert_eq!(info.get_last_commit_time_of_file("a.md"), Some("2015-05-15 00:00:00".to_string()));
    assert_eq!(info.get_last_commit_time_of_file("b.md"), Some("1970-01-01 00:01:40".to_string()));
}
