use dropsync::dir_state::DirState;
use dropsync::dir_state::FileState;
use dropsync::sync::classify_sync;
use dropsync::sync::SyncResult;

fn rec(modified: u64, size: u64) -> FileState {
    FileState { modified, size }
}

#[test]
fn test_sync_scenario_shared_file_newer_on_app_side() {
    let mut a = DirState::new();
    a.add_file("x".to_owned(), rec(100, 1));
    let mut b = DirState::new();
    b.add_file("x".to_owned(), rec(50, 1));

    assert!(a.are_contents_generally_newer_than(&b));
    assert!(!b.are_contents_generally_newer_than(&a));
    assert_eq!(classify_sync(&a, &b), SyncResult::AppNewerThanDropbox);
}

#[test]
fn test_sync_scenario_disjoint_names_conflict() {
    let mut a = DirState::new();
    a.add_file("x".to_owned(), rec(100, 1));
    let mut b = DirState::new();
    b.add_file("y".to_owned(), rec(50, 1));

    assert_eq!(classify_sync(&a, &b), SyncResult::Conflict);
}

#[test]
fn test_sync_scenario_empty_app_side_yields_to_the_mirror() {
    let a = DirState::new();
    let mut b = DirState::new();
    b.add_file("z".to_owned(), rec(1, 1));

    assert_eq!(classify_sync(&a, &b), SyncResult::DropboxNewerThanApp);
}

#[test]
fn test_sync_equal_trees_are_already_synced() {
    let mut a = DirState::new();
    a.add_file("x".to_owned(), rec(100, 1));
    let mut b = DirState::new();
    b.add_file("x".to_owned(), rec(100, 1));

    assert_eq!(classify_sync(&a, &b), SyncResult::AlreadySynced);
}

#[test]
fn test_sync_both_empty_trees_are_equal_first() {
    let a = DirState::new();
    let b = DirState::new();
    assert_eq!(classify_sync(&a, &b), SyncResult::AlreadySynced);
    assert_ne!(SyncResult::AlreadySynced, SyncResult::BothEmpty);
}

#[test]
fn test_sync_mixed_evidence_is_a_conflict() {
    let mut a = DirState::new();
    a.add_file("x".to_owned(), rec(100, 1));
    a.add_file("y".to_owned(), rec(10, 1));
    let mut b = DirState::new();
    b.add_file("x".to_owned(), rec(50, 1));
    b.add_file("y".to_owned(), rec(60, 1));

    assert_eq!(classify_sync(&a, &b), SyncResult::Conflict);
    assert_eq!(classify_sync(&b, &a), SyncResult::Conflict);
}

#[test]
fn test_sync_dropbox_newer_wins_only_after_app_side_is_ruled_out() {
    let mut a = DirState::new();
    a.add_file("x".to_owned(), rec(50, 1));
    let mut b = DirState::new();
    b.add_file("x".to_owned(), rec(100, 1));

    assert_eq!(classify_sync(&a, &b), SyncResult::DropboxNewerThanApp);
}
