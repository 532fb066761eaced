use dropsync::dir_state::DirState;
use dropsync::dir_state::FileState;

fn rec(modified: u64, size: u64) -> FileState {
    FileState { modified, size }
}

#[test]
fn test_equality_is_reflexive_on_a_concrete_tree() {
    let mut sub = DirState::new();
    sub.add_file("inner".to_owned(), rec(7, 3));
    let mut a = DirState::new();
    a.add_file("x".to_owned(), rec(100, 10));
    a.add_file("y".to_owned(), rec(50, 5));
    a.add_subdir("sub".to_owned(), sub);

    assert!(a.are_contents_equal_to(&a));
}

#[test]
fn test_equality_is_symmetric_and_ignores_entry_order() {
    let mut a = DirState::new();
    a.add_file("x".to_owned(), rec(100, 10));
    a.add_file("y".to_owned(), rec(50, 5));

    let mut b = DirState::new();
    b.add_file("y".to_owned(), rec(50, 5));
    b.add_file("x".to_owned(), rec(100, 10));

    assert!(a.are_contents_equal_to(&b));
    assert!(b.are_contents_equal_to(&a));

    let mut c = DirState::new();
    c.add_file("x".to_owned(), rec(100, 10));
    c.add_file("y".to_owned(), rec(51, 5));
    assert!(!a.are_contents_equal_to(&c));
    assert!(!c.are_contents_equal_to(&a));
}

#[test]
fn test_equality_sees_one_sided_names_and_subdirs() {
    let mut a = DirState::new();
    a.add_file("x".to_owned(), rec(1, 1));
    let b = DirState::new();
    assert!(!a.are_contents_equal_to(&b));
    assert!(!b.are_contents_equal_to(&a));

    let mut c = DirState::new();
    c.add_subdir("sub".to_owned(), DirState::new());
    assert!(!c.are_contents_equal_to(&b));
    assert!(!b.are_contents_equal_to(&c));
}

#[test]
fn test_is_empty_counts_only_the_top_level() {
    let empty = DirState::new();
    assert!(empty.is_empty());

    let mut with_file = DirState::new();
    with_file.add_file("a".to_owned(), rec(1, 1));
    assert!(!with_file.is_empty());

    let mut nested_only = DirState::new();
    nested_only.add_subdir("hollow".to_owned(), DirState::new());
    assert!(!nested_only.is_empty());
}

#[test]
fn test_recency_sees_shared_files_only() {
    let mut a = DirState::new();
    a.add_file("x".to_owned(), rec(100, 1));
    a.add_file("only_a".to_owned(), rec(999, 1));
    let mut b = DirState::new();
    b.add_file("x".to_owned(), rec(50, 1));
    b.add_file("only_b".to_owned(), rec(1, 1));

    assert!(a.are_any_contents_newer_than(&b));
    assert!(!a.are_any_contents_older_than(&b));
    assert!(b.are_any_contents_older_than(&a));
    assert!(!b.are_any_contents_newer_than(&a));
    assert!(a.are_contents_generally_newer_than(&b));
    assert!(!b.are_contents_generally_newer_than(&a));
}

#[test]
fn test_recency_descends_into_shared_subdirs() {
    let mut sub_a = DirState::new();
    sub_a.add_file("deep".to_owned(), rec(200, 1));
    let mut a = DirState::new();
    a.add_subdir("sub".to_owned(), sub_a);

    let mut sub_b = DirState::new();
    sub_b.add_file("deep".to_owned(), rec(100, 1));
    let mut b = DirState::new();
    b.add_subdir("sub".to_owned(), sub_b);

    assert!(a.are_any_contents_newer_than(&b));
    assert!(a.are_contents_generally_newer_than(&b));
    assert!(!b.are_contents_generally_newer_than(&a));
}

#[test]
fn test_empty_side_is_never_generally_newer() {
    let empty = DirState::new();
    let mut b = DirState::new();
    b.add_file("z".to_owned(), rec(1, 1));
    assert!(!empty.are_contents_generally_newer_than(&b));
    assert!(!empty.are_contents_generally_newer_than(&empty));
    assert!(b.are_contents_generally_newer_than(&empty) == false);
}

#[test]
fn test_copy_then_prune_round_trip_on_empty_destination() {
    let mut sub = DirState::new();
    sub.add_file("inner".to_owned(), rec(7, 3));
    sub.add_subdir("deeper".to_owned(), DirState::new());
    let mut s = DirState::new();
    s.add_file("x".to_owned(), rec(100, 10));
    s.add_subdir("sub".to_owned(), sub);

    let dest = DirState::new();
    let copied = s.copy_into(&dest);
    let pruned = s.remove_extraneous_files_from(&copied);

    assert!(pruned.are_contents_equal_to(&s));
    assert!(s.are_contents_equal_to(&pruned));
}

#[test]
fn test_copy_overwrites_shared_files_and_keeps_destination_extras() {
    let mut a = DirState::new();
    a.add_file("x".to_owned(), rec(100, 10));
    let mut b = DirState::new();
    b.add_file("x".to_owned(), rec(50, 5));
    b.add_file("extra".to_owned(), rec(3, 3));

    let copied = a.copy_into(&b);
    assert_eq!(copied.get_file(&"x".to_owned()), Some(rec(100, 10)));
    assert_eq!(copied.get_file(&"extra".to_owned()), Some(rec(3, 3)));
}

#[test]
fn test_prune_removes_files_and_whole_subdirs_absent_from_the_snapshot() {
    let mut s = DirState::new();
    s.add_file("keep".to_owned(), rec(1, 1));

    let mut stray_sub = DirState::new();
    stray_sub.add_file("junk".to_owned(), rec(9, 9));
    let mut dest = DirState::new();
    dest.add_file("keep".to_owned(), rec(2, 2));
    dest.add_file("drop".to_owned(), rec(3, 3));
    dest.add_subdir("stray".to_owned(), stray_sub);

    let pruned = s.remove_extraneous_files_from(&dest);
    assert_eq!(pruned.get_file(&"keep".to_owned()), Some(rec(2, 2)));
    assert_eq!(pruned.get_file(&"drop".to_owned()), None);
    assert!(!pruned.has_subdir(&"stray".to_owned()));
    assert!(pruned.find_subdir(&"stray".to_owned()).is_none());
}

#[test]
fn test_duplicate_matches_the_original() {
    let mut sub = DirState::new();
    sub.add_file("inner".to_owned(), rec(7, 3));
    let mut s = DirState::new();
    s.add_file("x".to_owned(), rec(100, 10));
    s.add_subdir("sub".to_owned(), sub);

    let copy = s.duplicate();
    assert!(copy.are_contents_equal_to(&s));
    assert!(s.are_contents_equal_to(&copy));
}

#[test]
fn test_lookups() {
    let mut s = DirState::new();
    s.add_file("x".to_owned(), rec(100, 10));
    s.add_subdir("sub".to_owned(), DirState::new());

    assert!(s.has_file(&"x".to_owned()));
    assert!(!s.has_file(&"sub".to_owned()));
    assert!(s.has_subdir(&"sub".to_owned()));
    assert!(!s.has_subdir(&"x".to_owned()));
    assert_eq!(s.get_file(&"x".to_owned()), Some(rec(100, 10)));
    assert_eq!(s.get_file(&"missing".to_owned()), None);
    assert!(s.find_subdir(&"sub".to_owned()).is_some());
    assert_eq!(s.file_entries().len(), 1);
    assert_eq!(s.subdir_entries().len(), 1);
}
