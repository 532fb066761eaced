use dropsync::file_filter::FileFilter;

#[test]
fn test_pattern_filter_during_capture_decisions() {
    let filter = FileFilter::with_pattern("*.sav".to_owned());
    assert!(filter.is_file_included("game.sav"));
    assert!(filter.is_file_excluded("notes.txt"));
    assert!(!filter.is_file_excluded("game.sav"));
    assert!(!filter.is_file_included("notes.txt"));
}

#[test]
fn test_default_filter_includes_everything() {
    let filter = FileFilter::default();
    assert!(filter.is_file_included("anything.at.all"));
    assert!(filter.is_file_included(""));
    assert!(!filter.is_file_excluded("save/slot1.sav"));
}

#[test]
fn test_invalid_pattern_matches_nothing() {
    let filter = FileFilter::with_pattern("a**b".to_owned());
    assert!(!filter.is_file_included("ab"));
    assert!(filter.is_file_excluded("aXb"));
}

#[test]
fn test_pattern_filter_matches_paths() {
    let filter = FileFilter::with_pattern("saves/*.sav".to_owned());
    assert!(filter.is_file_included("saves/slot1.sav"));
    assert!(filter.is_file_excluded("other/slot1.sav"));
}
