use oxidedisk::app_state::{age_filter_fits, checked_total, AppState, ViewMode, ERROR_LOG_CAP};
use oxidedisk::cleanup::CleanupAction;
use oxidedisk::models::{DupMessage, DuplicateGroup, FileMetadata, FilterState, ScanMessage, Settings, SortKey};

fn file(path: &str, size: u64) -> FileMetadata {
    FileMetadata {
        path: path.to_string(),
        size,
        extension: String::new(),
        modified: None,
        accessed: None,
    }
}

#[test]
fn new_state_is_empty_and_sorted_largest_first() {
    let s = AppState::new(false, true);
    assert!(s.files.is_empty());
    assert!(s.view.is_empty());
    assert_eq!(s.sort.0, SortKey::Size);
    assert!(!s.sort.1);
    assert_eq!(s.view_mode, ViewMode::Files);
    assert!(s.pending_cleanup);
    assert!(!s.elevated);
}

#[test]
fn scan_messages_fill_the_state() {
    let mut s = AppState::new(false, false);
    s.begin_scan(None);
    assert!(s.scanning);
    assert!(!s.on_scan_message(ScanMessage::Progress { scanned: 5, bytes: 50 }));
    assert_eq!(s.progress, (5, 50));
    assert!(!s.on_scan_message(ScanMessage::Error("denied".to_string())));
    assert_eq!(s.errors, vec!["denied".to_string()]);
    let done = s.on_scan_message(ScanMessage::Done(vec![file("a", 3), file("b", 9), file("c", 1)]));
    assert!(done);
    assert_eq!(s.progress, (3, 13));
    s.finish_scan();
    assert!(!s.scanning);
    assert_eq!(s.view, vec![1, 0, 2]);
}

#[test]
fn clicking_a_column_toggles_or_switches() {
    let mut s = AppState::new(false, false);
    s.begin_scan(None);
    s.on_scan_message(ScanMessage::Done(vec![file(r"C:\b", 3), file(r"C:\a", 9)]));
    s.finish_scan();
    s.click_column(SortKey::Size);
    assert_eq!(s.sort, (SortKey::Size, true));
    assert_eq!(s.view, vec![0, 1]);
    s.click_column(SortKey::Size);
    assert_eq!(s.sort, (SortKey::Size, false));
    s.click_column(SortKey::Name);
    assert_eq!(s.sort, (SortKey::Name, true));
    assert_eq!(s.view, vec![1, 0]);
    s.click_column(SortKey::Name);
    s.click_column(SortKey::Name);
    assert_eq!(s.sort, (SortKey::Name, true));
}

#[test]
fn error_log_is_capped() {
    let mut s = AppState::new(false, false);
    for _ in 0..ERROR_LOG_CAP + 5 {
        s.on_dup_message(DupMessage::Error("x".to_string()));
    }
    assert_eq!(s.errors.len(), ERROR_LOG_CAP);
}

#[test]
fn duplicate_search_flow() {
    let mut s = AppState::new(false, false);
    assert!(!s.can_find_dups());
    s.begin_scan(None);
    s.on_scan_message(ScanMessage::Done(vec![file("a", 3)]));
    s.finish_scan();
    assert!(s.can_find_dups());
    s.begin_find_dups();
    assert!(s.finding_dups);
    assert!(!s.can_find_dups());
    assert!(!s.on_dup_message(DupMessage::Progress { hashed: 1, total: 4 }));
    assert_eq!(s.dup_progress, (1, 4));
    let g = DuplicateGroup { size: 3, hash: "ab".to_string(), members: vec![0, 0] };
    assert!(s.on_dup_message(DupMessage::Done(vec![g])));
    s.finish_dups();
    assert!(!s.finding_dups);
    assert_eq!(s.view_mode, ViewMode::Duplicates);
    assert_eq!(s.dup_groups.len(), 1);
}

#[test]
fn temp_cleanup_without_folders_logs_an_error() {
    let mut s = AppState::new(false, false);
    assert!(!s.begin_temp_cleanup(0, None));
    assert_eq!(s.errors, vec!["No common temp folders found.".to_string()]);
    assert!(!s.scanning);
    assert!(s.begin_temp_cleanup(2, None));
    assert!(s.scanning);
    assert_eq!(s.view_mode, ViewMode::Cleanup);
}

#[test]
fn cleanup_actions() {
    let mut s = AppState::new(false, false);
    s.begin_scan(None);
    s.on_scan_message(ScanMessage::Done(vec![file("a", 3)]));
    s.finish_scan();
    assert!(!s.on_cleanup_action(CleanupAction::Idle));
    assert_eq!(s.files.len(), 1);
    assert!(s.on_cleanup_action(CleanupAction::Elevate));
    assert!(!s.on_cleanup_action(CleanupAction::Cleaned));
    assert!(s.files.is_empty());
    assert!(s.view.is_empty());
    s.relaunch_failed("Elevation was cancelled or failed.".to_string());
    assert_eq!(s.errors.last().unwrap(), "Elevation was cancelled or failed.");
}

#[test]
fn settings_round_trip() {
    let mut s = AppState::new(false, false);
    let mut f = FilterState::default();
    f.min_size = 42;
    s.restore(Settings {
        last_root: Some(r"D:\x".to_string()),
        sort_key: Some(SortKey::Modified),
        sort_asc: true,
        filter: f,
        show_log: true,
    });
    let back = s.settings();
    assert_eq!(back.last_root.as_deref(), Some(r"D:\x"));
    assert_eq!(back.sort_key, Some(SortKey::Modified));
    assert!(back.sort_asc);
    assert_eq!(back.filter.min_size, 42);
    assert!(back.show_log);
    let mut t = AppState::new(false, false);
    t.restore(Settings { last_root: None, sort_key: None, sort_asc: true, filter: f, show_log: false });
    assert_eq!(t.sort, (SortKey::Size, false));
}

#[test]
fn totals_and_age_checks() {
    assert_eq!(checked_total(&[file("a", 1), file("b", 2)]), Some(3));
    assert_eq!(checked_total(&[file("a", u64::MAX), file("b", 1)]), None);
    let mut f = FilterState::default();
    assert!(age_filter_fits(&f));
    f.min_age_days = Some(365);
    assert!(age_filter_fits(&f));
    f.min_age_days = Some(u64::MAX);
    assert!(!age_filter_fits(&f));
}
