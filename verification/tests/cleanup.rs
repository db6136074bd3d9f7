use oxidedisk::cleanup::{
    is_protected, join, plan_cleanup, protected_by, protected_roots_from, temp_folder_candidates,
    CleanupAction,
};
use oxidedisk::models::FileMetadata;

fn file(path: &str, size: u64) -> FileMetadata {
    FileMetadata {
        path: path.to_string(),
        size,
        extension: String::new(),
        modified: None,
        accessed: None,
    }
}

#[test]
fn protected_matches_subpaths_case_insensitively_with_boundary() {
    let roots = vec![r"C:\Windows\System32".to_string()];
    assert!(is_protected(r"C:\Windows\System32", &roots));
    assert!(is_protected(r"c:\windows\system32\drivers\etc\hosts", &roots));
    // Boundary: a sibling dir that merely shares the prefix is not protected.
    assert!(!is_protected(r"C:\Windows\System32Foo\x", &roots));
    assert!(!is_protected(r"C:\Windows\Temp\x", &roots));
}

#[test]
fn protected_root_in_mixed_case_matches_lower_case_path() {
    let roots = vec![r"C:\PROGRAM FILES".to_string()];
    assert!(is_protected(r"c:\program files\app\x.exe", &roots));
    assert!(!is_protected(r"c:\program filesx\app.exe", &roots));
    assert!(!is_protected(r"c:\program", &roots));
}

#[test]
fn no_roots_protect_nothing() {
    let roots: Vec<String> = Vec::new();
    assert!(!is_protected(r"C:\Windows\System32", &roots));
}

#[test]
fn protected_by_expects_lower_cased_input() {
    let roots = vec![r"c:\windows\winsxs".to_string()];
    assert!(protected_by(r"c:\windows\winsxs\x", &roots));
    assert!(!protected_by(r"C:\WINDOWS\WINSXS\x", &roots));
}

#[test]
fn join_follows_pathbuf_push_rules() {
    assert_eq!(join(r"C:\Windows", "Temp"), r"C:\Windows\Temp");
    assert_eq!(join(r"C:\Windows\", "Temp"), r"C:\Windows\Temp");
    assert_eq!(join("C:", "Temp"), "C:Temp");
    assert_eq!(join("", "Temp"), "Temp");
    assert_eq!(join("C:/x/", "y"), "C:/x/y");
}

#[test]
fn temp_candidates_follow_environment_values() {
    let v = temp_folder_candidates(
        Some(r"C:\Users\me\AppData\Local\Temp"),
        Some(r"C:\Windows"),
        Some(r"C:\Users\me\AppData\Local"),
    );
    let paths: Vec<&str> = v.iter().map(|f| f.path.as_str()).collect();
    assert_eq!(
        paths,
        vec![
            r"C:\Users\me\AppData\Local\Temp",
            r"C:\Windows\Temp",
            r"C:\Windows\SoftwareDistribution\Download",
            r"C:\Windows\Prefetch",
            r"C:\Users\me\AppData\Local\Microsoft\Windows\Explorer",
            r"C:\Users\me\AppData\Local\Microsoft\Edge\User Data\Default\Cache",
            r"C:\Users\me\AppData\Local\Google\Chrome\User Data\Default\Cache",
        ]
    );
    assert_eq!(v[0].name, "User Temp");
    assert_eq!(v[2].name, "Windows Update Cache");
    assert_eq!(v[6].description, "Cached web content from Google Chrome.");
}

#[test]
fn temp_candidates_skip_unset_variables() {
    let v = temp_folder_candidates(None, Some(r"D:\Win"), None);
    assert_eq!(v.len(), 3);
    assert_eq!(v[0].name, "System Temp");
    assert_eq!(v[0].path, r"D:\Win\Temp");
    assert!(temp_folder_candidates(None, None, None).is_empty());
}

#[test]
fn protected_roots_cover_system_folders_and_program_files() {
    let r = protected_roots_from(
        Some(r"C:\Windows"),
        Some(r"C:\Program Files"),
        None,
        Some(r"C:\Program Files"),
    );
    assert_eq!(
        r,
        vec![
            r"C:\Windows\System32".to_string(),
            r"C:\Windows\SysWOW64".to_string(),
            r"C:\Windows\WinSxS".to_string(),
            r"C:\Program Files".to_string(),
            r"C:\Program Files".to_string(),
        ]
    );
    assert!(protected_roots_from(None, None, None, None).is_empty());
}

#[test]
fn cleanup_plan_splits_view_and_never_recycles_protected_files() {
    let files = vec![
        file(r"C:\Windows\Temp\a.tmp", 10),
        file(r"C:\Windows\System32\b.dll", 20),
        file(r"C:\Users\me\Temp\c.log", 30),
        file(r"c:\windows\system32\drivers\d.sys", 40),
    ];
    let roots = vec![r"C:\Windows\System32".to_string()];
    let plan = plan_cleanup(&files, &[3, 0, 1, 2], &roots);
    assert_eq!(plan.deletable, vec![0, 2]);
    assert_eq!(plan.protected, vec![3, 1]);
    assert_eq!(plan.deletable_size, 40);
    assert_eq!(plan.total_size, 100);
}

#[test]
fn cleanup_action_defaults_to_idle() {
    assert_eq!(CleanupAction::default(), CleanupAction::Idle);
}

#[test]
fn root_written_with_trailing_backslash_protects_below_it() {
    let roots = vec![r"C:\Temp\".to_string()];
    assert!(is_protected(r"C:\Temp\x", &roots));
    assert!(is_protected(r"c:\temp\", &roots));
    assert!(!is_protected(r"C:\Temp", &roots));
    assert!(!is_protected(r"C:\Tempest\x", &roots));
}
