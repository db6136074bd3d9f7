use oxidedisk::elevation::{has_cleanup_flag, join_args, relaunch_outcome, CLEANUP_FLAG};

#[test]
fn cleanup_flag_is_found_among_arguments() {
    assert_eq!(CLEANUP_FLAG, "--cleanup");
    let args = vec!["app.exe".to_string(), "--cleanup".to_string()];
    assert!(has_cleanup_flag(&args));
    let other = vec!["app.exe".to_string(), "--cleanupx".to_string()];
    assert!(!has_cleanup_flag(&other));
    assert!(!has_cleanup_flag(&[]));
}

#[test]
fn arguments_are_joined_with_spaces() {
    assert_eq!(join_args(&[CLEANUP_FLAG]), "--cleanup");
    assert_eq!(join_args(&["a", "b c", ""]), "a b c ");
    assert_eq!(join_args(&[]), "");
}

#[test]
fn shell_execute_codes_above_32_mean_launched() {
    assert!(relaunch_outcome(33).is_ok());
    assert!(relaunch_outcome(42).is_ok());
    assert_eq!(relaunch_outcome(32), Err("Elevation was cancelled or failed.".to_string()));
    assert_eq!(relaunch_outcome(0), Err("Elevation was cancelled or failed.".to_string()));
    assert!(relaunch_outcome(-1).is_err());
}

#[test]
fn without_windows_there_is_no_elevation() {
    assert!(!oxidedisk::elevation::is_elevated());
    assert_eq!(
        oxidedisk::elevation::relaunch_as_admin(&[CLEANUP_FLAG]),
        Err("Elevation is only supported on Windows.".to_string())
    );
}
