use oxidedisk::models::ScanMessage;
use oxidedisk::scan::{extension_of, ScanTally, PROGRESS_EVERY};

#[test]
fn extension_is_lower_cased_text_after_last_dot() {
    assert_eq!(extension_of(r"C:\a\Photo.JPG"), "jpg");
    assert_eq!(extension_of(r"C:\a\archive.tar.GZ"), "gz");
    assert_eq!(extension_of(r"C:\a\.bashrc"), "");
    assert_eq!(extension_of(r"C:\a\README"), "");
    assert_eq!(extension_of(r"C:\a\name."), "");
    assert_eq!(extension_of(r"C:\a.d\file"), "");
    assert_eq!(extension_of(r"C:\"), "");
}

#[test]
fn tally_reports_progress_every_n_files() {
    let mut t = ScanTally::new();
    let mut reports = Vec::new();
    for i in 0..(2 * PROGRESS_EVERY + 3) {
        if let Some(m) = t.add_file(format!(r"C:\f{}.txt", i), 2, Some(1), None) {
            match m {
                ScanMessage::Progress { scanned, bytes } => reports.push((scanned, bytes)),
                _ => panic!("unexpected message"),
            }
        }
    }
    assert_eq!(
        reports,
        vec![
            (PROGRESS_EVERY, 2 * PROGRESS_EVERY as u64),
            (2 * PROGRESS_EVERY, 4 * PROGRESS_EVERY as u64)
        ]
    );
    match t.finish() {
        ScanMessage::Done(files) => {
            assert_eq!(files.len(), 2 * PROGRESS_EVERY + 3);
            assert_eq!(files[0].path, r"C:\f0.txt");
            assert_eq!(files[0].extension, "txt");
            assert_eq!(files[0].size, 2);
            assert_eq!(files[0].modified, Some(1));
            assert_eq!(files[0].accessed, None);
        }
        _ => panic!("expected the final message"),
    }
}

#[test]
fn tally_bytes_saturate() {
    let mut t = ScanTally::new();
    t.add_file("a".to_string(), u64::MAX, None, None);
    t.add_file("b".to_string(), 5, None, None);
    for i in 0..(PROGRESS_EVERY - 3) {
        assert!(t.add_file(format!("c{}", i), 0, None, None).is_none());
    }
    match t.add_file("z".to_string(), 1, None, None) {
        Some(ScanMessage::Progress { scanned, bytes }) => {
            assert_eq!(scanned, PROGRESS_EVERY);
            assert_eq!(bytes, u64::MAX);
        }
        _ => panic!("expected a progress message"),
    }
}
