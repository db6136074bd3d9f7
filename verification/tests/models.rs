use oxidedisk::models::{Category, DiskInfo, FileMetadata, FilterState};

fn file(path: &str, ext: &str) -> FileMetadata {
    FileMetadata {
        path: path.to_string(),
        size: 1,
        extension: ext.to_string(),
        modified: None,
        accessed: None,
    }
}

#[test]
fn category_of_known_extensions() {
    assert_eq!(Category::of("jpg"), Category::Images);
    assert_eq!(Category::of("svg"), Category::Images);
    assert_eq!(Category::of("mkv"), Category::Video);
    assert_eq!(Category::of("flac"), Category::Audio);
    assert_eq!(Category::of("docx"), Category::Documents);
    assert_eq!(Category::of("md"), Category::Documents);
    assert_eq!(Category::of("7z"), Category::Archives);
    assert_eq!(Category::of("dll"), Category::System);
    assert_eq!(Category::of("log"), Category::System);
    assert_eq!(Category::of("rs"), Category::Other);
    assert_eq!(Category::of(""), Category::Other);
    // Extensions are stored lower-cased; upper case is not matched.
    assert_eq!(Category::of("JPG"), Category::Other);
}

#[test]
fn category_labels_and_list() {
    let labels: Vec<&str> = Category::ALL.iter().map(|c| c.label()).collect();
    assert_eq!(
        labels,
        vec!["Images", "Video", "Audio", "Documents", "Archives", "System", "Other"]
    );
}

#[test]
fn file_category_uses_extension() {
    assert_eq!(file(r"C:\a\b.mp3", "mp3").category(), Category::Audio);
    assert_eq!(file(r"C:\a\b", "").category(), Category::Other);
}

#[test]
fn file_name_is_last_component_or_whole_path() {
    assert_eq!(file(r"C:\data\report.pdf", "pdf").name(), "report.pdf");
    assert_eq!(file("C:/data/x.txt", "txt").name(), "x.txt");
    assert_eq!(file(r"C:\", "").name(), r"C:\");
    assert_eq!(file(r"C:\data\..", "").name(), r"C:\data\..");
}

#[test]
fn disk_used_saturates() {
    let d = DiskInfo { mount: r"C:\".to_string(), total: 100, available: 30 };
    assert_eq!(d.used(), 70);
    let odd = DiskInfo { mount: r"C:\".to_string(), total: 10, available: 30 };
    assert_eq!(odd.used(), 0);
}

#[test]
fn default_filter_keeps_everything() {
    let f = FilterState::default();
    assert_eq!(f.min_size, 0);
    assert!(f.category.is_none());
    assert!(f.min_age_days.is_none());
    assert!(f.top_n.is_none());
}
