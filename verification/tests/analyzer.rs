use oxidedisk::analyzer::{apply, apply_at, sort};
use oxidedisk::clock::age_cutoff;
use oxidedisk::models::{Category, FileMetadata, FilterState, SortKey};

const DAY: i128 = 86_400_000_000_000;

fn file(path: &str, size: u64, ext: &str, modified: Option<i128>) -> FileMetadata {
    FileMetadata {
        path: path.to_string(),
        size,
        extension: ext.to_string(),
        modified,
        accessed: None,
    }
}

fn sample() -> Vec<FileMetadata> {
    vec![
        file(r"C:\d\Beta.jpg", 500, "jpg", Some(100 * DAY)),
        file(r"C:\d\alpha.txt", 20, "txt", Some(10 * DAY)),
        file(r"C:\d\gamma.mp4", 9000, "mp4", None),
        file(r"C:\d\delta.png", 700, "png", Some(50 * DAY)),
        file(r"C:\d\Echo.log", 20, "log", Some(99 * DAY)),
    ]
}

fn filter() -> FilterState {
    FilterState::default()
}

#[test]
fn apply_without_filters_lists_every_index() {
    let files = sample();
    assert_eq!(apply_at(&files, &filter(), 0), vec![0, 1, 2, 3, 4]);
    assert_eq!(apply(&files, &filter()), vec![0, 1, 2, 3, 4]);
    assert!(apply(&[], &filter()).is_empty());
}

#[test]
fn apply_min_size_and_category() {
    let files = sample();
    let mut f = filter();
    f.min_size = 500;
    assert_eq!(apply_at(&files, &f, 0), vec![0, 2, 3]);
    f.category = Some(Category::Images);
    assert_eq!(apply_at(&files, &f, 0), vec![0, 3]);
    f.min_size = 0;
    f.category = Some(Category::System);
    assert_eq!(apply_at(&files, &f, 0), vec![4]);
}

#[test]
fn apply_age_keeps_files_modified_before_the_cutoff() {
    let files = sample();
    let mut f = filter();
    f.min_age_days = Some(40);
    // now = day 100: the cutoff is day 60; files without a time are dropped.
    assert_eq!(apply_at(&files, &f, 100 * DAY), vec![1, 3]);
    // A cutoff before the epoch stays before it: nothing here is older.
    assert_eq!(apply_at(&files, &f, DAY), Vec::<usize>::new());
    assert_eq!(age_cutoff(100 * DAY, 40), 60 * DAY);
    assert_eq!(age_cutoff(DAY, 40), -39 * DAY);
    assert_eq!(age_cutoff(i128::MIN + DAY, 2), i128::MIN);
}

#[test]
fn files_from_before_the_epoch_keep_their_times() {
    let files = vec![
        file(r"C:\a.txt", 1, "txt", Some(-20_000 * DAY)),
        file(r"C:\b.txt", 1, "txt", Some(-30 * DAY)),
        file(r"C:\c.txt", 1, "txt", Some(5 * DAY)),
    ];
    let mut f = filter();
    f.min_age_days = Some(20_000);
    // now = day 10: the cutoff is day -19990, before the epoch.
    assert_eq!(apply_at(&files, &f, 10 * DAY), vec![0]);
    let mut v = vec![2, 1, 0];
    sort(&mut v, &files, SortKey::Modified, true);
    assert_eq!(v, vec![0, 1, 2]);
}

#[test]
fn apply_top_n_keeps_the_largest() {
    let files = sample();
    let mut f = filter();
    f.top_n = Some(2);
    assert_eq!(apply_at(&files, &f, 0), vec![2, 3]);
    f.top_n = Some(10);
    let all = apply_at(&files, &f, 0);
    assert_eq!(all.len(), 5);
    assert_eq!(&all[..3], &[2, 3, 0]);
    f.top_n = Some(0);
    assert!(apply_at(&files, &f, 0).is_empty());
}

#[test]
fn sort_by_size_both_directions() {
    let files = sample();
    let mut v = vec![0, 1, 2, 3, 4];
    sort(&mut v, &files, SortKey::Size, false);
    assert_eq!(&v[..3], &[2, 3, 0]);
    let sizes: Vec<u64> = v.iter().map(|&i| files[i].size).collect();
    assert_eq!(sizes, vec![9000, 700, 500, 20, 20]);
    sort(&mut v, &files, SortKey::Size, true);
    let sizes: Vec<u64> = v.iter().map(|&i| files[i].size).collect();
    assert_eq!(sizes, vec![20, 20, 500, 700, 9000]);
}

#[test]
fn sort_by_name_ignores_case() {
    let files = sample();
    let mut v = vec![0, 1, 2, 3, 4];
    sort(&mut v, &files, SortKey::Name, true);
    assert_eq!(v, vec![1, 0, 3, 4, 2]);
    sort(&mut v, &files, SortKey::Name, false);
    assert_eq!(v, vec![2, 4, 3, 0, 1]);
}

#[test]
fn sort_by_modified_puts_unknown_first() {
    let files = sample();
    let mut v = vec![0, 1, 2, 3, 4];
    sort(&mut v, &files, SortKey::Modified, true);
    assert_eq!(v, vec![2, 1, 3, 4, 0]);
    sort(&mut v, &files, SortKey::Modified, false);
    assert_eq!(v, vec![0, 4, 3, 1, 2]);
}

#[test]
fn sort_of_a_subset_keeps_its_indices() {
    let files = sample();
    let mut v = vec![4, 0];
    sort(&mut v, &files, SortKey::Size, true);
    assert_eq!(v, vec![4, 0]);
}

#[test]
fn apply_reads_the_clock_for_the_age_filter() {
    // One file from the epoch, one from far in the future.
    let files = vec![
        file(r"C:\old.txt", 1, "txt", Some(0)),
        file(r"C:\new.txt", 1, "txt", Some(i128::MAX)),
        file(r"C:\unknown.txt", 1, "txt", None),
    ];
    let mut f = filter();
    f.min_age_days = Some(1);
    assert_eq!(apply(&files, &f), vec![0]);
}
