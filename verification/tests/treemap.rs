use oxidedisk::models::FileMetadata;
use oxidedisk::treemap::{build, Node};

fn meta(path: &str, size: u64) -> FileMetadata {
    FileMetadata {
        path: path.to_string(),
        size,
        extension: String::new(),
        modified: Some(0),
        accessed: None,
    }
}

#[test]
fn build_aggregates_sizes_up_the_tree() {
    let files = vec![
        meta(r"C:\data\a\1.bin", 100),
        meta(r"C:\data\a\2.bin", 50),
        meta(r"C:\data\b\3.bin", 200),
        meta(r"C:\data\top.bin", 10),
    ];
    let root = build(&files).expect("non-empty");
    assert_eq!(root.path, r"C:\data");
    assert_eq!(root.size, 360);
    // Children sorted largest-first: b (200) before a (150).
    assert_eq!(root.children.len(), 2);
    assert_eq!(root.children[0].name, "b");
    assert_eq!(root.children[0].size, 200);
    assert_eq!(root.children[1].name, "a");
    assert_eq!(root.children[1].size, 150);
    // 10 bytes live directly in C:\data (top.bin).
    assert_eq!(root.direct_size(), 10);
}

#[test]
fn build_of_no_files_is_none() {
    assert!(build(&[]).is_none());
}

#[test]
fn build_nests_deeper_folders_and_names_the_drive_root() {
    let files = vec![
        meta(r"C:\x\y\z\f1", 5),
        meta(r"C:\x\y\f2", 7),
        meta(r"C:\w\f3", 1),
    ];
    let root = build(&files).unwrap();
    assert_eq!(root.path, r"C:\");
    assert_eq!(root.name, r"C:\");
    assert_eq!(root.size, 13);
    assert_eq!(root.direct_size(), 0);
    assert_eq!(root.children.len(), 2);
    let x = &root.children[0];
    assert_eq!(x.name, "x");
    assert_eq!(x.path, r"C:\x");
    assert_eq!(x.size, 12);
    let y = &x.children[0];
    assert_eq!(y.size, 12);
    assert_eq!(y.direct_size(), 7);
    assert_eq!(y.children[0].name, "z");
    assert_eq!(y.children[0].size, 5);
    assert_eq!(root.children[1].name, "w");
    assert_eq!(root.children[1].size, 1);
}

#[test]
fn direct_size_is_size_minus_children_and_saturates() {
    let child = Node { name: "c".to_string(), path: "p\\c".to_string(), size: 30, children: vec![] };
    let n = Node { name: "p".to_string(), path: "p".to_string(), size: 100, children: vec![child] };
    assert_eq!(n.direct_size(), 70);
    let big = Node { name: "c".to_string(), path: "p\\c".to_string(), size: 300, children: vec![] };
    let m = Node { name: "p".to_string(), path: "p".to_string(), size: 100, children: vec![big] };
    assert_eq!(m.direct_size(), 0);
}

#[test]
fn node_size_is_own_files_plus_children() {
    let files = vec![
        meta(r"D:\m\a\1", 3),
        meta(r"D:\m\2", 4),
        meta(r"D:\m\b\3", 8),
        meta(r"D:\m\b\c\4", 16),
    ];
    let root = build(&files).unwrap();
    let children: u64 = root.children.iter().map(|c| c.size).sum();
    assert_eq!(root.size, 31);
    assert_eq!(root.direct_size() + children, root.size);
    assert_eq!(root.direct_size(), 4);
    let b = &root.children[0];
    assert_eq!(b.name, "b");
    assert_eq!(b.direct_size(), 8);
}

#[test]
fn build_on_a_network_share() {
    let files = vec![meta(r"\\srv\sh\a\1", 4), meta(r"\\srv\sh\b\2", 6)];
    let root = build(&files).unwrap();
    assert_eq!(root.path, r"\\srv\sh\");
    assert_eq!(root.name, r"\\srv\sh\");
    assert_eq!(root.size, 10);
    assert_eq!(root.children[0].path, r"\\srv\sh\b");
    assert_eq!(root.children[1].name, "a");
}

#[test]
fn node_paths_keep_the_text_as_written() {
    let files = vec![
        meta(r"C:\data\a\1.bin", 1),
        meta("c:/data/b/2.bin", 2),
        meta(r"c:/data/b\\x\3.bin", 4),
    ];
    let root = build(&files).unwrap();
    assert_eq!(root.path, r"C:\data");
    assert_eq!(root.name, "data");
    let b = &root.children[0];
    assert_eq!(b.path, "c:/data/b");
    assert_eq!(b.name, "b");
    assert_eq!(b.children[0].path, r"c:/data/b\\x");
    assert_eq!(root.children[1].path, r"C:\data\a");
    let only = build(&[meta("c:/", 3)]);
    assert!(only.is_none());
    let top = build(&[meta("c:/f", 3)]).unwrap();
    assert_eq!(top.path, "c:/");
    assert_eq!(top.name, "c:/");
}

#[test]
fn tree_fits_counts_only_files_under_the_root() {
    assert!(oxidedisk::treemap::tree_fits(&[meta(r"C:\a\1", 5), meta(r"C:\b\2", 7)]));
    assert!(!oxidedisk::treemap::tree_fits(&[meta(r"C:\a\1", u64::MAX), meta(r"C:\b\2", 1)]));
    // The second file is on another drive and outside the root `C:\`.
    assert!(oxidedisk::treemap::tree_fits(&[meta(r"C:\a\1", u64::MAX), meta(r"D:\b\2", 1)]));
    assert!(oxidedisk::treemap::tree_fits(&[]));
}
