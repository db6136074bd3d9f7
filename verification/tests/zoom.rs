use oxidedisk::treemap::Node;
use oxidedisk::zoom::{step_zoom, trim_zoom, ZoomStep};

fn node(name: &str, size: u64, children: Vec<Node>) -> Node {
    Node { name: name.to_string(), path: name.to_string(), size, children }
}

/// root ─ a ─ a1 ─ a11
///      │    └ a2
///      └ b
fn tree() -> Node {
    let a11 = node("a11", 1, vec![]);
    let a1 = node("a1", 5, vec![a11]);
    let a2 = node("a2", 2, vec![]);
    let a = node("a", 7, vec![a1, a2]);
    let b = node("b", 3, vec![]);
    node("root", 10, vec![a, b])
}

#[test]
fn trim_keeps_the_longest_valid_prefix() {
    let t = tree();
    let mut z = vec![0, 0, 0];
    trim_zoom(&t, &mut z);
    assert_eq!(z, vec![0, 0, 0]);
    let mut z = vec![0, 5, 0];
    trim_zoom(&t, &mut z);
    assert_eq!(z, vec![0]);
    let mut z = vec![1, 0];
    trim_zoom(&t, &mut z);
    assert_eq!(z, vec![1]);
    let mut z = vec![9];
    trim_zoom(&t, &mut z);
    assert!(z.is_empty());
}

#[test]
fn open_only_enters_folders_with_subfolders() {
    let t = tree();
    let mut z: Vec<usize> = Vec::new();
    step_zoom(&t, &mut z, ZoomStep::Open(0));
    assert_eq!(z, vec![0]);
    // b has no subfolders; index 2 is the tile of the root's own files.
    let mut w: Vec<usize> = Vec::new();
    step_zoom(&t, &mut w, ZoomStep::Open(1));
    step_zoom(&t, &mut w, ZoomStep::Open(2));
    assert!(w.is_empty());
    step_zoom(&t, &mut z, ZoomStep::Open(0));
    assert_eq!(z, vec![0, 0]);
    step_zoom(&t, &mut z, ZoomStep::Open(1));
    assert_eq!(z, vec![0, 0]);
}

#[test]
fn up_and_breadcrumbs_shorten_the_path() {
    let t = tree();
    let mut z = vec![0, 0, 0];
    step_zoom(&t, &mut z, ZoomStep::Up);
    assert_eq!(z, vec![0, 0]);
    step_zoom(&t, &mut z, ZoomStep::Crumb(5));
    assert_eq!(z, vec![0, 0]);
    step_zoom(&t, &mut z, ZoomStep::Crumb(1));
    assert_eq!(z, vec![0]);
    step_zoom(&t, &mut z, ZoomStep::Crumb(0));
    assert!(z.is_empty());
    step_zoom(&t, &mut z, ZoomStep::Up);
    assert!(z.is_empty());
}
