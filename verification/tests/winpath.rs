use oxidedisk::winpath::{display_name, WinPath};

#[test]
fn display_name_is_file_name_or_whole_text() {
    assert_eq!(display_name(r"C:\data\a"), "a");
    assert_eq!(display_name(r"C:\data\a\"), "a");
    assert_eq!(display_name(r"C:\"), r"C:\");
    assert_eq!(display_name("C:/x/y.txt"), "y.txt");
    assert_eq!(display_name(r"C:\x\.."), r"C:\x\..");
}

#[test]
fn parse_render_parent_and_prefix() {
    let p = WinPath::parse(r"c:\data\.\a//b");
    assert_eq!(p.render(), r"C:\data\a\b");
    let parent = p.parent().unwrap();
    assert_eq!(parent.render(), r"C:\data\a");
    assert!(p.starts_with(&parent));
    assert!(!parent.starts_with(&p));
    let root = WinPath::parse(r"C:\");
    assert!(p.starts_with(&root));
    assert!(root.parent().is_none());
    assert_eq!(root.render(), r"C:\");
    let other = WinPath::parse(r"C:\dat");
    assert!(!p.starts_with(&other));
    assert!(WinPath::parse(r"C:\Data").same_as(&WinPath::parse(r"c:\Data\")));
    assert!(!WinPath::parse(r"C:\Data").same_as(&WinPath::parse(r"C:\data")));
}

#[test]
fn long_prefixes_are_kept_as_written() {
    let p = WinPath::parse(r"\\server\share\dir\f.txt");
    assert_eq!(p.render(), r"\\server\share\dir\f.txt");
    let parent = p.parent().unwrap();
    assert_eq!(parent.render(), r"\\server\share\dir");
    let share = WinPath::parse(r"\\server\share\");
    assert!(p.starts_with(&share));
    assert!(!p.starts_with(&WinPath::parse(r"\\server\other\")));
    assert_eq!(display_name(r"\\server\share\"), r"\\server\share\");
    assert_eq!(WinPath::parse(r"\\.\COM1").render(), r"\\.\COM1");
    // Without a share there is no prefix: a root and a name.
    assert_eq!(WinPath::parse(r"\\server").render(), r"\server");
}

#[test]
fn verbatim_paths_keep_dots_and_slashes_in_names() {
    let p = WinPath::parse(r"\\?\C:\x\.\y");
    assert_eq!(p.render(), r"\\?\C:\x\.\y");
    assert_eq!(display_name(r"\\?\C:\x\."), r"\\?\C:\x\.");
    assert_eq!(display_name(r"\\?\C:\a/b"), "a/b");
    assert_eq!(WinPath::parse(r"\\?\UNC\srv\sh\z").render(), r"\\?\UNC\srv\sh\z");
}

#[test]
fn a_leading_dot_is_kept_other_dots_are_not() {
    assert_eq!(WinPath::parse("./a/b").render(), r".\a\b");
    assert_eq!(WinPath::parse("a/./b").render(), r"a\b");
    assert_eq!(WinPath::parse("C:.").render(), "C:.");
    assert_eq!(WinPath::parse(r"C:\.\x").render(), r"C:\x");
    assert!(WinPath::parse(".").file_name().is_none());
}
