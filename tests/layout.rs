use pkit::layout::{archive_kind, archive_stem, find_dir_with_bin, resolve_layout, ArchiveKind, TreeEntry};
use pkit::registry::PkitError;

fn entry(path: &[&str], is_dir: bool) -> TreeEntry {
    TreeEntry { path: path.iter().map(|s| s.to_string()).collect(), is_dir }
}

#[test]
fn nested_root_is_found_and_copied() {
    let tree = vec![
        entry(&[], true),
        entry(&["x"], true),
        entry(&["x", "y"], true),
        entry(&["x", "y", "bin"], true),
        entry(&["x", "y", "bin", "tool"], false),
        entry(&["x", "y", "lib"], true),
    ];
    assert_eq!(find_dir_with_bin(&tree), Some(2));
    let plan = resolve_layout(&tree).unwrap();
    let steps: Vec<(Vec<String>, Vec<String>, bool)> =
        plan.into_iter().map(|s| (s.from, s.to, s.is_dir)).collect();
    let v = |p: &[&str]| p.iter().map(|s| s.to_string()).collect::<Vec<String>>();
    assert_eq!(
        steps,
        vec![
            (v(&["x", "y", "bin"]), v(&["bin"]), true),
            (v(&["x", "y", "bin", "tool"]), v(&["bin", "tool"]), false),
            (v(&["x", "y", "lib"]), v(&["lib"]), true),
        ]
    );
}

#[test]
fn tree_without_bin_fails() {
    let tree = vec![
        entry(&[], true),
        entry(&["x"], true),
        entry(&["x", "lib"], true),
        entry(&["x", "bin"], false),
    ];
    assert_eq!(find_dir_with_bin(&tree), None);
    assert!(matches!(resolve_layout(&tree), Err(PkitError::LayoutNotFound)));
}

#[test]
fn scratch_root_itself_can_be_the_root() {
    let tree = vec![entry(&[], true), entry(&["bin"], true), entry(&["bin", "go"], false), entry(&["x"], true), entry(&["x", "bin"], true)];
    assert_eq!(find_dir_with_bin(&tree), Some(0));
    assert_eq!(resolve_layout(&tree).unwrap().len(), 4);
}

#[test]
fn archive_kinds() {
    assert_eq!(archive_kind("python-3.11.zip"), Some(ArchiveKind::Zip));
    assert_eq!(archive_kind("node-v20.tar.gz"), Some(ArchiveKind::TarGz));
    assert_eq!(archive_kind("go1.22.tgz"), Some(ArchiveKind::TarGz));
    assert_eq!(archive_kind("data.gz"), None);
    assert_eq!(archive_kind("archive.rar"), None);
    assert_eq!(archive_kind(".zip"), None);
    assert_eq!(archive_kind("zip"), None);
}

#[test]
fn archive_stems() {
    assert_eq!(archive_stem("node-v20.tar.gz"), "node-v20.tar");
    assert_eq!(archive_stem("python.zip"), "python");
    assert_eq!(archive_stem(".hidden"), ".hidden");
    assert_eq!(archive_stem("plain"), "plain");
}
