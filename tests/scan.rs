use dirsize::{depth_fits_in, is_artifact, read_files, read_files_regex, Entry, FileSize, FileTree, Pattern, WarningKind};

fn file(path: &str, len: u64) -> Entry {
    Entry::File { path: path.to_string(), len }
}

fn dir(path: &str, entries: Vec<Entry>) -> Entry {
    Entry::Dir { path: path.to_string(), contents: Some(entries) }
}

fn paths(t: &FileTree) -> Vec<String> {
    t.children.iter().map(|c| c.path.clone()).collect()
}

fn check_sums(t: &FileTree) {
    if !t.children.is_empty() {
        let sum: u64 = t.children.iter().map(|c| c.file_size.bytes).sum();
        assert_eq!(t.file_size.bytes, sum);
    }
    for c in &t.children {
        check_sums(c);
    }
}

fn check_depths(t: &FileTree, depth: u8) {
    assert_eq!(t.depth, depth);
    for c in &t.children {
        check_depths(c, depth + 1);
    }
}

fn all_nodes(t: &FileTree, out: &mut Vec<String>) {
    for c in &t.children {
        out.push(c.path.clone());
        all_nodes(c, out);
    }
}

fn sample() -> Option<Vec<Entry>> {
    Some(vec![
        file("root/a.txt", 10),
        dir("root/src", vec![file("root/src/main.rs", 300), file("root/src/lib.rs", 50), dir("root/src/empty", vec![])]),
        dir("root/.git", vec![file("root/.git/config", 40)]),
        file("root/b.bin", 1000),
    ])
}

#[test]
fn sizes_sum_bottom_up() {
    let root = "root".to_string();
    let scan = read_files(&root, &sample(), 0, None, true);
    let t = &scan.tree;
    assert_eq!(t.file_size.bytes, 10 + 300 + 50 + 40 + 1000);
    assert_eq!(paths(t), vec!["root/a.txt", "root/src", "root/.git", "root/b.bin"]);
    assert_eq!(t.children[0].file_size.bytes, 10);
    assert_eq!(t.children[1].file_size.bytes, 350);
    assert_eq!(t.children[1].children.len(), 3);
    assert_eq!(t.children[1].children[2].file_size.bytes, 0);
    check_sums(t);
}

#[test]
fn threshold_never_increases_sizes_and_keeps_large_nodes() {
    let root = "root".to_string();
    let full = read_files(&root, &sample(), 0, None, true).tree;
    let cut = read_files(&root, &sample(), 0, Some(100), true).tree;
    assert_eq!(paths(&cut), vec!["root/src", "root/b.bin"]);
    assert_eq!(cut.file_size.bytes, 300 + 1000);
    assert!(cut.file_size.bytes <= full.file_size.bytes);
    assert_eq!(cut.children[0].file_size.bytes, 300);
    assert!(cut.children[0].file_size.bytes <= full.children[1].file_size.bytes);
    assert_eq!(paths(&cut.children[0]), vec!["root/src/main.rs"]);
    let mut nodes = Vec::new();
    all_nodes(&cut, &mut nodes);
    for n in &nodes {
        assert!(n != "root/a.txt" && n != "root/src/lib.rs");
    }
    check_sums(&cut);
}

#[test]
fn threshold_keeps_sizes_equal_to_it() {
    let root = "root".to_string();
    let scan = read_files(&root, &Some(vec![file("root/x", 100), file("root/y", 99)]), 0, Some(100), true);
    assert_eq!(paths(&scan.tree), vec!["root/x"]);
    assert_eq!(scan.tree.file_size.bytes, 100);
}

#[test]
fn small_subtree_dropped_whole() {
    let root = "root".to_string();
    let contents = Some(vec![dir("root/bigdir", vec![file("root/bigdir/smallfile", 1), file("root/bigdir/other", 1)])]);
    let scan = read_files(&root, &contents, 0, Some(100), true);
    assert_eq!(scan.tree.children.len(), 0);
    assert_eq!(scan.tree.file_size.bytes, 0);
}

#[test]
fn large_file_in_small_subtree_still_dropped_with_it() {
    let root = "root".to_string();
    // the directory's aggregate is checked, not each file on its own
    let contents = Some(vec![dir("root/d", vec![file("root/d/big", 150)]), file("root/e", 20)]);
    let scan = read_files(&root, &contents, 0, Some(200), true);
    assert_eq!(scan.tree.children.len(), 0);
    assert_eq!(scan.tree.file_size.bytes, 0);
}

#[test]
fn exclusion_removes_subtree_and_its_size() {
    let root = "root".to_string();
    let re = Pattern::new(r"\.git").unwrap();
    let scan = read_files_regex(&root, &sample(), 0, None, &re, true);
    assert_eq!(paths(&scan.tree), vec!["root/a.txt", "root/src", "root/b.bin"]);
    assert_eq!(scan.tree.file_size.bytes, 10 + 350 + 1000);
    let mut nodes = Vec::new();
    all_nodes(&scan.tree, &mut nodes);
    assert!(nodes.iter().all(|n| !n.contains(".git")));
}

#[test]
fn exclusion_applies_at_every_depth() {
    let root = "root".to_string();
    let re = Pattern::new(r"\.rs$").unwrap();
    let scan = read_files_regex(&root, &sample(), 0, None, &re, true);
    assert_eq!(scan.tree.children[1].path, "root/src");
    assert_eq!(paths(&scan.tree.children[1]), vec!["root/src/empty"]);
    assert_eq!(scan.tree.children[1].file_size.bytes, 0);
    assert_eq!(scan.tree.file_size.bytes, 10 + 40 + 1000);
}

#[test]
fn excluded_entries_give_no_warnings() {
    let root = "root".to_string();
    let contents = Some(vec![
        Entry::Unavailable { path: "root/skip/link".to_string() },
        Entry::Dir { path: "root/skip".to_string(), contents: None },
    ]);
    let re = Pattern::new("skip").unwrap();
    let scan = read_files_regex(&root, &contents, 0, None, &re, false);
    assert!(scan.warnings.is_empty());
    assert_eq!(scan.tree.children.len(), 0);
}

#[test]
fn empty_directory_is_zero() {
    let root = "root".to_string();
    let scan = read_files(&root, &Some(vec![]), 0, None, false);
    assert_eq!(scan.tree.children.len(), 0);
    assert_eq!(scan.tree.file_size.bytes, 0);
    assert_eq!(scan.tree.path, "root");
    assert!(scan.warnings.is_empty());
}

#[test]
fn unreadable_root_is_zero_with_one_warning() {
    let root = "root".to_string();
    let scan = read_files(&root, &None, 0, None, false);
    assert_eq!(scan.tree.children.len(), 0);
    assert_eq!(scan.tree.file_size.bytes, 0);
    assert_eq!(scan.warnings.len(), 1);
    assert_eq!(scan.warnings[0].kind, WarningKind::PermissionDenied);
    assert_eq!(scan.warnings[0].path, "root");
}

#[test]
fn unreadable_root_silent_has_no_warning() {
    let root = "root".to_string();
    let scan = read_files(&root, &None, 0, None, true);
    assert_eq!(scan.tree.children.len(), 0);
    assert!(scan.warnings.is_empty());
}

#[test]
fn unavailable_metadata_warns_and_is_skipped() {
    let root = "root".to_string();
    let contents = Some(vec![
        Entry::Unavailable { path: "root/link".to_string() },
        Entry::Other { path: "root/socket".to_string() },
        dir("root/locked", vec![]),
        Entry::Dir { path: "root/private".to_string(), contents: None },
        file("root/f", 5),
    ]);
    let scan = read_files(&root, &contents, 0, None, false);
    assert_eq!(paths(&scan.tree), vec!["root/locked", "root/private", "root/f"]);
    assert_eq!(scan.tree.file_size.bytes, 5);
    assert_eq!(scan.warnings.len(), 2);
    assert_eq!(scan.warnings[0].kind, WarningKind::Symlink);
    assert_eq!(scan.warnings[0].path, "root/link");
    assert_eq!(scan.warnings[1].kind, WarningKind::PermissionDenied);
    assert_eq!(scan.warnings[1].path, "root/private");
    let quiet = read_files(&root, &contents, 0, None, true);
    assert!(quiet.warnings.is_empty());
}

#[test]
fn pattern_matching_nothing_equals_unfiltered() {
    let root = "root".to_string();
    let re = Pattern::new("^$").unwrap();
    let a = read_files(&root, &sample(), 3, Some(20), false);
    let b = read_files_regex(&root, &sample(), 3, Some(20), &re, false);
    let (mut na, mut nb) = (Vec::new(), Vec::new());
    all_nodes(&a.tree, &mut na);
    all_nodes(&b.tree, &mut nb);
    assert_eq!(na, nb);
    assert_eq!(a.tree.file_size, b.tree.file_size);
    assert_eq!(a.warnings, b.warnings);
}

#[test]
fn depths_step_by_one_from_base() {
    let root = "root".to_string();
    let scan = read_files(&root, &sample(), 7, None, true);
    check_depths(&scan.tree, 7);
    assert_eq!(scan.tree.children[1].children[0].depth, 9);
}

#[test]
fn depth_limit_detected() {
    let contents = Some(vec![dir("r/a", vec![file("r/a/b", 1)])]);
    assert!(depth_fits_in(&contents, 253));
    assert!(!depth_fits_in(&contents, 254));
    assert!(depth_fits_in(&Some(vec![]), 255));
    assert!(!depth_fits_in(&Some(vec![file("r/x", 1)]), 255));
    assert!(depth_fits_in(&None, 255));
}

#[test]
fn sizes_saturate() {
    let mut s = FileSize::new(u64::MAX - 1);
    s.add(FileSize::new(5));
    assert_eq!(s.bytes, u64::MAX);
    let root = "root".to_string();
    let scan = read_files(&root, &Some(vec![file("root/a", u64::MAX), file("root/b", 7)]), 0, None, true);
    assert_eq!(scan.tree.file_size.bytes, u64::MAX);
}

#[test]
fn size_comparison() {
    assert!(FileSize::new(5).at_least(FileSize::new(5)));
    assert!(!FileSize::new(4).at_least(FileSize::new(5)));
}

#[test]
fn invalid_pattern_is_an_error() {
    let err = Pattern::new("foo(bar").unwrap_err();
    assert_eq!(err.source, "foo(bar");
    let ok = Pattern::new("foo").unwrap();
    assert_eq!(ok.as_str(), "foo");
    assert!(ok.is_match("a/foo/b"));
    assert!(!ok.is_match("a/bar"));
}

#[test]
fn default_artifact_pattern() {
    assert!(is_artifact("target/lib.a", None));
    assert!(is_artifact("build/main.o", None));
    assert!(!is_artifact("src/main.rs", None));
    assert!(!is_artifact("notes.org", None));
}

#[test]
fn artifact_with_given_pattern() {
    let re = Pattern::new(r"\.so$").unwrap();
    assert!(is_artifact("lib/libx.so", Some(&re)));
    assert!(!is_artifact("build/main.o", Some(&re)));
}
