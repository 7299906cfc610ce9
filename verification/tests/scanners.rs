use compyrs::path_dirs;
use compyrs::resolve_scan_dir;
use compyrs::DirCompletion;
use compyrs::DirEntryInfo;
use compyrs::DirListing;
use compyrs::FileEntry;
use compyrs::PathCompletion;
use compyrs::PathDirIterator;

fn drain_path(mut it: PathDirIterator) -> Vec<String> {
    let mut out = Vec::new();
    while let Some(seg) = it.next() {
        out.push(seg);
    }
    out
}

fn entry(name: &str, executable: bool) -> FileEntry {
    FileEntry { name: name.to_string(), executable }
}

fn listing(entries: Vec<FileEntry>) -> DirListing {
    DirListing { entries: Some(entries) }
}

fn drain_execs(mut sc: PathCompletion) -> Vec<String> {
    let mut out = Vec::new();
    while let Some(name) = sc.next() {
        out.push(name);
    }
    out
}

fn dir_entry(name: &str, is_dir: bool) -> DirEntryInfo {
    DirEntryInfo { name: name.to_string(), is_dir }
}

fn drain_dir(mut sc: DirCompletion) -> Vec<String> {
    let mut out = Vec::new();
    while let Some(name) = sc.next() {
        out.push(name);
    }
    out
}

#[test]
fn path_splits_on_delimiter() {
    let it = PathDirIterator::new("ab:cd:".to_string());
    assert_eq!(drain_path(it), vec!["ab".to_string(), "cd".to_string()]);
}

#[test]
fn path_segment_without_trailing_delimiter_is_dropped() {
    let it = PathDirIterator::new("ab:cd".to_string());
    assert_eq!(drain_path(it), vec!["ab".to_string()]);
}

#[test]
fn empty_path_yields_nothing() {
    let it = PathDirIterator::new(String::new());
    assert_eq!(drain_path(it), Vec::<String>::new());
}

#[test]
fn empty_segments_are_yielded() {
    let it = PathDirIterator::new("::".to_string());
    assert_eq!(drain_path(it), vec![String::new(), String::new()]);
}

#[test]
fn path_dirs_collects_all_segments() {
    assert_eq!(path_dirs("a:bc:d:"), vec!["a".to_string(), "bc".to_string(), "d".to_string()]);
    assert_eq!(path_dirs(""), Vec::<String>::new());
}

#[test]
fn scanner_yields_each_executable_once_per_occurrence() {
    let dirs = vec![
        listing(vec![entry("ls", true), entry("README", false), entry("cat", true)]),
        DirListing { entries: None },
        listing(vec![entry("ls", true), entry("notes.txt", false)]),
    ];
    let sc = PathCompletion::new(dirs);
    assert_eq!(
        drain_execs(sc),
        vec!["ls".to_string(), "cat".to_string(), "ls".to_string()]
    );
}

#[test]
fn unopenable_directories_yield_nothing() {
    let dirs = vec![DirListing { entries: None }, DirListing { entries: None }];
    let sc = PathCompletion::new(dirs);
    assert_eq!(drain_execs(sc), Vec::<String>::new());
}

#[test]
fn scanner_over_no_directories_is_empty() {
    let sc = PathCompletion::new(Vec::new());
    assert_eq!(drain_execs(sc), Vec::<String>::new());
}

#[test]
fn directories_can_be_fed_one_at_a_time() {
    let mut sc = PathCompletion::new(Vec::new());
    assert_eq!(sc.next(), None);
    sc.push_dir(listing(vec![entry("ls", true), entry("README", false)]));
    assert_eq!(sc.next(), Some("ls".to_string()));
    assert_eq!(sc.next(), None);
    sc.push_dir(DirListing { entries: None });
    assert_eq!(sc.next(), None);
    sc.push_dir(listing(vec![entry("cat", true)]));
    assert_eq!(sc.next(), Some("cat".to_string()));
    assert_eq!(sc.next(), None);
}

#[test]
fn resolve_empty_input_scans_current_directory() {
    let t = resolve_scan_dir("");
    assert_eq!(t.dir, ".".to_string());
    assert_eq!(t.parent, String::new());
}

#[test]
fn resolve_trailing_separator_scans_input_itself() {
    let t = resolve_scan_dir("src/");
    assert_eq!(t.dir, "src/".to_string());
    assert_eq!(t.parent, "src/".to_string());
}

#[test]
fn resolve_takes_parent_of_partial_name() {
    let t = resolve_scan_dir("src/ma");
    assert_eq!(t.dir, "src".to_string());
    assert_eq!(t.parent, "src".to_string());
    let bare = resolve_scan_dir("ma");
    assert_eq!(bare.dir, ".".to_string());
    assert_eq!(bare.parent, String::new());
    let root = resolve_scan_dir("/ma");
    assert_eq!(root.dir, "/".to_string());
    assert_eq!(root.parent, "/".to_string());
}

#[test]
fn resolve_dot_dot_keeps_sentinel_parent() {
    let t = resolve_scan_dir("..");
    assert_eq!(t.dir, ".".to_string());
    assert_eq!(t.parent, "..".to_string());
}

#[test]
fn dir_scan_joins_with_resolved_parent() {
    let listing = vec![dir_entry("util", true), dir_entry("main.go", false)];
    let sc = DirCompletion::new("src/", false, true, Some(listing)).unwrap();
    assert_eq!(drain_dir(sc), vec!["src/util".to_string()]);
}

#[test]
fn dir_scan_with_empty_input_yields_bare_names() {
    let listing = vec![dir_entry("a.txt", false), dir_entry("b.txt", false)];
    let sc = DirCompletion::new("", true, false, Some(listing)).unwrap();
    let mut out = drain_dir(sc);
    out.sort();
    assert_eq!(out, vec!["a.txt".to_string(), "b.txt".to_string()]);
}

#[test]
fn dir_scan_synthesizes_dot_entries_for_sentinel_parent() {
    let listing = vec![dir_entry("sub", true), dir_entry("f", false)];
    let sc = DirCompletion::new(".", false, true, Some(listing)).unwrap();
    assert_eq!(
        drain_dir(sc),
        vec![".".to_string(), "..".to_string(), "sub".to_string()]
    );
}

#[test]
fn dir_scan_without_dirs_flag_skips_synthesis() {
    let listing = vec![dir_entry("sub", true), dir_entry("f", false)];
    let sc = DirCompletion::new(".", true, false, Some(listing)).unwrap();
    assert_eq!(drain_dir(sc), vec!["f".to_string()]);
}

#[test]
fn dir_scan_both_kinds() {
    let listing = vec![dir_entry("util", true), dir_entry("main.go", false)];
    let sc = DirCompletion::new("src/", true, true, Some(listing)).unwrap();
    assert_eq!(drain_dir(sc), vec!["src/util".to_string(), "src/main.go".to_string()]);
}

#[test]
fn dir_scan_fails_soft_without_listing() {
    assert!(DirCompletion::new("gone/", true, true, None).is_none());
}
