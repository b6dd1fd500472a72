use wisu::aggregate::{aggregate, AggregatedInfo};
use wisu::config::{Args, SortType, TimeFilter, TimeMode};
use wisu::plugins::{add_filter, FilterRegistry};
use wisu::record::{Metadata, RawRecord};
use wisu::tree::{filter_records, select_entries, Tree, TreeEntry};

fn record(root: &str, rel: &str, is_dir: bool, len: u64) -> RawRecord {
    let path = format!("{root}/{rel}");
    let cut = path.rfind('/').unwrap();
    RawRecord {
        parent: Some(path[..cut].to_string()),
        file_name: path[cut + 1..].to_string(),
        relative: Some(rel.to_string()),
        depth: rel.split('/').count(),
        is_dir,
        metadata: Some(Metadata {
            len,
            is_dir,
            mode: Some(if is_dir { 0o755 } else { 0o644 }),
            accessed: None,
            modified: None,
            created: None,
        }),
        path,
    }
}

fn args() -> Args {
    Args {
        interactive: false,
        config: None,
        out: None,
        path: "/r".to_string(),
        dirs_only: false,
        info: false,
        stats: true,
        hyperlinks: false,
        all: false,
        gitignore: false,
        icons: false,
        size: false,
        permissions: false,
        expand_level: None,
        level: None,
        files: None,
        files_only: false,
        sort: SortType::Name,
        dirs_first: false,
        case_sensitive: false,
        natural_sort: false,
        reverse: false,
        dotfiles_first: false,
        exclude_extensions: Vec::new(),
        time_filter: None,
    }
}

fn no_stages() -> FilterRegistry<fn(Tree) -> Tree> {
    FilterRegistry::new()
}

fn listed(tree: &Tree) -> Vec<String> {
    tree.tree_info.iter().map(|e| e.path.clone()).collect()
}

fn entry<'a>(tree: &'a Tree, path: &str) -> &'a TreeEntry {
    tree.tree_info.iter().find(|e| e.path == path).unwrap()
}

#[test]
fn totals_add_up_everything_below() {
    let records = vec![
        record("/r", "a.txt", false, 10),
        record("/r", "dir1", true, 4096),
        record("/r", "dir1/b.txt", false, 20),
    ];
    let tree = Tree::prepare(&records, &args(), "/r", &no_stages());
    assert_eq!(tree.root_info, AggregatedInfo { size: 30, dirs: 1, files: 2 });
    assert_eq!(listed(&tree), vec!["/r/a.txt", "/r/dir1", "/r/dir1/b.txt"]);
    let dir1 = entry(&tree, "/r/dir1");
    assert_eq!((dir1.size, dir1.dirs, dir1.files), (Some(20), Some(0), Some(1)));
    let a = entry(&tree, "/r/a.txt");
    assert_eq!((a.size, a.dirs, a.files), (Some(10), Some(0), Some(1)));
    assert!(dir1.is_directory && !a.is_directory);
    assert_eq!(tree.entries.len(), tree.tree_info.len());
    for (raw, shown) in tree.entries.iter().zip(tree.tree_info.iter()) {
        assert_eq!(raw.path, shown.path);
    }
}

#[test]
fn totals_are_recursive_through_nested_directories() {
    let records = vec![
        record("/r", "top", true, 0),
        record("/r", "top/mid", true, 0),
        record("/r", "top/mid/low", true, 0),
        record("/r", "top/mid/low/x", false, 7),
        record("/r", "top/mid/y", false, 5),
        record("/r", "top/z", false, 3),
        record("/r", "empty", true, 0),
    ];
    let tree = Tree::prepare(&records, &args(), "/r", &no_stages());
    let top = entry(&tree, "/r/top");
    assert_eq!((top.size, top.dirs, top.files), (Some(15), Some(2), Some(3)));
    let mid = entry(&tree, "/r/top/mid");
    assert_eq!((mid.size, mid.dirs, mid.files), (Some(12), Some(1), Some(2)));
    let low = entry(&tree, "/r/top/mid/low");
    assert_eq!((low.size, low.dirs, low.files), (Some(7), Some(0), Some(1)));
    let empty = entry(&tree, "/r/empty");
    assert_eq!((empty.size, empty.dirs, empty.files), (Some(0), Some(0), Some(0)));
    assert_eq!(tree.root_info, AggregatedInfo { size: 15, dirs: 4, files: 3 });
}

#[test]
fn file_cap_lists_fewer_files_but_counts_them_all() {
    let records = vec![
        record("/r", "d", true, 0),
        record("/r", "d/f1", false, 5),
        record("/r", "d/f2", false, 5),
        record("/r", "d/f3", false, 5),
    ];
    let mut capped = args();
    capped.files = Some(1);
    let tree = Tree::prepare(&records, &capped, "/r", &no_stages());
    assert_eq!(listed(&tree), vec!["/r/d", "/r/d/f1"]);
    let d = entry(&tree, "/r/d");
    assert_eq!((d.size, d.files), (Some(15), Some(3)));
    assert_eq!(tree.root_info, AggregatedInfo { size: 15, dirs: 1, files: 3 });

    capped.files = Some(0);
    let tree = Tree::prepare(&records, &capped, "/r", &no_stages());
    assert_eq!(listed(&tree), vec!["/r/d"]);
    capped.files = Some(2);
    assert_eq!(select_entries(&records, &capped), vec![0, 1, 2]);
}

#[test]
fn file_cap_counts_each_directory_by_itself() {
    let records = vec![
        record("/r", "a", true, 0),
        record("/r", "a/1", false, 1),
        record("/r", "a/2", false, 1),
        record("/r", "b", true, 0),
        record("/r", "b/1", false, 1),
        record("/r", "b/2", false, 1),
        record("/r", "top1", false, 1),
        record("/r", "top2", false, 1),
    ];
    let mut capped = args();
    capped.files = Some(1);
    let tree = Tree::prepare(&records, &capped, "/r", &no_stages());
    assert_eq!(listed(&tree), vec!["/r/a", "/r/a/1", "/r/b", "/r/b/1", "/r/top1"]);
}

#[test]
fn connectors_mark_the_last_sibling() {
    let records = vec![
        record("/r", "a", true, 0),
        record("/r", "a/x", false, 1),
        record("/r", "a/y", false, 1),
        record("/r", "b", false, 1),
    ];
    let tree = Tree::prepare(&records, &args(), "/r", &no_stages());
    let connectors: Vec<&str> = tree.tree_info.iter().map(|e| e.connector.as_str()).collect();
    assert_eq!(connectors, vec!["├──", "├──", "└──", "└──"]);
    let depths: Vec<usize> = tree.tree_info.iter().map(|e| e.depth).collect();
    assert_eq!(depths, vec![1, 2, 2, 1]);
}

#[test]
fn files_only_is_flat_and_dirs_only_drops_files() {
    let records = vec![
        record("/r", "b", true, 0),
        record("/r", "b/z.txt", false, 1),
        record("/r", "a.txt", false, 1),
    ];
    let mut flat = args();
    flat.files_only = true;
    let tree = Tree::prepare(&records, &flat, "/r", &no_stages());
    assert_eq!(listed(&tree), vec!["/r/a.txt", "/r/b/z.txt"]);
    assert!(tree.tree_info.iter().all(|e| e.depth == 1));
    let connectors: Vec<&str> = tree.tree_info.iter().map(|e| e.connector.as_str()).collect();
    assert_eq!(connectors, vec!["└──", "└──"]);

    let mut dirs = args();
    dirs.dirs_only = true;
    let tree = Tree::prepare(&records, &dirs, "/r", &no_stages());
    assert_eq!(listed(&tree), vec!["/r/b"]);
    assert_eq!(entry(&tree, "/r/b").files, Some(1));
}

#[test]
fn entries_at_depth_follow_the_listing() {
    let records = vec![
        record("/r", "a", true, 0),
        record("/r", "a/x", false, 1),
        record("/r", "b", true, 0),
        record("/r", "b/y", false, 1),
        record("/r", "b/z", false, 1),
    ];
    let tree = Tree::prepare(&records, &args(), "/r", &no_stages());
    let top: Vec<&str> = tree.entries_at_depth(1).iter().map(|(_, e)| e.path.as_str()).collect();
    assert_eq!(top, vec!["/r/a", "/r/b"]);
    let below: Vec<&str> = tree.entries_at_depth(2).iter().map(|(r, _)| r.path.as_str()).collect();
    assert_eq!(below, vec!["/r/a/x", "/r/b/y", "/r/b/z"]);
    assert!(tree.entries_at_depth(3).is_empty());
    assert!(tree.entries_at_depth(0).is_empty());
}

#[test]
fn excluded_extensions_leave_no_empty_directories() {
    let records = vec![
        record("/r", "logs", true, 0),
        record("/r", "logs/x.LOG", false, 100),
        record("/r", "logs/deep", true, 0),
        record("/r", "logs/deep/y.log", false, 100),
        record("/r", "src", true, 0),
        record("/r", "src/inner", true, 0),
        record("/r", "src/inner/main.rs", false, 7),
        record("/r", "src/void", true, 0),
        record("/r", "note.log", false, 9),
        record("/r", "top.txt", false, 2),
    ];
    let mut filtering = args();
    filtering.exclude_extensions = vec!["log".to_string()];
    let passed = filter_records(&records, &filtering);
    assert_eq!(passed.len(), 7);
    let tree = Tree::prepare(&records, &filtering, "/r", &no_stages());
    assert_eq!(
        listed(&tree),
        vec!["/r/src", "/r/src/inner", "/r/src/inner/main.rs", "/r/top.txt"]
    );
    assert_eq!(tree.root_info, AggregatedInfo { size: 9, dirs: 5, files: 2 });
    assert_eq!(entry(&tree, "/r/src").size, Some(7));
    assert_eq!(tree.entries.len(), 4);
    let top: Vec<&str> = tree.entries_at_depth(1).iter().map(|(_, e)| e.path.as_str()).collect();
    assert_eq!(top, vec!["/r/src", "/r/top.txt"]);

    // Without a filter an empty directory stays.
    let tree = Tree::prepare(&records, &args(), "/r", &no_stages());
    assert_eq!(tree.tree_info.len(), 10);
}

#[test]
fn time_window_keeps_files_on_the_right_side() {
    let mut old = record("/r", "old.txt", false, 1);
    old.metadata.as_mut().unwrap().modified = Some(100);
    let mut new = record("/r", "new.txt", false, 1);
    new.metadata.as_mut().unwrap().modified = Some(300);
    let mut edge = record("/r", "edge.txt", false, 1);
    edge.metadata.as_mut().unwrap().modified = Some(200);
    let unknown = record("/r", "unknown.txt", false, 1);
    let dir = record("/r", "dir", true, 0);
    let records = vec![old, new, edge, unknown, dir];
    let mut after = args();
    after.time_filter = Some(TimeFilter { mode: TimeMode::After, instant: 200 });
    let names: Vec<String> =
        filter_records(&records, &after).iter().map(|r| r.file_name.clone()).collect();
    assert_eq!(names, vec!["new.txt", "dir"]);
    let mut before = args();
    before.time_filter = Some(TimeFilter { mode: TimeMode::Before, instant: 200 });
    let names: Vec<String> =
        filter_records(&records, &before).iter().map(|r| r.file_name.clone()).collect();
    assert_eq!(names, vec!["old.txt", "dir"]);
    let tree = Tree::prepare(&records, &before, "/r", &no_stages());
    assert_eq!(listed(&tree), vec!["/r/old.txt"]);
}

#[test]
fn columns_follow_the_options() {
    let records = vec![record("/r", "d", true, 0), record("/r", "d/main.rs", false, 3)];
    let mut shown = args();
    shown.permissions = true;
    shown.icons = true;
    let tree = Tree::prepare(&records, &shown, "/r", &no_stages());
    let d = entry(&tree, "/r/d");
    assert_eq!(d.permissions.as_deref(), Some("drwxr-xr-x "));
    assert_eq!(d.icon.as_deref(), Some("📁 "));
    assert_eq!(d.name, "d");
    assert_eq!(d.parent.as_deref(), Some("/r"));
    let f = entry(&tree, "/r/d/main.rs");
    assert_eq!(f.permissions.as_deref(), Some("-rw-r--r-- "));
    assert_eq!(f.icon.as_deref(), Some("🦀 "));
    let tree = Tree::prepare(&records, &args(), "/r", &no_stages());
    assert!(entry(&tree, "/r/d").permissions.is_none());
    assert!(entry(&tree, "/r/d").icon.is_none());
}

#[test]
fn stages_transform_the_prepared_tree() {
    let records = vec![record("/r", "a", false, 1), record("/r", "b", false, 1)];
    let mut stages: FilterRegistry<fn(Tree) -> Tree> = FilterRegistry::new();
    add_filter(&mut stages, "other", |tree: Tree| Tree::build(Vec::new(), &args(), "/r"));
    add_filter(&mut stages, "tree_entries", |mut tree: Tree| {
        tree.root_info.size += 1000;
        tree
    });
    let tree = Tree::prepare(&records, &args(), "/r", &stages);
    assert_eq!(tree.tree_info.len(), 2);
    assert_eq!(tree.root_info.size, 1002);
}

#[test]
fn totals_hold_at_the_largest_value() {
    let records = vec![
        record("/r", "d", true, 0),
        record("/r", "d/a", false, u64::MAX - 1),
        record("/r", "d/b", false, 5),
    ];
    let totals = aggregate(&records, "/r");
    assert_eq!(totals.get("/r/d").unwrap().size, u64::MAX);
    assert_eq!(totals.get("/r").unwrap().files, 2);
    let default = TreeEntry::default();
    assert_eq!(default.connector, "└──");
    assert_eq!((default.depth, default.size, default.is_directory), (0, None, false));
}

#[test]
fn a_missing_parent_is_tolerated() {
    let records = vec![record("/r", "gone/file", false, 4), record("/r", "there", false, 2)];
    let mut flat = args();
    flat.files_only = true;
    let tree = Tree::prepare(&records, &flat, "/r", &no_stages());
    assert_eq!(listed(&tree), vec!["/r/gone/file", "/r/there"]);
    assert_eq!(tree.root_info, AggregatedInfo { size: 2, dirs: 0, files: 1 });
}

#[test]
fn pruning_ends_on_records_that_contain_each_other() {
    let mut a = record("/r", "a", true, 0);
    let mut b = record("/r", "b", true, 0);
    a.parent = Some(b.path.clone());
    b.parent = Some(a.path.clone());
    let mut file = record("/r", "f.txt", false, 3);
    file.parent = Some(a.path.clone());
    let lonely = record("/r", "lonely", true, 0);
    let mut filtering = args();
    filtering.files_only = false;
    filtering.exclude_extensions = vec!["none".to_string()];
    let tree = Tree::build(vec![a, b, file, lonely], &filtering, "/r");
    assert_eq!(listed(&tree), vec!["/r/a", "/r/b", "/r/f.txt"]);
}
