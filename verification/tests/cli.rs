use wisu::config::{Args, SortType};
use wisu::plugins::FilterRegistry;
use wisu::record::{Metadata, RawRecord};
use wisu::tree::Tree;
use wisu::view::print_tree;

fn record(root: &str, rel: &str, is_dir: bool, mode: u32) -> RawRecord {
    let path = format!("{root}/{rel}");
    let cut = path.rfind('/').unwrap();
    RawRecord {
        parent: Some(path[..cut].to_string()),
        file_name: path[cut + 1..].to_string(),
        relative: Some(rel.to_string()),
        depth: rel.split('/').count(),
        is_dir,
        metadata: Some(Metadata {
            len: 0,
            is_dir,
            mode: Some(mode),
            accessed: None,
            modified: None,
            created: None,
        }),
        path,
    }
}

fn files(names: &[&str]) -> Vec<RawRecord> {
    names.iter().map(|n| record("/tmp/t", n, false, 0o644)).collect()
}

fn args() -> Args {
    Args {
        interactive: false,
        config: None,
        out: None,
        path: "/tmp/t".to_string(),
        dirs_only: false,
        info: false,
        stats: true,
        hyperlinks: false,
        all: false,
        gitignore: false,
        icons: false,
        size: false,
        permissions: false,
        expand_level: None,
        level: None,
        files: None,
        files_only: false,
        sort: SortType::Name,
        dirs_first: false,
        case_sensitive: false,
        natural_sort: false,
        reverse: false,
        dotfiles_first: false,
        exclude_extensions: Vec::new(),
        time_filter: None,
    }
}

// The printed tree, one line per entry, as the view lays it out.
fn stdout_of(records: &[RawRecord], args: &Args) -> String {
    let records: Vec<RawRecord> = records.iter().map(|r| r.duplicate()).collect();
    let stages: FilterRegistry<fn(Tree) -> Tree> = FilterRegistry::new();
    let tree = Tree::prepare(&records, args, "/tmp/t", &stages);
    let out = print_tree(&tree, args);
    let mut text = String::new();
    for line in out.lines {
        text.push_str(&format!(
            "{}{}{} {}{}{}\n",
            line.permissions, line.prefix, line.connector, line.icon, line.name, line.info
        ));
    }
    text
}

#[test]
fn test_simple_view() {
    let records = vec![
        record("/tmp/t", "a.txt", false, 0o644),
        record("/tmp/t", "dir1", true, 0o755),
        record("/tmp/t", "dir1/b.txt", false, 0o644),
    ];
    let stdout = stdout_of(&records, &args());
    assert!(stdout.contains("a.txt"));
    assert!(stdout.contains("dir1"));
    assert!(stdout.contains("b.txt"));
    assert_eq!(stdout, "├── a.txt\n└── dir1\n    └── b.txt\n");
}

#[test]
fn test_permissions_flag() {
    let records = vec![record("/tmp/t", "test_file.txt", false, 0o550)];
    let mut with = args();
    with.permissions = true;
    let stdout = stdout_of(&records, &with);
    assert!(stdout.contains("-r-xr-x---"));
}

#[test]
fn test_sort_by_name() {
    let records = files(&["zebra.txt", "apple.txt", "banana.txt"]);
    let mut by_name = args();
    by_name.sort = SortType::Name;
    let stdout = stdout_of(&records, &by_name);
    let apple_pos = stdout.find("apple.txt").unwrap();
    let banana_pos = stdout.find("banana.txt").unwrap();
    let zebra_pos = stdout.find("zebra.txt").unwrap();
    assert!(apple_pos < banana_pos && banana_pos < zebra_pos);
}

#[test]
fn test_dirs_first_sorting() {
    let records =
        vec![record("/tmp/t", "aaa_file.txt", false, 0o644), record("/tmp/t", "zzz_dir", true, 0o755)];
    let mut dirs_first = args();
    dirs_first.dirs_first = true;
    let stdout = stdout_of(&records, &dirs_first);
    let dir_pos = stdout.find("zzz_dir").unwrap();
    let file_pos = stdout.find("aaa_file.txt").unwrap();
    assert!(dir_pos < file_pos);
}

#[test]
fn test_natural_sorting() {
    let records = files(&["file1.txt", "file10.txt", "file2.txt"]);
    let mut natural = args();
    natural.natural_sort = true;
    let stdout = stdout_of(&records, &natural);
    let file1_pos = stdout.find("file1.txt").unwrap();
    let file2_pos = stdout.find("file2.txt").unwrap();
    let file10_pos = stdout.find("file10.txt").unwrap();
    assert!(file1_pos < file2_pos && file2_pos < file10_pos);
}

#[test]
fn test_reverse_sorting() {
    let records = files(&["apple.txt", "zebra.txt"]);
    let mut reverse = args();
    reverse.reverse = true;
    let stdout = stdout_of(&records, &reverse);
    let apple_pos = stdout.find("apple.txt").unwrap();
    let zebra_pos = stdout.find("zebra.txt").unwrap();
    assert!(zebra_pos < apple_pos);
}

#[test]
fn test_case_sensitive_sorting() {
    let records = files(&["Apple.txt", "banana.txt"]);
    let mut sensitive = args();
    sensitive.case_sensitive = true;
    let stdout = stdout_of(&records, &sensitive);
    let apple_pos = stdout.find("Apple.txt").unwrap();
    let banana_pos = stdout.find("banana.txt").unwrap();
    assert!(apple_pos < banana_pos);
}

#[test]
fn cli_test_sort_by_extension() {
    let records = files(&["file.zzz", "file.aaa", "file.bbb"]);
    let mut by_extension = args();
    by_extension.sort = SortType::Extension;
    let stdout = stdout_of(&records, &by_extension);
    let aaa_pos = stdout.find("file.aaa").unwrap();
    let bbb_pos = stdout.find("file.bbb").unwrap();
    let zzz_pos = stdout.find("file.zzz").unwrap();
    assert!(aaa_pos < bbb_pos && bbb_pos < zzz_pos);
}

#[test]
fn test_default_sort_order() {
    let records = files(&["0num.txt", "Upper.txt", "lower.txt"]);
    let mut sensitive = args();
    sensitive.case_sensitive = true;
    let stdout = stdout_of(&records, &sensitive);
    let file1_pos = stdout.find("0num.txt").unwrap();
    let file_a_pos = stdout.find("Upper.txt").unwrap();
    let file_a_lower_pos = stdout.find("lower.txt").unwrap();
    assert!(file1_pos < file_a_pos && file_a_pos < file_a_lower_pos);
}

#[test]
fn printed_lines_carry_prefix_info_and_counts() {
    let mut big = record("/tmp/t", "a/big.bin", false, 0o644);
    big.metadata.as_mut().unwrap().len = 1536;
    let mut small = record("/tmp/t", "a/b/small", false, 0o644);
    small.metadata.as_mut().unwrap().len = 10;
    let records = vec![
        record("/tmp/t", "a", true, 0o755),
        record("/tmp/t", "a/b", true, 0o755),
        small,
        big,
        record("/tmp/t", "z", true, 0o755),
        record("/tmp/t", "z/last", false, 0o644),
    ];
    let mut info = args();
    info.info = true;
    let stages: FilterRegistry<fn(Tree) -> Tree> = FilterRegistry::new();
    let tree = Tree::prepare(&records, &info, "/tmp/t", &stages);
    let out = print_tree(&tree, &info);
    let prefixes: Vec<&str> = out.lines.iter().map(|l| l.prefix.as_str()).collect();
    assert_eq!(prefixes, vec!["", "│   ", "│   │   ", "│   ", "", "    "]);
    let names: Vec<&str> = out.lines.iter().map(|l| l.name.as_str()).collect();
    assert_eq!(names, vec!["a", "b", "small", "big.bin", "z", "last"]);
    assert_eq!(out.lines[0].info, "  [ 1.5 KiB  1 dirs, 2 files ]");
    assert_eq!(out.lines[3].info, "  [ 1.5 KiB ]");
    assert_eq!(out.lines[5].info, "  [ 0 B ]");
    assert_eq!((out.dir_count, out.file_count, out.root_size), (3, 3, 1546));

    let mut sizes = args();
    sizes.size = true;
    let out = print_tree(&tree, &sizes);
    assert_eq!(out.lines[0].info, "");
    assert_eq!(out.lines[2].info, " (10 B)");
    assert_eq!(print_tree(&tree, &args()).lines[2].info, "");
}
