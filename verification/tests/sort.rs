use wisu::order::sort_indices;
use wisu::permute::apply_permutation;
use wisu::record::{Metadata, RawRecord};
use wisu::sort::{
    build_keys, compare_by_time, compare_entries_cached, compare_file_categories, sort_entries,
    sort_entries_hierarchically, EntryCache, SortOptions, SortType,
};
use std::cmp::Ordering;

fn record(root: &str, rel: &str, is_dir: bool, len: u64) -> RawRecord {
    let path = format!("{root}/{rel}");
    let cut = path.rfind('/').unwrap();
    RawRecord {
        parent: Some(path[..cut].to_string()),
        file_name: path[cut + 1..].to_string(),
        relative: Some(rel.to_string()),
        depth: rel.split('/').count(),
        is_dir,
        metadata: Some(Metadata {
            len,
            is_dir,
            mode: Some(0o644),
            accessed: None,
            modified: None,
            created: None,
        }),
        path,
    }
}

fn collect_entries(names: &[&str]) -> Vec<RawRecord> {
    names
        .iter()
        .map(|name| {
            if name.ends_with('/') {
                record("/tmp/x", &name[..name.len() - 1], true, 0)
            } else {
                record("/tmp/x", name, false, 4)
            }
        })
        .collect()
}

fn names_of(entries: &[RawRecord]) -> Vec<String> {
    entries.iter().map(|e| e.file_name.clone()).collect()
}

fn paths_of(entries: &[RawRecord]) -> Vec<String> {
    entries.iter().map(|e| e.relative.clone().unwrap()).collect()
}

#[test]
fn test_sort_by_name_case_insensitive() {
    let mut entries = collect_entries(&["banana", "Apple"]);
    let mut options = SortOptions::default();
    options.case_sensitive = false;

    sort_entries(&mut entries, &options);
    assert_eq!(names_of(&entries), vec!["Apple", "banana"]);
}

#[test]
fn test_sort_by_name_case_sensitive() {
    let mut entries = collect_entries(&["banana", "Apple"]);
    let mut options = SortOptions::default();
    options.case_sensitive = true;

    sort_entries(&mut entries, &options);
    assert_eq!(names_of(&entries), vec!["Apple", "banana"]);
}

#[test]
fn sort_test_sort_by_extension() {
    let mut entries = collect_entries(&["a.t", "b.b", "c.T"]);
    let mut options = SortOptions::default();
    options.sort_type = SortType::Extension;

    sort_entries(&mut entries, &options);
    assert_eq!(names_of(&entries), vec!["b.b", "a.t", "c.T"]);
}

#[test]
fn test_sort_reverse() {
    let mut entries = collect_entries(&["a", "b", "c"]);
    let mut options = SortOptions::default();
    options.reverse = true;

    sort_entries(&mut entries, &options);
    assert_eq!(names_of(&entries), vec!["c", "b", "a"]);
}

#[test]
fn test_dotfiles_first() {
    let mut entries = collect_entries(&[".hidden", "visible"]);

    let mut options = SortOptions::default();
    options.dotfiles_first = true;

    sort_entries(&mut entries, &options);
    assert_eq!(names_of(&entries), vec![".hidden", "visible"]);
}

#[test]
fn test_directories_first() {
    let mut entries = collect_entries(&["dir/", "file.txt"]);
    let mut options = SortOptions::default();
    options.directories_first = true;

    sort_entries(&mut entries, &options);
    assert_eq!(names_of(&entries), vec!["dir", "file.txt"]);
}

#[test]
fn test_sort_options_default() {
    let options = SortOptions::default();
    assert_eq!(options.sort_type, SortType::Name);
    assert!(!options.case_sensitive);
    assert!(!options.natural_sort);
    assert!(!options.reverse);
    assert!(!options.dotfiles_first);
    assert!(!options.directories_first);
}

#[test]
fn case_is_set_aside_unless_asked_for() {
    let mut entries = collect_entries(&["apple", "Banana", "cherry"]);
    let mut options = SortOptions::default();
    sort_entries(&mut entries, &options);
    assert_eq!(names_of(&entries), vec!["apple", "Banana", "cherry"]);
    options.case_sensitive = true;
    sort_entries(&mut entries, &options);
    assert_eq!(names_of(&entries), vec!["Banana", "apple", "cherry"]);
    // By extension too, and the name breaks the tie.
    let mut entries = collect_entries(&["b.TXT", "a.txt", "c.Md", "d"]);
    let mut options = SortOptions::default();
    options.sort_type = SortType::Extension;
    sort_entries(&mut entries, &options);
    assert_eq!(names_of(&entries), vec!["d", "c.Md", "a.txt", "b.TXT"]);
    options.case_sensitive = true;
    sort_entries(&mut entries, &options);
    assert_eq!(names_of(&entries), vec!["d", "c.Md", "b.TXT", "a.txt"]);
}

#[test]
fn natural_sort_orders_numbers_by_value() {
    let mut entries = collect_entries(&["file10", "file2", "file1"]);
    let mut options = SortOptions::default();
    options.natural_sort = true;
    sort_entries(&mut entries, &options);
    assert_eq!(names_of(&entries), vec!["file1", "file2", "file10"]);

    let mut entries = collect_entries(&["file10", "file2", "file1"]);
    options.natural_sort = false;
    sort_entries(&mut entries, &options);
    assert_eq!(names_of(&entries), vec!["file1", "file10", "file2"]);
}

#[test]
fn dotfiles_first_wins_over_directories_first() {
    let mut entries = collect_entries(&["plain", ".dotfile", "dir/", ".dotdir/"]);
    let mut options = SortOptions::default();
    options.dotfiles_first = true;
    options.directories_first = true;
    sort_entries(&mut entries, &options);
    assert_eq!(names_of(&entries), vec![".dotdir", "dir", ".dotfile", "plain"]);

    let mut entries = collect_entries(&["plain", ".dotfile", "dir/", ".dotdir/"]);
    options.directories_first = false;
    sort_entries(&mut entries, &options);
    assert_eq!(names_of(&entries), vec![".dotdir", "dir", ".dotfile", "plain"]);

    let mut entries = collect_entries(&["plain", ".dotfile", "dir/", ".dotdir/"]);
    options.reverse = true;
    sort_entries(&mut entries, &options);
    assert_eq!(names_of(&entries), vec!["plain", ".dotfile", "dir", ".dotdir"]);
}

#[test]
fn size_sort_is_ascending_and_stable() {
    let mut entries = vec![
        record("/r", "big", false, 300),
        record("/r", "small", false, 1),
        record("/r", "dir", true, 4096),
        record("/r", "mid", false, 20),
        record("/r", "also_small", false, 1),
    ];
    let mut options = SortOptions::default();
    options.sort_type = SortType::Size;
    sort_entries(&mut entries, &options);
    assert_eq!(names_of(&entries), vec!["dir", "small", "also_small", "mid", "big"]);
}

#[test]
fn time_sort_puts_most_recent_first_and_unknown_last() {
    let mut old = record("/r", "old", false, 1);
    old.metadata.as_mut().unwrap().modified = Some(100);
    let mut new = record("/r", "new", false, 1);
    new.metadata.as_mut().unwrap().modified = Some(900);
    let unknown = record("/r", "unknown", false, 1);
    let mut none = record("/r", "none", false, 1);
    none.metadata = None;
    let mut entries = vec![unknown, old, none, new];
    let mut options = SortOptions::default();
    options.sort_type = SortType::Modified;
    sort_entries(&mut entries, &options);
    assert_eq!(names_of(&entries), vec!["new", "old", "unknown", "none"]);

    assert_eq!(compare_by_time(&Some(5), &Some(3)), Ordering::Less);
    assert_eq!(compare_by_time(&Some(3), &Some(5)), Ordering::Greater);
    assert_eq!(compare_by_time(&Some(3), &Some(3)), Ordering::Equal);
    assert_eq!(compare_by_time(&Some(3), &None), Ordering::Less);
    assert_eq!(compare_by_time(&None, &Some(3)), Ordering::Greater);
    assert_eq!(compare_by_time(&None, &None), Ordering::Equal);
}

#[test]
fn category_comparison_follows_the_ranks() {
    let options = SortOptions { dotfiles_first: true, ..SortOptions::default() };
    let dotdir = EntryCache::new(&record("/r", ".d", true, 0), &options);
    let dir = EntryCache::new(&record("/r", "d", true, 0), &options);
    let dotfile = EntryCache::new(&record("/r", ".f", false, 0), &options);
    let file = EntryCache::new(&record("/r", "f", false, 0), &options);
    assert_eq!(compare_file_categories(&dotdir, &dir, &options), Some(Ordering::Less));
    assert_eq!(compare_file_categories(&dir, &dotfile, &options), Some(Ordering::Less));
    assert_eq!(compare_file_categories(&dotfile, &file, &options), Some(Ordering::Less));
    assert_eq!(compare_file_categories(&file, &dotdir, &options), Some(Ordering::Greater));
    assert_eq!(compare_file_categories(&file, &file, &options), None);
    let plain = SortOptions::default();
    assert_eq!(compare_file_categories(&file, &dotdir, &plain), None);
    let dirs = SortOptions { directories_first: true, ..SortOptions::default() };
    assert_eq!(compare_file_categories(&file, &dir, &dirs), Some(Ordering::Greater));
    assert_eq!(compare_file_categories(&dotfile, &file, &dirs), None);
    assert_eq!(compare_entries_cached(&dir, &file, &dirs), Ordering::Less);
    assert_eq!(compare_entries_cached(&file, &dir, &plain), Ordering::Greater);
}

#[test]
fn hierarchical_sort_keeps_children_below_their_parent() {
    let mut entries = vec![
        record("/r", "zeta", true, 0),
        record("/r", "zeta/b.txt", false, 1),
        record("/r", "zeta/a.txt", false, 1),
        record("/r", "alpha", true, 0),
        record("/r", "alpha/sub", true, 0),
        record("/r", "alpha/sub/deep.txt", false, 1),
        record("/r", "alpha/file.txt", false, 1),
        record("/r", "mid.txt", false, 1),
    ];
    let options = SortOptions::default();
    sort_entries_hierarchically(&mut entries, &options);
    assert_eq!(
        paths_of(&entries),
        vec![
            "alpha",
            "alpha/file.txt",
            "alpha/sub",
            "alpha/sub/deep.txt",
            "mid.txt",
            "zeta",
            "zeta/a.txt",
            "zeta/b.txt",
        ]
    );

    let reversed = SortOptions { reverse: true, ..SortOptions::default() };
    sort_entries_hierarchically(&mut entries, &reversed);
    assert_eq!(
        paths_of(&entries),
        vec![
            "zeta",
            "zeta/b.txt",
            "zeta/a.txt",
            "mid.txt",
            "alpha",
            "alpha/sub",
            "alpha/sub/deep.txt",
            "alpha/file.txt",
        ]
    );
}

#[test]
fn hierarchical_sort_by_size_never_puts_a_child_first() {
    let mut entries = vec![
        record("/r", "d", true, 0),
        record("/r", "d/huge", false, 1_000_000),
        record("/r", "d/tiny", false, 1),
        record("/r", "small", false, 10),
    ];
    let options = SortOptions { sort_type: SortType::Size, reverse: true, ..SortOptions::default() };
    sort_entries_hierarchically(&mut entries, &options);
    assert_eq!(paths_of(&entries), vec!["small", "d", "d/huge", "d/tiny"]);
}

#[test]
fn hierarchical_sort_leaves_out_records_without_their_parent() {
    let mut entries = vec![
        record("/r", "a", true, 0),
        record("/r", "gone/orphan.txt", false, 1),
        record("/r", "a/kept.txt", false, 1),
    ];
    sort_entries_hierarchically(&mut entries, &SortOptions::default());
    assert_eq!(paths_of(&entries), vec!["a", "a/kept.txt"]);

    let mut single = vec![record("/r", "gone/orphan.txt", false, 1)];
    sort_entries_hierarchically(&mut single, &SortOptions::default());
    assert_eq!(paths_of(&single), vec!["gone/orphan.txt"]);
}

#[test]
fn sort_indices_names_every_position_once() {
    let entries = collect_entries(&["d", "b", "a", "c", "b"]);
    let options = SortOptions::default();
    let keys = build_keys(&entries, &options);
    let order = sort_indices(&keys, &options);
    assert_eq!(order, vec![2, 1, 4, 3, 0]);
}

#[test]
fn apply_permutation_follows_cycles() {
    let mut letters = vec!['a', 'b', 'c', 'd', 'e', 'f'];
    apply_permutation(&mut letters, &vec![2, 0, 1, 3, 5, 4]);
    assert_eq!(letters, vec!['c', 'a', 'b', 'd', 'f', 'e']);
    let mut none: Vec<u8> = Vec::new();
    apply_permutation(&mut none, &Vec::new());
    assert!(none.is_empty());
}

#[test]
fn sort_of_nothing_and_of_one() {
    let mut none: Vec<RawRecord> = Vec::new();
    sort_entries(&mut none, &SortOptions::default());
    assert!(none.is_empty());
    let mut one = collect_entries(&["only"]);
    sort_entries(&mut one, &SortOptions::default());
    assert_eq!(names_of(&one), vec!["only"]);
}

#[test]
fn a_record_that_contains_itself_does_not_run_away() {
    let mut odd = record("/r", "loop", true, 0);
    odd.parent = Some(odd.path.clone());
    let mut entries = vec![odd, record("/r", "plain", false, 1)];
    sort_entries_hierarchically(&mut entries, &SortOptions::default());
    // The record is followed by itself once per level, and there are two levels.
    assert_eq!(paths_of(&entries), vec!["loop", "loop", "loop", "plain"]);
}

#[test]
fn records_with_one_path_share_their_children() {
    let mut entries = vec![
        record("/r", "d", true, 0),
        record("/r", "d", true, 0),
        record("/r", "d/x", false, 1),
    ];
    sort_entries_hierarchically(&mut entries, &SortOptions::default());
    assert_eq!(paths_of(&entries), vec!["d", "d/x", "d", "d/x"]);
}
